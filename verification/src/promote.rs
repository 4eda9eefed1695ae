//! Promotion of parameter values from a source version to a target version:
//! re-keying fetched source parameters through the template association,
//! planning the write-set, and folding written values back into a persisted
//! snapshot.

use crate::assoc::MapKey;
use crate::assoc::MapVal;
use crate::diff::lemma_diff_self_empty;
use crate::diff::spec_key_difference;
use crate::diff::key_difference;
use crate::params::NameMap;
use crate::params::ParameterMap;
use crate::params::RegionMap;
use crate::params::SsmKey;
use crate::params::SsmKeyView;
use vstd::prelude::*;

verus! {

/// Why a promotion step failed.
#[derive(Debug, Clone, PartialEq, Eq)]
pub enum PromoteError {
    /// The fetched source map held no parameters at all: almost certainly a
    /// configuration mistake, so the operation stops before any write.
    EmptySource { version: String },
    /// A source parameter's name has no associated target name.
    MissingAssociation { name: String },
    /// The write-set lacks a value that the association says must exist.
    MissingWriteValue { region: String, name: String },
}

/// The key a persisted or fetched key promotes to inside `region`: the
/// associated target name, scoped to that region.
pub open spec fn promoted_in_region(
    k: SsmKeyView,
    assoc: Map<Seq<char>, Seq<char>>,
    region: Seq<char>,
) -> SsmKeyView {
    SsmKeyView { region: region, name: assoc[k.name] }
}

/// The key a source key promotes to: the associated target name in the
/// source key's own region.
pub open spec fn promoted_key(k: SsmKeyView, assoc: Map<Seq<char>, Seq<char>>) -> SsmKeyView {
    promoted_in_region(k, assoc, k.region)
}

/// Re-keys every source parameter as the target name its template associates,
/// keeping the region and the value.  This is what lets the diff compare a
/// source-versioned slot against its target-versioned counterpart.  Fails if
/// some source name has no associated target name.
pub fn rekey_for_promotion(source: &ParameterMap, source_target_map: &NameMap) -> (r: Result<
    ParameterMap,
    PromoteError,
>)
    ensures
        match r {
            Ok(want) => (forall|k: SsmKeyView| #[trigger]
                source@.contains_key(k) ==> source_target_map@.contains_key(k.name)
                    && want@.contains_key(promoted_key(k, source_target_map@))) && (forall|
                k2: SsmKeyView,
            | #[trigger]
                want@.contains_key(k2) ==> exists|k: SsmKeyView| #[trigger]
                    source@.contains_key(k) && promoted_key(k, source_target_map@) == k2
                        && want@[k2] == source@[k]),
            Err(e) => e matches PromoteError::MissingAssociation { name } && (exists|k: SsmKeyView| #[trigger]
                source@.contains_key(k) && k.name == name@ && !source_target_map@.contains_key(
                    k.name,
                )),
        },
{
    let mut out = ParameterMap::new();
    let n = source.len();
    let mut i: usize = 0;
    while i < n
        invariant
            n == source.kvs().len(),
            i <= n,
            forall|j: int|
                0 <= j < i ==> source_target_map@.contains_key(
                    (#[trigger] source.kvs()[j].0@).name,
                ) && out@.contains_key(promoted_key(source.kvs()[j].0@, source_target_map@)),
            forall|k2: SsmKeyView| #[trigger]
                out@.contains_key(k2) ==> exists|j: int|
                    0 <= j < i && promoted_key(#[trigger] source.kvs()[j].0@, source_target_map@)
                        == k2 && out@[k2] == source.kvs()[j].1@,
        decreases n - i,
    {
        let key = source.key_at(i);
        let value = source.val_at(i);
        match source_target_map.get(&key.name) {
            Some(target_name) => {
                let new_key = SsmKey::new(key.region.clone(), target_name.val_dup());
                proof {
                    assert(new_key@ == promoted_key(source.kvs()[i as int].0@, source_target_map@));
                }
                out.insert(new_key, value.val_dup());
            },
            None => {
                return Err(PromoteError::MissingAssociation { name: key.name.clone() });
            },
        }
        i += 1;
    }
    proof {
        use_type_invariant(source);
        assert forall|k: SsmKeyView| #[trigger] source@.contains_key(
            k,
        ) implies source_target_map@.contains_key(k.name) && out@.contains_key(
            promoted_key(k, source_target_map@),
        ) by {
            let j = source.lemma_view_entry(k);
        }
        assert forall|k2: SsmKeyView| #[trigger] out@.contains_key(k2) implies exists|
            k: SsmKeyView,
        | #[trigger]
            source@.contains_key(k) && promoted_key(k, source_target_map@) == k2 && out@[k2]
                == source@[k] by {
            let j = choose|j: int|
                0 <= j < n && promoted_key(#[trigger] source.kvs()[j].0@, source_target_map@) == k2
                    && out@[k2] == source.kvs()[j].1@;
            source.lemma_entry_in_view(j);
            assert(source@.contains_key(source.kvs()[j].0@));
        }
    }
    Ok(out)
}

/// What a promotion will do: the re-keyed source map and the write-set that
/// moves the live target map toward it.
#[derive(Debug)]
pub struct PromotionPlan {
    /// Every fetched source value under its target name.
    pub want: ParameterMap,
    /// The keys that must actually be written, with their values.
    pub writes: ParameterMap,
}

/// Decides what a promotion must write: re-keys every fetched source
/// parameter to its target name and diffs the result against the live target
/// map.  An empty fetched source map aborts the whole operation, before any
/// write-set exists, with `EmptySource` naming the version asked for.
pub fn plan_promotion(
    source_version: &String,
    source: &ParameterMap,
    target: &ParameterMap,
    source_target_map: &NameMap,
) -> (r: Result<PromotionPlan, PromoteError>)
    ensures
        match r {
            Ok(plan) => source@ != Map::<SsmKeyView, Seq<char>>::empty() && (forall|k: SsmKeyView| #[trigger]
                source@.contains_key(k) ==> source_target_map@.contains_key(k.name)
                    && plan.want@.contains_key(promoted_key(k, source_target_map@))) && (forall|
                k2: SsmKeyView,
            | #[trigger]
                plan.want@.contains_key(k2) ==> exists|k: SsmKeyView| #[trigger]
                    source@.contains_key(k) && promoted_key(k, source_target_map@) == k2
                        && plan.want@[k2] == source@[k]) && plan.writes@ == spec_key_difference(
                plan.want@,
                target@,
            ),
            Err(e) => match e {
                PromoteError::EmptySource { version } => source@ == Map::<
                    SsmKeyView,
                    Seq<char>,
                >::empty() && version@ == source_version@,
                PromoteError::MissingAssociation { name } => source@ != Map::<
                    SsmKeyView,
                    Seq<char>,
                >::empty() && (exists|k: SsmKeyView| #[trigger]
                    source@.contains_key(k) && k.name == name@
                        && !source_target_map@.contains_key(k.name)),
                PromoteError::MissingWriteValue { .. } => false,
            },
        },
{
    if source.is_empty() {
        return Err(PromoteError::EmptySource { version: source_version.clone() });
    }
    match rekey_for_promotion(source, source_target_map) {
        Ok(want) => {
            let writes = key_difference(&want, target);
            Ok(PromotionPlan { want, writes })
        },
        Err(e) => Err(e),
    }
}

/// Whether a persisted region can be merged: every persisted name has an
/// associated target name, and the write-set holds a value for each promoted
/// key of the region.
pub open spec fn region_merge_ok(
    p: Map<SsmKeyView, Seq<char>>,
    ws: Map<SsmKeyView, Seq<char>>,
    assoc: Map<Seq<char>, Seq<char>>,
    region: Seq<char>,
) -> bool {
    forall|k: SsmKeyView| #[trigger]
        p.contains_key(k) ==> assoc.contains_key(k.name) && ws.contains_key(
            promoted_in_region(k, assoc, region),
        )
}

/// One merged region: every persisted entry, plus the promoted copy of each
/// under its target name with the write-set's value.  Additive only: a
/// persisted entry is never removed, and on a key clash the persisted value
/// wins.
pub open spec fn spec_merged_region(
    p: Map<SsmKeyView, Seq<char>>,
    ws: Map<SsmKeyView, Seq<char>>,
    assoc: Map<Seq<char>, Seq<char>>,
    region: Seq<char>,
) -> Map<SsmKeyView, Seq<char>> {
    Map::new(
        |k: SsmKeyView|
            p.contains_key(k) || (exists|k0: SsmKeyView| #[trigger]
                p.contains_key(k0) && k == promoted_in_region(k0, assoc, region)),
        |k: SsmKeyView| if p.contains_key(k) {
            p[k]
        } else {
            ws[k]
        },
    )
}

/// Merges one region of a persisted snapshot with the write-set: the output
/// holds the original entries and the promoted entries, nothing else.  Fails
/// if the association or the write-set lacks an entry the persisted region
/// calls for.
pub fn merge_region(
    region: &String,
    persisted: &ParameterMap,
    set_parameters: &ParameterMap,
    source_target_map: &NameMap,
) -> (r: Result<ParameterMap, PromoteError>)
    ensures
        match r {
            Ok(m) => region_merge_ok(persisted@, set_parameters@, source_target_map@, region@)
                && m@ == spec_merged_region(
                persisted@,
                set_parameters@,
                source_target_map@,
                region@,
            ),
            Err(e) => !region_merge_ok(persisted@, set_parameters@, source_target_map@, region@)
                && match e {
                PromoteError::MissingAssociation { name } => exists|k: SsmKeyView| #[trigger]
                    persisted@.contains_key(k) && k.name == name@
                        && !source_target_map@.contains_key(k.name),
                PromoteError::MissingWriteValue { region: rg, name } => rg@ == region@ && (exists|
                    k: SsmKeyView,
                | #[trigger]
                    persisted@.contains_key(k) && source_target_map@.contains_key(k.name) && name@
                        == source_target_map@[k.name] && !set_parameters@.contains_key(
                        promoted_in_region(k, source_target_map@, region@),
                    )),
                PromoteError::EmptySource { .. } => false,
            },
        },
{
    let ghost p = persisted@;
    let ghost ws = set_parameters@;
    let ghost assoc = source_target_map@;
    let mut out = ParameterMap::new();
    let n = persisted.len();

    // First pass: the promoted copy of every persisted entry, with the
    // write-set's value.
    let mut i: usize = 0;
    while i < n
        invariant
            n == persisted.kvs().len(),
            i <= n,
            p == persisted@,
            ws == set_parameters@,
            assoc == source_target_map@,
            forall|j: int|
                0 <= j < i ==> assoc.contains_key((#[trigger] persisted.kvs()[j].0@).name)
                    && ws.contains_key(
                    promoted_in_region(persisted.kvs()[j].0@, assoc, region@),
                ) && out@.contains_key(promoted_in_region(persisted.kvs()[j].0@, assoc, region@)),
            forall|k2: SsmKeyView| #[trigger]
                out@.contains_key(k2) ==> ws.contains_key(k2) && out@[k2] == ws[k2] && (exists|
                    j: int,
                |
                    0 <= j < i && k2 == promoted_in_region(
                        #[trigger] persisted.kvs()[j].0@,
                        assoc,
                        region@,
                    )),
        decreases n - i,
    {
        let key = persisted.key_at(i);
        match source_target_map.get(&key.name) {
            None => {
                return Err(PromoteError::MissingAssociation { name: key.name.clone() });
            },
            Some(target_name) => {
                let pk = SsmKey::new(region.clone(), target_name.val_dup());
                proof {
                    assert(pk@ == promoted_in_region(persisted.kvs()[i as int].0@, assoc, region@));
                }
                match set_parameters.get(&pk) {
                    None => {
                        return Err(
                            PromoteError::MissingWriteValue {
                                region: region.clone(),
                                name: target_name.val_dup(),
                            },
                        );
                    },
                    Some(write_value) => {
                        out.insert(pk, write_value.val_dup());
                    },
                }
            },
        }
        i += 1;
    }

    let ghost promoted_m = out@;

    // Second pass: the original persisted entries; on a key clash with a
    // promoted entry the persisted value wins.
    let mut i2: usize = 0;
    while i2 < n
        invariant
            n == persisted.kvs().len(),
            i2 <= n,
            p == persisted@,
            ws == set_parameters@,
            assoc == source_target_map@,
            forall|j: int|
                0 <= j < n ==> assoc.contains_key((#[trigger] persisted.kvs()[j].0@).name)
                    && ws.contains_key(promoted_in_region(persisted.kvs()[j].0@, assoc, region@))
                    && promoted_m.contains_key(
                    promoted_in_region(persisted.kvs()[j].0@, assoc, region@),
                ),
            forall|k2: SsmKeyView| #[trigger]
                promoted_m.contains_key(k2) ==> ws.contains_key(k2) && promoted_m[k2] == ws[k2] && (
                exists|j: int|
                    0 <= j < n && k2 == promoted_in_region(
                        #[trigger] persisted.kvs()[j].0@,
                        assoc,
                        region@,
                    )),
            forall|k2: SsmKeyView| #[trigger]
                promoted_m.contains_key(k2) ==> out@.contains_key(k2),
            forall|j: int|
                0 <= j < i2 ==> out@.contains_key(#[trigger] persisted.kvs()[j].0@)
                    && out@[persisted.kvs()[j].0@] == persisted.kvs()[j].1@,
            forall|k2: SsmKeyView| #[trigger]
                out@.contains_key(k2) ==> (exists|j: int|
                    0 <= j < i2 && #[trigger] persisted.kvs()[j].0@ == k2) || (
                promoted_m.contains_key(k2) && out@[k2] == promoted_m[k2]),
        decreases n - i2,
    {
        proof {
            use_type_invariant(persisted);
            persisted.lemma_distinct_keys();
        }
        let key = persisted.key_at(i2);
        let value = persisted.val_at(i2);
        out.insert(key.key_dup(), value.val_dup());
        i2 += 1;
    }

    proof {
        use_type_invariant(persisted);
        let merged = spec_merged_region(p, ws, assoc, region@);
        assert forall|k: SsmKeyView| #[trigger] p.contains_key(k) implies assoc.contains_key(
            k.name,
        ) && ws.contains_key(promoted_in_region(k, assoc, region@)) by {
            let j = persisted.lemma_view_entry(k);
        }
        assert forall|k: SsmKeyView| #[trigger] merged.contains_key(k) implies out@.contains_key(k)
            && out@[k] == merged[k] by {
            if p.contains_key(k) {
                let j = persisted.lemma_view_entry(k);
            } else {
                let k0 = choose|k0: SsmKeyView| #[trigger]
                    p.contains_key(k0) && k == promoted_in_region(k0, assoc, region@);
                let j = persisted.lemma_view_entry(k0);
                assert(promoted_m.contains_key(k));
                assert(out@.contains_key(k));
                if exists|j2: int| 0 <= j2 < n && #[trigger] persisted.kvs()[j2].0@ == k {
                    let j2 = choose|j2: int|
                        0 <= j2 < n && #[trigger] persisted.kvs()[j2].0@ == k;
                    persisted.lemma_entry_in_view(j2);
                    assert(false);
                }
                assert(out@[k] == promoted_m[k]);
            }
        }
        assert forall|k: SsmKeyView| #[trigger] out@.contains_key(k) implies merged.contains_key(
            k,
        ) by {
            if exists|j: int| 0 <= j < n && #[trigger] persisted.kvs()[j].0@ == k {
                let j = choose|j: int| 0 <= j < n && #[trigger] persisted.kvs()[j].0@ == k;
                persisted.lemma_entry_in_view(j);
            } else {
                assert(promoted_m.contains_key(k));
                let j = choose|j: int|
                    0 <= j < n && k == promoted_in_region(
                        #[trigger] persisted.kvs()[j].0@,
                        assoc,
                        region@,
                    );
                persisted.lemma_entry_in_view(j);
                assert(p.contains_key(persisted.kvs()[j].0@));
            }
        }
        assert(out@ =~= merged);
    }
    Ok(out)
}

/// Merges a whole persisted snapshot, region by region: every region's map
/// gains the promoted copy of each of its entries, and loses nothing.
pub fn combine_parameters(
    source_parameters: &RegionMap,
    set_parameters: &ParameterMap,
    source_target_map: &NameMap,
) -> (r: Result<RegionMap, PromoteError>)
    ensures
        match r {
            Ok(out) => out@.dom() == source_parameters@.dom() && (forall|rg: Seq<char>| #[trigger]
                source_parameters@.contains_key(rg) ==> region_merge_ok(
                    source_parameters@[rg],
                    set_parameters@,
                    source_target_map@,
                    rg,
                ) && out@[rg] == spec_merged_region(
                    source_parameters@[rg],
                    set_parameters@,
                    source_target_map@,
                    rg,
                )),
            Err(e) => (exists|rg: Seq<char>| #[trigger]
                source_parameters@.contains_key(rg) && !region_merge_ok(
                    source_parameters@[rg],
                    set_parameters@,
                    source_target_map@,
                    rg,
                )) && (match e {
                PromoteError::MissingAssociation { name } => exists|rg: Seq<char>| #[trigger]
                    source_parameters@.contains_key(rg) && (exists|k: SsmKeyView| #[trigger]
                        source_parameters@[rg].contains_key(k) && k.name == name@
                            && !source_target_map@.contains_key(k.name)),
                PromoteError::MissingWriteValue { region, name } => source_parameters@.contains_key(
                    region@,
                ) && (exists|k: SsmKeyView| #[trigger]
                    source_parameters@[region@].contains_key(k)
                        && source_target_map@.contains_key(k.name) && name@
                        == source_target_map@[k.name] && !set_parameters@.contains_key(
                        promoted_in_region(k, source_target_map@, region@),
                    )),
                PromoteError::EmptySource { .. } => false,
            }),
        },
{
    let ghost sp = source_parameters@;
    let mut out = RegionMap::new();
    let n = source_parameters.len();
    let mut i: usize = 0;
    while i < n
        invariant
            n == source_parameters.kvs().len(),
            i <= n,
            sp == source_parameters@,
            forall|j: int|
                0 <= j < i ==> region_merge_ok(
                    (#[trigger] source_parameters.kvs()[j]).1@,
                    set_parameters@,
                    source_target_map@,
                    source_parameters.kvs()[j].0@,
                ) && out@.contains_key(source_parameters.kvs()[j].0@) && out@[source_parameters.kvs()[j].0@]
                    == spec_merged_region(
                    source_parameters.kvs()[j].1@,
                    set_parameters@,
                    source_target_map@,
                    source_parameters.kvs()[j].0@,
                ),
            forall|rg: Seq<char>| #[trigger]
                out@.contains_key(rg) ==> exists|j: int|
                    0 <= j < i && #[trigger] source_parameters.kvs()[j].0@ == rg,
        decreases n - i,
    {
        proof {
            use_type_invariant(source_parameters);
            source_parameters.lemma_entry_in_view(i as int);
            source_parameters.lemma_distinct_keys();
        }
        let region = source_parameters.key_at(i);
        let persisted = source_parameters.val_at(i);
        match merge_region(region, persisted, set_parameters, source_target_map) {
            Ok(m) => {
                out.insert(region.key_dup(), m);
            },
            Err(e) => {
                proof {
                    let rg = source_parameters.kvs()[i as int].0@;
                    assert(sp[rg] == persisted@);
                    match &e {
                        PromoteError::MissingAssociation { name } => {
                            let k0 = choose|k: SsmKeyView| #[trigger]
                                persisted@.contains_key(k) && k.name == name@
                                    && !source_target_map@.contains_key(k.name);
                            assert(sp[rg].contains_key(k0));
                        },
                        PromoteError::MissingWriteValue { region: erg, name } => {
                            let k0 = choose|k: SsmKeyView| #[trigger]
                                persisted@.contains_key(k) && source_target_map@.contains_key(
                                    k.name,
                                ) && name@ == source_target_map@[k.name]
                                    && !set_parameters@.contains_key(
                                    promoted_in_region(k, source_target_map@, region@),
                                );
                            assert(erg@ == rg);
                            assert(sp[rg].contains_key(k0));
                        },
                        PromoteError::EmptySource { .. } => {},
                    }
                }
                return Err(e);
            },
        }
        i += 1;
    }
    proof {
        use_type_invariant(source_parameters);
        assert forall|rg: Seq<char>| #[trigger] sp.contains_key(rg) implies region_merge_ok(
            sp[rg],
            set_parameters@,
            source_target_map@,
            rg,
        ) && out@.contains_key(rg) && out@[rg] == spec_merged_region(
            sp[rg],
            set_parameters@,
            source_target_map@,
            rg,
        ) by {
            let j = source_parameters.lemma_view_entry(rg);
        }
        assert forall|rg: Seq<char>| #[trigger] out@.contains_key(rg) implies sp.contains_key(
            rg,
        ) by {
            let j = choose|j: int| 0 <= j < i && #[trigger] source_parameters.kvs()[j].0@ == rg;
            source_parameters.lemma_entry_in_view(j);
        }
        assert(out@.dom() =~= sp.dom());
    }
    Ok(out)
}

/// The additive-merge law: merging never removes or changes an entry
/// present in the persisted snapshot; it only adds the promoted copies.
pub proof fn lemma_merge_is_additive(
    p: Map<SsmKeyView, Seq<char>>,
    ws: Map<SsmKeyView, Seq<char>>,
    assoc: Map<Seq<char>, Seq<char>>,
    region: Seq<char>,
)
    ensures
        forall|k: SsmKeyView| #[trigger]
            p.contains_key(k) ==> spec_merged_region(p, ws, assoc, region).contains_key(k)
                && spec_merged_region(p, ws, assoc, region)[k] == p[k],
{
}

/// The round-trip law: a merged region diffed against itself yields the
/// empty write-set, so merged output is self-consistent and triggers no
/// further writes.
pub proof fn lemma_merge_then_diff_self_empty(
    p: Map<SsmKeyView, Seq<char>>,
    ws: Map<SsmKeyView, Seq<char>>,
    assoc: Map<Seq<char>, Seq<char>>,
    region: Seq<char>,
)
    ensures
        spec_key_difference(
            spec_merged_region(p, ws, assoc, region),
            spec_merged_region(p, ws, assoc, region),
        ) == Map::<SsmKeyView, Seq<char>>::empty(),
{
    lemma_diff_self_empty(spec_merged_region(p, ws, assoc, region));
}

} // verus!
