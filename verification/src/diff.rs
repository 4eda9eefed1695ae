//! The key difference engine: the minimal set of key/value writes that moves
//! one keyed map toward another.

use crate::assoc::MapKey;
use crate::assoc::MapVal;
use crate::params::ParameterMap;
use crate::params::SsmKeyView;
use vstd::prelude::*;

verus! {

/// Whether `key` must be written to move `have` toward `want`: it is wanted,
/// and is either absent from `have` or present with a different value.
pub open spec fn needs_write(
    want: Map<SsmKeyView, Seq<char>>,
    have: Map<SsmKeyView, Seq<char>>,
    key: SsmKeyView,
) -> bool {
    want.contains_key(key) && (!have.contains_key(key) || have[key] != want[key])
}

/// The write-set that moves `have` toward `want`: every wanted key whose
/// value is absent or different, bound to the wanted value.  One-directional:
/// keys present only in `have` are ignored.
pub open spec fn spec_key_difference(
    want: Map<SsmKeyView, Seq<char>>,
    have: Map<SsmKeyView, Seq<char>>,
) -> Map<SsmKeyView, Seq<char>> {
    Map::new(|key: SsmKeyView| needs_write(want, have, key), |key: SsmKeyView| want[key])
}

/// Computes the write-set needed to make `have` look like `want`.  Pure and
/// total: a missing key is a difference, not an error; an empty result means
/// no action is needed.
pub fn key_difference(want: &ParameterMap, have: &ParameterMap) -> (diff: ParameterMap)
    ensures
        diff@ == spec_key_difference(want@, have@),
{
    let mut out = ParameterMap::new();
    let n = want.len();
    let mut i: usize = 0;
    while i < n
        invariant
            n == want.kvs().len(),
            i <= n,
            forall|k: SsmKeyView| #[trigger] out@.contains_key(k) ==> needs_write(want@, have@, k)
                && out@[k] == want@[k],
            forall|j: int|
                0 <= j < i ==> (needs_write(want@, have@, #[trigger] want.kvs()[j].0@)
                    <==> out@.contains_key(want.kvs()[j].0@)),
        decreases n - i,
    {
        let key = want.key_at(i);
        let value = want.val_at(i);
        let wanted = match have.get(key) {
            Some(have_value) => !have_value.val_eq(value),
            None => true,
        };
        if wanted {
            out.insert(key.key_dup(), value.val_dup());
        }
        i += 1;
    }
    proof {
        use_type_invariant(want);
        assert forall|k: SsmKeyView| #[trigger] spec_key_difference(want@, have@).contains_key(
            k,
        ) implies out@.contains_key(k) by {
            let j = want.lemma_view_entry(k);
        }
        assert(out@ =~= spec_key_difference(want@, have@));
    }
    out
}

/// The no-op diff law: diffing any map against itself yields the empty
/// write-set, so converged state triggers no writes.
pub proof fn lemma_diff_self_empty(m: Map<SsmKeyView, Seq<char>>)
    ensures
        spec_key_difference(m, m) == Map::<SsmKeyView, Seq<char>>::empty(),
{
    assert(spec_key_difference(m, m) =~= Map::<SsmKeyView, Seq<char>>::empty());
}

/// Soundness and minimality of the diff: every key of the write-set is
/// present in `want`, carries `want`'s value, and genuinely differs from
/// `have`; and conversely every such differing key is in the write-set.
pub proof fn lemma_diff_sound_and_minimal(
    want: Map<SsmKeyView, Seq<char>>,
    have: Map<SsmKeyView, Seq<char>>,
)
    ensures
        forall|k: SsmKeyView| #[trigger] spec_key_difference(want, have).contains_key(k)
            ==> want.contains_key(k) && spec_key_difference(want, have)[k] == want[k] && !(
        have.contains_key(k) && have[k] == want[k]),
        forall|k: SsmKeyView| want.contains_key(k) && !(have.contains_key(k) && have[k] == want[k])
            ==> #[trigger] spec_key_difference(want, have).contains_key(k),
{
}

} // verus!
