//! The classification pass: comparing expected image records against the
//! records actually retrieved, and bucketing each into a tri-state verdict.

use crate::image::ImageDef;
use crate::image::ImageDefView;
use crate::image::ImageMap;
use vstd::prelude::*;
use vstd::seq_lib::group_seq_properties;

verus! {

/// The verdict for one expected image record.
#[derive(Debug, Clone, Copy, PartialEq, Eq, Hash, Structural)]
pub enum AmiValidationResultStatus {
    /// The retrieved record equals the expected one.
    Correct,
    /// A record was retrieved but differs from the expected one.
    Incorrect,
    /// No record was retrieved for the expected id.
    Missing,
}

/// A public record with its launch permissions forced to absent; a non-public
/// record unchanged.  Permission lists only control non-public sharing, so
/// they carry no meaning on a public image and are dropped before comparison.
pub open spec fn spec_canonicalize(img: ImageDefView) -> ImageDefView {
    if img.public {
        ImageDefView { launch_permissions: None, ..img }
    } else {
        img
    }
}

/// The verdict the expected and retrieved records earn: `Missing` without a
/// retrieved record, `Correct` when the two are equal, `Incorrect` otherwise.
/// Callers compare canonicalized records: launch permissions count as absent
/// on both sides when the record is public.
pub open spec fn spec_status(
    expected: ImageDefView,
    actual: Option<ImageDefView>,
) -> AmiValidationResultStatus {
    match actual {
        None => AmiValidationResultStatus::Missing,
        Some(a) => if a == expected {
            AmiValidationResultStatus::Correct
        } else {
            AmiValidationResultStatus::Incorrect
        },
    }
}

/// The view of an optional image record.
pub open spec fn opt_image_view(o: Option<ImageDef>) -> Option<ImageDefView> {
    match o {
        Some(img) => Some(img@),
        None => None,
    }
}

/// An optional record with a public record's permission list dropped.
pub open spec fn opt_canonicalize(o: Option<ImageDefView>) -> Option<ImageDefView> {
    match o {
        Some(a) => Some(spec_canonicalize(a)),
        None => None,
    }
}

/// A copy of the record with its launch permissions dropped when it is
/// public.
pub fn canonicalize(image: &ImageDef) -> (r: ImageDef)
    ensures
        r@ == spec_canonicalize(image@),
{
    let mut out = image.image_dup();
    if out.public {
        out.launch_permissions = None;
    }
    out
}

/// The verdict for one expected image record in one region, with everything
/// needed to act on it.
#[derive(Debug, Clone, PartialEq, Eq, Hash)]
pub struct AmiValidationResult {
    /// The id of the image the result is for.
    pub id: String,
    /// The expected record, canonicalized.
    pub expected_image_def: ImageDef,
    /// The record that was actually retrieved, if any.
    pub actual_image_def: Option<ImageDef>,
    /// The region the image was looked for in.
    pub region: String,
    /// The verdict.
    pub status: AmiValidationResultStatus,
}

/// The mathematical content of an [`AmiValidationResult`].
pub struct AmiValidationResultView {
    pub id: Seq<char>,
    pub expected_image_def: ImageDefView,
    pub actual_image_def: Option<ImageDefView>,
    pub region: Seq<char>,
    pub status: AmiValidationResultStatus,
}

impl View for AmiValidationResult {
    type V = AmiValidationResultView;

    open spec fn view(&self) -> AmiValidationResultView {
        AmiValidationResultView {
            id: self.id@,
            expected_image_def: self.expected_image_def@,
            actual_image_def: opt_image_view(self.actual_image_def),
            region: self.region@,
            status: self.status,
        }
    }
}

fn opt_image_eq(a: &Option<ImageDef>, b: &Option<ImageDef>) -> (r: bool)
    ensures
        r == (opt_image_view(*a) == opt_image_view(*b)),
{
    match (a, b) {
        (Some(x), Some(y)) => x.image_eq(y),
        (None, None) => true,
        _ => false,
    }
}

fn opt_image_dup(a: &Option<ImageDef>) -> (r: Option<ImageDef>)
    ensures
        opt_image_view(r) == opt_image_view(*a),
{
    match a {
        Some(x) => Some(x.image_dup()),
        None => None,
    }
}

impl AmiValidationResult {
    /// Builds the result for one expected record: the status is computed from
    /// the record pair with both sides canonicalized, never chosen by the
    /// caller.  The records themselves are stored as given.
    pub fn new(
        id: String,
        expected_image_def: ImageDef,
        actual_image_def: Option<ImageDef>,
        region: String,
    ) -> (r: Self)
        ensures
            r@ == (AmiValidationResultView {
                id: id@,
                expected_image_def: expected_image_def@,
                actual_image_def: opt_image_view(actual_image_def),
                region: region@,
                status: spec_status(
                    spec_canonicalize(expected_image_def@),
                    opt_canonicalize(opt_image_view(actual_image_def)),
                ),
            }),
    {
        let status = match &actual_image_def {
            None => AmiValidationResultStatus::Missing,
            Some(actual) => {
                let canon_actual = canonicalize(actual);
                let canon_expected = canonicalize(&expected_image_def);
                if canon_actual.image_eq(&canon_expected) {
                    AmiValidationResultStatus::Correct
                } else {
                    AmiValidationResultStatus::Incorrect
                }
            },
        };
        AmiValidationResult { id, expected_image_def, actual_image_def, region, status }
    }

    /// Clones a result; the copy has the same view.
    pub fn result_dup(&self) -> (r: Self)
        ensures
            r@ == self@,
    {
        AmiValidationResult {
            id: self.id.clone(),
            expected_image_def: self.expected_image_def.image_dup(),
            actual_image_def: opt_image_dup(&self.actual_image_def),
            region: self.region.clone(),
            status: self.status,
        }
    }

    /// Decides equality of two results, exactly as their views compare.
    pub fn result_eq(&self, other: &Self) -> (r: bool)
        ensures
            r == (self@ == other@),
    {
        self.id.eq(&other.id) && self.expected_image_def.image_eq(&other.expected_image_def)
            && opt_image_eq(&self.actual_image_def, &other.actual_image_def) && self.region.eq(
            &other.region,
        ) && self.status == other.status
    }
}

/// The result one expected record earns against a region's retrieved
/// records: the stored expected side is canonicalized, the stored actual
/// side is the record retrieved for the expected id as it was retrieved,
/// and the status compares the two with both sides canonicalized.
#[verifier::opaque]
pub open spec fn spec_result_for(
    img: ImageDefView,
    actual: Map<Seq<char>, ImageDefView>,
    region: Seq<char>,
) -> AmiValidationResultView {
    let canon = spec_canonicalize(img);
    let act: Option<ImageDefView> = if actual.contains_key(img.id) {
        Some(actual[img.id])
    } else {
        None
    };
    AmiValidationResultView {
        id: img.id,
        expected_image_def: canon,
        actual_image_def: act,
        region: region,
        status: spec_status(canon, opt_canonicalize(act)),
    }
}

fn results_contain(results: &Vec<AmiValidationResult>, r: &AmiValidationResult) -> (found: bool)
    ensures
        found == exists|w: int| 0 <= w < results@.len() && (#[trigger] results@[w])@ == r@,
{
    let n = results.len();
    let mut i: usize = 0;
    while i < n
        invariant
            n == results@.len(),
            i <= n,
            forall|w: int| 0 <= w < i ==> (#[trigger] results@[w])@ != r@,
        decreases n - i,
    {
        if results[i].result_eq(r) {
            return true;
        }
        i += 1;
    }
    false
}

/// Builds, in order, the result each expected record earns.
fn collect_results(
    expected_images: &Vec<ImageDef>,
    actual_images: &ImageMap,
    region: &String,
) -> (results: Vec<AmiValidationResult>)
    ensures
        results@.len() == expected_images@.len(),
        forall|l: int|
            0 <= l < results@.len() ==> (#[trigger] results@[l])@ == spec_result_for(
                expected_images@[l]@,
                actual_images@,
                region@,
            ),
{
    let n = expected_images.len();
    let mut results: Vec<AmiValidationResult> = Vec::new();
    let mut l: usize = 0;
    while l < n
        invariant
            n == expected_images@.len(),
            l <= n,
            results@.len() == l,
            forall|l2: int|
                0 <= l2 < l ==> (#[trigger] results@[l2])@ == spec_result_for(
                    expected_images@[l2]@,
                    actual_images@,
                    region@,
                ),
        decreases n - l,
    {
        let ghost img_v = expected_images@[l as int]@;
        let image = &expected_images[l];
        let canon = canonicalize(image);
        let actual = match actual_images.get(&image.id) {
            Some(found) => Some(found.image_dup()),
            None => None,
        };
        let result = AmiValidationResult::new(image.id.clone(), canon, actual, region.clone());
        proof {
            reveal(spec_result_for);
            assert(spec_canonicalize(spec_canonicalize(img_v)) == spec_canonicalize(img_v));
            assert(result@ == spec_result_for(img_v, actual_images@, region@));
        }
        results.push(result);
        l += 1;
    }
    results
}

/// The first-occurrence form of a sequence of results: every later
/// duplicate of an earlier result is dropped.
pub open spec fn dedup_views(s: Seq<AmiValidationResultView>) -> Seq<AmiValidationResultView>
    decreases s.len(),
{
    if s.len() == 0 {
        Seq::empty()
    } else {
        let prev = dedup_views(s.drop_last());
        if prev.contains(s.last()) {
            prev
        } else {
            prev.push(s.last())
        }
    }
}

/// No two entries of the first-occurrence form are equal: it is a set.
pub proof fn lemma_dedup_views_distinct(s: Seq<AmiValidationResultView>)
    ensures
        forall|a: int, b: int|
            0 <= a < b < dedup_views(s).len() ==> dedup_views(s)[a] != dedup_views(s)[b],
    decreases s.len(),
{
    if s.len() > 0 {
        lemma_dedup_views_distinct(s.drop_last());
        let prev = dedup_views(s.drop_last());
        if !prev.contains(s.last()) {
            assert forall|a: int, b: int|
                0 <= a < b < prev.push(s.last()).len() implies prev.push(s.last())[a] != prev.push(
                s.last(),
            )[b] by {
                if b == prev.len() {
                    if prev.push(s.last())[a] == s.last() {
                        assert(prev[a] == s.last());
                        assert(prev.contains(s.last()));
                    }
                }
            }
        }
    }
}

/// The first-occurrence form holds exactly the results of the original
/// sequence: nothing is lost and nothing is invented.
pub proof fn lemma_dedup_views_contains(s: Seq<AmiValidationResultView>)
    ensures
        forall|v: AmiValidationResultView|
            #[trigger] dedup_views(s).contains(v) <==> s.contains(v),
    decreases s.len(),
{
    if s.len() == 0 {
    } else {
        lemma_dedup_views_contains(s.drop_last());
        let prev = dedup_views(s.drop_last());
        let out = dedup_views(s);
        assert forall|v: AmiValidationResultView| #[trigger] out.contains(v) implies s.contains(
            v,
        ) by {
            let w = choose|w: int| 0 <= w < out.len() && out[w] == v;
            if prev.contains(s.last()) {
                assert(prev[w] == v);
                assert(prev.contains(v));
                assert(s.drop_last().contains(v));
                let j = choose|j: int| 0 <= j < s.drop_last().len() && s.drop_last()[j] == v;
                assert(s[j] == v);
            } else {
                if w < prev.len() {
                    assert(prev[w] == v);
                    assert(prev.contains(v));
                    assert(s.drop_last().contains(v));
                    let j = choose|j: int| 0 <= j < s.drop_last().len() && s.drop_last()[j] == v;
                    assert(s[j] == v);
                } else {
                    assert(v == s.last());
                    assert(s[s.len() - 1] == v);
                }
            }
        }
        assert forall|v: AmiValidationResultView| s.contains(v) implies #[trigger] out.contains(
            v,
        ) by {
            let j = choose|j: int| 0 <= j < s.len() && s[j] == v;
            if j < s.len() - 1 {
                assert(s.drop_last()[j] == v);
                assert(s.drop_last().contains(v));
                assert(prev.contains(v));
                let w = choose|w: int| 0 <= w < prev.len() && prev[w] == v;
                if prev.contains(s.last()) {
                } else {
                    assert(prev.push(s.last())[w] == v);
                }
            } else {
                if prev.contains(s.last()) {
                    let w = choose|w: int| 0 <= w < prev.len() && prev[w] == v;
                } else {
                    assert(prev.push(s.last())[prev.len() as int] == v);
                }
            }
        }
    }
}

/// Drops every result equal (as a full record) to an earlier one, keeping
/// the first occurrences in order.
fn dedup_results(all: Vec<AmiValidationResult>) -> (results: Vec<AmiValidationResult>)
    ensures
        results@.map_values(|x: AmiValidationResult| x@) == dedup_views(
            all@.map_values(|x: AmiValidationResult| x@),
        ),
{
    let n = all.len();
    let mut results: Vec<AmiValidationResult> = Vec::new();
    let mut i: usize = 0;
    proof {
        let av = all@.map_values(|x: AmiValidationResult| x@);
        assert(av.take(0) =~= Seq::<AmiValidationResultView>::empty());
        assert(results@.map_values(|x: AmiValidationResult| x@) =~= dedup_views(av.take(0)));
    }
    while i < n
        invariant
            n == all@.len(),
            i <= n,
            results@.map_values(|x: AmiValidationResult| x@) == dedup_views(
                all@.map_values(|x: AmiValidationResult| x@).take(i as int),
            ),
        decreases n - i,
    {
        let ghost av = all@.map_values(|x: AmiValidationResult| x@);
        let ghost rv = results@.map_values(|x: AmiValidationResult| x@);
        let candidate = all[i].result_dup();
        let dup = results_contain(&results, &candidate);
        proof {
            assert(av.take(i + 1).drop_last() =~= av.take(i as int));
            assert(av.take(i + 1).last() == candidate@);
            if dup {
                let w = choose|w: int|
                    0 <= w < results@.len() && (#[trigger] results@[w])@ == candidate@;
                assert(rv[w] == candidate@);
                assert(rv.contains(candidate@));
            } else {
                if rv.contains(candidate@) {
                    let w = choose|w: int| 0 <= w < rv.len() && rv[w] == candidate@;
                    assert(results@[w]@ == candidate@);
                }
            }
        }
        if !dup {
            results.push(candidate);
            proof {
                assert(results@.map_values(|x: AmiValidationResult| x@) =~= rv.push(
                    av.take(i + 1).last(),
                ));
            }
        }
        i += 1;
    }
    proof {
        let av = all@.map_values(|x: AmiValidationResult| x@);
        assert(av.take(n as int) =~= av);
    }
    results
}

/// Validates the expected records of one region against the records actually
/// retrieved there.  The output is a set: the result of every expected
/// record in order, later duplicates dropped, nothing else.  Validation is
/// expectation-driven: retrieved records nobody expected are not reported.
pub fn validate_images_in_region(
    expected_images: Vec<ImageDef>,
    actual_images: &ImageMap,
    region: &String,
) -> (results: Vec<AmiValidationResult>)
    ensures
        results@.map_values(|x: AmiValidationResult| x@) == dedup_views(
            expected_images@.map_values(
                |img: ImageDef| spec_result_for(img@, actual_images@, region@),
            ),
        ),
        forall|a: int, b: int|
            0 <= a < b < results@.len() ==> (#[trigger] results@[a])@ != (#[trigger] results@[b])@,
{
    let all = collect_results(&expected_images, actual_images, region);
    let results = dedup_results(all);
    proof {
        let ev = expected_images@.map_values(
            |img: ImageDef| spec_result_for(img@, actual_images@, region@),
        );
        assert(ev =~= all@.map_values(|x: AmiValidationResult| x@));
        lemma_dedup_views_distinct(ev);
        assert forall|a: int, b: int| 0 <= a < b < results@.len() implies (
        #[trigger] results@[a])@ != (#[trigger] results@[b])@ by {
            let rv = results@.map_values(|x: AmiValidationResult| x@);
            assert(rv[a] == results@[a]@);
            assert(rv[b] == results@[b]@);
        }
    }
    results
}

/// Keeps exactly the results whose status is among the given ones, in order.
pub fn get_results_for_status(
    results: &Vec<AmiValidationResult>,
    statuses: &Vec<AmiValidationResultStatus>,
) -> (filtered: Vec<AmiValidationResult>)
    ensures
        filtered@.map_values(|x: AmiValidationResult| x@) == results@.map_values(
            |x: AmiValidationResult| x@,
        ).filter(|x: AmiValidationResultView| statuses@.contains(x.status)),
{
    broadcast use group_seq_properties;

    let n = results.len();
    let mut filtered: Vec<AmiValidationResult> = Vec::new();
    let mut i: usize = 0;
    proof {
        let all = results@.map_values(|x: AmiValidationResult| x@);
        assert(all.take(0) =~= Seq::<AmiValidationResultView>::empty());
        reveal_with_fuel(Seq::<AmiValidationResultView>::filter, 2);
        assert(filtered@.map_values(|x: AmiValidationResult| x@) =~= all.take(0).filter(
            |x: AmiValidationResultView| statuses@.contains(x.status),
        ));
    }
    while i < n
        invariant
            n == results@.len(),
            i <= n,
            filtered@.map_values(|x: AmiValidationResult| x@) == results@.map_values(
                |x: AmiValidationResult| x@,
            ).take(i as int).filter(|x: AmiValidationResultView| statuses@.contains(x.status)),
        decreases n - i,
    {
        let keep = status_in(&results[i].status, statuses);
        if keep {
            filtered.push(results[i].result_dup());
        }
        proof {
            let all = results@.map_values(|x: AmiValidationResult| x@);
            reveal_with_fuel(Seq::<AmiValidationResultView>::filter, 2);
            assert(all.take(i + 1).drop_last() =~= all.take(i as int));
            assert(all.take(i + 1).last() == results@[i as int]@);
            assert(filtered@.map_values(|x: AmiValidationResult| x@) =~= all.take(i + 1).filter(
                |x: AmiValidationResultView| statuses@.contains(x.status),
            ));
        }
        i += 1;
    }
    proof {
        let all = results@.map_values(|x: AmiValidationResult| x@);
        assert(all.take(n as int) =~= all);
    }
    filtered
}

fn status_in(status: &AmiValidationResultStatus, statuses: &Vec<AmiValidationResultStatus>) -> (r:
    bool)
    ensures
        r == statuses@.contains(*status),
{
    let n = statuses.len();
    let mut i: usize = 0;
    while i < n
        invariant
            n == statuses@.len(),
            i <= n,
            forall|j: int| 0 <= j < i ==> statuses@[j] != *status,
        decreases n - i,
    {
        if statuses[i] == *status {
            return true;
        }
        i += 1;
    }
    false
}

} // verus!
