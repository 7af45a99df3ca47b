//! The state differ: given two identifier collections and a resolved time
//! window, trims both to the window and computes the symmetric set
//! difference by exact byte equality.

use vstd::prelude::*;

use crate::sync_id::{decode, spec_decode, spec_decode_error, spec_decoded_time, DecodeError};

verus! {

/// A half-open UTC interval `[start, end)`, in seconds since the Unix epoch.
#[derive(PartialEq, Eq, Structural, Clone, Copy, Debug)]
pub struct TimeWindow {
    pub start: i64,
    pub end: i64,
}

impl TimeWindow {
    /// A window is well formed when it is a real interval.
    pub open spec fn wf(self) -> bool {
        self.start <= self.end
    }
}

/// The two one-sided difference sets between a source and a target
/// identifier collection, trimmed to a time window. The two sides are
/// disjoint: identifiers common to both inputs appear in neither.
pub struct DiffReport {
    /// Identifiers seen by the source node only, in source order.
    pub only_in_source: Vec<Vec<u8>>,
    /// Identifiers seen by the target node only, in target order.
    pub only_in_target: Vec<Vec<u8>>,
}

/// Whether `s` decodes and its decoded time falls within `w`.
pub open spec fn in_window(s: Seq<u8>, w: TimeWindow) -> bool {
    match spec_decode(s) {
        Some(v) => w.start <= spec_decoded_time(v) < w.end,
        None => false,
    }
}

/// The identifiers of `a`, in order, that lie in the window and that `b`
/// does not hold: one side of the symmetric difference.
pub open spec fn spec_only_in(a: Seq<Seq<u8>>, b: Seq<Seq<u8>>, w: TimeWindow) -> Seq<Seq<u8>> {
    a.filter(|x: Seq<u8>| in_window(x, w) && !b.contains(x))
}

/// Whether every identifier of `a` decodes.
pub open spec fn all_decodable(a: Seq<Seq<u8>>) -> bool {
    forall|i: int| 0 <= i < a.len() ==> (#[trigger] spec_decode(a[i])) is Some
}

/// The decode error of the first undecodable identifier of `a`, if any.
pub open spec fn first_decode_error(a: Seq<Seq<u8>>) -> Option<DecodeError>
    decreases a.len(),
{
    if a.len() == 0 {
        None
    } else if spec_decode(a[0]) is None {
        Some(spec_decode_error(a[0]))
    } else {
        first_decode_error(a.drop_first())
    }
}

/// The error `diff` reports: the first undecodable identifier of the source
/// collection, else of the target collection.
pub open spec fn spec_diff_error(a: Seq<Seq<u8>>, b: Seq<Seq<u8>>) -> Option<DecodeError> {
    if first_decode_error(a) is Some {
        first_decode_error(a)
    } else {
        first_decode_error(b)
    }
}

/// `first_decode_error` is `None` exactly when everything decodes.
proof fn lemma_first_decode_error_none(a: Seq<Seq<u8>>)
    ensures
        first_decode_error(a) is None <==> all_decodable(a),
    decreases a.len(),
{
    if a.len() > 0 {
        lemma_first_decode_error_none(a.drop_first());
        assert(forall|i: int|
            0 <= i < a.len() - 1 ==> #[trigger] a.drop_first()[i] == a[i + 1]);
        if spec_decode(a[0]) is Some && all_decodable(a.drop_first()) {
            assert(forall|i: int| 1 <= i < a.len() ==> a.drop_first()[i - 1] == #[trigger] a[i]);
        }
    }
}

/// When everything before index `i` decodes and `a[i]` does not, the first
/// decode error of `a` is the error of `a[i]`.
proof fn lemma_first_decode_error_at(a: Seq<Seq<u8>>, i: int)
    requires
        0 <= i < a.len(),
        spec_decode(a[i]) is None,
        forall|j: int| 0 <= j < i ==> (#[trigger] spec_decode(a[j])) is Some,
    ensures
        first_decode_error(a) == Some(spec_decode_error(a[i])),
    decreases a.len(),
{
    if i > 0 {
        assert(forall|j: int|
            0 <= j < a.len() - 1 ==> #[trigger] a.drop_first()[j] == a[j + 1]);
        lemma_first_decode_error_at(a.drop_first(), i - 1);
    }
}

/// Byte-for-byte equality of two byte vectors.
fn bytes_eq(a: &Vec<u8>, b: &Vec<u8>) -> (r: bool)
    ensures
        r == (a@ == b@),
{
    if a.len() != b.len() {
        return false;
    }
    let mut i: usize = 0;
    while i < a.len()
        invariant
            0 <= i <= a@.len(),
            a@.len() == b@.len(),
            forall|j: int| 0 <= j < i ==> a@[j] == b@[j],
        decreases a@.len() - i,
    {
        if a[i] != b[i] {
            return false;
        }
        i = i + 1;
    }
    proof {
        assert(a@ =~= b@);
    }
    true
}

/// Whether `hay` holds an element byte-equal to `needle`.
fn contains_bytes(hay: &Vec<Vec<u8>>, needle: &Vec<u8>) -> (r: bool)
    ensures
        r == hay.deep_view().contains(needle@),
{
    let mut i: usize = 0;
    while i < hay.len()
        invariant
            0 <= i <= hay@.len(),
            forall|j: int| 0 <= j < i ==> hay.deep_view()[j] != needle@,
        decreases hay@.len() - i,
    {
        proof {
            assert(hay.deep_view()[i as int] =~= hay@[i as int]@);
        }
        if bytes_eq(&hay[i], needle) {
            return true;
        }
        i = i + 1;
    }
    false
}

/// Returns the first decode error among the elements of `ids`, if any.
fn check_all_decodable(ids: &Vec<Vec<u8>>) -> (r: Option<DecodeError>)
    ensures
        r == first_decode_error(ids.deep_view()),
        r is None <==> all_decodable(ids.deep_view()),
{
    let ghost dv = ids.deep_view();
    let mut i: usize = 0;
    while i < ids.len()
        invariant
            0 <= i <= ids@.len(),
            dv == ids.deep_view(),
            dv.len() == ids@.len(),
            forall|j: int| 0 <= j < i ==> (#[trigger] spec_decode(dv[j])) is Some,
        decreases ids@.len() - i,
    {
        proof {
            assert(dv[i as int] =~= ids@[i as int]@);
        }
        match decode(&ids[i]) {
            Ok(_) => {},
            Err(e) => {
                proof {
                    lemma_first_decode_error_at(dv, i as int);
                }
                return Some(e);
            },
        }
        i = i + 1;
    }
    proof {
        lemma_first_decode_error_none(dv);
    }
    None
}

/// Whether `id` decodes to a time within `w`. May only be called when `id`
/// is known to decode.
fn id_in_window(id: &Vec<u8>, w: &TimeWindow) -> (r: bool)
    requires
        spec_decode(id@) is Some,
    ensures
        r == in_window(id@, *w),
{
    let decoded = match decode(id) {
        Ok(d) => d,
        Err(_) => {
            proof {
                assert(false);
            }
            return false;
        },
    };
    let t = decoded.decoded_time();
    w.start <= t && t < w.end
}

/// The identifiers of `a`, in order, that lie in `w` and that `b` does not
/// hold.
fn only_in(a: &Vec<Vec<u8>>, b: &Vec<Vec<u8>>, w: &TimeWindow) -> (r: Vec<Vec<u8>>)
    requires
        all_decodable(a.deep_view()),
    ensures
        r.deep_view() == spec_only_in(a.deep_view(), b.deep_view(), *w),
{
    broadcast use vstd::std_specs::vec::vec_clone_deep_view_proof;

    let ghost av = a.deep_view();
    let ghost bv = b.deep_view();
    let ghost pred = |x: Seq<u8>| in_window(x, *w) && !bv.contains(x);
    let mut out: Vec<Vec<u8>> = Vec::new();
    let mut i: usize = 0;
    proof {
        assert(av.take(0) =~= Seq::<Seq<u8>>::empty());
        assert(out.deep_view() =~= Seq::<Seq<u8>>::empty());
        reveal(Seq::filter);
    }
    while i < a.len()
        invariant
            0 <= i <= a@.len(),
            av == a.deep_view(),
            bv == b.deep_view(),
            av.len() == a@.len(),
            all_decodable(av),
            pred == (|x: Seq<u8>| in_window(x, *w) && !bv.contains(x)),
            out.deep_view() == av.take(i as int).filter(pred),
        decreases a@.len() - i,
    {
        proof {
            assert(av[i as int] =~= a@[i as int]@);
        }
        let keep = if id_in_window(&a[i], w) {
            !contains_bytes(b, &a[i])
        } else {
            false
        };
        proof {
            assert(keep == pred(av[i as int]));
            assert(av.take(i + 1).drop_last() =~= av.take(i as int));
            assert(av.take(i + 1).last() == av[i as int]);
            reveal(Seq::filter);
        }
        if keep {
            let ghost before = out.deep_view();
            out.push(a[i].clone());
            proof {
                assert(out.deep_view() =~= before.push(av[i as int]));
                assert(av.take(i + 1).filter(pred) == av.take(i as int).filter(pred).push(
                    av[i as int],
                ));
            }
        } else {
            proof {
                assert(av.take(i + 1).filter(pred) == av.take(i as int).filter(pred));
            }
        }
        i = i + 1;
    }
    proof {
        assert(av.take(av.len() as int) =~= av);
    }
    out
}

/// Computes the symmetric difference of two identifier collections, trimmed
/// to the window `w`: identifiers only the source holds, and identifiers
/// only the target holds, each side in its input order. Fails with the first
/// decode error (source collection first) when any identifier of either
/// input fails to decode, since an undecodable identifier cannot be filtered
/// by the window. For equal input collections and window the result is
/// always the same.
pub fn diff(source: &Vec<Vec<u8>>, target: &Vec<Vec<u8>>, window: &TimeWindow) -> (r: Result<
    DiffReport,
    DecodeError,
>)
    ensures
        r is Ok <==> (all_decodable(source.deep_view()) && all_decodable(target.deep_view())),
        match r {
            Ok(rep) => rep.only_in_source.deep_view() == spec_only_in(
                source.deep_view(),
                target.deep_view(),
                *window,
            ) && rep.only_in_target.deep_view() == spec_only_in(
                target.deep_view(),
                source.deep_view(),
                *window,
            ),
            Err(e) => Some(e) == spec_diff_error(source.deep_view(), target.deep_view()),
        },
{
    if let Some(e) = check_all_decodable(source) {
        return Err(e);
    }
    if let Some(e) = check_all_decodable(target) {
        return Err(e);
    }
    let only_in_source = only_in(source, target, window);
    let only_in_target = only_in(target, source, window);
    Ok(DiffReport { only_in_source, only_in_target })
}

/// The two sides of the report `diff` computes on decodable inputs: what
/// only `a` holds, then what only `b` holds.
pub open spec fn spec_diff(a: Seq<Seq<u8>>, b: Seq<Seq<u8>>, w: TimeWindow) -> (
    Seq<Seq<u8>>,
    Seq<Seq<u8>>,
) {
    (spec_only_in(a, b, w), spec_only_in(b, a, w))
}

/// Diff symmetry: swapping the two inputs swaps the two sides of the report.
pub proof fn lemma_diff_symmetry(a: Seq<Seq<u8>>, b: Seq<Seq<u8>>, w: TimeWindow)
    ensures
        spec_diff(a, b, w).0 == spec_diff(b, a, w).1,
        spec_diff(a, b, w).1 == spec_diff(b, a, w).0,
{
}

/// What decides membership in one side of the difference: an identifier is
/// in `spec_only_in(a, b, w)` exactly when `a` holds it, it lies in the
/// window, and `b` does not hold it.
pub proof fn lemma_only_in_characterization(
    a: Seq<Seq<u8>>,
    b: Seq<Seq<u8>>,
    w: TimeWindow,
    x: Seq<u8>,
)
    ensures
        spec_only_in(a, b, w).contains(x) <==> (a.contains(x) && in_window(x, w) && !b.contains(
            x,
        )),
    decreases a.len(),
{
    broadcast use vstd::seq_lib::lemma_seq_contains_after_push;

    reveal(Seq::filter);
    let pred = |y: Seq<u8>| in_window(y, w) && !b.contains(y);
    if a.len() > 0 {
        lemma_only_in_characterization(a.drop_last(), b, w, x);
        assert(a.contains(x) <==> (a.drop_last().contains(x) || x == a.last())) by {
            assert(a.drop_last().push(a.last()) =~= a);
        }
    }
}

/// Determinism of the differ: the two sides depend only on what the two
/// inputs hold and on the window, never on the order either input lists its
/// identifiers in.
pub proof fn lemma_diff_order_irrelevant(
    a1: Seq<Seq<u8>>,
    a2: Seq<Seq<u8>>,
    b1: Seq<Seq<u8>>,
    b2: Seq<Seq<u8>>,
    w: TimeWindow,
    x: Seq<u8>,
)
    requires
        forall|y: Seq<u8>| a1.contains(y) <==> a2.contains(y),
        forall|y: Seq<u8>| b1.contains(y) <==> b2.contains(y),
    ensures
        spec_only_in(a1, b1, w).contains(x) <==> spec_only_in(a2, b2, w).contains(x),
{
    lemma_only_in_characterization(a1, b1, w, x);
    lemma_only_in_characterization(a2, b2, w, x);
}

/// Diff completeness: every in-window identifier of `a` that `b` lacks shows
/// up on the `a` side, and an identifier both inputs hold shows up on
/// neither side.
pub proof fn lemma_diff_completeness(a: Seq<Seq<u8>>, b: Seq<Seq<u8>>, w: TimeWindow, x: Seq<u8>)
    ensures
        a.contains(x) && in_window(x, w) && !b.contains(x) ==> spec_only_in(a, b, w).contains(x),
        a.contains(x) && b.contains(x) ==> !spec_only_in(a, b, w).contains(x) && !spec_only_in(
            b,
            a,
            w,
        ).contains(x),
{
    let pred_ab = |y: Seq<u8>| in_window(y, w) && !b.contains(y);
    let pred_ba = |y: Seq<u8>| in_window(y, w) && !a.contains(y);
    if a.contains(x) && in_window(x, w) && !b.contains(x) {
        let i = choose|i: int| 0 <= i < a.len() && a[i] == x;
        a.lemma_filter_contains(pred_ab, i);
    }
    if a.contains(x) && b.contains(x) {
        if spec_only_in(a, b, w).contains(x) {
            let j = choose|j: int|
                0 <= j < spec_only_in(a, b, w).len() && spec_only_in(a, b, w)[j] == x;
            a.lemma_filter_pred(pred_ab, j);
        }
        if spec_only_in(b, a, w).contains(x) {
            let j = choose|j: int|
                0 <= j < spec_only_in(b, a, w).len() && spec_only_in(b, a, w)[j] == x;
            b.lemma_filter_pred(pred_ba, j);
        }
    }
}

/// Window filtering: an identifier whose decoded time lies outside the
/// window appears on neither side of a report, whatever the inputs hold.
pub proof fn lemma_window_filtering(a: Seq<Seq<u8>>, b: Seq<Seq<u8>>, w: TimeWindow, x: Seq<u8>)
    requires
        !in_window(x, w),
    ensures
        !spec_only_in(a, b, w).contains(x),
        !spec_only_in(b, a, w).contains(x),
{
    let pred_ab = |y: Seq<u8>| in_window(y, w) && !b.contains(y);
    let pred_ba = |y: Seq<u8>| in_window(y, w) && !a.contains(y);
    if spec_only_in(a, b, w).contains(x) {
        let j = choose|j: int|
            0 <= j < spec_only_in(a, b, w).len() && spec_only_in(a, b, w)[j] == x;
        a.lemma_filter_pred(pred_ab, j);
    }
    if spec_only_in(b, a, w).contains(x) {
        let j = choose|j: int|
            0 <= j < spec_only_in(b, a, w).len() && spec_only_in(b, a, w)[j] == x;
        b.lemma_filter_pred(pred_ba, j);
    }
}

} // verus!
