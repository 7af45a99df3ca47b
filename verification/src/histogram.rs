//! Histogram aggregation over a one-sided identifier set: bucket by decoded
//! record type (ordered by descending count, then by label), or by decoded
//! time truncated to a bucket granularity (ordered chronologically).
//!
//! Aggregation degrades gracefully: identifiers that fail to decode land in
//! a distinct malformed bucket instead of aborting the aggregation.

use vstd::prelude::*;

use crate::sync_id::{
    decode, record_type_label_spec, spec_decode, spec_decoded_time, spec_record_type, RecordType,
};

verus! {

/// A bucket of the record-type histogram: one per known record type, one
/// shared bucket for unrecognized record-type bytes, and one for identifiers
/// that failed to decode.
#[derive(PartialEq, Eq, Structural, Clone, Copy, Debug)]
pub enum TypeBucket {
    Message,
    UsernameProof,
    OnChainEvent,
    Unknown,
    Malformed,
}

/// Which record-type bucket an identifier byte sequence falls in.
pub open spec fn spec_type_bucket(s: Seq<u8>) -> TypeBucket {
    match spec_decode(s) {
        None => TypeBucket::Malformed,
        Some(v) => match spec_record_type(v.record_type) {
            RecordType::Message => TypeBucket::Message,
            RecordType::UsernameProof => TypeBucket::UsernameProof,
            RecordType::OnChainEvent => TypeBucket::OnChainEvent,
            RecordType::Unknown => TypeBucket::Unknown,
        },
    }
}

/// The stable display label of each record-type bucket.
pub open spec fn type_bucket_label_spec(b: TypeBucket) -> Seq<char> {
    match b {
        TypeBucket::Message => record_type_label_spec(RecordType::Message),
        TypeBucket::UsernameProof => record_type_label_spec(RecordType::UsernameProof),
        TypeBucket::OnChainEvent => record_type_label_spec(RecordType::OnChainEvent),
        TypeBucket::Unknown => record_type_label_spec(RecordType::Unknown),
        TypeBucket::Malformed => "malformed"@,
    }
}

/// Position of each bucket's label in ascending lexicographic label order:
/// "malformed" < "on-chain event" < "unknown" < "user message" <
/// "username proof". Used as the deterministic tie-break between buckets of
/// equal count.
pub open spec fn spec_bucket_rank(b: TypeBucket) -> int {
    match b {
        TypeBucket::Malformed => 0,
        TypeBucket::OnChainEvent => 1,
        TypeBucket::Unknown => 2,
        TypeBucket::Message => 3,
        TypeBucket::UsernameProof => 4,
    }
}

/// The stable display label of a record-type bucket.
pub fn type_bucket_label(b: TypeBucket) -> (r: &'static str)
    ensures
        r@ == type_bucket_label_spec(b),
{
    match b {
        TypeBucket::Message => "user message",
        TypeBucket::UsernameProof => "username proof",
        TypeBucket::OnChainEvent => "on-chain event",
        TypeBucket::Unknown => "unknown",
        TypeBucket::Malformed => "malformed",
    }
}

/// How many identifiers of `ids` fall in bucket `b`.
pub open spec fn type_bucket_count(ids: Seq<Seq<u8>>, b: TypeBucket) -> nat {
    ids.filter(|x: Seq<u8>| spec_type_bucket(x) == b).len()
}

/// One row of the record-type histogram.
#[derive(PartialEq, Eq, Structural, Clone, Copy, Debug)]
pub struct TypeBucketCount {
    pub bucket: TypeBucket,
    pub count: u64,
}

/// A count-per-record-type summary of an identifier set, ordered by
/// descending count and then by ascending bucket label; buckets that no
/// identifier falls in are left out. `total` is the number of identifiers
/// aggregated, malformed ones included.
pub struct RecordTypeHistogram {
    pub entries: Vec<TypeBucketCount>,
    pub total: u64,
}

/// Sum of the counts of a row sequence.
pub open spec fn sum_type_counts(es: Seq<TypeBucketCount>) -> int
    decreases es.len(),
{
    if es.len() == 0 {
        0
    } else {
        sum_type_counts(es.drop_last()) + es.last().count
    }
}

/// The strict display order of record-type rows: larger count first, label
/// order between equal counts.
pub open spec fn type_entry_before(x: TypeBucketCount, y: TypeBucketCount) -> bool {
    x.count > y.count || (x.count == y.count && spec_bucket_rank(x.bucket) < spec_bucket_rank(
        y.bucket,
    ))
}

/// What `histogram_by_record_type` promises of its result `h` on input
/// `ids`: an exact positive count per occupied bucket, every occupied bucket
/// present, no bucket twice, display order, and counts that sum to the input
/// size.
pub open spec fn record_type_histogram_wf(h: RecordTypeHistogram, ids: Seq<Seq<u8>>) -> bool {
    &&& h.total == ids.len()
    &&& sum_type_counts(h.entries@) == ids.len()
    &&& forall|j: int|
        0 <= j < h.entries@.len() ==> (#[trigger] h.entries@[j]).count == type_bucket_count(
            ids,
            h.entries@[j].bucket,
        ) && h.entries@[j].count > 0
    &&& forall|b: TypeBucket|
        type_bucket_count(ids, b) > 0 ==> exists|j: int|
            0 <= j < h.entries@.len() && (#[trigger] h.entries@[j]).bucket == b
    &&& forall|j: int, k: int|
        0 <= j < k < h.entries@.len() ==> type_entry_before(h.entries@[j], h.entries@[k])
}

/// Two rows over distinct buckets are strictly ordered one way or the other.
proof fn lemma_type_entry_total(x: TypeBucketCount, y: TypeBucketCount)
    requires
        x.bucket != y.bucket,
    ensures
        type_entry_before(x, y) || type_entry_before(y, x),
{
}

/// Sum of counts distributes over concatenation.
proof fn lemma_sum_type_counts_concat(a: Seq<TypeBucketCount>, b: Seq<TypeBucketCount>)
    ensures
        sum_type_counts(a + b) == sum_type_counts(a) + sum_type_counts(b),
    decreases b.len(),
{
    if b.len() == 0 {
        assert(a + b =~= a);
    } else {
        assert((a + b).drop_last() =~= a + b.drop_last());
        lemma_sum_type_counts_concat(a, b.drop_last());
    }
}

/// Extending the aggregated prefix by one identifier raises exactly its own
/// bucket's count by one.
proof fn lemma_type_count_step(ids: Seq<Seq<u8>>, i: int, b: TypeBucket)
    requires
        0 <= i < ids.len(),
    ensures
        type_bucket_count(ids.take(i + 1), b) == type_bucket_count(ids.take(i), b) + (
        if spec_type_bucket(ids[i]) == b {
            1int
        } else {
            0int
        }),
{
    reveal(Seq::filter);
    assert(ids.take(i + 1).drop_last() =~= ids.take(i));
    assert(ids.take(i + 1).last() == ids[i]);
}

/// Where `e` goes in a row sequence sorted by `type_entry_before`: the first
/// position whose row follows `e`.
fn find_type_pos(entries: &Vec<TypeBucketCount>, e: TypeBucketCount) -> (p: usize)
    ensures
        p <= entries@.len(),
        forall|j: int| 0 <= j < p ==> !type_entry_before(e, #[trigger] entries@[j]),
        p < entries@.len() ==> type_entry_before(e, entries@[p as int]),
{
    let mut p: usize = 0;
    while p < entries.len()
        invariant
            0 <= p <= entries@.len(),
            forall|j: int| 0 <= j < p ==> !type_entry_before(e, #[trigger] entries@[j]),
        decreases entries@.len() - p,
    {
        let cur = entries[p];
        if e.count > cur.count {
            return p;
        }
        if e.count == cur.count {
            let er = match e.bucket {
                TypeBucket::Malformed => 0u8,
                TypeBucket::OnChainEvent => 1u8,
                TypeBucket::Unknown => 2u8,
                TypeBucket::Message => 3u8,
                TypeBucket::UsernameProof => 4u8,
            };
            let cr = match cur.bucket {
                TypeBucket::Malformed => 0u8,
                TypeBucket::OnChainEvent => 1u8,
                TypeBucket::Unknown => 2u8,
                TypeBucket::Message => 3u8,
                TypeBucket::UsernameProof => 4u8,
            };
            if er < cr {
                return p;
            }
        }
        p = p + 1;
    }
    p
}

/// Inserts row `e`, whose bucket no present row has, at its display-order
/// position.
fn insert_type_entry(entries: &mut Vec<TypeBucketCount>, e: TypeBucketCount)
    requires
        forall|j: int, k: int|
            0 <= j < k < old(entries)@.len() ==> type_entry_before(
                #[trigger] old(entries)@[j],
                #[trigger] old(entries)@[k],
            ),
        forall|j: int| 0 <= j < old(entries)@.len() ==> (#[trigger] old(entries)@[j]).bucket != e.bucket,
    ensures
        final(entries)@.len() == old(entries)@.len() + 1,
        forall|j: int, k: int|
            0 <= j < k < final(entries)@.len() ==> type_entry_before(
                #[trigger] final(entries)@[j],
                #[trigger] final(entries)@[k],
            ),
        forall|x: TypeBucketCount|
            final(entries)@.contains(x) <==> (old(entries)@.contains(x) || x == e),
        sum_type_counts(final(entries)@) == sum_type_counts(old(entries)@) + e.count,
{
    let ghost pre = entries@;
    let p = find_type_pos(entries, e);
    entries.insert(p, e);
    proof {
        let post = entries@;
        assert(post =~= pre.take(p as int) + seq![e] + pre.skip(p as int));
        assert forall|j: int, k: int| 0 <= j < k < post.len() implies type_entry_before(
            post[j],
            post[k],
        ) by {
            if j < p {
                assert(post[j] == pre[j]);
                lemma_type_entry_total(pre[j], e);
            }
            if j == p {
                assert(post[j] == e);
            }
            if j > p {
                assert(post[j] == pre[j - 1]);
            }
            if k < p {
                assert(post[k] == pre[k]);
            }
            if k == p {
                assert(post[k] == e);
                lemma_type_entry_total(pre[j], e);
            }
            if k > p {
                assert(post[k] == pre[k - 1]);
                if j == p && p < pre.len() {
                    assert(type_entry_before(e, pre[p as int]));
                }
            }
        }
        assert forall|x: TypeBucketCount| post.contains(x) <==> (pre.contains(x) || x == e) by {
            if post.contains(x) {
                let j = choose|j: int| 0 <= j < post.len() && post[j] == x;
                if j < p {
                    assert(pre[j] == x);
                } else if j > p {
                    assert(pre[j - 1] == x);
                }
            }
            if pre.contains(x) {
                let j = choose|j: int| 0 <= j < pre.len() && pre[j] == x;
                if j < p {
                    assert(post[j] == x);
                } else {
                    assert(post[j + 1] == x);
                }
            }
            if x == e {
                assert(post[p as int] == x);
            }
        }
        assert(sum_type_counts(Seq::<TypeBucketCount>::empty()) == 0);
        assert(seq![e].drop_last() =~= Seq::<TypeBucketCount>::empty());
        assert(sum_type_counts(seq![e]) == e.count);
        lemma_sum_type_counts_concat(pre.take(p as int), seq![e]);
        lemma_sum_type_counts_concat(pre.take(p as int) + seq![e], pre.skip(p as int));
        lemma_sum_type_counts_concat(pre.take(p as int), pre.skip(p as int));
        assert(pre.take(p as int) + pre.skip(p as int) =~= pre);
    }
}

/// Counts the identifiers of `ids` per record-type bucket and lays the
/// occupied buckets out in display order: descending count, then ascending
/// label. Identifiers that fail to decode land in the malformed bucket, so
/// the counts always sum to the input size.
pub fn histogram_by_record_type(ids: &Vec<Vec<u8>>) -> (h: RecordTypeHistogram)
    ensures
        record_type_histogram_wf(h, ids.deep_view()),
{
    let ghost dv = ids.deep_view();
    let mut c_message: u64 = 0;
    let mut c_proof: u64 = 0;
    let mut c_chain: u64 = 0;
    let mut c_unknown: u64 = 0;
    let mut c_malformed: u64 = 0;
    let mut i: usize = 0;
    proof {
        reveal(Seq::filter);
        assert(dv.take(0) =~= Seq::<Seq<u8>>::empty());
    }
    while i < ids.len()
        invariant
            0 <= i <= ids@.len(),
            dv == ids.deep_view(),
            dv.len() == ids@.len(),
            c_message == type_bucket_count(dv.take(i as int), TypeBucket::Message),
            c_proof == type_bucket_count(dv.take(i as int), TypeBucket::UsernameProof),
            c_chain == type_bucket_count(dv.take(i as int), TypeBucket::OnChainEvent),
            c_unknown == type_bucket_count(dv.take(i as int), TypeBucket::Unknown),
            c_malformed == type_bucket_count(dv.take(i as int), TypeBucket::Malformed),
            c_message + c_proof + c_chain + c_unknown + c_malformed == i,
        decreases ids@.len() - i,
    {
        proof {
            assert(dv[i as int] =~= ids@[i as int]@);
            lemma_type_count_step(dv, i as int, TypeBucket::Message);
            lemma_type_count_step(dv, i as int, TypeBucket::UsernameProof);
            lemma_type_count_step(dv, i as int, TypeBucket::OnChainEvent);
            lemma_type_count_step(dv, i as int, TypeBucket::Unknown);
            lemma_type_count_step(dv, i as int, TypeBucket::Malformed);
        }
        match decode(&ids[i]) {
            Err(_) => {
                c_malformed = c_malformed + 1;
            },
            Ok(id) => {
                match id.record_type() {
                    RecordType::Message => {
                        c_message = c_message + 1;
                    },
                    RecordType::UsernameProof => {
                        c_proof = c_proof + 1;
                    },
                    RecordType::OnChainEvent => {
                        c_chain = c_chain + 1;
                    },
                    RecordType::Unknown => {
                        c_unknown = c_unknown + 1;
                    },
                }
            },
        }
        i = i + 1;
    }
    proof {
        assert(dv.take(dv.len() as int) =~= dv);
    }
    let mut entries: Vec<TypeBucketCount> = Vec::new();
    let total = c_message + c_proof + c_chain + c_unknown + c_malformed;
    proof {
        assert(sum_type_counts(entries@) == 0);
    }
    if c_message > 0 {
        insert_type_entry(&mut entries, TypeBucketCount { bucket: TypeBucket::Message, count: c_message });
    }
    if c_proof > 0 {
        proof {
            assert forall|j: int|
                0 <= j < entries@.len() implies (#[trigger] entries@[j]).bucket
                != TypeBucket::UsernameProof by {
                assert(entries@.contains(entries@[j]));
            }
        }
        insert_type_entry(
            &mut entries,
            TypeBucketCount { bucket: TypeBucket::UsernameProof, count: c_proof },
        );
    }
    if c_chain > 0 {
        proof {
            assert forall|j: int|
                0 <= j < entries@.len() implies (#[trigger] entries@[j]).bucket
                != TypeBucket::OnChainEvent by {
                assert(entries@.contains(entries@[j]));
            }
        }
        insert_type_entry(
            &mut entries,
            TypeBucketCount { bucket: TypeBucket::OnChainEvent, count: c_chain },
        );
    }
    if c_unknown > 0 {
        proof {
            assert forall|j: int|
                0 <= j < entries@.len() implies (#[trigger] entries@[j]).bucket
                != TypeBucket::Unknown by {
                assert(entries@.contains(entries@[j]));
            }
        }
        insert_type_entry(&mut entries, TypeBucketCount { bucket: TypeBucket::Unknown, count: c_unknown });
    }
    if c_malformed > 0 {
        proof {
            assert forall|j: int|
                0 <= j < entries@.len() implies (#[trigger] entries@[j]).bucket
                != TypeBucket::Malformed by {
                assert(entries@.contains(entries@[j]));
            }
        }
        insert_type_entry(
            &mut entries,
            TypeBucketCount { bucket: TypeBucket::Malformed, count: c_malformed },
        );
    }
    let h = RecordTypeHistogram { entries, total };
    proof {
        assert forall|j: int|
            0 <= j < h.entries@.len() implies (#[trigger] h.entries@[j]).count == type_bucket_count(
            dv,
            h.entries@[j].bucket,
        ) && h.entries@[j].count > 0 by {
            assert(h.entries@.contains(h.entries@[j]));
        }
        assert forall|b: TypeBucket| type_bucket_count(dv, b) > 0 implies exists|j: int|
            0 <= j < h.entries@.len() && (#[trigger] h.entries@[j]).bucket == b by {
            let witness = match b {
                TypeBucket::Message => TypeBucketCount { bucket: TypeBucket::Message, count: c_message },
                TypeBucket::UsernameProof => TypeBucketCount {
                    bucket: TypeBucket::UsernameProof,
                    count: c_proof,
                },
                TypeBucket::OnChainEvent => TypeBucketCount {
                    bucket: TypeBucket::OnChainEvent,
                    count: c_chain,
                },
                TypeBucket::Unknown => TypeBucketCount { bucket: TypeBucket::Unknown, count: c_unknown },
                TypeBucket::Malformed => TypeBucketCount {
                    bucket: TypeBucket::Malformed,
                    count: c_malformed,
                },
            };
            assert(h.entries@.contains(witness));
            let j = choose|j: int| 0 <= j < h.entries@.len() && h.entries@[j] == witness;
            assert(h.entries@[j].bucket == b);
        }
    }
    h
}

/// One row of the time histogram.
#[derive(PartialEq, Eq, Structural, Clone, Copy, Debug)]
pub struct TimeBucketCount {
    /// Start of the bucket interval, in seconds since the Unix epoch; a
    /// multiple of the bucket granularity.
    pub bucket_start: i64,
    pub count: u64,
}

/// A count-per-time-bucket summary of an identifier set, ordered
/// chronologically; buckets that no identifier falls in are left out.
/// Identifiers that fail to decode are counted in `malformed` rather than in
/// any time bucket. `total` is the number of identifiers aggregated.
pub struct TimeHistogram {
    pub entries: Vec<TimeBucketCount>,
    pub malformed: u64,
    pub total: u64,
}

/// `t` truncated down to a multiple of the granularity `g`.
pub open spec fn spec_time_bucket(t: int, g: int) -> int {
    t - t % g
}

/// The time bucket an identifier falls in: `None` when it fails to decode.
pub open spec fn spec_id_time_bucket(s: Seq<u8>, g: int) -> Option<int> {
    match spec_decode(s) {
        None => None,
        Some(v) => Some(spec_time_bucket(spec_decoded_time(v), g)),
    }
}

/// How many identifiers of `ids` fall in the time bucket starting at `k`.
pub open spec fn time_bucket_count(ids: Seq<Seq<u8>>, g: int, k: int) -> nat {
    ids.filter(|x: Seq<u8>| spec_id_time_bucket(x, g) == Some(k)).len()
}

/// How many identifiers of `ids` fail to decode.
pub open spec fn malformed_count(ids: Seq<Seq<u8>>) -> nat {
    ids.filter(|x: Seq<u8>| spec_decode(x) is None).len()
}

/// Sum of the counts of a time-row sequence.
pub open spec fn sum_time_counts(es: Seq<TimeBucketCount>) -> int
    decreases es.len(),
{
    if es.len() == 0 {
        0
    } else {
        sum_time_counts(es.drop_last()) + es.last().count
    }
}

/// What `histogram_by_time_bucket` promises of its result `h` on input
/// `ids` with granularity `g`: an exact positive count per occupied bucket,
/// every occupied bucket present, chronological order, an exact malformed
/// count, and counts that sum to the input size.
pub open spec fn time_histogram_wf(h: TimeHistogram, ids: Seq<Seq<u8>>, g: int) -> bool {
    &&& h.total == ids.len()
    &&& h.malformed == malformed_count(ids)
    &&& sum_time_counts(h.entries@) + h.malformed == ids.len()
    &&& forall|j: int|
        0 <= j < h.entries@.len() ==> (#[trigger] h.entries@[j]).count == time_bucket_count(
            ids,
            g,
            h.entries@[j].bucket_start as int,
        ) && h.entries@[j].count > 0
    &&& forall|k: int|
        #[trigger] time_bucket_count(ids, g, k) > 0 ==> exists|j: int|
            0 <= j < h.entries@.len() && (#[trigger] h.entries@[j]).bucket_start == k
    &&& forall|j: int, k: int|
        0 <= j < k < h.entries@.len() ==> (#[trigger] h.entries@[j]).bucket_start < (
        #[trigger] h.entries@[k]).bucket_start
}

/// Sum of time-row counts distributes over concatenation.
proof fn lemma_sum_time_counts_concat(a: Seq<TimeBucketCount>, b: Seq<TimeBucketCount>)
    ensures
        sum_time_counts(a + b) == sum_time_counts(a) + sum_time_counts(b),
    decreases b.len(),
{
    if b.len() == 0 {
        assert(a + b =~= a);
    } else {
        assert((a + b).drop_last() =~= a + b.drop_last());
        lemma_sum_time_counts_concat(a, b.drop_last());
    }
}

/// Raising one row's count raises the sum by the difference.
proof fn lemma_sum_time_counts_update(es: Seq<TimeBucketCount>, p: int, e: TimeBucketCount)
    requires
        0 <= p < es.len(),
    ensures
        sum_time_counts(es.update(p, e)) == sum_time_counts(es) - es[p].count + e.count,
    decreases es.len(),
{
    if p == es.len() - 1 {
        assert(es.update(p, e).drop_last() =~= es.drop_last());
        assert(es.update(p, e).last() == e);
    } else {
        assert(es.update(p, e).drop_last() =~= es.drop_last().update(p, e));
        assert(es.update(p, e).last() == es.last());
        lemma_sum_time_counts_update(es.drop_last(), p, e);
    }
}

/// Extending the aggregated prefix by one identifier raises exactly its own
/// time bucket's count, or the malformed count, by one.
proof fn lemma_time_count_step(ids: Seq<Seq<u8>>, g: int, i: int, k: int)
    requires
        0 <= i < ids.len(),
    ensures
        time_bucket_count(ids.take(i + 1), g, k) == time_bucket_count(ids.take(i), g, k) + (
        if spec_id_time_bucket(ids[i], g) == Some(k) {
            1int
        } else {
            0int
        }),
        malformed_count(ids.take(i + 1)) == malformed_count(ids.take(i)) + (
        if spec_decode(ids[i]) is None {
            1int
        } else {
            0int
        }),
{
    reveal(Seq::filter);
    assert(ids.take(i + 1).drop_last() =~= ids.take(i));
    assert(ids.take(i + 1).last() == ids[i]);
}

/// Where a row for the bucket starting at `key` belongs: the first position
/// whose row's bucket does not start earlier.
fn find_time_pos(entries: &Vec<TimeBucketCount>, key: i64) -> (p: usize)
    ensures
        p <= entries@.len(),
        forall|j: int| 0 <= j < p ==> (#[trigger] entries@[j]).bucket_start < key,
        p < entries@.len() ==> entries@[p as int].bucket_start >= key,
{
    let mut p: usize = 0;
    while p < entries.len()
        invariant
            0 <= p <= entries@.len(),
            forall|j: int| 0 <= j < p ==> (#[trigger] entries@[j]).bucket_start < key,
        decreases entries@.len() - p,
    {
        if entries[p].bucket_start >= key {
            return p;
        }
        p = p + 1;
    }
    p
}

/// Inserts row `e`, whose bucket no present row has, at its chronological
/// position.
fn insert_time_entry(entries: &mut Vec<TimeBucketCount>, e: TimeBucketCount, p: usize)
    requires
        p <= old(entries)@.len(),
        forall|j: int, k: int|
            0 <= j < k < old(entries)@.len() ==> (#[trigger] old(entries)@[j]).bucket_start < (
            #[trigger] old(entries)@[k]).bucket_start,
        forall|j: int| 0 <= j < p ==> (#[trigger] old(entries)@[j]).bucket_start < e.bucket_start,
        p < old(entries)@.len() ==> old(entries)@[p as int].bucket_start > e.bucket_start,
    ensures
        final(entries)@.len() == old(entries)@.len() + 1,
        forall|j: int, k: int|
            0 <= j < k < final(entries)@.len() ==> (#[trigger] final(entries)@[j]).bucket_start < (
            #[trigger] final(entries)@[k]).bucket_start,
        forall|x: TimeBucketCount|
            final(entries)@.contains(x) <==> (old(entries)@.contains(x) || x == e),
        sum_time_counts(final(entries)@) == sum_time_counts(old(entries)@) + e.count,
{
    let ghost pre = entries@;
    entries.insert(p, e);
    proof {
        let post = entries@;
        assert(post =~= pre.take(p as int) + seq![e] + pre.skip(p as int));
        assert forall|j: int, k: int| 0 <= j < k < post.len() implies post[j].bucket_start
            < post[k].bucket_start by {
            if j < p {
                assert(post[j] == pre[j]);
            } else if j == p {
                assert(post[j] == e);
            } else {
                assert(post[j] == pre[j - 1]);
            }
            if k < p {
                assert(post[k] == pre[k]);
            } else if k == p {
                assert(post[k] == e);
            } else {
                assert(post[k] == pre[k - 1]);
            }
        }
        assert forall|x: TimeBucketCount| post.contains(x) <==> (pre.contains(x) || x == e) by {
            if post.contains(x) {
                let j = choose|j: int| 0 <= j < post.len() && post[j] == x;
                if j < p {
                    assert(pre[j] == x);
                } else if j > p {
                    assert(pre[j - 1] == x);
                }
            }
            if pre.contains(x) {
                let j = choose|j: int| 0 <= j < pre.len() && pre[j] == x;
                if j < p {
                    assert(post[j] == x);
                } else {
                    assert(post[j + 1] == x);
                }
            }
            if x == e {
                assert(post[p as int] == x);
            }
        }
        assert(sum_time_counts(Seq::<TimeBucketCount>::empty()) == 0);
        assert(seq![e].drop_last() =~= Seq::<TimeBucketCount>::empty());
        assert(sum_time_counts(seq![e]) == e.count);
        lemma_sum_time_counts_concat(pre.take(p as int), seq![e]);
        lemma_sum_time_counts_concat(pre.take(p as int) + seq![e], pre.skip(p as int));
        lemma_sum_time_counts_concat(pre.take(p as int), pre.skip(p as int));
        assert(pre.take(p as int) + pre.skip(p as int) =~= pre);
    }
}

/// Counts the identifiers of `ids` per decoded time truncated down to a
/// multiple of `bucket_granularity` seconds, and lays the occupied buckets
/// out chronologically. Identifiers that fail to decode are counted
/// separately as malformed, so the counts always sum to the input size.
pub fn histogram_by_time_bucket(ids: &Vec<Vec<u8>>, bucket_granularity: i64) -> (h: TimeHistogram)
    requires
        bucket_granularity > 0,
    ensures
        time_histogram_wf(h, ids.deep_view(), bucket_granularity as int),
{
    broadcast use vstd::seq_lib::group_filter_ensures;

    let ghost dv = ids.deep_view();
    let ghost g = bucket_granularity as int;
    let mut entries: Vec<TimeBucketCount> = Vec::new();
    let mut malformed: u64 = 0;
    let mut i: usize = 0;
    proof {
        reveal(Seq::filter);
        assert(dv.take(0) =~= Seq::<Seq<u8>>::empty());
    }
    while i < ids.len()
        invariant
            0 <= i <= ids@.len(),
            dv == ids.deep_view(),
            g == bucket_granularity as int,
            bucket_granularity > 0,
            dv.len() == ids@.len(),
            malformed == malformed_count(dv.take(i as int)),
            malformed <= i,
            sum_time_counts(entries@) + malformed == i,
            forall|j: int|
                0 <= j < entries@.len() ==> (#[trigger] entries@[j]).count == time_bucket_count(
                    dv.take(i as int),
                    g,
                    entries@[j].bucket_start as int,
                ) && entries@[j].count > 0 && entries@[j].count <= i,
            forall|k: int|
                #[trigger] time_bucket_count(dv.take(i as int), g, k) > 0 ==> exists|j: int|
                    0 <= j < entries@.len() && (#[trigger] entries@[j]).bucket_start == k,
            forall|j: int, k: int|
                0 <= j < k < entries@.len() ==> (#[trigger] entries@[j]).bucket_start < (
                #[trigger] entries@[k]).bucket_start,
        decreases ids@.len() - i,
    {
        proof {
            assert(dv[i as int] =~= ids@[i as int]@);
            assert forall|k: int|
                time_bucket_count(dv.take(i + 1), g, k) == time_bucket_count(
                    dv.take(i as int),
                    g,
                    k,
                ) + (if spec_id_time_bucket(dv[i as int], g) == Some(k) {
                    1int
                } else {
                    0int
                }) by {
                lemma_time_count_step(dv, g, i as int, k);
            }
            lemma_time_count_step(dv, g, i as int, 0);
        }
        match decode(&ids[i]) {
            Err(_) => {
                malformed = malformed + 1;
                proof {
                    assert forall|k: int|
                        #[trigger] time_bucket_count(dv.take(i + 1), g, k) > 0 implies exists|
                        j: int,
                    | 0 <= j < entries@.len() && (#[trigger] entries@[j]).bucket_start == k by {
                        assert(time_bucket_count(dv.take(i as int), g, k) > 0);
                    }
                }
            },
            Ok(id) => {
                let t = id.decoded_time();
                let tu = t as u64;
                let gu = bucket_granularity as u64;
                let rem = tu % gu;
                proof {
                    vstd::arithmetic::div_mod::lemma_mod_decreases(tu as nat, gu as nat);
                }
                let key = (tu - rem) as i64;
                proof {
                    assert(key == spec_time_bucket(t as int, g));
                    assert(spec_id_time_bucket(dv[i as int], g) == Some(key as int));
                }
                let p = find_time_pos(&entries, key);
                if p < entries.len() && entries[p].bucket_start == key {
                    let ghost pre = entries@;
                    let cur = entries[p];
                    proof {
                        lemma_sum_time_counts_update(
                            entries@,
                            p as int,
                            TimeBucketCount { bucket_start: key, count: (cur.count + 1) as u64 },
                        );
                    }
                    entries.set(p, TimeBucketCount { bucket_start: key, count: cur.count + 1 });
                    proof {
                        let post = entries@;
                        assert forall|j: int|
                            0 <= j < post.len() implies (#[trigger] post[j]).count
                            == time_bucket_count(dv.take(i + 1), g, post[j].bucket_start as int)
                            && post[j].count > 0 && post[j].count <= i + 1 by {
                            if j != p {
                                assert(post[j].bucket_start != key);
                            }
                        }
                        assert forall|k: int|
                            #[trigger] time_bucket_count(dv.take(i + 1), g, k) > 0
                            implies exists|j: int|
                            0 <= j < post.len() && (#[trigger] post[j]).bucket_start == k by {
                            if k == key {
                                assert(post[p as int].bucket_start == k);
                            } else {
                                assert(time_bucket_count(dv.take(i as int), g, k) > 0);
                                let j0 = choose|j: int|
                                    0 <= j < pre.len() && (#[trigger] pre[j]).bucket_start == k;
                                assert(post[j0].bucket_start == k);
                            }
                        }
                    }
                } else {
                    proof {
                        if time_bucket_count(dv.take(i as int), g, key as int) > 0 {
                            let j = choose|j: int|
                                0 <= j < entries@.len() && (#[trigger] entries@[j]).bucket_start
                                    == key;
                            assert(false);
                        }
                    }
                    let ghost pre = entries@;
                    insert_time_entry(&mut entries, TimeBucketCount { bucket_start: key, count: 1 }, p);
                    proof {
                        let post = entries@;
                        assert forall|j: int|
                            0 <= j < post.len() implies (#[trigger] post[j]).count
                            == time_bucket_count(dv.take(i + 1), g, post[j].bucket_start as int)
                            && post[j].count > 0 && post[j].count <= i + 1 by {
                            assert(post.contains(post[j]));
                            if post[j] == (TimeBucketCount { bucket_start: key, count: 1 }) {
                            } else {
                                assert(pre.contains(post[j]));
                                assert(post[j].bucket_start != key);
                            }
                        }
                        assert forall|k: int|
                            #[trigger] time_bucket_count(dv.take(i + 1), g, k) > 0
                            implies exists|j: int|
                            0 <= j < post.len() && (#[trigger] post[j]).bucket_start == k by {
                            if k == key {
                                assert(post.contains(TimeBucketCount { bucket_start: key, count: 1 }));
                                let j = choose|j: int|
                                    0 <= j < post.len() && post[j] == TimeBucketCount {
                                        bucket_start: key,
                                        count: 1,
                                    };
                                assert(post[j].bucket_start == k);
                            } else {
                                assert(time_bucket_count(dv.take(i as int), g, k) > 0);
                                let j0 = choose|j: int|
                                    0 <= j < pre.len() && (#[trigger] pre[j]).bucket_start == k;
                                assert(post.contains(pre[j0]));
                                let j = choose|j: int| 0 <= j < post.len() && post[j] == pre[j0];
                                assert(post[j].bucket_start == k);
                            }
                        }
                    }
                }
            },
        }
        i = i + 1;
    }
    proof {
        assert(dv.take(dv.len() as int) =~= dv);
    }
    let total = malformed + sum_entries_u64(&entries);
    TimeHistogram { entries, malformed, total }
}

/// Sum of the counts held by a row vector, as a machine integer.
fn sum_entries_u64(entries: &Vec<TimeBucketCount>) -> (s: u64)
    requires
        sum_time_counts(entries@) <= u64::MAX,
        sum_time_counts(entries@) >= 0,
    ensures
        s == sum_time_counts(entries@),
{
    let mut s: u64 = 0;
    let mut i: usize = 0;
    proof {
        assert(entries@.take(0) =~= Seq::<TimeBucketCount>::empty());
    }
    while i < entries.len()
        invariant
            0 <= i <= entries@.len(),
            s == sum_time_counts(entries@.take(i as int)),
            sum_time_counts(entries@) <= u64::MAX,
            0 <= sum_time_counts(entries@),
        decreases entries@.len() - i,
    {
        proof {
            assert(entries@.take(i + 1).drop_last() =~= entries@.take(i as int));
            assert(entries@.take(i + 1).last() == entries@[i as int]);
            lemma_sum_time_prefix_le(entries@, i + 1);
            lemma_sum_time_counts_nonneg(entries@.take(i as int));
        }
        s = s + entries[i].count;
        i = i + 1;
    }
    proof {
        assert(entries@.take(entries@.len() as int) =~= entries@);
    }
    s
}

/// Sums of time-row counts are non-negative.
proof fn lemma_sum_time_counts_nonneg(es: Seq<TimeBucketCount>)
    ensures
        sum_time_counts(es) >= 0,
    decreases es.len(),
{
    if es.len() > 0 {
        lemma_sum_time_counts_nonneg(es.drop_last());
    }
}

/// A prefix of the rows never sums to more than the whole.
proof fn lemma_sum_time_prefix_le(es: Seq<TimeBucketCount>, n: int)
    requires
        0 <= n <= es.len(),
    ensures
        sum_time_counts(es.take(n)) <= sum_time_counts(es),
    decreases es.len() - n,
{
    if n < es.len() {
        lemma_sum_time_prefix_le(es, n + 1);
        assert(es.take(n + 1).drop_last() =~= es.take(n));
        assert(es.take(n + 1).last() == es[n]);
    } else {
        assert(es.take(n) =~= es);
    }
}

} // verus!
