//! The sums of the buckets by a tree of additions of pairs: level after
//! level, the points of each bucket are added two by two until one is left.

use vstd::prelude::*;
use crate::bytes::{point_at, write_pod_points, PodPoint};
use crate::bucket::{all_mont_wf, lemma_zero_decodes, mont_coordinates};
use crate::curve::{
    edwards_sum, lemma_point_add_decodes, mont_edwards_sum, neutral, point_add, Coordinates,
    MontgomeryPoint,
};
use crate::field::{lemma_mont_round_trip, r_mod_p};
use crate::mont::{pod_coordinates, point_from_mont, point_to_mont};

verus! {

/// In place of a second input: there is none, and the first is copied.
pub const PADD_INDEX_NO_INPUT_2: u32 = 0xffff_ffff;

/// Added to a bucket's number in place of an output index: the result is
/// the sum of that bucket.
pub const PADD_INDEX_OUTPUT_TO_BUCKET: u32 = 0x8000_0000;

/// One addition of a level: the indices of the two inputs among the points
/// of the level, and where the result goes.
#[derive(Clone, Copy, Debug)]
pub struct PaddIndices {
    pub in_idx_1: u32,
    pub in_idx_2: u32,
    pub out_idx: u32,
}

/// The index lists of the buckets, as sequences.
pub open spec fn deep(lists: Seq<Vec<u32>>) -> Seq<Seq<u32>> {
    Seq::new(lists.len(), |v: int| lists[v]@)
}

/// The indices among the first `n` scalars of those that are `v`, in
/// ascending order; none for `v = 0`.
pub open spec fn indices_of(scalars: Seq<u32>, n: nat, v: nat) -> Seq<u32>
    decreases n,
{
    if n == 0 {
        Seq::empty()
    } else {
        let before = indices_of(scalars, (n - 1) as nat, v);
        if v != 0 && scalars[n - 1] == v {
            before.push((n - 1) as u32)
        } else {
            before
        }
    }
}

/// The pairs that `len` points make, one of a single point counted.
pub open spec fn pairs(len: nat) -> nat {
    (len + 1) / 2
}

/// The points that a bucket hands on to the next level.
pub open spec fn outputs_of(idxs: Seq<u32>) -> nat {
    if idxs.len() >= 3 {
        pairs(idxs.len())
    } else {
        0
    }
}

/// The additions that a bucket takes in one level.
pub open spec fn records_of(idxs: Seq<u32>) -> nat {
    if idxs.len() == 0 {
        0
    } else if idxs.len() <= 2 {
        1
    } else {
        pairs(idxs.len())
    }
}

/// The points that the buckets before `b` hand on to the next level.
pub open spec fn outputs_before(lists: Seq<Seq<u32>>, b: nat) -> nat
    decreases b,
{
    if b == 0 {
        0
    } else {
        outputs_before(lists, (b - 1) as nat) + outputs_of(lists[b - 1])
    }
}

/// The points of the buckets before `b`.
pub open spec fn total_len(lists: Seq<Seq<u32>>, b: nat) -> nat
    decreases b,
{
    if b == 0 {
        0
    } else {
        total_len(lists, (b - 1) as nat) + lists[b - 1].len()
    }
}

/// The additions of one bucket in one level. A bucket of one point copies
/// it to the bucket's sum, one of two adds them to the bucket's sum, and a
/// larger one adds its points two by two, copies a last single one, and
/// hands the results on at the indices from `next_out` on.
pub open spec fn bucket_records(bucket: nat, idxs: Seq<u32>, next_out: nat) -> Seq<PaddIndices> {
    if idxs.len() == 0 {
        Seq::empty()
    } else if idxs.len() == 1 {
        seq![
            PaddIndices {
                in_idx_1: idxs[0],
                in_idx_2: PADD_INDEX_NO_INPUT_2,
                out_idx: (PADD_INDEX_OUTPUT_TO_BUCKET + bucket) as u32,
            },
        ]
    } else if idxs.len() == 2 {
        seq![
            PaddIndices {
                in_idx_1: idxs[0],
                in_idx_2: idxs[1],
                out_idx: (PADD_INDEX_OUTPUT_TO_BUCKET + bucket) as u32,
            },
        ]
    } else {
        Seq::new(
            pairs(idxs.len()),
            |k: int|
                PaddIndices {
                    in_idx_1: idxs[2 * k],
                    in_idx_2: if 2 * k + 1 < idxs.len() {
                        idxs[2 * k + 1]
                    } else {
                        PADD_INDEX_NO_INPUT_2
                    },
                    out_idx: (next_out + k) as u32,
                },
        )
    }
}

/// The indices of a bucket's points in the next level.
pub open spec fn bucket_next(idxs: Seq<u32>, next_out: nat) -> Seq<u32> {
    Seq::new(outputs_of(idxs), |k: int| (next_out + k) as u32)
}

/// The additions of one level for the buckets before `b`, bucket after
/// bucket.
pub open spec fn level_records(lists: Seq<Seq<u32>>, b: nat) -> Seq<PaddIndices>
    decreases b,
{
    if b == 0 {
        Seq::empty()
    } else {
        level_records(lists, (b - 1) as nat) + bucket_records(
            (b - 1) as nat,
            lists[b - 1],
            outputs_before(lists, (b - 1) as nat),
        )
    }
}

/// The index lists of the next level.
pub open spec fn next_lists(lists: Seq<Seq<u32>>) -> Seq<Seq<u32>> {
    Seq::new(lists.len(), |v: int| bucket_next(lists[v], outputs_before(lists, v as nat)))
}

proof fn lemma_outputs_bound(lists: Seq<Seq<u32>>, b: nat)
    requires
        b <= lists.len(),
    ensures
        outputs_before(lists, b) <= total_len(lists, b),
        level_records(lists, b).len() <= total_len(lists, b),
        total_len(next_lists(lists), b) == outputs_before(lists, b),
        total_len(lists, b) > 0 ==> level_records(lists, b).len() > 0 && outputs_before(lists, b)
            < total_len(lists, b),
        total_len(lists, b) == 0 ==> level_records(lists, b).len() == 0,
    decreases b,
{
    if b > 0 {
        lemma_outputs_bound(lists, (b - 1) as nat);
        lemma_total_len_prefix(next_lists(lists), lists, b);
    }
}

proof fn lemma_total_len_prefix(next: Seq<Seq<u32>>, lists: Seq<Seq<u32>>, b: nat)
    requires
        b <= lists.len(),
        next == next_lists(lists),
    ensures
        b > 0 ==> total_len(next, b) == total_len(next, (b - 1) as nat) + outputs_of(lists[b - 1]),
{
}

proof fn lemma_total_len_monotone(lists: Seq<Seq<u32>>, a: nat, b: nat)
    requires
        a <= b,
    ensures
        total_len(lists, a) <= total_len(lists, b),
        outputs_before(lists, a) <= outputs_before(lists, b),
        a < b ==> outputs_before(lists, a) + outputs_of(lists[a as int]) <= outputs_before(lists, b),
        a < b ==> level_records(lists, a).len() + records_of(lists[a as int]) <= level_records(
            lists,
            b,
        ).len(),
    decreases b,
{
    if a < b {
        lemma_total_len_monotone(lists, a, (b - 1) as nat);
    }
}

/// The additions of bucket `v` stand together among those of a level.
proof fn lemma_records_of_bucket(lists: Seq<Seq<u32>>, b: nat, v: nat, k: int)
    requires
        v < b,
        0 <= k < records_of(lists[v as int]),
    ensures
        level_records(lists, v).len() + k < level_records(lists, b).len(),
        level_records(lists, b)[level_records(lists, v).len() + k] == bucket_records(
            v,
            lists[v as int],
            outputs_before(lists, v),
        )[k],
    decreases b,
{
    if v + 1 < b {
        lemma_records_of_bucket(lists, (b - 1) as nat, v, k);
    }
}

/// Each addition of a level belongs to one bucket.
proof fn lemma_record_owner(lists: Seq<Seq<u32>>, b: nat, r: int) -> (owner: (nat, int))
    requires
        0 <= r < level_records(lists, b).len(),
    ensures
        owner.0 < b,
        0 <= owner.1 < records_of(lists[owner.0 as int]),
        r == level_records(lists, owner.0).len() + owner.1,
        level_records(lists, b)[r] == bucket_records(
            owner.0,
            lists[owner.0 as int],
            outputs_before(lists, owner.0),
        )[owner.1],
    decreases b,
{
    let before = level_records(lists, (b - 1) as nat);
    if r < before.len() {
        lemma_record_owner(lists, (b - 1) as nat, r)
    } else {
        ((b - 1) as nat, r - before.len())
    }
}

/// The lists of the buckets of a window: for each bucket the indices of its
/// points, in ascending order.
pub fn index_by_bucket(scalars: &[u32], n_buckets: usize) -> (lists: Vec<Vec<u32>>)
    requires
        scalars.len() <= u32::MAX,
        forall|i: int| 0 <= i < scalars.len() ==> scalars[i] < n_buckets,
    ensures
        lists.len() == n_buckets,
        forall|v: int|
            0 <= v < n_buckets ==> (#[trigger] lists[v])@ == indices_of(
                scalars@,
                scalars.len() as nat,
                v as nat,
            ),
{
    let mut lists: Vec<Vec<u32>> = Vec::with_capacity(n_buckets);
    let mut v: usize = 0;
    while v < n_buckets
        invariant
            v <= n_buckets,
            lists.len() == v,
            forall|k: int| 0 <= k < v ==> (#[trigger] lists[k])@ == Seq::<u32>::empty(),
        decreases n_buckets - v,
    {
        lists.push(Vec::new());
        v += 1;
    }
    let mut i: usize = 0;
    while i < scalars.len()
        invariant
            i <= scalars.len(),
            scalars.len() <= u32::MAX,
            lists.len() == n_buckets,
            forall|k: int| 0 <= k < scalars.len() ==> scalars[k] < n_buckets,
            forall|b: int|
                0 <= b < n_buckets ==> (#[trigger] lists[b])@ == indices_of(
                    scalars@,
                    i as nat,
                    b as nat,
                ),
        decreases scalars.len() - i,
    {
        let scalar = scalars[i];
        if scalar != 0 {
            let ghost before = lists@;
            lists[scalar as usize].push(i as u32);
            assert forall|b: int| 0 <= b < n_buckets implies (#[trigger] lists[b])@ == indices_of(
                scalars@,
                (i + 1) as nat,
                b as nat,
            ) by {
                assert(before[b]@ == indices_of(scalars@, i as nat, b as nat));
            }
        }
        i += 1;
    }
    lists
}

/// The additions of the next level and the index lists that it leaves. The
/// lists hold no more than `2^31` points, so that no output index reaches
/// the mark of an output to a bucket.
pub fn compute_next_padd_indices(idx_by_bucket: &Vec<Vec<u32>>) -> (r: (
    Vec<PaddIndices>,
    Vec<Vec<u32>>,
))
    requires
        idx_by_bucket.len() <= 0x8000_0000,
        total_len(deep(idx_by_bucket@), idx_by_bucket.len() as nat) <= 0x8000_0000,
    ensures
        r.0@ == level_records(deep(idx_by_bucket@), idx_by_bucket.len() as nat),
        deep(r.1@) == next_lists(deep(idx_by_bucket@)),
{
    let ghost d = deep(idx_by_bucket@);
    let n = idx_by_bucket.len();
    let mut indices: Vec<PaddIndices> = Vec::new();
    let mut new_idx_by_bucket: Vec<Vec<u32>> = Vec::with_capacity(n);
    let mut next_output_idx: u32 = 0;
    let mut bucket: usize = 0;
    while bucket < n
        invariant
            bucket <= n,
            n == idx_by_bucket.len(),
            n <= 0x8000_0000,
            d == deep(idx_by_bucket@),
            total_len(d, n as nat) <= 0x8000_0000,
            indices@ == level_records(d, bucket as nat),
            next_output_idx == outputs_before(d, bucket as nat),
            new_idx_by_bucket.len() == bucket,
            forall|v: int|
                0 <= v < bucket ==> (#[trigger] new_idx_by_bucket[v])@ == bucket_next(
                    d[v],
                    outputs_before(d, v as nat),
                ),
        decreases n - bucket,
    {
        let idxs = &idx_by_bucket[bucket];
        let x = idxs.len();
        let mut handed_on: Vec<u32> = Vec::new();
        proof {
            assert(d[bucket as int] == idxs@);
            lemma_outputs_bound(d, n as nat);
            lemma_total_len_monotone(d, bucket as nat, n as nat);
            lemma_total_len_monotone(d, (bucket + 1) as nat, n as nat);
        }
        let ghost target = bucket_records(bucket as nat, idxs@, next_output_idx as nat);
        if x == 1 || x == 2 {
            let to_bucket = PADD_INDEX_OUTPUT_TO_BUCKET | (bucket as u32);
            assert(to_bucket == PADD_INDEX_OUTPUT_TO_BUCKET + bucket) by {
                let b = bucket as u32;
                assert(0x8000_0000u32 | b == 0x8000_0000u32 + b) by (bit_vector)
                    requires
                        b < 0x8000_0000u32,
                ;
            }
            let second = if x == 2 {
                idxs[1]
            } else {
                PADD_INDEX_NO_INPUT_2
            };
            indices.push(PaddIndices { in_idx_1: idxs[0], in_idx_2: second, out_idx: to_bucket });
            assert(indices@ =~= level_records(d, bucket as nat) + target);
        } else if x >= 3 {
            let count = (x + 1) / 2;
            let ghost first = next_output_idx;
            let ghost before = indices@;
            let mut k: usize = 0;
            while k < count
                invariant
                    k <= count,
                    count == pairs(x as nat),
                    x == idxs.len(),
                    x >= 3,
                    first + count <= 0x8000_0000,
                    next_output_idx == first + k,
                    target == bucket_records(bucket as nat, idxs@, first as nat),
                    indices@ == before + target.subrange(0, k as int),
                    handed_on@ == bucket_next(idxs@, first as nat).subrange(0, k as int),
                decreases count - k,
            {
                let i = 2 * k;
                let second = if i + 1 < x {
                    idxs[i + 1]
                } else {
                    PADD_INDEX_NO_INPUT_2
                };
                indices.push(
                    PaddIndices { in_idx_1: idxs[i], in_idx_2: second, out_idx: next_output_idx },
                );
                handed_on.push(next_output_idx);
                next_output_idx = next_output_idx + 1;
                k += 1;
                assert(indices@ =~= before + target.subrange(0, k as int));
                assert(handed_on@ =~= bucket_next(idxs@, first as nat).subrange(0, k as int));
            }
            assert(indices@ =~= level_records(d, bucket as nat) + target);
            assert(handed_on@ =~= bucket_next(idxs@, first as nat));
        } else {
            assert(indices@ =~= level_records(d, bucket as nat) + target);
        }
        assert(handed_on@ =~= bucket_next(d[bucket as int], outputs_before(d, bucket as nat)));
        new_idx_by_bucket.push(handed_on);
        bucket += 1;
    }
    assert(deep(new_idx_by_bucket@) =~= next_lists(d));
    (indices, new_idx_by_bucket)
}

/// The neutral point in Montgomery form.
pub open spec fn mont_zero() -> Coordinates {
    Coordinates { x: 0, y: r_mod_p(), t: 0, z: r_mod_p() }
}

/// The sum of two points, in Montgomery form or on residues.
pub open spec fn pair_sum(mont: bool, a: Coordinates, b: Coordinates) -> Coordinates {
    if mont {
        mont_edwards_sum(a, b)
    } else {
        edwards_sum(a, b)
    }
}

/// The points of the next level: the sums of the pairs, and a last single
/// point as it is.
pub open spec fn pair_up(mont: bool, l: Seq<Coordinates>) -> Seq<Coordinates> {
    Seq::new(
        pairs(l.len()),
        |k: int|
            if 2 * k + 1 < l.len() {
                pair_sum(mont, l[2 * k], l[2 * k + 1])
            } else {
                l[2 * k]
            },
    )
}

/// The sum of a bucket by the tree of pairs: the neutral point for no
/// point, the point itself for one, the sum for two, and for more the sum
/// of the next level.
pub open spec fn tree_sum(mont: bool, l: Seq<Coordinates>) -> Coordinates
    decreases l.len(),
{
    if l.len() == 0 {
        if mont {
            mont_zero()
        } else {
            neutral()
        }
    } else if l.len() == 1 {
        l[0]
    } else if l.len() == 2 {
        pair_sum(mont, l[0], l[1])
    } else {
        tree_sum(mont, pair_up(mont, l))
    }
}

/// The tree of pairs in Montgomery form stands for the tree of what the
/// points stand for.
pub proof fn lemma_tree_decodes(l: Seq<Coordinates>)
    ensures
        tree_sum(true, l).from_mont() == tree_sum(
            false,
            Seq::new(l.len(), |i: int| l[i].from_mont()),
        ),
    decreases l.len(),
{
    let decoded = Seq::new(l.len(), |i: int| l[i].from_mont());
    if l.len() == 0 {
        lemma_zero_decodes();
    } else if l.len() == 1 {
    } else if l.len() == 2 {
        lemma_point_add_decodes(l[0], l[1]);
    } else {
        let up = pair_up(true, l);
        lemma_tree_decodes(up);
        let up_decoded = Seq::new(up.len(), |i: int| up[i].from_mont());
        assert(up_decoded =~= pair_up(false, decoded)) by {
            assert forall|k: int| 0 <= k < up.len() implies up_decoded[k] == pair_up(
                false,
                decoded,
            )[k] by {
                if 2 * k + 1 < l.len() {
                    lemma_point_add_decodes(l[2 * k], l[2 * k + 1]);
                }
            }
        }
    }
}

/// What one addition puts out: the first input where there is no second,
/// else the sum of the two.
pub open spec fn record_result(rec: PaddIndices, input: Seq<Coordinates>) -> Coordinates {
    if rec.in_idx_2 == PADD_INDEX_NO_INPUT_2 {
        input[rec.in_idx_1 as int]
    } else {
        mont_edwards_sum(input[rec.in_idx_1 as int], input[rec.in_idx_2 as int])
    }
}

/// Whether the inputs of an addition have residues for coordinates.
pub open spec fn record_defined(rec: PaddIndices, input: Seq<MontgomeryPoint>) -> bool {
    input[rec.in_idx_1 as int].wf() && (rec.in_idx_2 == PADD_INDEX_NO_INPUT_2
        || input[rec.in_idx_2 as int].wf())
}

/// Whether an addition reads and writes within the buffers.
pub open spec fn record_in_bounds(rec: PaddIndices, inputs: nat, outputs: nat, buckets: nat)
    -> bool {
    &&& rec.in_idx_1 < inputs
    &&& rec.in_idx_2 == PADD_INDEX_NO_INPUT_2 || rec.in_idx_2 < inputs
    &&& if rec.out_idx >= PADD_INDEX_OUTPUT_TO_BUCKET {
        rec.out_idx - PADD_INDEX_OUTPUT_TO_BUCKET < buckets
    } else {
        rec.out_idx < outputs
    }
}

/// One level: each addition reads its inputs among `input` and writes its
/// result to the sum of a bucket or among `output`. No two additions write
/// to one place.
pub fn apply_level(
    records: &Vec<PaddIndices>,
    input: &Vec<MontgomeryPoint>,
    output: &mut Vec<MontgomeryPoint>,
    buckets: &mut Vec<MontgomeryPoint>,
)
    requires
        forall|r: int|
            0 <= r < records.len() ==> record_in_bounds(
                #[trigger] records[r],
                input.len() as nat,
                old(output).len() as nat,
                old(buckets).len() as nat,
            ),
        forall|r: int, q: int|
            0 <= r < q < records.len() ==> records[r].out_idx != records[q].out_idx,
    ensures
        final(output).len() == old(output).len(),
        final(buckets).len() == old(buckets).len(),
        forall|r: int|
            0 <= r < records.len() && record_defined(#[trigger] records[r], input@) ==> {
                let result = if records[r].out_idx >= PADD_INDEX_OUTPUT_TO_BUCKET {
                    final(buckets)[records[r].out_idx - PADD_INDEX_OUTPUT_TO_BUCKET]
                } else {
                    final(output)[records[r].out_idx as int]
                };
                result.wf() && result@ == record_result(records[r], mont_coordinates(input@))
            },
        forall|b: int|
            0 <= b < old(buckets).len() && (forall|r: int|
                0 <= r < records.len() ==> (#[trigger] records[r]).out_idx
                    != PADD_INDEX_OUTPUT_TO_BUCKET + b) ==> final(buckets)[b] == old(buckets)[b],
        forall|o: int|
            0 <= o < old(output).len() && (forall|r: int|
                0 <= r < records.len() ==> (#[trigger] records[r]).out_idx != o) ==> final(output)[o] == old(output)[o],
{
    let ghost cs = mont_coordinates(input@);
    let mut r: usize = 0;
    while r < records.len()
        invariant
            r <= records.len(),
            output.len() == old(output).len(),
            buckets.len() == old(buckets).len(),
            cs == mont_coordinates(input@),
            forall|q: int|
                0 <= q < records.len() ==> record_in_bounds(
                    #[trigger] records[q],
                    input.len() as nat,
                    output.len() as nat,
                    buckets.len() as nat,
                ),
            forall|p: int, q: int|
                0 <= p < q < records.len() ==> records[p].out_idx != records[q].out_idx,
            forall|q: int|
                0 <= q < r && record_defined(#[trigger] records[q], input@) ==> {
                    let result = if records[q].out_idx >= PADD_INDEX_OUTPUT_TO_BUCKET {
                        buckets[records[q].out_idx - PADD_INDEX_OUTPUT_TO_BUCKET]
                    } else {
                        output[records[q].out_idx as int]
                    };
                    result.wf() && result@ == record_result(records[q], cs)
                },
            forall|b: int|
                0 <= b < buckets.len() && (forall|q: int|
                    0 <= q < r ==> (#[trigger] records[q]).out_idx != PADD_INDEX_OUTPUT_TO_BUCKET
                        + b) ==> buckets[b] == old(buckets)[b],
            forall|o: int|
                0 <= o < output.len() && (forall|q: int|
                    0 <= q < r ==> (#[trigger] records[q]).out_idx != o) ==> output[o] == old(output)[o],
        decreases records.len() - r,
    {
        let rec = records[r];
        let first = input[rec.in_idx_1 as usize];
        let result = if rec.in_idx_2 == PADD_INDEX_NO_INPUT_2 {
            first
        } else {
            point_add(&first, &input[rec.in_idx_2 as usize])
        };
        let ghost output_before = output@;
        let ghost buckets_before = buckets@;
        if rec.out_idx >= PADD_INDEX_OUTPUT_TO_BUCKET {
            buckets[(rec.out_idx - PADD_INDEX_OUTPUT_TO_BUCKET) as usize] = result;
        } else {
            output[rec.out_idx as usize] = result;
        }
        proof {
            assert forall|q: int|
                0 <= q < r + 1 && record_defined(#[trigger] records[q], input@) implies ({
                let result = if records[q].out_idx >= PADD_INDEX_OUTPUT_TO_BUCKET {
                    buckets[records[q].out_idx - PADD_INDEX_OUTPUT_TO_BUCKET]
                } else {
                    output[records[q].out_idx as int]
                };
                result.wf() && result@ == record_result(records[q], cs)
            }) by {
                if q < r {
                    assert(records[q].out_idx != records[r as int].out_idx);
                    if records[q].out_idx >= PADD_INDEX_OUTPUT_TO_BUCKET {
                        assert(buckets[records[q].out_idx - PADD_INDEX_OUTPUT_TO_BUCKET]
                            == buckets_before[records[q].out_idx - PADD_INDEX_OUTPUT_TO_BUCKET]);
                    } else {
                        assert(output[records[q].out_idx as int]
                            == output_before[records[q].out_idx as int]);
                    }
                }
            }
            assert forall|b: int|
                0 <= b < buckets.len() && (forall|q: int|
                    0 <= q < r + 1 ==> (#[trigger] records[q]).out_idx
                        != PADD_INDEX_OUTPUT_TO_BUCKET + b) implies buckets[b] == old(buckets)[b] by {
                assert(records[r as int].out_idx != PADD_INDEX_OUTPUT_TO_BUCKET + b);
                assert(buckets[b] == buckets_before[b]);
            }
            assert forall|o: int|
                0 <= o < output.len() && (forall|q: int|
                    0 <= q < r + 1 ==> (#[trigger] records[q]).out_idx != o) implies output[o]
                == old(output)[o] by {
                assert(records[r as int].out_idx != o);
                assert(output[o] == output_before[o]);
            }
        }
        r += 1;
    }
}

/// Each index of each list lies among `inputs` points.
pub open spec fn lists_valid(d: Seq<Seq<u32>>, inputs: nat) -> bool {
    forall|v: int, k: int| 0 <= v < d.len() && 0 <= k < d[v].len() ==> #[trigger] d[v][k] < inputs
}

/// Each point that a list names has residues for coordinates.
pub open spec fn lists_wf(d: Seq<Seq<u32>>, points: Seq<MontgomeryPoint>) -> bool {
    forall|v: int, k: int|
        0 <= v < d.len() && 0 <= k < d[v].len() ==> points[#[trigger] d[v][k] as int].wf()
}

/// The points that a list names.
pub open spec fn values(points: Seq<MontgomeryPoint>, l: Seq<u32>) -> Seq<Coordinates> {
    Seq::new(l.len(), |k: int| points[l[k] as int]@)
}

/// Bucket `v` is on its way to `target`: its sum is there, or the tree of
/// the points that are left of it leads there.
pub open spec fn bucket_state(
    d: Seq<Seq<u32>>,
    points: Seq<MontgomeryPoint>,
    buckets: Seq<MontgomeryPoint>,
    target: Coordinates,
    v: int,
) -> bool {
    if d[v].len() == 0 {
        buckets[v]@ == target
    } else {
        tree_sum(true, values(points, d[v])) == target
    }
}

/// The additions of a level stay within the buffers, and no two of them
/// write to one place.
proof fn lemma_level_in_bounds(d: Seq<Seq<u32>>, inputs: nat)
    requires
        d.len() <= 0x8000_0000,
        total_len(d, d.len()) <= inputs,
        inputs <= 0x8000_0000,
        lists_valid(d, inputs),
    ensures
        forall|r: int|
            0 <= r < level_records(d, d.len()).len() ==> record_in_bounds(
                #[trigger] level_records(d, d.len())[r],
                inputs,
                inputs,
                d.len(),
            ),
        forall|r: int, q: int|
            0 <= r < q < level_records(d, d.len()).len() ==> level_records(d, d.len())[r].out_idx
                != level_records(d, d.len())[q].out_idx,
{
    let n = d.len();
    let records = level_records(d, n);
    lemma_outputs_bound(d, n);
    assert forall|r: int| 0 <= r < records.len() implies record_in_bounds(
        #[trigger] records[r],
        inputs,
        inputs,
        n,
    ) by {
        let (v, k) = lemma_record_owner(d, n, r);
        lemma_total_len_monotone(d, v, n);
        let l = d[v as int];
        if l.len() >= 3 {
            assert(l[2 * k] < inputs);
            if 2 * k + 1 < l.len() {
                assert(l[2 * k + 1] < inputs);
            }
        } else {
            assert(l[0] < inputs);
            if l.len() == 2 {
                assert(l[1] < inputs);
            }
        }
    }
    assert forall|r: int, q: int| 0 <= r < q < records.len() implies records[r].out_idx
        != records[q].out_idx by {
        let (v, k) = lemma_record_owner(d, n, r);
        let (w, j) = lemma_record_owner(d, n, q);
        lemma_total_len_monotone(d, v, n);
        lemma_total_len_monotone(d, w, n);
        if v < w {
            lemma_total_len_monotone(d, v, w);
        } else if w < v {
            lemma_total_len_monotone(d, w, v);
        }
    }
}

/// The lists of the next level name points among the outputs.
proof fn lemma_next_valid(d: Seq<Seq<u32>>, inputs: nat)
    requires
        total_len(d, d.len()) <= inputs,
        inputs <= 0x8000_0000,
    ensures
        lists_valid(next_lists(d), inputs),
        total_len(next_lists(d), d.len()) <= inputs,
        total_len(d, d.len()) > 0 ==> total_len(next_lists(d), d.len()) < total_len(d, d.len()),
{
    let n = d.len();
    let next = next_lists(d);
    lemma_outputs_bound(d, n);
    assert forall|v: int, k: int| 0 <= v < next.len() && 0 <= k < next[v].len() implies #[trigger] next[v][k]
        < inputs by {
        lemma_total_len_monotone(d, v as nat, n);
    }
}

/// After a level each bucket is still on its way to its target.
proof fn lemma_level_step(
    d: Seq<Seq<u32>>,
    input: Seq<MontgomeryPoint>,
    output: Seq<MontgomeryPoint>,
    buckets_before: Seq<MontgomeryPoint>,
    buckets: Seq<MontgomeryPoint>,
    targets: Seq<Coordinates>,
    v: int,
)
    requires
        0 <= v < d.len(),
        d.len() <= 0x8000_0000,
        d.len() == buckets.len(),
        buckets.len() == buckets_before.len(),
        input.len() == output.len(),
        total_len(d, d.len()) <= input.len(),
        input.len() <= 0x8000_0000,
        lists_valid(d, input.len()),
        lists_wf(d, input),
        bucket_state(d, input, buckets_before, targets[v], v),
        forall|r: int|
            0 <= r < level_records(d, d.len()).len() && record_defined(
                #[trigger] level_records(d, d.len())[r],
                input,
            ) ==> {
                let rec = level_records(d, d.len())[r];
                let result = if rec.out_idx >= PADD_INDEX_OUTPUT_TO_BUCKET {
                    buckets[rec.out_idx - PADD_INDEX_OUTPUT_TO_BUCKET]
                } else {
                    output[rec.out_idx as int]
                };
                result.wf() && result@ == record_result(rec, mont_coordinates(input))
            },
        forall|b: int|
            0 <= b < buckets.len() && (forall|r: int|
                0 <= r < level_records(d, d.len()).len() ==> (#[trigger] level_records(
                    d,
                    d.len(),
                )[r]).out_idx != PADD_INDEX_OUTPUT_TO_BUCKET + b) ==> buckets[b]
                == buckets_before[b],
    ensures
        bucket_state(next_lists(d), output, buckets, targets[v], v),
        forall|k: int|
            0 <= k < next_lists(d)[v].len() ==> output[#[trigger] next_lists(d)[v][k] as int].wf(),
        d[v].len() == 1 || d[v].len() == 2 ==> buckets[v].wf(),
        d[v].len() == 0 || d[v].len() >= 3 ==> buckets[v] == buckets_before[v],
{
    let n = d.len();
    let records = level_records(d, n);
    let l = d[v];
    let cs = mont_coordinates(input);
    let next = next_lists(d);
    let base = level_records(d, v as nat).len();
    lemma_outputs_bound(d, n);
    lemma_total_len_monotone(d, v as nat, n);
    if l.len() == 1 || l.len() == 2 {
        lemma_records_of_bucket(d, n, v as nat, 0);
        let rec = records[base as int];
        assert(input[l[0] as int].wf());
        if l.len() == 2 {
            assert(input[l[1] as int].wf());
            assert(l[1] < input.len());
        }
        assert(record_defined(rec, input));
        assert(rec.out_idx == PADD_INDEX_OUTPUT_TO_BUCKET + v);
        assert(cs[l[0] as int] == input[l[0] as int]@);
        assert(values(input, l)[0] == input[l[0] as int]@);
        if l.len() == 2 {
            assert(cs[l[1] as int] == input[l[1] as int]@);
            assert(values(input, l)[1] == input[l[1] as int]@);
        }
    } else if l.len() >= 3 {
        let first = outputs_before(d, v as nat);
        let up = pair_up(true, values(input, l));
        assert(values(output, next[v]) =~= up) by {
            assert forall|k: int| 0 <= k < up.len() implies values(output, next[v])[k]
                == up[k] by {
                lemma_records_of_bucket(d, n, v as nat, k);
                let rec = records[base + k];
                assert(input[l[2 * k] as int].wf());
                assert(cs[l[2 * k] as int] == input[l[2 * k] as int]@);
                if 2 * k + 1 < l.len() {
                    assert(input[l[2 * k + 1] as int].wf());
                    assert(l[2 * k + 1] < input.len());
                    assert(cs[l[2 * k + 1] as int] == input[l[2 * k + 1] as int]@);
                }
                assert(record_defined(rec, input));
                assert(rec.out_idx == first + k);
            }
        }
        assert forall|k: int| 0 <= k < next[v].len() implies output[#[trigger] next[v][k] as int].wf() by {
            lemma_records_of_bucket(d, n, v as nat, k);
            let rec = records[base + k];
            assert(input[l[2 * k] as int].wf());
            if 2 * k + 1 < l.len() {
                assert(input[l[2 * k + 1] as int].wf());
                assert(l[2 * k + 1] < input.len());
            }
            assert(record_defined(rec, input));
            assert(rec.out_idx == first + k);
        }
        lemma_bucket_untouched(d, v);
    } else {
        lemma_bucket_untouched(d, v);
    }
}

/// No addition writes to the sum of a bucket of no point or of more than
/// two.
proof fn lemma_bucket_untouched(d: Seq<Seq<u32>>, v: int)
    requires
        0 <= v < d.len(),
        d.len() <= 0x8000_0000,
        total_len(d, d.len()) <= 0x8000_0000,
        d[v].len() == 0 || d[v].len() >= 3,
    ensures
        forall|r: int|
            0 <= r < level_records(d, d.len()).len() ==> (#[trigger] level_records(
                d,
                d.len(),
            )[r]).out_idx != PADD_INDEX_OUTPUT_TO_BUCKET + v,
{
    let n = d.len();
    let records = level_records(d, n);
    lemma_outputs_bound(d, n);
    assert forall|r: int| 0 <= r < records.len() implies (#[trigger] records[r]).out_idx
        != PADD_INDEX_OUTPUT_TO_BUCKET + v by {
        let (w, k) = lemma_record_owner(d, n, r);
        lemma_total_len_monotone(d, w, n);
    }
}

/// The points of bucket `v`, in the order of the inputs.
pub open spec fn bucket_points(scalars: Seq<u32>, points: Seq<Coordinates>, v: nat) -> Seq<
    Coordinates,
> {
    let idx = indices_of(scalars, scalars.len(), v);
    Seq::new(idx.len(), |k: int| points[idx[k] as int])
}

/// The index lists of the first `n` scalars.
pub open spec fn index_lists(scalars: Seq<u32>, n: nat, n_buckets: nat) -> Seq<Seq<u32>> {
    Seq::new(n_buckets, |v: int| indices_of(scalars, n, v as nat))
}

proof fn lemma_index_lists_step(scalars: Seq<u32>, n: nat, n_buckets: nat, b: nat)
    requires
        b <= n_buckets,
    ensures
        total_len(index_lists(scalars, n + 1, n_buckets), b) == total_len(
            index_lists(scalars, n, n_buckets),
            b,
        ) + if scalars[n as int] != 0 && scalars[n as int] < b {
            1nat
        } else {
            0nat
        },
    decreases b,
{
    if b > 0 {
        lemma_index_lists_step(scalars, n, n_buckets, (b - 1) as nat);
    }
}

proof fn lemma_index_lists(scalars: Seq<u32>, n: nat, n_buckets: nat)
    requires
        n <= scalars.len(),
        n <= u32::MAX,
    ensures
        total_len(index_lists(scalars, n, n_buckets), n_buckets) <= n,
        lists_valid(index_lists(scalars, n, n_buckets), n),
    decreases n,
{
    if n == 0 {
        lemma_empty_lists(index_lists(scalars, 0, n_buckets), n_buckets);
    } else {
        lemma_index_lists(scalars, (n - 1) as nat, n_buckets);
        lemma_index_lists_step(scalars, (n - 1) as nat, n_buckets, n_buckets);
        let d = index_lists(scalars, n, n_buckets);
        let before = index_lists(scalars, (n - 1) as nat, n_buckets);
        assert forall|v: int, k: int| 0 <= v < d.len() && 0 <= k < d[v].len() implies #[trigger] d[v][k]
            < n by {
            if k < before[v].len() {
                assert(d[v][k] == before[v][k]);
            }
        }
    }
}

proof fn lemma_empty_lists(d: Seq<Seq<u32>>, b: nat)
    requires
        b <= d.len(),
        forall|v: int| 0 <= v < d.len() ==> (#[trigger] d[v]).len() == 0,
    ensures
        total_len(d, b) == 0,
    decreases b,
{
    if b > 0 {
        lemma_empty_lists(d, (b - 1) as nat);
    }
}

proof fn lemma_no_points_left(d: Seq<Seq<u32>>, b: nat, v: int)
    requires
        0 <= v < b <= d.len(),
        total_len(d, b) == 0,
    ensures
        d[v].len() == 0,
    decreases b,
{
    if v < b - 1 {
        lemma_no_points_left(d, (b - 1) as nat, v);
    }
}

/// Sums the buckets of one window by the tree of pairs over `n_buckets`
/// buckets.
pub struct GpuIntraBucketReducer {
    pub n_buckets: usize,
}

impl GpuIntraBucketReducer {
    /// A reducer for windows of `n_buckets` buckets.
    pub fn new(n_buckets: usize) -> (r: Self)
        ensures
            r.n_buckets == n_buckets,
    {
        GpuIntraBucketReducer { n_buckets }
    }

    /// The sum of each bucket by the tree of pairs. There are at most
    /// `2^31` buckets and at most `2^31` points.
    pub fn reduce_points(&self, scalars: &[u32], points: &[PodPoint]) -> (sums: Vec<PodPoint>)
        requires
            self.n_buckets <= 0x8000_0000,
            scalars.len() <= points.len(),
            points.len() <= 0x8000_0000,
            forall|i: int| 0 <= i < scalars.len() ==> scalars[i] < self.n_buckets,
        ensures
            sums.len() == self.n_buckets,
            (forall|i: int| 0 <= i < points.len() ==> (#[trigger] points[i])@.reduced()) ==> forall|
                v: int,
            |
                0 <= v < self.n_buckets ==> (#[trigger] sums[v])@ == tree_sum(
                    false,
                    bucket_points(scalars@, pod_coordinates(points@), v as nat),
                ) && sums[v]@.reduced(),
    {
        let n_buckets = self.n_buckets;
        let m = points.len();
        let ghost g = forall|i: int| 0 <= i < points.len() ==> (#[trigger] points[i])@.reduced();
        // the points in Montgomery form, the scratch points and the sums
        let mut cur: Vec<MontgomeryPoint> = Vec::with_capacity(m);
        let mut other: Vec<MontgomeryPoint> = Vec::with_capacity(m);
        let mut i: usize = 0;
        while i < m
            invariant
                i <= m,
                m == points.len(),
                cur.len() == i,
                other.len() == i,
                forall|k: int|
                    0 <= k < i && points[k]@.reduced() ==> (#[trigger] cur[k]).wf() && cur[k]@
                        == points[k]@.to_mont(),
            decreases m - i,
        {
            cur.push(point_to_mont(&points[i]));
            other.push(MontgomeryPoint::zero());
            i += 1;
        }
        let mut buckets: Vec<MontgomeryPoint> = Vec::with_capacity(n_buckets);
        let mut b: usize = 0;
        while b < n_buckets
            invariant
                b <= n_buckets,
                buckets.len() == b,
                all_mont_wf(buckets@),
                forall|k: int| 0 <= k < b ==> (#[trigger] buckets[k])@ == mont_zero(),
            decreases n_buckets - b,
        {
            buckets.push(MontgomeryPoint::zero());
            b += 1;
        }
        let mut lists = index_by_bucket(scalars, n_buckets);
        let ghost first = cur@;
        let ghost d0 = deep(lists@);
        let ghost targets = Seq::new(n_buckets as nat, |v: int| tree_sum(true, values(first, d0[v])));
        proof {
            assert(d0 =~= index_lists(scalars@, scalars.len() as nat, n_buckets as nat));
            lemma_index_lists(scalars@, scalars.len() as nat, n_buckets as nat);
            assert forall|v: int| 0 <= v < n_buckets implies bucket_state(
                d0,
                cur@,
                buckets@,
                #[trigger] targets[v],
                v,
            ) by {
                if d0[v].len() == 0 {
                    assert(values(first, d0[v]) =~= Seq::<Coordinates>::empty());
                }
            }
            if g {
                assert forall|v: int, k: int|
                    0 <= v < d0.len() && 0 <= k < d0[v].len() implies cur@[#[trigger] d0[v][k] as int].wf() by {
                    assert(points[d0[v][k] as int]@.reduced());
                }
            }
        }
        let (mut records, mut next) = compute_next_padd_indices(&lists);
        while records.len() > 0
            invariant
                n_buckets == self.n_buckets,
                n_buckets <= 0x8000_0000,
                lists.len() == n_buckets,
                buckets.len() == n_buckets,
                cur.len() == m,
                other.len() == m,
                m <= 0x8000_0000,
                total_len(deep(lists@), n_buckets as nat) <= m,
                lists_valid(deep(lists@), m as nat),
                records@ == level_records(deep(lists@), n_buckets as nat),
                deep(next@) == next_lists(deep(lists@)),
                targets.len() == n_buckets,
                g ==> all_mont_wf(buckets@),
                g ==> lists_wf(deep(lists@), cur@),
                g ==> forall|v: int|
                    0 <= v < n_buckets ==> bucket_state(
                        deep(lists@),
                        cur@,
                        buckets@,
                        #[trigger] targets[v],
                        v,
                    ),
            decreases total_len(deep(lists@), n_buckets as nat),
        {
            let ghost d = deep(lists@);
            let ghost buckets_before = buckets@;
            proof {
                lemma_level_in_bounds(d, m as nat);
                lemma_next_valid(d, m as nat);
                lemma_outputs_bound(d, n_buckets as nat);
            }
            apply_level(&records, &cur, &mut other, &mut buckets);
            proof {
                if g {
                    assert forall|v: int| 0 <= v < n_buckets implies bucket_state(
                        next_lists(d),
                        other@,
                        buckets@,
                        #[trigger] targets[v],
                        v,
                    ) && buckets@[v].wf() && (forall|k: int|
                        0 <= k < next_lists(d)[v].len() ==> other@[#[trigger] next_lists(
                            d,
                        )[v][k] as int].wf()) by {
                        lemma_level_step(d, cur@, other@, buckets_before, buckets@, targets, v);
                        assert(buckets_before[v].wf());
                    }
                    assert forall|v: int, k: int|
                        0 <= v < next_lists(d).len() && 0 <= k < next_lists(
                            d,
                        )[v].len() implies other@[#[trigger] next_lists(d)[v][k] as int].wf() by {
                        lemma_level_step(d, cur@, other@, buckets_before, buckets@, targets, v);
                    }
                    assert(lists_wf(next_lists(d), other@));
                    assert forall|v: int| 0 <= v < n_buckets implies (
                    #[trigger] buckets@[v]).wf() by {
                        lemma_level_step(d, cur@, other@, buckets_before, buckets@, targets, v);
                        assert(buckets_before[v].wf());
                    }
                }
            }
            let spare = cur;
            cur = other;
            other = spare;
            assert(next@.len() == deep(next@).len());
            lists = next;
            assert(deep(lists@) == next_lists(d));
            let level = compute_next_padd_indices(&lists);
            records = level.0;
            next = level.1;
        }
        // out of Montgomery form
        let mut sums: Vec<PodPoint> = Vec::with_capacity(n_buckets);
        let mut v: usize = 0;
        while v < n_buckets
            invariant
                v <= n_buckets,
                buckets.len() == n_buckets,
                sums.len() == v,
                forall|k: int|
                    0 <= k < v && buckets[k].wf() ==> (#[trigger] sums[k])@
                        == buckets[k]@.from_mont() && sums[k]@.reduced(),
            decreases n_buckets - v,
        {
            sums.push(point_from_mont(&buckets[v]));
            v += 1;
        }
        proof {
            if g {
                let d = deep(lists@);
                lemma_outputs_bound(d, n_buckets as nat);
                let std = pod_coordinates(points@);
                assert forall|v: int| 0 <= v < n_buckets implies (#[trigger] sums[v])@ == tree_sum(
                    false,
                    bucket_points(scalars@, std, v as nat),
                ) && sums[v]@.reduced() by {
                    lemma_no_points_left(d, n_buckets as nat, v);
                    assert(bucket_state(d, cur@, buckets@, targets[v], v));
                    assert(buckets@[v].wf());
                    let l = values(first, d0[v]);
                    lemma_tree_decodes(l);
                    let decoded = Seq::new(l.len(), |i: int| l[i].from_mont());
                    assert(decoded =~= bucket_points(scalars@, std, v as nat)) by {
                        assert forall|k: int| 0 <= k < l.len() implies decoded[k] == bucket_points(
                            scalars@,
                            std,
                            v as nat,
                        )[k] by {
                            let at = d0[v][k] as int;
                            assert(at < scalars.len());
                            assert(points[at]@.reduced());
                            assert(first[at]@ == points[at]@.to_mont());
                            lemma_mont_round_trip(points[at]@.x);
                            lemma_mont_round_trip(points[at]@.y);
                            lemma_mont_round_trip(points[at]@.t);
                            lemma_mont_round_trip(points[at]@.z);
                        }
                    }
                }
            }
        }
        sums
    }

    /// The sum of each bucket by the tree of pairs, as a flat array of
    /// points.
    pub fn reduce(&self, scalars: &[u32], points: &[PodPoint]) -> (flat: Vec<u32>)
        requires
            self.n_buckets <= 0x8000_0000,
            scalars.len() <= points.len(),
            points.len() <= 0x8000_0000,
            forall|i: int| 0 <= i < scalars.len() ==> scalars[i] < self.n_buckets,
        ensures
            flat.len() == 32 * self.n_buckets,
            (forall|i: int| 0 <= i < points.len() ==> (#[trigger] points[i])@.reduced()) ==> forall|
                v: int,
            |
                0 <= v < self.n_buckets ==> #[trigger] point_at(flat@, v) == tree_sum(
                    false,
                    bucket_points(scalars@, pod_coordinates(points@), v as nat),
                ),
    {
        let sums = self.reduce_points(scalars, points);
        let flat = write_pod_points(sums.as_slice());
        proof {
            if forall|i: int| 0 <= i < points.len() ==> (#[trigger] points[i])@.reduced() {
                assert forall|v: int| 0 <= v < self.n_buckets implies #[trigger] point_at(flat@, v)
                    == tree_sum(
                    false,
                    bucket_points(scalars@, pod_coordinates(points@), v as nat),
                ) by {
                    assert(point_at(flat@, v) == sums[v]@);
                }
            }
        }
        flat
    }
}

} // verus!
