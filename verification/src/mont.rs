//! The per-point kernels (to and from Montgomery form, and the addition of
//! neighbouring points) and the batches in which a device runs them.

use vstd::prelude::*;
use crate::bytes::{EdwardsPoint, PodPoint};
use crate::curve::{
    lemma_point_add_original_decodes, mont_edwards_sum, mont_unified_sum, point_add,
    point_add_original, unified_sum, Coordinates, MontgomeryPoint,
};
use crate::field::{from_mont, lemma_mont_round_trip, to_mont};
use crate::u256::U256;

verus! {

/// What a device allows, as far as the batches depend on it.
#[derive(Clone, Copy, Debug)]
pub struct DeviceLimits {
    pub max_storage_buffer_binding_size: u32,
    pub max_compute_workgroups_per_dimension: u32,
    pub max_buffer_size: u64,
}

/// A kernel that makes one output point from one input point or from two
/// neighbouring ones.
#[derive(Clone, Copy, Debug, PartialEq, Eq, Structural)]
pub enum Kernel {
    /// Each coordinate to Montgomery form.
    ToMont,
    /// Each coordinate from Montgomery form.
    FromMont,
    /// The sum of two neighbouring points in Montgomery form.
    Padd,
    /// The sum of two neighbouring points by the unified addition, in and
    /// out as plain residues.
    PaddOriginal,
}

impl Kernel {
    /// The input points for one output point.
    pub open spec fn arity(self) -> usize {
        match self {
            Kernel::ToMont | Kernel::FromMont => 1,
            Kernel::Padd | Kernel::PaddOriginal => 2,
        }
    }

    /// The input points by which a batch must be divisible: the points that
    /// one workgroup takes where that is fewer than the whole batch.
    pub open spec fn granule(self) -> usize {
        match self {
            Kernel::ToMont | Kernel::FromMont => 1,
            Kernel::Padd => 4,
            Kernel::PaddOriginal => 2,
        }
    }

    /// Whether the inputs of output `k` are residues.
    pub open spec fn defined(self, input: Seq<Coordinates>, k: int) -> bool {
        match self {
            Kernel::ToMont | Kernel::FromMont => input[k].reduced(),
            Kernel::Padd | Kernel::PaddOriginal => input[2 * k].reduced() && input[2 * k
                + 1].reduced(),
        }
    }

    /// Output `k`.
    pub open spec fn output(self, input: Seq<Coordinates>, k: int) -> Coordinates {
        match self {
            Kernel::ToMont => input[k].to_mont(),
            Kernel::FromMont => input[k].from_mont(),
            Kernel::Padd => mont_edwards_sum(input[2 * k], input[2 * k + 1]),
            Kernel::PaddOriginal => unified_sum(input[2 * k], input[2 * k + 1]),
        }
    }

    /// The input points for one output point.
    pub fn inputs_per_output(self) -> (r: usize)
        ensures
            r == self.arity(),
    {
        match self {
            Kernel::ToMont | Kernel::FromMont => 1,
            Kernel::Padd | Kernel::PaddOriginal => 2,
        }
    }

    /// The workgroups that a batch of `len` input points takes: two for a
    /// point to convert, one for four points to add in Montgomery form, one
    /// for 128 points to add by the unified addition.
    pub fn workgroups(self, len: usize) -> (r: usize)
        requires
            2 * len <= usize::MAX,
        ensures
            r == match self {
                Kernel::ToMont | Kernel::FromMont => 2 * len,
                Kernel::Padd => len as int / 4,
                Kernel::PaddOriginal => len as int / 128,
            },
    {
        match self {
            Kernel::ToMont | Kernel::FromMont => 2 * len,
            Kernel::Padd => len / 4,
            Kernel::PaddOriginal => len / 128,
        }
    }

    /// The largest batch that the limits allow for `len` input points.
    pub fn batch_size(self, len: usize, limits: &DeviceLimits) -> (r: usize)
        ensures
            r == self.batch_size_for(len as nat, *limits),
    {
        let by_binding = (limits.max_storage_buffer_binding_size / 128) as usize;
        let groups = limits.max_compute_workgroups_per_dimension as usize;
        let (by_binding, by_groups) = match self {
            Kernel::ToMont | Kernel::FromMont => (by_binding, groups / 2),
            Kernel::Padd => (
                by_binding / 2 * 2,
                if groups <= usize::MAX / 4 {
                    groups * 4
                } else {
                    usize::MAX
                },
            ),
            Kernel::PaddOriginal => (
                by_binding / 2 * 2,
                if groups <= usize::MAX / 64 {
                    groups * 64
                } else {
                    usize::MAX
                },
            ),
        };
        let mut r = len;
        if by_binding < r {
            r = by_binding;
        }
        if by_groups < r {
            r = by_groups;
        }
        r
    }

    /// The least of the number of points, the points that fit a storage
    /// binding (an even number of them where points are added), and the
    /// points that the workgroups of one dispatch take.
    pub open spec fn batch_size_for(self, len: nat, limits: DeviceLimits) -> nat {
        let by_binding = limits.max_storage_buffer_binding_size as nat / 128;
        let groups = limits.max_compute_workgroups_per_dimension as nat;
        let (by_binding, by_groups) = match self {
            Kernel::ToMont | Kernel::FromMont => (by_binding, groups / 2),
            Kernel::Padd => (by_binding / 2 * 2, groups * 4),
            Kernel::PaddOriginal => (by_binding / 2 * 2, groups * 64),
        };
        if by_binding <= len && by_binding <= by_groups {
            by_binding
        } else if by_groups <= len {
            by_groups
        } else {
            len
        }
    }
}

/// The bytes of the staging buffer for `len` points: as many points as
/// there are, or as a buffer holds.
pub fn staging_size(len: usize, limits: &DeviceLimits) -> (r: u64)
    ensures
        r == staging_size_for(len as nat, *limits),
{
    let fit = limits.max_buffer_size / 128;
    if (len as u64) < fit {
        (len as u64) * 128
    } else {
        fit * 128
    }
}

/// The bytes of the staging buffer for `len` points.
pub open spec fn staging_size_for(len: nat, limits: DeviceLimits) -> nat {
    let fit = limits.max_buffer_size as nat / 128;
    if len < fit {
        len * 128
    } else {
        fit * 128
    }
}

/// One batch: which input points it takes, where in the staging buffer its
/// results go, and whether the staging buffer is read out after it.
#[derive(Clone, Copy, Debug)]
pub struct BatchStep {
    /// The first input point.
    pub start: usize,
    /// The number of input points.
    pub len: usize,
    /// The byte of the staging buffer at which the results start.
    pub staging_offset: u64,
    /// The bytes of the results.
    pub result_size: u64,
    /// Whether the staging buffer is read out, and refilled from its start,
    /// after this batch: the next batch would not fit behind this one, or
    /// there is none.
    pub needs_mapping: bool,
}

/// The input points of the batch that starts at `start`.
pub open spec fn batch_len(total: nat, batch_size: nat, start: nat) -> nat {
    if total - start < batch_size {
        (total - start) as nat
    } else {
        batch_size
    }
}

/// The bytes that a batch of `len` input points puts out.
pub open spec fn result_bytes(kernel: Kernel, len: nat) -> nat {
    len / (kernel.arity() as nat) * 128
}

/// The batch that starts at input point `start` when `staging_offset` bytes
/// of the staging buffer are taken, and the offset for the batch after it.
pub fn batch_step(
    kernel: Kernel,
    total: usize,
    batch_size: usize,
    staging: u64,
    start: usize,
    staging_offset: u64,
) -> (r: (BatchStep, u64))
    requires
        start < total,
        batch_size >= 1,
        total * 128 <= u64::MAX,
        result_bytes(kernel, batch_size as nat) <= staging,
        staging_offset + result_bytes(
            kernel,
            batch_len(total as nat, batch_size as nat, start as nat),
        ) <= staging,
    ensures
        r.0.start == start,
        r.0.len == batch_len(total as nat, batch_size as nat, start as nat),
        r.0.staging_offset == staging_offset,
        r.0.result_size == result_bytes(kernel, r.0.len as nat),
        r.0.staging_offset + r.0.result_size <= staging,
        r.0.needs_mapping == (start + r.0.len == total || staging_offset + r.0.result_size
            + result_bytes(
            kernel,
            batch_len(total as nat, batch_size as nat, (start + r.0.len) as nat),
        ) > staging),
        r.1 == if r.0.needs_mapping {
            0
        } else {
            staging_offset + r.0.result_size
        },
        start + r.0.len < total ==> r.1 + result_bytes(
            kernel,
            batch_len(total as nat, batch_size as nat, (start + r.0.len) as nat),
        ) <= staging,
{
    let arity = kernel.inputs_per_output();
    let len = if total - start < batch_size {
        total - start
    } else {
        batch_size
    };
    let result_size = ((len / arity) as u64) * 128;
    let next_start = start + len;
    let needs_mapping = if next_start == total {
        true
    } else {
        let next_len = if total - next_start < batch_size {
            total - next_start
        } else {
            batch_size
        };
        let next_size = ((next_len / arity) as u64) * 128;
        proof {
            lemma_result_bytes_monotone(kernel, next_len as nat, batch_size as nat);
        }
        next_size > staging - (staging_offset + result_size)
    };
    let step = BatchStep { start, len, staging_offset, result_size, needs_mapping };
    let next_offset = if needs_mapping {
        0
    } else {
        staging_offset + result_size
    };
    proof {
        if next_start < total {
            lemma_result_bytes_monotone(
                kernel,
                batch_len(total as nat, batch_size as nat, next_start as nat),
                batch_size as nat,
            );
        }
    }
    (step, next_offset)
}

proof fn lemma_result_bytes_monotone(kernel: Kernel, a: nat, b: nat)
    requires
        a <= b,
    ensures
        result_bytes(kernel, a) <= result_bytes(kernel, b),
{
    if kernel.arity() == 2 {
        assert(a / 2 <= b / 2);
    }
}

fn pod_to_montgomery(p: &PodPoint) -> (r: MontgomeryPoint)
    ensures
        r@ == p@,
{
    MontgomeryPoint { x: U256(p.x), y: U256(p.y), t: U256(p.t), z: U256(p.z) }
}

fn montgomery_to_pod(p: &MontgomeryPoint) -> (r: PodPoint)
    ensures
        r@ == p@,
{
    PodPoint { x: p.x.0, y: p.y.0, t: p.t.0, z: p.z.0 }
}

/// Each coordinate of a point to Montgomery form.
pub fn point_to_mont(p: &PodPoint) -> (r: MontgomeryPoint)
    ensures
        p@.reduced() ==> r.wf() && r@ == p@.to_mont(),
{
    MontgomeryPoint {
        x: to_mont(&U256(p.x)),
        y: to_mont(&U256(p.y)),
        t: to_mont(&U256(p.t)),
        z: to_mont(&U256(p.z)),
    }
}

/// Each coordinate of a point from Montgomery form.
pub fn point_from_mont(p: &MontgomeryPoint) -> (r: PodPoint)
    ensures
        p.wf() ==> r@.reduced() && r@ == p@.from_mont(),
{
    PodPoint {
        x: from_mont(&p.x).0,
        y: from_mont(&p.y).0,
        t: from_mont(&p.t).0,
        z: from_mont(&p.z).0,
    }
}

/// Each coordinate of a point of the host to Montgomery form.
pub fn edwards_to_mont(p: &EdwardsPoint) -> (r: MontgomeryPoint)
    ensures
        p.wf() ==> r.wf() && r@ == p@.to_mont(),
{
    point_to_mont(&p.to_pod())
}

/// Each coordinate of a point from Montgomery form, for the host.
pub fn edwards_from_mont(p: &MontgomeryPoint) -> (r: EdwardsPoint)
    ensures
        p.wf() ==> r.wf() && r@ == p@.from_mont(),
{
    point_from_mont(p).to_words()
}

/// The coordinates of each point of a sequence.
pub open spec fn pod_coordinates(points: Seq<PodPoint>) -> Seq<Coordinates> {
    Seq::new(points.len(), |i: int| points[i]@)
}

/// Converting two points of residues to Montgomery form, adding them there
/// by the unified addition and converting back gives their unified sum.
pub proof fn lemma_unified_sum_through_mont(p: Coordinates, q: Coordinates)
    requires
        p.reduced(),
        q.reduced(),
    ensures
        mont_unified_sum(p.to_mont(), q.to_mont()).from_mont() == unified_sum(p, q),
{
    lemma_point_add_original_decodes(p.to_mont(), q.to_mont());
    lemma_mont_round_trip(p.x);
    lemma_mont_round_trip(p.y);
    lemma_mont_round_trip(p.t);
    lemma_mont_round_trip(p.z);
    lemma_mont_round_trip(q.x);
    lemma_mont_round_trip(q.y);
    lemma_mont_round_trip(q.t);
    lemma_mont_round_trip(q.z);
}

/// Output `k` of a kernel on the points `input`.
pub fn run_kernel(kernel: Kernel, input: &[PodPoint], k: usize) -> (r: PodPoint)
    requires
        (k + 1) * kernel.arity() <= input.len(),
    ensures
        kernel.defined(pod_coordinates(input@), k as int) ==> r@ == kernel.output(
            pod_coordinates(input@),
            k as int,
        ),
{
    match kernel {
        Kernel::ToMont => montgomery_to_pod(&point_to_mont(&input[k])),
        Kernel::FromMont => point_from_mont(&pod_to_montgomery(&input[k])),
        Kernel::Padd => {
            let p = pod_to_montgomery(&input[2 * k]);
            let q = pod_to_montgomery(&input[2 * k + 1]);
            montgomery_to_pod(&point_add(&p, &q))
        },
        Kernel::PaddOriginal => {
            let p = point_to_mont(&input[2 * k]);
            let q = point_to_mont(&input[2 * k + 1]);
            proof {
                if input[2 * k]@.reduced() && input[2 * k + 1]@.reduced() {
                    lemma_unified_sum_through_mont(input[2 * k]@, input[2 * k + 1]@);
                }
            }
            point_from_mont(&point_add_original(&p, &q))
        },
    }
}

/// Runs a kernel over all the points, batch after batch: the results of a
/// batch go to the staging buffer behind those of the batch before, and the
/// staging buffer is read out whenever the next batch would not fit.
pub fn run_batched(kernel: Kernel, points: &[PodPoint], batch_size: usize, staging: u64) -> (results:
    Vec<PodPoint>)
    requires
        points.len() > 0,
        batch_size >= 1,
        points.len() % kernel.granule() == 0,
        batch_size % kernel.granule() == 0,
        points.len() * 128 <= u64::MAX,
        result_bytes(kernel, batch_size as nat) <= staging,
    ensures
        results.len() == points.len() / kernel.arity(),
        forall|k: int|
            0 <= k < results.len() && kernel.defined(pod_coordinates(points@), k) ==> (
            #[trigger] results[k])@ == kernel.output(pod_coordinates(points@), k),
{
    let total = points.len();
    let arity = kernel.inputs_per_output();
    let ghost input = pod_coordinates(points@);
    let mut results: Vec<PodPoint> = Vec::with_capacity(total / arity);
    let mut staged: Vec<PodPoint> = Vec::new();
    let mut start: usize = 0;
    let mut offset: u64 = 0;
    proof {
        lemma_result_bytes_monotone(kernel, batch_len(total as nat, batch_size as nat, 0), batch_size as nat);
    }
    while start < total
        invariant
            start <= total,
            total == points.len(),
            arity == kernel.arity(),
            batch_size >= 1,
            total % kernel.granule() == 0,
            batch_size % kernel.granule() == 0,
            start % kernel.granule() == 0,
            total * 128 <= u64::MAX,
            input == pod_coordinates(points@),
            result_bytes(kernel, batch_size as nat) <= staging,
            start < total ==> offset + result_bytes(
                kernel,
                batch_len(total as nat, batch_size as nat, start as nat),
            ) <= staging,
            offset == staged.len() * 128,
            start == total ==> staged.len() == 0,
            (results.len() + staged.len()) * arity == start,
            forall|k: int|
                0 <= k < results.len() && kernel.defined(input, k) ==> (#[trigger] results[k])@
                    == kernel.output(input, k),
            forall|k: int|
                0 <= k < staged.len() && kernel.defined(input, results.len() + k) ==> (
                #[trigger] staged[k])@ == kernel.output(input, results.len() + k),
        decreases total - start,
    {
        let (step, next_offset) = batch_step(kernel, total, batch_size, staging, start, offset);
        let outputs = step.len / arity;
        let first = start / arity;
        proof {
            assert(step.len % kernel.granule() == 0);
            assert(first == results.len() + staged.len());
        }
        let mut k: usize = 0;
        while k < outputs
            invariant
                k <= outputs,
                outputs == step.len / arity,
                step.len % arity == 0,
                first == start / arity,
                start % arity == 0,
                start + step.len <= total,
                total == points.len(),
                arity == kernel.arity(),
                input == pod_coordinates(points@),
                first + k == results.len() + staged.len(),
                forall|j: int|
                    0 <= j < staged.len() && kernel.defined(input, results.len() + j) ==> (
                    #[trigger] staged[j])@ == kernel.output(input, results.len() + j),
            decreases outputs - k,
        {
            assert((first + k + 1) * arity <= total) by (nonlinear_arith)
                requires
                    k < outputs,
                    outputs * arity <= step.len,
                    first * arity <= start,
                    start + step.len <= total,
                    arity >= 1,
            ;
            let out = run_kernel(kernel, points, first + k);
            staged.push(out);
            k += 1;
        }
        if step.needs_mapping {
            let mut j: usize = 0;
            let ghost done = results.len();
            while j < staged.len()
                invariant
                    j <= staged.len(),
                    results.len() == done + j,
                    forall|k: int|
                        0 <= k < results.len() && kernel.defined(input, k) ==> (
                        #[trigger] results[k])@ == kernel.output(input, k),
                    forall|k: int|
                        0 <= k < staged.len() && kernel.defined(input, done + k) ==> (
                        #[trigger] staged[k])@ == kernel.output(input, done + k),
                decreases staged.len() - j,
            {
                results.push(staged[j]);
                j += 1;
            }
            staged.clear();
        }
        proof {
            assert((results.len() + staged.len()) * arity == start + step.len) by (nonlinear_arith)
                requires
                    results.len() + staged.len() == first + outputs,
                    first * arity == start,
                    outputs * arity == step.len,
            ;
        }
        start = start + step.len;
        offset = next_offset;
    }
    results
}

/// Whether the limits allow `kernel` to run over `len` points: there is a
/// point, a batch holds at least one workgroup's points and no part of one,
/// and the staging buffer holds the results of a batch.
pub open spec fn can_run(kernel: Kernel, len: nat, limits: DeviceLimits) -> bool {
    &&& len > 0
    &&& len * 128 <= u64::MAX
    &&& len % (kernel.granule() as nat) == 0
    &&& kernel.batch_size_for(len, limits) >= 1
    &&& kernel.batch_size_for(len, limits) % (kernel.granule() as nat) == 0
    &&& result_bytes(kernel, kernel.batch_size_for(len, limits)) <= staging_size_for(len, limits)
}

/// Whether the limits allow `kernel` to run over `len` points.
pub fn check_can_run(kernel: Kernel, len: usize, limits: &DeviceLimits) -> (r: bool)
    ensures
        r == can_run(kernel, len as nat, *limits),
{
    let granule: usize = match kernel {
        Kernel::ToMont | Kernel::FromMont => 1,
        Kernel::Padd => 4,
        Kernel::PaddOriginal => 2,
    };
    if len == 0 || (len as u64) > u64::MAX / 128 || len % granule != 0 {
        return false;
    }
    let batch = kernel.batch_size(len, limits);
    if batch == 0 || batch % granule != 0 {
        return false;
    }
    let arity = kernel.inputs_per_output();
    ((batch / arity) as u64) * 128 <= staging_size(len, limits)
}

/// The same points as limbs.
pub fn pods_of_points(points: &[EdwardsPoint]) -> (pods: Vec<PodPoint>)
    ensures
        pods.len() == points.len(),
        forall|i: int| 0 <= i < pods.len() ==> (#[trigger] pods[i])@ == points[i]@,
{
    let mut pods: Vec<PodPoint> = Vec::with_capacity(points.len());
    let mut i: usize = 0;
    while i < points.len()
        invariant
            i <= points.len(),
            pods.len() == i,
            forall|k: int| 0 <= k < i ==> (#[trigger] pods[k])@ == points[k]@,
        decreases points.len() - i,
    {
        pods.push(points[i].to_pod());
        i += 1;
    }
    pods
}

/// The same points as words.
pub fn points_of_pods(pods: &Vec<PodPoint>) -> (points: Vec<EdwardsPoint>)
    ensures
        points.len() == pods.len(),
        forall|i: int| 0 <= i < pods.len() ==> (#[trigger] points[i])@ == pods[i]@,
{
    let mut points: Vec<EdwardsPoint> = Vec::with_capacity(pods.len());
    let mut i: usize = 0;
    while i < pods.len()
        invariant
            i <= pods.len(),
            points.len() == i,
            forall|k: int| 0 <= k < i ==> (#[trigger] points[k])@ == pods[k]@,
        decreases pods.len() - i,
    {
        points.push(pods[i].to_words());
        i += 1;
    }
    points
}

fn pods_of_montgomery(points: &[MontgomeryPoint]) -> (pods: Vec<PodPoint>)
    ensures
        pods.len() == points.len(),
        forall|i: int| 0 <= i < pods.len() ==> (#[trigger] pods[i])@ == points[i]@,
{
    let mut pods: Vec<PodPoint> = Vec::with_capacity(points.len());
    let mut i: usize = 0;
    while i < points.len()
        invariant
            i <= points.len(),
            pods.len() == i,
            forall|k: int| 0 <= k < i ==> (#[trigger] pods[k])@ == points[k]@,
        decreases points.len() - i,
    {
        pods.push(montgomery_to_pod(&points[i]));
        i += 1;
    }
    pods
}

fn montgomery_of_pods(pods: &Vec<PodPoint>) -> (points: Vec<MontgomeryPoint>)
    ensures
        points.len() == pods.len(),
        forall|i: int| 0 <= i < pods.len() ==> (#[trigger] points[i])@ == pods[i]@,
{
    let mut points: Vec<MontgomeryPoint> = Vec::with_capacity(pods.len());
    let mut i: usize = 0;
    while i < pods.len()
        invariant
            i <= pods.len(),
            points.len() == i,
            forall|k: int| 0 <= k < i ==> (#[trigger] points[k])@ == pods[k]@,
        decreases pods.len() - i,
    {
        points.push(pod_to_montgomery(&pods[i]));
        i += 1;
    }
    points
}

/// Converts points to and from Montgomery form, in the batches that a
/// device's limits allow.
pub struct GpuMontgomeryConverter {
    pub limits: DeviceLimits,
}

impl GpuMontgomeryConverter {
    /// A converter for a device with these limits.
    pub fn new(limits: DeviceLimits) -> (r: Self)
        ensures
            r.limits == limits,
    {
        GpuMontgomeryConverter { limits }
    }

    /// Each coordinate of each point in Montgomery form.
    pub fn to_mont(&self, points: &[EdwardsPoint]) -> (results: Vec<MontgomeryPoint>)
        requires
            can_run(Kernel::ToMont, points.len() as nat, self.limits),
        ensures
            results.len() == points.len(),
            forall|i: int|
                0 <= i < points.len() && points[i].wf() ==> (#[trigger] results[i]).wf()
                    && results[i]@ == points[i]@.to_mont(),
    {
        let pods = pods_of_points(points);
        let batch = Kernel::ToMont.batch_size(points.len(), &self.limits);
        let staging = staging_size(points.len(), &self.limits);
        let out = run_batched(Kernel::ToMont, pods.as_slice(), batch, staging);
        let results = montgomery_of_pods(&out);
        proof {
            let input = pod_coordinates(pods@);
            assert forall|i: int| 0 <= i < points.len() && points[i].wf() implies (
            #[trigger] results[i]).wf() && results[i]@ == points[i]@.to_mont() by {
                assert(input[i] == points[i]@);
                assert(Kernel::ToMont.defined(input, i));
                assert(out[i]@ == Kernel::ToMont.output(input, i));
                crate::field::lemma_field_constants();
                vstd::arithmetic::div_mod::lemma_mod_bound(
                    (points[i]@.x * crate::u256::two_256()) as int,
                    crate::field::modulus() as int,
                );
                vstd::arithmetic::div_mod::lemma_mod_bound(
                    (points[i]@.y * crate::u256::two_256()) as int,
                    crate::field::modulus() as int,
                );
                vstd::arithmetic::div_mod::lemma_mod_bound(
                    (points[i]@.t * crate::u256::two_256()) as int,
                    crate::field::modulus() as int,
                );
                vstd::arithmetic::div_mod::lemma_mod_bound(
                    (points[i]@.z * crate::u256::two_256()) as int,
                    crate::field::modulus() as int,
                );
            }
        }
        results
    }

    /// Each coordinate of each point out of Montgomery form.
    pub fn from_mont(&self, points: &[MontgomeryPoint]) -> (results: Vec<EdwardsPoint>)
        requires
            can_run(Kernel::FromMont, points.len() as nat, self.limits),
        ensures
            results.len() == points.len(),
            forall|i: int|
                0 <= i < points.len() && points[i].wf() ==> (#[trigger] results[i]).wf()
                    && results[i]@ == points[i]@.from_mont(),
    {
        let pods = pods_of_montgomery(points);
        let batch = Kernel::FromMont.batch_size(points.len(), &self.limits);
        let staging = staging_size(points.len(), &self.limits);
        let out = run_batched(Kernel::FromMont, pods.as_slice(), batch, staging);
        let results = points_of_pods(&out);
        proof {
            let input = pod_coordinates(pods@);
            assert forall|i: int| 0 <= i < points.len() && points[i].wf() implies (
            #[trigger] results[i]).wf() && results[i]@ == points[i]@.from_mont() by {
                assert(input[i] == points[i]@);
                assert(Kernel::FromMont.defined(input, i));
                assert(out[i]@ == Kernel::FromMont.output(input, i));
                crate::field::lemma_field_constants();
                vstd::arithmetic::div_mod::lemma_mod_bound(
                    (points[i]@.x * crate::field::r_inverse()) as int,
                    crate::field::modulus() as int,
                );
                vstd::arithmetic::div_mod::lemma_mod_bound(
                    (points[i]@.y * crate::field::r_inverse()) as int,
                    crate::field::modulus() as int,
                );
                vstd::arithmetic::div_mod::lemma_mod_bound(
                    (points[i]@.t * crate::field::r_inverse()) as int,
                    crate::field::modulus() as int,
                );
                vstd::arithmetic::div_mod::lemma_mod_bound(
                    (points[i]@.z * crate::field::r_inverse()) as int,
                    crate::field::modulus() as int,
                );
            }
        }
        results
    }
}

/// Adds neighbouring points in Montgomery form, in the batches that a
/// device's limits allow.
pub struct GpuPadd {
    pub limits: DeviceLimits,
}

impl GpuPadd {
    /// An adder for a device with these limits.
    pub fn new(limits: DeviceLimits) -> (r: Self)
        ensures
            r.limits == limits,
    {
        GpuPadd { limits }
    }

    /// The sums of the points at `2 i` and `2 i + 1`.
    pub fn add(&self, points: &[MontgomeryPoint]) -> (results: Vec<MontgomeryPoint>)
        requires
            can_run(Kernel::Padd, points.len() as nat, self.limits),
        ensures
            results.len() == points.len() / 2,
            forall|i: int|
                0 <= i < results.len() && points[2 * i].wf() && points[2 * i + 1].wf() ==> (
                #[trigger] results[i])@ == mont_edwards_sum(points[2 * i]@, points[2 * i + 1]@),
    {
        let pods = pods_of_montgomery(points);
        let batch = Kernel::Padd.batch_size(points.len(), &self.limits);
        let staging = staging_size(points.len(), &self.limits);
        let out = run_batched(Kernel::Padd, pods.as_slice(), batch, staging);
        let results = montgomery_of_pods(&out);
        proof {
            let input = pod_coordinates(pods@);
            assert forall|i: int|
                0 <= i < results.len() && points[2 * i].wf() && points[2 * i
                    + 1].wf() implies (#[trigger] results[i])@ == mont_edwards_sum(
                points[2 * i]@,
                points[2 * i + 1]@,
            ) by {
                assert(input[2 * i] == points[2 * i]@);
                assert(input[2 * i + 1] == points[2 * i + 1]@);
                assert(Kernel::Padd.defined(input, i));
                assert(out[i]@ == Kernel::Padd.output(input, i));
            }
        }
        results
    }
}

/// Adds neighbouring points by the unified addition, in the batches that a
/// device's limits allow.
pub struct GpuPaddOriginal {
    pub limits: DeviceLimits,
}

impl GpuPaddOriginal {
    /// An adder for a device with these limits.
    pub fn new(limits: DeviceLimits) -> (r: Self)
        ensures
            r.limits == limits,
    {
        GpuPaddOriginal { limits }
    }

    /// The sums of the points at `2 i` and `2 i + 1`.
    pub fn add(&self, points: &[EdwardsPoint]) -> (results: Vec<EdwardsPoint>)
        requires
            can_run(Kernel::PaddOriginal, points.len() as nat, self.limits),
        ensures
            results.len() == points.len() / 2,
            forall|i: int|
                0 <= i < results.len() && points[2 * i].wf() && points[2 * i + 1].wf() ==> (
                #[trigger] results[i])@ == unified_sum(points[2 * i]@, points[2 * i + 1]@),
    {
        let pods = pods_of_points(points);
        let batch = Kernel::PaddOriginal.batch_size(points.len(), &self.limits);
        let staging = staging_size(points.len(), &self.limits);
        let out = run_batched(Kernel::PaddOriginal, pods.as_slice(), batch, staging);
        let results = points_of_pods(&out);
        proof {
            let input = pod_coordinates(pods@);
            assert forall|i: int|
                0 <= i < results.len() && points[2 * i].wf() && points[2 * i
                    + 1].wf() implies (#[trigger] results[i])@ == unified_sum(
                points[2 * i]@,
                points[2 * i + 1]@,
            ) by {
                assert(input[2 * i] == points[2 * i]@);
                assert(input[2 * i + 1] == points[2 * i + 1]@);
                assert(Kernel::PaddOriginal.defined(input, i));
                assert(out[i]@ == Kernel::PaddOriginal.output(input, i));
            }
        }
        results
    }
}

} // verus!
