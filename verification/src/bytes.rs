//! Points and field elements as 32-bit limbs, most significant first, and as
//! 64-bit words, least significant first.

use vstd::prelude::*;
use crate::curve::Coordinates;
use crate::field::is_residue;
use crate::u256::U256;
use crate::limbs::{lemma_value_of_8, limbs_value};

verus! {

/// Four coordinates of eight limbs each.
pub const N_U32S_PER_POINT: usize = 32;

/// The bytes of a point.
pub const N_BYTES_PER_POINT: usize = 128;

/// The value of four 64-bit words, least significant first.
pub open spec fn words_value(w: Seq<u64>) -> nat {
    (w[0] + w[1] * 0x1_0000_0000_0000_0000 + w[2] * 0x1_0000_0000_0000_0000_0000_0000_0000_0000
        + w[3] * 0x1_0000_0000_0000_0000_0000_0000_0000_0000_0000_0000_0000_0000nat) as nat
}

/// A point as it lies in a flat array: `X`, `Y`, `T`, `Z`, each of eight
/// limbs, most significant first.
#[derive(Clone, Copy, Debug)]
pub struct PodPoint {
    pub x: [u32; 8],
    pub y: [u32; 8],
    pub t: [u32; 8],
    pub z: [u32; 8],
}

impl View for PodPoint {
    type V = Coordinates;

    open spec fn view(&self) -> Coordinates {
        Coordinates {
            x: limbs_value(self.x@),
            y: limbs_value(self.y@),
            t: limbs_value(self.t@),
            z: limbs_value(self.z@),
        }
    }
}

/// A point in extended coordinates, each coordinate a residue modulo `p` in
/// four 64-bit words, least significant first.
#[derive(Clone, Copy, Debug)]
pub struct EdwardsPoint {
    pub x: [u64; 4],
    pub y: [u64; 4],
    pub t: [u64; 4],
    pub z: [u64; 4],
}

impl View for EdwardsPoint {
    type V = Coordinates;

    open spec fn view(&self) -> Coordinates {
        Coordinates {
            x: words_value(self.x@),
            y: words_value(self.y@),
            t: words_value(self.t@),
            z: words_value(self.z@),
        }
    }
}

impl EdwardsPoint {
    /// Each coordinate is below `p`.
    pub open spec fn wf(&self) -> bool {
        self@.reduced()
    }

    /// The same point as limbs.
    pub fn to_pod(&self) -> (r: PodPoint)
        ensures
            r@ == self@,
    {
        PodPoint {
            x: write_fq(&self.x),
            y: write_fq(&self.y),
            t: write_fq(&self.t),
            z: write_fq(&self.z),
        }
    }

    /// Whether each coordinate is below `p`.
    pub fn is_wf(&self) -> (r: bool)
        ensures
            r == self.wf(),
    {
        self.to_pod().is_reduced()
    }
}

impl PodPoint {
    /// The same point as words.
    pub fn to_words(&self) -> (r: EdwardsPoint)
        ensures
            r@ == self@,
    {
        EdwardsPoint {
            x: read_fq(self.x.as_slice()),
            y: read_fq(self.y.as_slice()),
            t: read_fq(self.t.as_slice()),
            z: read_fq(self.z.as_slice()),
        }
    }

    /// Whether each coordinate is below `p`.
    pub fn is_reduced(&self) -> (r: bool)
        ensures
            r == self@.reduced(),
    {
        is_residue(&U256(self.x)) && is_residue(&U256(self.y)) && is_residue(&U256(self.t))
            && is_residue(&U256(self.z))
    }
}

/// The words of the integer in the eight limbs of `buf`.
pub fn read_fq(buf: &[u32]) -> (r: [u64; 4])
    requires
        buf.len() == 8,
    ensures
        words_value(r@) == limbs_value(buf@),
{
    proof {
        lemma_value_of_8(buf@);
    }
    [
        (buf[6] as u64) * 0x1_0000_0000 + buf[7] as u64,
        (buf[4] as u64) * 0x1_0000_0000 + buf[5] as u64,
        (buf[2] as u64) * 0x1_0000_0000 + buf[3] as u64,
        (buf[0] as u64) * 0x1_0000_0000 + buf[1] as u64,
    ]
}

/// The eight limbs of the integer in the words `fq`.
pub fn write_fq(fq: &[u64; 4]) -> (buf: [u32; 8])
    ensures
        limbs_value(buf@) == words_value(fq@),
{
    let buf = [
        (fq[3] / 0x1_0000_0000) as u32,
        (fq[3] % 0x1_0000_0000) as u32,
        (fq[2] / 0x1_0000_0000) as u32,
        (fq[2] % 0x1_0000_0000) as u32,
        (fq[1] / 0x1_0000_0000) as u32,
        (fq[1] % 0x1_0000_0000) as u32,
        (fq[0] / 0x1_0000_0000) as u32,
        (fq[0] % 0x1_0000_0000) as u32,
    ];
    proof {
        lemma_value_of_8(buf@);
    }
    buf
}

/// Coordinate `c` (0 to 3 for `X`, `Y`, `T`, `Z`) of point `i` of a flat
/// array of points.
pub open spec fn coordinate_at(flat: Seq<u32>, i: int, c: int) -> Seq<u32> {
    flat.subrange(32 * i + 8 * c, 32 * i + 8 * c + 8)
}

/// The coordinates of point `i` of a flat array of points.
pub open spec fn point_at(flat: Seq<u32>, i: int) -> Coordinates {
    Coordinates {
        x: limbs_value(coordinate_at(flat, i, 0)),
        y: limbs_value(coordinate_at(flat, i, 1)),
        t: limbs_value(coordinate_at(flat, i, 2)),
        z: limbs_value(coordinate_at(flat, i, 3)),
    }
}

/// Every coordinate of every whole point of a flat array is below `p`.
pub open spec fn all_reduced(flat: Seq<u32>) -> bool {
    forall|i: int| 0 <= i < flat.len() / 32 ==> (#[trigger] point_at(flat, i)).reduced()
}

fn read_limbs(flat: &[u32], at: usize) -> (r: [u32; 8])
    requires
        at + 8 <= flat.len(),
    ensures
        r@ == flat@.subrange(at as int, at + 8),
{
    let r = [
        flat[at],
        flat[at + 1],
        flat[at + 2],
        flat[at + 3],
        flat[at + 4],
        flat[at + 5],
        flat[at + 6],
        flat[at + 7],
    ];
    assert(r@ =~= flat@.subrange(at as int, at + 8));
    r
}

/// The points of a flat array, as limbs. Limbs after the last whole point are
/// left out.
pub fn read_pod_points(points_flat: &[u32]) -> (points: Vec<PodPoint>)
    ensures
        points.len() == points_flat.len() / 32,
        forall|i: int| 0 <= i < points.len() ==> (#[trigger] points[i])@ == point_at(points_flat@, i),
{
    let n_points = points_flat.len() / N_U32S_PER_POINT;
    let mut points: Vec<PodPoint> = Vec::with_capacity(n_points);
    let mut i: usize = 0;
    while i < n_points
        invariant
            i <= n_points,
            n_points == points_flat.len() / 32,
            points.len() == i,
            forall|k: int| 0 <= k < i ==> (#[trigger] points[k])@ == point_at(points_flat@, k),
        decreases n_points - i,
    {
        let point = PodPoint {
            x: read_limbs(points_flat, 32 * i),
            y: read_limbs(points_flat, 32 * i + 8),
            t: read_limbs(points_flat, 32 * i + 16),
            z: read_limbs(points_flat, 32 * i + 24),
        };
        points.push(point);
        i += 1;
    }
    points
}

/// The points of a flat array, as words. Limbs after the last whole point are
/// left out.
pub fn read_points(points_flat: &[u32]) -> (points: Vec<EdwardsPoint>)
    ensures
        points.len() == points_flat.len() / 32,
        forall|i: int| 0 <= i < points.len() ==> (#[trigger] points[i])@ == point_at(points_flat@, i),
{
    let n_points = points_flat.len() / N_U32S_PER_POINT;
    let mut points: Vec<EdwardsPoint> = Vec::with_capacity(n_points);
    let mut i: usize = 0;
    while i < n_points
        invariant
            i <= n_points,
            n_points == points_flat.len() / 32,
            points.len() == i,
            forall|k: int| 0 <= k < i ==> (#[trigger] points[k])@ == point_at(points_flat@, k),
        decreases n_points - i,
    {
        let x = read_limbs(points_flat, 32 * i);
        let y = read_limbs(points_flat, 32 * i + 8);
        let t = read_limbs(points_flat, 32 * i + 16);
        let z = read_limbs(points_flat, 32 * i + 24);
        let point = EdwardsPoint {
            x: read_fq(x.as_slice()),
            y: read_fq(y.as_slice()),
            t: read_fq(t.as_slice()),
            z: read_fq(z.as_slice()),
        };
        points.push(point);
        i += 1;
    }
    points
}

fn push_limbs(flat: &mut Vec<u32>, limbs: &[u32; 8])
    ensures
        final(flat)@ == old(flat)@ + limbs@,
{
    let mut k: usize = 0;
    while k < 8
        invariant
            k <= 8,
            flat@ == old(flat)@ + limbs@.subrange(0, k as int),
        decreases 8 - k,
    {
        flat.push(limbs[k]);
        assert(flat@ =~= old(flat)@ + limbs@.subrange(0, k + 1));
        k += 1;
    }
    assert(limbs@.subrange(0, 8) =~= limbs@);
}

/// The flat array of a sequence of points.
pub fn write_points(points: &[EdwardsPoint]) -> (points_flat: Vec<u32>)
    ensures
        points_flat.len() == 32 * points.len(),
        forall|i: int| 0 <= i < points.len() ==> point_at(points_flat@, i) == (#[trigger] points[i])@,
{
    let mut flat: Vec<u32> = Vec::new();
    let mut i: usize = 0;
    while i < points.len()
        invariant
            i <= points.len(),
            flat.len() == 32 * i,
            forall|k: int| 0 <= k < i ==> point_at(flat@, k) == (#[trigger] points[k])@,
        decreases points.len() - i,
    {
        let ghost before = flat@;
        let x = write_fq(&points[i].x);
        let y = write_fq(&points[i].y);
        let t = write_fq(&points[i].t);
        let z = write_fq(&points[i].z);
        push_limbs(&mut flat, &x);
        push_limbs(&mut flat, &y);
        push_limbs(&mut flat, &t);
        push_limbs(&mut flat, &z);
        proof {
            assert(flat@ =~= before + x@ + y@ + t@ + z@);
            assert(coordinate_at(flat@, i as int, 0) =~= x@);
            assert(coordinate_at(flat@, i as int, 1) =~= y@);
            assert(coordinate_at(flat@, i as int, 2) =~= t@);
            assert(coordinate_at(flat@, i as int, 3) =~= z@);
            assert forall|k: int| 0 <= k < i implies point_at(flat@, k) == (#[trigger] points[k])@ by {
                assert(coordinate_at(flat@, k, 0) =~= coordinate_at(before, k, 0));
                assert(coordinate_at(flat@, k, 1) =~= coordinate_at(before, k, 1));
                assert(coordinate_at(flat@, k, 2) =~= coordinate_at(before, k, 2));
                assert(coordinate_at(flat@, k, 3) =~= coordinate_at(before, k, 3));
            }
        }
        i += 1;
    }
    flat
}

/// The flat array of a sequence of points given as limbs.
pub fn write_pod_points(points: &[PodPoint]) -> (points_flat: Vec<u32>)
    ensures
        points_flat.len() == 32 * points.len(),
        forall|i: int| 0 <= i < points.len() ==> point_at(points_flat@, i) == (#[trigger] points[i])@,
{
    let mut flat: Vec<u32> = Vec::new();
    let mut i: usize = 0;
    while i < points.len()
        invariant
            i <= points.len(),
            flat.len() == 32 * i,
            forall|k: int| 0 <= k < i ==> point_at(flat@, k) == (#[trigger] points[k])@,
        decreases points.len() - i,
    {
        let ghost before = flat@;
        let point = points[i];
        push_limbs(&mut flat, &point.x);
        push_limbs(&mut flat, &point.y);
        push_limbs(&mut flat, &point.t);
        push_limbs(&mut flat, &point.z);
        proof {
            assert(flat@ =~= before + point.x@ + point.y@ + point.t@ + point.z@);
            assert(coordinate_at(flat@, i as int, 0) =~= point.x@);
            assert(coordinate_at(flat@, i as int, 1) =~= point.y@);
            assert(coordinate_at(flat@, i as int, 2) =~= point.t@);
            assert(coordinate_at(flat@, i as int, 3) =~= point.z@);
            assert forall|k: int| 0 <= k < i implies point_at(flat@, k) == (#[trigger] points[k])@ by {
                assert(coordinate_at(flat@, k, 0) =~= coordinate_at(before, k, 0));
                assert(coordinate_at(flat@, k, 1) =~= coordinate_at(before, k, 1));
                assert(coordinate_at(flat@, k, 2) =~= coordinate_at(before, k, 2));
                assert(coordinate_at(flat@, k, 3) =~= coordinate_at(before, k, 3));
            }
        }
        i += 1;
    }
    flat
}

/// Whether every coordinate of every whole point of a flat array is below
/// `p`.
pub fn check_all_reduced(points_flat: &[u32]) -> (r: bool)
    ensures
        r == all_reduced(points_flat@),
{
    let n = points_flat.len() / 32;
    let mut i: usize = 0;
    while i < n
        invariant
            i <= n,
            n == points_flat.len() / 32,
            forall|k: int| 0 <= k < i ==> (#[trigger] point_at(points_flat@, k)).reduced(),
        decreases n - i,
    {
        let point = PodPoint {
            x: read_limbs(points_flat, 32 * i),
            y: read_limbs(points_flat, 32 * i + 8),
            t: read_limbs(points_flat, 32 * i + 16),
            z: read_limbs(points_flat, 32 * i + 24),
        };
        assert(point@ == point_at(points_flat@, i as int));
        if !point.is_reduced() {
            return false;
        }
        i += 1;
    }
    true
}

} // verus!
