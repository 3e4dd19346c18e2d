use ark_ec::{CurveGroup, Group};
use ark_ed_on_bls12_377::{EdwardsProjective, Fq};
use ark_ff::{BigInt, PrimeField};
use msm_wgpu::bytes::{read_fq, read_points, write_fq, PodPoint};
use msm_wgpu::intra_bucket::{
    compute_next_padd_indices, index_by_bucket, GpuIntraBucketReducer,
    PADD_INDEX_NO_INPUT_2, PADD_INDEX_OUTPUT_TO_BUCKET,
};

fn words(v: Fq) -> [u64; 4] {
    v.into_bigint().0
}

fn pod(p: &EdwardsProjective) -> PodPoint {
    PodPoint {
        x: write_fq(&words(p.x)),
        y: write_fq(&words(p.y)),
        t: write_fq(&words(p.t)),
        z: write_fq(&words(p.z)),
    }
}

fn to_ark(p: &PodPoint) -> EdwardsProjective {
    let f = |l: &[u32; 8]| Fq::from_bigint(BigInt(read_fq(l))).unwrap();
    EdwardsProjective::new_unchecked(f(&p.x), f(&p.y), f(&p.t), f(&p.z))
}

fn multiple(k: u64) -> EdwardsProjective {
    EdwardsProjective::generator().mul_bigint([k])
}

fn record(r: &msm_wgpu::intra_bucket::PaddIndices) -> (u32, u32, u32) {
    (r.in_idx_1, r.in_idx_2, r.out_idx)
}

#[test]
fn each_bucket_lists_its_points_in_order() {
    let lists = index_by_bucket(&[2, 5, 0, 2, 1, 4, 5, 2, 0], 6);
    assert_eq!(lists, vec![vec![], vec![4], vec![0, 3, 7], vec![], vec![5], vec![1, 6]]);
}

#[test]
fn a_level_pairs_the_points_of_each_bucket() {
    let lists = vec![vec![], vec![4], vec![0, 3, 7, 8, 9], vec![], vec![5, 2], vec![1, 6, 10]];
    let (records, next) = compute_next_padd_indices(&lists);
    let records: Vec<(u32, u32, u32)> = records.iter().map(record).collect();
    assert_eq!(records, vec![
        (4, PADD_INDEX_NO_INPUT_2, PADD_INDEX_OUTPUT_TO_BUCKET | 1),
        (0, 3, 0),
        (7, 8, 1),
        (9, PADD_INDEX_NO_INPUT_2, 2),
        (5, 2, PADD_INDEX_OUTPUT_TO_BUCKET | 4),
        (1, 6, 3),
        (10, PADD_INDEX_NO_INPUT_2, 4),
    ]);
    assert_eq!(next, vec![vec![], vec![], vec![0, 1, 2], vec![], vec![], vec![3, 4]]);
    let (records, next) = compute_next_padd_indices(&next);
    let records: Vec<(u32, u32, u32)> = records.iter().map(record).collect();
    assert_eq!(records, vec![
        (0, 1, 0),
        (2, PADD_INDEX_NO_INPUT_2, 1),
        (3, 4, PADD_INDEX_OUTPUT_TO_BUCKET | 5),
    ]);
    assert_eq!(next, vec![vec![], vec![], vec![0, 1], vec![], vec![], vec![]]);
    let (records, next) = compute_next_padd_indices(&next);
    assert_eq!(records.iter().map(record).collect::<Vec<_>>(), vec![(
        0,
        1,
        PADD_INDEX_OUTPUT_TO_BUCKET | 2
    )]);
    assert!(next.iter().all(|l| l.is_empty()));
    let (records, _) = compute_next_padd_indices(&next);
    assert!(records.is_empty());
}

#[test]
fn the_marks_are_the_top_bit_and_all_bits() {
    assert_eq!(PADD_INDEX_NO_INPUT_2, 0xffff_ffff);
    assert_eq!(PADD_INDEX_OUTPUT_TO_BUCKET, 0x8000_0000);
}

#[test]
fn the_tree_sums_each_bucket() {
    let scalars = [2u32, 5, 0, 2, 1, 4, 5, 2, 2, 2, 2, 2];
    let points: Vec<PodPoint> = (0..12u64).map(|k| pod(&multiple(10 + k))).collect();
    let reducer = GpuIntraBucketReducer::new(6);
    let sums = reducer.reduce_points(&scalars, &points);
    assert_eq!(sums.len(), 6);
    let expected = [0u64, 14, 10 + 13 + 17 + 18 + 19 + 20 + 21, 0, 15, 11 + 16];
    for (v, k) in expected.iter().enumerate() {
        assert_eq!(to_ark(&sums[v]).into_affine(), multiple(*k).into_affine(), "bucket {}", v);
    }
    // a bucket of one point holds that point as it is
    assert_eq!(sums[1].x, points[4].x);
    assert_eq!(sums[1].z, points[4].z);
    // a bucket of no point holds the neutral point
    assert_eq!(sums[3].x, [0u32; 8]);
    assert_eq!(sums[3].y, [0, 0, 0, 0, 0, 0, 0, 1]);
    assert_eq!(sums[3].z, [0, 0, 0, 0, 0, 0, 0, 1]);
    let flat = reducer.reduce(&scalars, &points);
    assert_eq!(flat.len(), 6 * 32);
    assert_eq!(&flat[32..40], &sums[1].x);
    assert_eq!(read_points(&flat).len(), 6);
}
