use msm_wgpu::split::{
    extract_window, split, split_16, split_scalar, window_count, Split10, Split11, Split12,
    Split13, Split14, Split15, Split16, Split20, Split8, Split9, SplitImpl,
};
use num_bigint::BigUint;

fn value(scalar: &[u32; 8]) -> BigUint {
    let mut digits = scalar.to_vec();
    digits.reverse();
    BigUint::new(digits)
}

fn expected_windows(scalar: &[u32; 8], w: usize) -> Vec<u32> {
    let s = value(scalar);
    let n = (256 + w - 1) / w;
    let mask = (BigUint::from(1u32) << w) - 1u32;
    (0..n)
        .map(|k| {
            let window = (&s >> (k * w)) & &mask;
            window.to_u32_digits().first().copied().unwrap_or(0)
        })
        .collect()
}

const SCALAR: [u32; 8] = [
    0x0123_4567,
    0x89ab_cdef,
    0xfedc_ba98,
    0x7654_3210,
    0xdead_beef,
    0xcafe_f00d,
    0x0bad_c0de,
    0x1234_5678,
];

#[test]
fn window_zero_is_the_least_significant() {
    let windows = split_scalar(&SCALAR, 16);
    assert_eq!(windows.len(), 16);
    assert_eq!(windows[0], 0x5678);
    assert_eq!(windows[1], 0x1234);
    assert_eq!(windows[2], 0xc0de);
    assert_eq!(windows[15], 0x0123);
    let windows = split_scalar(&SCALAR, 8);
    assert_eq!(windows.len(), 32);
    assert_eq!(windows[0], 0x78);
    assert_eq!(windows[31], 0x01);
}

#[test]
fn a_window_may_lie_in_two_limbs() {
    let windows = split_scalar(&SCALAR, 20);
    assert_eq!(windows.len(), 13);
    assert_eq!(windows[0], 0x45678);
    assert_eq!(windows[1], 0xde123);
    assert_eq!(windows[2], 0xbadc0);
    assert_eq!(extract_window(&SCALAR, 20, 1), 0xde123);
    assert_eq!(extract_window(&SCALAR, 12, 2), 0xe12);
}

#[test]
fn the_last_window_may_be_short() {
    let ones = [0xffff_ffffu32; 8];
    let windows = split_scalar(&ones, 9);
    assert_eq!(windows.len(), 29);
    assert_eq!(windows[0], 0x1ff);
    assert_eq!(windows[27], 0x1ff);
    assert_eq!(windows[28], 0xf);
    let windows = split_scalar(&ones, 20);
    assert_eq!(windows[12], 0xffff);
}

#[test]
fn every_window_size_matches_the_bits_of_the_scalar() {
    for w in [8usize, 9, 10, 11, 12, 13, 14, 15, 16, 20, 1, 7, 31, 32] {
        assert_eq!(window_count(w), (256 + w - 1) / w);
        assert_eq!(split_scalar(&SCALAR, w), expected_windows(&SCALAR, w), "width {}", w);
        let ones = [0xffff_ffffu32; 8];
        assert_eq!(split_scalar(&ones, w), expected_windows(&ones, w), "width {}", w);
    }
}

#[test]
fn the_splitters_know_their_sizes() {
    assert_eq!((Split8::window_size(), Split8::n_windows()), (8, 32));
    assert_eq!((Split9::window_size(), Split9::n_windows()), (9, 29));
    assert_eq!((Split10::window_size(), Split10::n_windows()), (10, 26));
    assert_eq!((Split11::window_size(), Split11::n_windows()), (11, 24));
    assert_eq!((Split12::window_size(), Split12::n_windows()), (12, 22));
    assert_eq!((Split13::window_size(), Split13::n_windows()), (13, 20));
    assert_eq!((Split14::window_size(), Split14::n_windows()), (14, 19));
    assert_eq!((Split15::window_size(), Split15::n_windows()), (15, 18));
    assert_eq!((Split16::window_size(), Split16::n_windows()), (16, 16));
    assert_eq!((Split20::window_size(), Split20::n_windows()), (20, 13));
    assert_eq!(Split12::split(&SCALAR), expected_windows(&SCALAR, 12));
    assert_eq!(Split20::split(&SCALAR), expected_windows(&SCALAR, 20));
}

#[test]
fn split_keeps_the_windows_of_one_index_together() {
    let other = [1u32, 2, 3, 4, 5, 6, 7, 8];
    let mut flat = SCALAR.to_vec();
    flat.extend_from_slice(&other);
    let out = split::<Split16>(&flat);
    assert_eq!(out.len(), 32);
    let first = expected_windows(&SCALAR, 16);
    let second = expected_windows(&other, 16);
    for j in 0..16 {
        assert_eq!(out[2 * j], first[j]);
        assert_eq!(out[2 * j + 1], second[j]);
    }
    assert_eq!(out[0], 0x5678);
    assert_eq!(out[1], 8);
    assert_eq!(split_16(&flat), out);
    assert_eq!(split::<Split8>(&[]).len(), 0);
}
