use bevy_color_lsp::num::{u32_to_usize, usize_to_u32_sat};

#[test]
fn u32_to_usize_roundtrip() {
    assert_eq!(u32_to_usize(0), 0);
    assert_eq!(u32_to_usize(u32::MAX), u32::MAX as usize);
}

#[test]
fn usize_to_u32_saturates() {
    assert_eq!(usize_to_u32_sat(0), 0);
    assert_eq!(usize_to_u32_sat(12345), 12345);
    // On 64-bit usize > u32::MAX saturates.
    assert_eq!(usize_to_u32_sat(u32::MAX as usize + 1), u32::MAX);
    assert_eq!(usize_to_u32_sat(usize::MAX), u32::MAX);
}

#[test]
fn usize_to_u32_keeps_max() {
    assert_eq!(usize_to_u32_sat(u32::MAX as usize), u32::MAX);
    assert_eq!(usize_to_u32_sat(u32::MAX as usize - 1), u32::MAX - 1);
}
