use gpui_platform::{HiLoWord, LPARAM, WPARAM};

#[test]
fn wparam_halves() {
    let w = WPARAM(0x1234_ABCD);
    assert_eq!(w.hiword(), 0x1234);
    assert_eq!(w.loword(), 0xABCD);
    assert_eq!(w.signed_hiword(), 0x1234);
    assert_eq!(w.signed_loword(), 0xABCDu16 as i16);
    assert_eq!(w.signed_loword(), -21555);
    // The halves rebuild the low 32 bits.
    assert_eq!(w.hiword() as usize * 0x10000 + w.loword() as usize, 0x1234_ABCD);
}

#[test]
fn wparam_ignores_bits_above_32() {
    let w = WPARAM(usize::MAX);
    assert_eq!(w.hiword(), 0xFFFF);
    assert_eq!(w.loword(), 0xFFFF);
    assert_eq!(w.signed_hiword(), -1);
    assert_eq!(w.signed_loword(), -1);
}

#[test]
fn lparam_halves_of_negative_coordinates() {
    // A mouse position of x = -5, y = -2 packs as 0xFFFE_FFFB.
    let l = LPARAM(0xFFFE_FFFBu32 as i32 as isize);
    assert_eq!(l.signed_loword(), -5);
    assert_eq!(l.signed_hiword(), -2);
    assert_eq!(l.loword(), 0xFFFB);
    assert_eq!(l.hiword(), 0xFFFE);
    let p = LPARAM(0x0064_0032);
    assert_eq!(p.signed_loword(), 50);
    assert_eq!(p.signed_hiword(), 100);
}
