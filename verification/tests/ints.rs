//! The integer encoder: minimal decimal text for the extremes of the
//! widest supported width, and integer fragments in rendered output.

use const_panic::format_panic_message;
use const_panic::FmtArg;
use const_panic::IntVal;
use const_panic::PanicVal;
use const_panic::PanicVariant;

fn int_text(v: IntVal) -> Vec<u8> {
    v.get().to_vec()
}

#[test]
fn i128_minimum() {
    let v = IntVal::from_i128(i128::MIN, FmtArg::display());
    assert_eq!(int_text(v), b"-170141183460469231731687303715884105728".to_vec());
}

#[test]
fn i128_maximum() {
    let v = IntVal::from_i128(i128::MAX, FmtArg::display());
    assert_eq!(int_text(v), b"170141183460469231731687303715884105727".to_vec());
}

#[test]
fn small_signed_values() {
    assert_eq!(int_text(IntVal::from_i128(-1, FmtArg::display())), b"-1".to_vec());
    assert_eq!(int_text(IntVal::from_i128(0, FmtArg::display())), b"0".to_vec());
    assert_eq!(int_text(IntVal::from_i128(1, FmtArg::display())), b"1".to_vec());
}

#[test]
fn u128_maximum() {
    let v = IntVal::from_u128(u128::MAX, FmtArg::display());
    assert_eq!(int_text(v), b"340282366920938463463374607431768211455".to_vec());
}

#[test]
fn no_leading_zeros() {
    assert_eq!(int_text(IntVal::from_u128(1_000, FmtArg::display())), b"1000".to_vec());
    assert_eq!(int_text(IntVal::from_i128(-10, FmtArg::display())), b"-10".to_vec());
}

#[test]
fn integer_fragment_renders_verbatim() {
    let iv = IntVal::from_i128(-42, FmtArg::display());
    let frag = PanicVal::__new(PanicVariant::Int(iv), FmtArg::display());
    let args: &[&[PanicVal]] = &[&[PanicVal::write_str("n = "), frag]];
    let m = format_panic_message(args, 1024, 1024).unwrap();
    assert_eq!(m.as_slice(), b"n = -42");
}

#[test]
fn integer_never_partially_printed() {
    let iv = IntVal::from_u128(12_345, FmtArg::display());
    let frag = PanicVal::__new(PanicVariant::Int(iv), FmtArg::display());
    let args: &[&[PanicVal]] = &[&[frag]];
    // At the ceiling tier the integer is dropped whole, not cut.
    let m = format_panic_message(args, 3, 3).unwrap();
    assert_eq!(m.as_slice(), b"");
    // Below the ceiling the fill reports insufficient capacity instead.
    assert!(format_panic_message(args, 3, 1024).is_err());
}
