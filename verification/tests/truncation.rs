//! The truncation computation's result tuple: applied left padding,
//! applied right padding, content bytes, display mode, and truncation
//! outcome, for each fragment kind and budget shape.

use const_panic::FmtArg;
use const_panic::IntVal;
use const_panic::IsDisplay;
use const_panic::PanicVal;
use const_panic::PanicVariant;
use const_panic::WasTruncated;

#[test]
fn tuple_degenerate_padding() {
    // leftpad 3 into a budget of 1: one applied space, nothing visible,
    // Display mode, truncated with no residual length.
    let v = PanicVal::write_str("x").with_padding(3, 0);
    let (lp, rp, s, d, wt) = v.__string(1);
    assert_eq!(lp, 1);
    assert_eq!(rp, 0);
    assert!(s.is_empty());
    assert!(matches!(d, IsDisplay::Yes));
    assert!(matches!(wt, WasTruncated::Yes(0)));
}

#[test]
fn tuple_display_byte_count_truncation() {
    let v = PanicVal::write_str("hello");
    let (lp, rp, s, d, wt) = v.__string(3);
    assert_eq!(lp, 0);
    assert_eq!(rp, 0);
    assert_eq!(s, b"hello");
    assert!(matches!(d, IsDisplay::Yes));
    assert!(matches!(wt, WasTruncated::Yes(3)));

    let (_, _, s2, _, wt2) = v.__string(5);
    assert_eq!(s2, b"hello");
    assert!(matches!(wt2, WasTruncated::No));
}

#[test]
fn tuple_debug_stops_at_escape_boundary() {
    // Budget 3: opening quote and `a` fit; the tab's two-byte shorthand
    // does not, so exactly one byte is visible.
    let v = PanicVal::from_str("a\tb", FmtArg::debug());
    let (lp, rp, s, d, wt) = v.__string(3);
    assert_eq!(lp, 0);
    assert_eq!(rp, 0);
    assert_eq!(s, b"a\tb");
    assert!(matches!(d, IsDisplay::No));
    assert!(matches!(wt, WasTruncated::Yes(1)));
}

#[test]
fn tuple_integer_all_or_nothing() {
    let frag = PanicVal::__new(
        PanicVariant::Int(IntVal::from_i128(-42, FmtArg::display())),
        FmtArg::display(),
    );
    let (_, _, s, d, wt) = frag.__string(1);
    assert_eq!(s, b"-42");
    assert!(matches!(d, IsDisplay::Yes));
    assert!(matches!(wt, WasTruncated::Yes(0)));

    let (_, _, s2, _, wt2) = frag.__string(3);
    assert_eq!(s2, b"-42");
    assert!(matches!(wt2, WasTruncated::No));
}

#[test]
fn tuple_rightpad_budget_uses_encoded_width() {
    // A Debug tab encodes to 4 bytes (quote, backslash, t, quote), so a
    // budget of 10 leaves 6 of the requested 8 right-padding spaces.
    let v = PanicVal::from_str("\t", FmtArg::debug()).with_padding(0, 8);
    let (lp, rp, _, _, wt) = v.__string(10);
    assert_eq!(lp, 0);
    assert_eq!(rp, 6);
    assert!(matches!(wt, WasTruncated::No));
}
