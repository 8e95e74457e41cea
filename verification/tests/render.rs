//! End-to-end behavior of the renderer: verbatim text, quoting and
//! escaping, truncation, padding, and the tiered controller.

use const_panic::concat_panic;
use const_panic::format_panic_message;
use const_panic::FmtArg;
use const_panic::PanicVal;

#[test]
fn display_verbatim() {
    let args: &[&[PanicVal]] = &[&[PanicVal::write_str("hello")]];
    let m = format_panic_message(args, 1024, 1024).unwrap();
    assert_eq!(m.as_slice(), b"hello");
}

#[test]
fn display_multiple_fragments_in_order() {
    let args: &[&[PanicVal]] = &[
        &[PanicVal::write_str("ab"), PanicVal::write_str("cd")],
        &[PanicVal::write_str("ef")],
    ];
    let m = format_panic_message(args, 1024, 1024).unwrap();
    assert_eq!(m.as_slice(), b"abcdef");
}

#[test]
fn debug_without_escapes_is_quoted() {
    let args: &[&[PanicVal]] = &[&[PanicVal::from_str("ab", FmtArg::debug())]];
    let m = format_panic_message(args, 1024, 1024).unwrap();
    assert_eq!(m.as_slice(), b"\"ab\"");
}

#[test]
fn debug_empty_string_is_two_quotes() {
    let args: &[&[PanicVal]] = &[&[PanicVal::from_str("", FmtArg::debug())]];
    let m = format_panic_message(args, 1024, 1024).unwrap();
    assert_eq!(m.as_slice(), b"\"\"");
}

#[test]
fn debug_backslash_shorthands() {
    let args: &[&[PanicVal]] = &[&[PanicVal::from_str("a\tb\nc\rd\\e\"f'g", FmtArg::debug())]];
    let m = format_panic_message(args, 1024, 1024).unwrap();
    assert_eq!(m.as_slice(), b"\"a\\tb\\nc\\rd\\\\e\\\"f\\'g\"");
}

#[test]
fn debug_hex_escape_is_four_bytes_uppercase() {
    let args: &[&[PanicVal]] = &[&[PanicVal::from_str("a\x01b\x1fc", FmtArg::debug())]];
    let m = format_panic_message(args, 1024, 1024).unwrap();
    assert_eq!(m.as_slice(), b"\"a\\x01b\\x1Fc\"");
}

#[test]
fn display_mode_never_escapes() {
    let args: &[&[PanicVal]] = &[&[PanicVal::from_str("a\tb", FmtArg::display())]];
    let m = format_panic_message(args, 1024, 1024).unwrap();
    assert_eq!(m.as_slice(), b"a\tb");
}

#[test]
fn truncation_backs_off_before_escape() {
    // One byte more than the opening quote plus `a`: the tab's two-byte
    // shorthand must be omitted entirely, never a lone backslash.
    let args: &[&[PanicVal]] = &[&[PanicVal::from_str("a\tb", FmtArg::debug())]];
    let m = format_panic_message(args, 3, 3).unwrap();
    assert_eq!(m.as_slice(), b"\"a");
}

#[test]
fn truncated_debug_quote_left_open() {
    let args: &[&[PanicVal]] = &[&[PanicVal::from_str("abcdef", FmtArg::debug())]];
    let m = format_panic_message(args, 4, 4).unwrap();
    assert_eq!(m.as_slice(), b"\"abc");
}

#[test]
fn below_max_tier_truncation_is_an_error() {
    let args: &[&[PanicVal]] = &[&[PanicVal::write_str("hello")]];
    let r = format_panic_message(args, 3, 1024);
    assert!(r.is_err());
}

#[test]
fn padding_applied_in_full() {
    let args: &[&[PanicVal]] = &[&[PanicVal::write_str("x").with_padding(3, 2)]];
    let m = format_panic_message(args, 1024, 1024).unwrap();
    assert_eq!(m.as_slice(), b"   x  ");
}

#[test]
fn padding_degrades_to_what_fits() {
    // leftpad 3 into capacity 1: exactly one space, no content.
    let args: &[&[PanicVal]] = &[&[PanicVal::write_str("x").with_padding(3, 0)]];
    let m = format_panic_message(args, 1, 1).unwrap();
    assert_eq!(m.as_slice(), b" ");
}

#[test]
fn padding_getters() {
    let v = PanicVal::write_str("x").with_padding(3, 2);
    assert_eq!(v.leftpad(), 3);
    assert_eq!(v.rightpad(), 2);
    let w = PanicVal::write_str("x");
    assert_eq!(w.leftpad(), 0);
    assert_eq!(w.rightpad(), 0);
}

#[test]
fn end_to_end_value_with_debug_tab() {
    let args: &[&[PanicVal]] =
        &[&[PanicVal::write_str("value: "), PanicVal::from_str("a\tb", FmtArg::debug())]];
    let m = concat_panic(args);
    assert_eq!(m.as_slice(), b"value: \"a\\tb\"");
}

#[test]
fn oversized_output_truncates_at_ceiling() {
    let big = "a".repeat(40_000);
    let args: &[&[PanicVal]] = &[&[PanicVal::from_str(&big, FmtArg::debug())]];
    let m = concat_panic(args);
    assert_eq!(m.len(), 32_768);
    // The opening quote is the only quote: the cut-off Debug fragment is
    // deliberately left unterminated.
    assert_eq!(m.iter().filter(|&&b| b == b'"').count(), 1);
    assert_eq!(m[0], b'"');
    assert_eq!(*m.last().unwrap(), b'a');
}

#[test]
fn controller_escalates_to_a_larger_tier() {
    // Too big for the 1024-byte tier, fits in a larger one.
    let big = "b".repeat(2_000);
    let args: &[&[PanicVal]] = &[&[PanicVal::write_str(&big)]];
    let m = concat_panic(args);
    assert_eq!(m.len(), 2_000);
    assert!(m.iter().all(|&b| b == b'b'));
}

#[test]
fn truncation_at_ceiling_stops_later_fragments() {
    let args: &[&[PanicVal]] = &[&[PanicVal::write_str("abcdef")], &[PanicVal::write_str("XYZ")]];
    let m = format_panic_message(args, 8, 8).unwrap();
    assert_eq!(m.as_slice(), b"abcdefXY");
}

#[test]
fn rightpad_is_advisory_and_shrinks_without_truncation() {
    let args: &[&[PanicVal]] = &[&[PanicVal::write_str("x").with_padding(0, 5)]];
    // The content fits, so the shrunken right padding is not truncation:
    // no retry is requested even below the ceiling.
    let m = format_panic_message(args, 3, 1024).unwrap();
    assert_eq!(m.as_slice(), b"x  ");
}

#[test]
fn rerendering_is_byte_identical() {
    let big = "c".repeat(3_000);
    let args: &[&[PanicVal]] = &[
        &[PanicVal::write_str("value: "), PanicVal::from_str("a\tb", FmtArg::debug())],
        &[PanicVal::write_str(&big)],
    ];
    let first = concat_panic(args);
    let second = concat_panic(args);
    assert_eq!(first, second);
}
