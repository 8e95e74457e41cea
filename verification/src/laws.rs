//! Properties of the renderer, stated and proved once and for all: what
//! Display and Debug emissions look like, that truncation never splits an
//! escape sequence, how padding is applied, and that rendering is pure.

use vstd::prelude::*;

use crate::debug_str_fmt::{
    escape_of, escaped, lemma_escaped_id, spec_backslash_escape, spec_hex_ascii,
    spec_is_backslash_escaped, spec_is_escaped,
};
use crate::panic_val::{PanicVal, PanicVariant};
use crate::utils::{
    debug_emission, debug_vis, lemma_debug_vis_bounds, lemma_debug_vis_enc, lemma_debug_vis_full,
    lemma_debug_vis_next, spaces,
};
use crate::concat_panic_::{
    all_frags, concat_spec, lemma_fill_frags_len, lemma_fill_frags_some, render_spec,
    MAX_PANIC_MSG_LEN,
};

verus! {

/// A Display-mode text fragment without padding whose byte length fits
/// the remaining capacity is emitted verbatim, with no quoting and no
/// truncation.
pub proof fn lemma_display_verbatim(v: PanicVal<'_>, rem: int)
    requires
        v.var matches PanicVariant::Str(_),
        v.is_display is Yes,
        v.leftpad == 0,
        v.rightpad == 0,
        v.content().len() <= rem,
    ensures
        v.emission(rem) == v.content(),
        !v.truncated(rem),
{
    let s = v.content();
    assert(s.take(s.len() as int) =~= s);
    assert(spaces(0) =~= Seq::<u8>::empty());
    assert(spaces(0) + s + spaces(0) =~= s);
}

/// A Debug-mode text fragment without padding or escapable bytes, given
/// two bytes of slack for the quotes, is emitted as the input wrapped in
/// a leading and a trailing quote.
pub proof fn lemma_debug_no_escapes(v: PanicVal<'_>, rem: int)
    requires
        v.var matches PanicVariant::Str(_),
        v.is_display is No,
        v.leftpad == 0,
        v.rightpad == 0,
        forall|i: int| 0 <= i < v.content().len() ==> !spec_is_escaped(#[trigger] v.content()[i]),
        v.content().len() + 2 <= rem,
    ensures
        v.emission(rem) == seq![34u8] + v.content() + seq![34u8],
        !v.truncated(rem),
{
    let s = v.content();
    lemma_escaped_id(s);
    if s.len() == 0 {
        assert(debug_vis(s, rem - 1) == 0);
        assert(s.take(0) =~= s);
    } else {
        lemma_debug_vis_full(s, rem - 1);
        assert(debug_vis(s, rem - 1) == s.len());
        assert(s.take(s.len() as int) =~= s);
    }
    let body = seq![34u8] + escaped(s.take(debug_vis(s, rem - 1)));
    assert(body.push(34u8) =~= seq![34u8] + s + seq![34u8]);
    assert(spaces(0) =~= Seq::<u8>::empty());
    assert(spaces(0) + body.push(34u8) + spaces(0) =~= body.push(34u8));
}

/// An escapable byte is emitted either as a two-byte backslash shorthand
/// or as a four-byte `\xHH` sequence with uppercase hexadecimal digits.
pub proof fn lemma_escape_shape(b: u8)
    requires
        spec_is_escaped(b),
    ensures
        spec_is_backslash_escaped(b) ==> escape_of(b) == seq![92u8, spec_backslash_escape(b)],
        !spec_is_backslash_escaped(b) ==> escape_of(b) == seq![
            92u8,
            120u8,
            spec_hex_ascii(b / 16),
            spec_hex_ascii(b % 16),
        ],
        escape_of(b).len() == 2 || escape_of(b).len() == 4,
{
}

/// A Debug-mode emission is built of whole escape units only: an opening
/// quote, the full escapes of every visible byte, and possibly a closing
/// quote — never a prefix of an escape sequence.
pub proof fn lemma_debug_whole_units(s: Seq<u8>, b: int)
    ensures
        ({
            let vis = debug_vis(s, b - 1);
            let body = seq![34u8] + escaped(s.take(vis));
            debug_emission(s, b) == if b <= 0 {
                Seq::<u8>::empty()
            } else if vis == s.len() && body.len() + 1 <= b {
                body.push(34u8)
            } else {
                body
            }
        }),
{
}

/// When truncation cuts a Debug-mode fragment, it backs off to the
/// boundary before the first escape unit that does not fit: what is
/// emitted fits the budget, and emitting the next byte's whole escape
/// would exceed it, so a partial escape never appears.
pub proof fn lemma_truncation_backs_off(s: Seq<u8>, b: int)
    requires
        b >= 1,
        debug_vis(s, b - 1) < s.len(),
    ensures
        ({
            let vis = debug_vis(s, b - 1);
            &&& debug_emission(s, b) == seq![34u8] + escaped(s.take(vis))
            &&& 1 + escaped(s.take(vis)).len() <= b
            &&& 1 + escaped(s.take(vis)).len() + escape_of(s[vis]).len() > b
        }),
{
    lemma_debug_vis_bounds(s, b - 1);
    lemma_debug_vis_enc(s, b - 1);
    lemma_debug_vis_next(s, b - 1);
}

/// Padding that fits is applied in full: the fragment emits exactly its
/// left-padding spaces, then its content emission, then exactly its
/// right-padding spaces.
pub proof fn lemma_padding_full(v: PanicVal<'_>, rem: int)
    requires
        v.leftpad + v.body_emission(rem - v.leftpad).len() + v.rightpad <= rem,
    ensures
        v.emission(rem) == spaces(v.leftpad as int) + v.body_emission(rem - v.leftpad) + spaces(
            v.rightpad as int,
        ),
{
}

/// Padding that does not fit degrades to exactly the spaces that do: when
/// the left padding alone exceeds the remaining capacity, the fragment
/// emits that many spaces and nothing else, and counts as truncated.
pub proof fn lemma_padding_degenerate(v: PanicVal<'_>, rem: int)
    requires
        0 <= rem < v.leftpad,
    ensures
        v.emission(rem) == spaces(rem),
        v.emission(rem).len() == rem,
        v.truncated(rem),
{
}

/// For every argument list, the ceiling tier produces a message, and the
/// tiered rendering never exceeds the hard maximum length: oversized
/// input degrades to truncation at the ceiling, never to failure.
pub proof fn lemma_ceiling_always_renders<'a>(args: Seq<&'a [PanicVal<'a>]>)
    ensures
        render_spec(args, MAX_PANIC_MSG_LEN as int, MAX_PANIC_MSG_LEN as int) is Some,
        concat_spec(args).len() <= MAX_PANIC_MSG_LEN,
{
    let max = MAX_PANIC_MSG_LEN as int;
    lemma_fill_frags_some(all_frags(args), max, max, Seq::empty());
    lemma_fill_frags_len(all_frags(args), 1024, max, Seq::empty());
    lemma_fill_frags_len(all_frags(args), (1024 * 6) as int, max, Seq::empty());
    lemma_fill_frags_len(all_frags(args), max, max, Seq::empty());
}

/// Rendering is pure: two renderings of the same argument list produce
/// byte-identical output.
pub proof fn lemma_rerender_identical<'a>(args: Seq<&'a [PanicVal<'a>]>, r1: Seq<u8>, r2: Seq<u8>)
    requires
        r1 == concat_spec(args),
        r2 == concat_spec(args),
    ensures
        r1 == r2,
{
}

} // verus!
