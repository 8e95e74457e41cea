//! The fragment model: one renderable unit of the diagnostic message,
//! either a text run or a pre-rendered integer, together with its padding
//! and display mode; and the integer encoder that fills the fixed decimal
//! scratch buffer.

use vstd::prelude::*;

use crate::debug_str_fmt::escaped;
use crate::fmt::{FmtArg, IsDisplay};
use crate::utils::{
    debug_emission, debug_vis, lemma_debug_vis_bounds, lemma_debug_vis_enc, min_usize, spaces,
    spec_get_length, truncated_debug_str_len, truncated_str_len, Sign, WasTruncated,
};
use vstd::slice::slice_subrange;
use vstd::string::StringSliceAdditionalSpecFns;

verus! {

/// The decimal digit characters of `n`, most significant first, with no
/// leading zeros (`0` is the single digit `0`).
pub open spec fn dec_digits(n: nat) -> Seq<u8>
    decreases n,
{
    if n < 10 {
        seq![(48 + n) as u8]
    } else {
        dec_digits(n / 10).push((48 + n % 10) as u8)
    }
}

/// The digit characters of `n` preceded by a minus sign when the sign is
/// negative.
pub open spec fn sign_digits(sign: Sign, n: nat) -> Seq<u8> {
    match sign {
        Sign::Positive => dec_digits(n),
        Sign::Negative => seq![45u8] + dec_digits(n),
    }
}

/// The minimal decimal text of a signed 128-bit integer.
pub open spec fn i128_digits(n: i128) -> Seq<u8> {
    if n < 0 {
        seq![45u8] + dec_digits((-(n as int)) as nat)
    } else {
        dec_digits(n as nat)
    }
}

/// Ten to the power `k`.
pub open spec fn pow10(k: nat) -> nat
    decreases k,
{
    if k == 0 {
        1
    } else {
        10 * pow10((k - 1) as nat)
    }
}

/// A decimal representation has at least one digit.
pub proof fn lemma_dec_digits_len_pos(n: nat)
    ensures
        dec_digits(n).len() >= 1,
    decreases n,
{
    if n >= 10 {
        lemma_dec_digits_len_pos(n / 10);
    }
}

/// A number below ten to the `k` has at most `k` digits.
pub proof fn lemma_dec_digits_len_bound(n: nat, k: nat)
    requires
        k >= 1,
        n < pow10(k),
    ensures
        dec_digits(n).len() <= k,
    decreases k,
{
    if n < 10 {
    } else {
        assert(pow10(k) == 10 * pow10((k - 1) as nat));
        if k == 1 {
            assert(pow10(0nat) == 1);
            assert(false);
        }
        let p = pow10((k - 1) as nat);
        assert(n as int == 10 * (n as int / 10) + n as int % 10) by {
            vstd::arithmetic::div_mod::lemma_fundamental_div_mod(n as int, 10);
        }
        assert(n / 10 < p);
        lemma_dec_digits_len_bound(n / 10, (k - 1) as nat);
    }
}

/// Every 128-bit magnitude fits in 39 decimal digits.
pub proof fn lemma_dec_digits_len_le_39(n: u128)
    ensures
        dec_digits(n as nat).len() <= 39,
{
    reveal_with_fuel(pow10, 40);
    assert(pow10(39) == 1_000_000_000_000_000_000_000_000_000_000_000_000_000nat);
    lemma_dec_digits_len_bound(n as nat, 39);
}

/// The digits are ASCII decimal characters and carry no leading zero
/// (except for zero itself, rendered as the single digit `0`).
pub proof fn lemma_dec_digits_minimal(n: nat)
    ensures
        dec_digits(n).len() >= 1,
        forall|i: int| 0 <= i < dec_digits(n).len() ==> 48 <= #[trigger] dec_digits(n)[i] <= 57,
        n > 0 ==> dec_digits(n)[0] != 48,
        n < 10 ==> dec_digits(n) == seq![(48 + n) as u8],
    decreases n,
{
    if n >= 10 {
        lemma_dec_digits_minimal(n / 10);
        assert(n / 10 > 0) by {
            vstd::arithmetic::div_mod::lemma_fundamental_div_mod(n as int, 10);
        }
        assert(dec_digits(n)[0] == dec_digits(n / 10)[0]);
    }
}

/// A pre-rendered integer: a fixed 40-byte scratch buffer whose tail,
/// from `start` on, holds the minimal decimal text written back to front.
/// Forty bytes suffice for the widest supported width: at most 39 digits
/// and a sign.
#[derive(Copy, Clone)]
pub struct IntVal {
    pub start: usize,
    pub buffer: [u8; 40],
}

impl IntVal {
    /// The decimal text this value holds.
    pub open spec fn digits(self) -> Seq<u8> {
        if self.start <= 40 {
            self.buffer@.subrange(self.start as int, 40)
        } else {
            Seq::empty()
        }
    }

    /// The decimal text as a byte slice.
    pub fn get(&self) -> (r: &[u8])
        ensures
            r@ == self.digits(),
    {
        if self.start <= 40 {
            slice_subrange(self.buffer.as_slice(), self.start, 40)
        } else {
            slice_subrange(self.buffer.as_slice(), 0, 0)
        }
    }

    /// Encodes an unsigned 128-bit integer.
    pub fn from_u128(n: u128, f: FmtArg) -> (r: Self)
        ensures
            r.digits() == dec_digits(n as nat),
    {
        Self::new(Sign::Positive, n, f)
    }

    /// Encodes a signed 128-bit integer, minus sign included when
    /// negative.
    pub fn from_i128(n: i128, f: FmtArg) -> (r: Self)
        ensures
            r.digits() == i128_digits(n),
    {
        if n < 0 {
            let mag: u128 = ((-(n + 1)) as u128) + 1;
            Self::new(Sign::Negative, mag, f)
        } else {
            Self::new(Sign::Positive, n as u128, f)
        }
    }

    /// Fills the scratch buffer: digits taken from the low end of `n`
    /// working from the back of the buffer toward the front, then the
    /// sign.
    pub fn new(sign: Sign, n: u128, _f: FmtArg) -> (r: Self)
        ensures
            r.digits() == sign_digits(sign, n as nat),
    {
        let ghost n0: nat = n as nat;
        proof {
            lemma_dec_digits_len_le_39(n);
            lemma_dec_digits_len_pos(n0);
        }
        let mut start: usize = 40;
        let mut buffer: [u8; 40] = [0u8; 40];
        let mut m: u128 = n;
        loop
            invariant_except_break
                0 <= start <= 40,
                n0 == n as nat,
                dec_digits(n0).len() <= 39,
                start == 40 ==> m == n,
                start < 40 ==> m > 0 && dec_digits(n0) == dec_digits(m as nat) + buffer@.subrange(
                    start as int,
                    40,
                ) && 40 - start == dec_digits(n0).len() - dec_digits(m as nat).len(),
            ensures
                0 <= start < 40,
                dec_digits(n0) == buffer@.subrange(start as int, 40),
                40 - start == dec_digits(n0).len(),
            decreases m,
        {
            proof {
                if start < 40 {
                    lemma_dec_digits_len_pos(m as nat);
                }
            }
            let digit: u8 = (m % 10) as u8;
            start = start - 1;
            let ghost old_buf = buffer@;
            buffer[start] = 48 + digit;
            let ghost prev = m;
            m = m / 10;
            proof {
                assert(m < prev || prev == 0) by {
                    vstd::arithmetic::div_mod::lemma_fundamental_div_mod(prev as int, 10);
                }
                assert(buffer@.subrange(start as int, 40) =~= seq![(48 + prev as nat % 10) as u8]
                    + old_buf.subrange(start + 1, 40));
                if prev >= 10 {
                    assert(dec_digits(prev as nat) == dec_digits(prev as nat / 10).push(
                        (48 + prev as nat % 10) as u8,
                    ));
                    assert(m > 0) by {
                        vstd::arithmetic::div_mod::lemma_fundamental_div_mod(prev as int, 10);
                    }
                    lemma_dec_digits_len_pos(m as nat);
                    if start + 1 == 40 {
                        assert(old_buf.subrange(40, 40) =~= Seq::<u8>::empty());
                        assert(dec_digits(n0) == dec_digits(prev as nat));
                        assert(dec_digits(m as nat) + buffer@.subrange(start as int, 40)
                            =~= dec_digits(prev as nat));
                    } else {
                        assert(dec_digits(m as nat) + buffer@.subrange(start as int, 40)
                            =~= dec_digits(prev as nat) + old_buf.subrange(start + 1, 40));
                    }
                } else {
                    assert(dec_digits(prev as nat) == seq![(48 + prev as nat) as u8]);
                    assert(prev as nat % 10 == prev as nat);
                    if start + 1 == 40 {
                        assert(old_buf.subrange(40, 40) =~= Seq::<u8>::empty());
                        assert(buffer@.subrange(start as int, 40) =~= dec_digits(prev as nat));
                    } else {
                        assert(buffer@.subrange(start as int, 40) =~= dec_digits(prev as nat)
                            + old_buf.subrange(start + 1, 40));
                    }
                }
            }
            if m == 0 {
                break ;
            }
        }
        if let Sign::Negative = sign {
            proof {
                lemma_dec_digits_len_pos(n0);
            }
            start = start - 1;
            let ghost old_buf = buffer@;
            buffer[start] = 45;
            proof {
                assert(buffer@.subrange(start as int, 40) =~= seq![45u8] + old_buf.subrange(
                    start + 1,
                    40,
                ));
            }
        }
        let r = IntVal { start, buffer };
        proof {
            assert(r.digits() == sign_digits(sign, n0));
        }
        r
    }
}

/// The content of one fragment: a text run or a pre-rendered integer.
#[derive(Copy, Clone)]
pub enum PanicVariant<'a> {
    Str(&'a str),
    Int(IntVal),
}

/// One renderable unit of the diagnostic message: its content, the space
/// counts emitted before and after it, and its display mode.
#[derive(Copy, Clone)]
pub struct PanicVal<'a> {
    pub var: PanicVariant<'a>,
    pub leftpad: u8,
    pub rightpad: u8,
    pub is_display: IsDisplay,
}

impl<'a> PanicVal<'a> {
    /// The underlying content bytes of this fragment.
    pub open spec fn content(self) -> Seq<u8> {
        match self.var {
            PanicVariant::Str(s) => s.spec_bytes(),
            PanicVariant::Int(iv) => iv.digits(),
        }
    }

    /// Whether this fragment is emitted verbatim: integers always are;
    /// a text run follows its display mode.
    pub open spec fn display_mode(self) -> bool {
        match self.var {
            PanicVariant::Str(_) => self.is_display is Yes,
            PanicVariant::Int(_) => true,
        }
    }

    /// How many content bytes are visible under a content budget `b`:
    /// Display text is cut byte by byte; Debug text is cut at an escape
    /// boundary; an integer is never shown partially.
    pub open spec fn content_vis(self, b: int) -> int {
        match self.var {
            PanicVariant::Str(s) => if self.is_display is Yes {
                if s.spec_bytes().len() <= b {
                    s.spec_bytes().len() as int
                } else {
                    b
                }
            } else {
                debug_vis(s.spec_bytes(), b - 1)
            },
            PanicVariant::Int(iv) => if iv.digits().len() <= b {
                iv.digits().len() as int
            } else {
                0
            },
        }
    }

    /// Whether the whole content could not be emitted under budget `b`.
    pub open spec fn content_truncated(self, b: int) -> bool {
        match self.var {
            PanicVariant::Str(s) => if self.is_display is Yes {
                s.spec_bytes().len() > b
            } else {
                s.spec_bytes().len() > 0 && debug_vis(s.spec_bytes(), b - 1) < s.spec_bytes().len()
            },
            PanicVariant::Int(iv) => iv.digits().len() > b,
        }
    }

    /// The bytes this fragment's content contributes under budget `b`,
    /// quotes and escapes included for Debug text.
    pub open spec fn body_emission(self, b: int) -> Seq<u8> {
        match self.var {
            PanicVariant::Str(s) => if self.is_display is Yes {
                s.spec_bytes().take(self.content_vis(b))
            } else {
                debug_emission(s.spec_bytes(), b)
            },
            PanicVariant::Int(iv) => iv.digits().take(self.content_vis(b)),
        }
    }

    /// Everything this fragment emits with `rem` bytes of capacity left:
    /// left padding, content, right padding. When the left padding alone
    /// exceeds the budget, only as many spaces as fit are emitted.
    pub open spec fn emission(self, rem: int) -> Seq<u8> {
        if self.leftpad > rem {
            spaces(rem)
        } else {
            let b = rem - self.leftpad;
            let body = self.body_emission(b);
            spaces(self.leftpad as int) + body + spaces(
                vstd::math::min(self.rightpad as int, b - body.len()),
            )
        }
    }

    /// Whether this fragment was cut off with `rem` bytes left.
    pub open spec fn truncated(self, rem: int) -> bool {
        if self.leftpad > rem {
            true
        } else {
            self.content_truncated(rem - self.leftpad)
        }
    }

    /// Constructs a fragment that outputs the contents of `string`
    /// verbatim, with no padding.
    pub fn write_str(string: &'a str) -> (r: Self)
        ensures
            r.var matches PanicVariant::Str(s) && s@ == string@,
            r.content() == string.spec_bytes(),
            r.leftpad == 0 && r.rightpad == 0,
            r.is_display is Yes,
    {
        PanicVal {
            var: PanicVariant::Str(string),
            leftpad: 0,
            rightpad: 0,
            is_display: IsDisplay::Yes,
        }
    }

    /// Constructs a text fragment with the display mode of `f` and no
    /// padding.
    pub fn from_str(string: &'a str, f: FmtArg) -> (r: Self)
        ensures
            r.var matches PanicVariant::Str(s) && s@ == string@,
            r.content() == string.spec_bytes(),
            r.leftpad == 0 && r.rightpad == 0,
            r.is_display == f.is_display,
    {
        PanicVal { var: PanicVariant::Str(string), leftpad: 0, rightpad: 0, is_display: f.is_display }
    }

    /// Attaches the display mode of `f` to a given variant, with no
    /// padding.
    pub fn __new(var: PanicVariant<'a>, f: FmtArg) -> (r: Self)
        ensures
            r.var == var,
            r.leftpad == 0 && r.rightpad == 0,
            r.is_display == f.is_display,
    {
        Self { var, leftpad: 0, rightpad: 0, is_display: f.is_display }
    }

    /// The same fragment with the given space counts attached.
    pub fn with_padding(self, leftpad: u8, rightpad: u8) -> (r: Self)
        ensures
            r.var == self.var,
            r.is_display == self.is_display,
            r.leftpad == leftpad,
            r.rightpad == rightpad,
    {
        Self { var: self.var, leftpad, rightpad, is_display: self.is_display }
    }

    /// How many spaces are printed before this.
    pub fn leftpad(&self) -> (r: u8)
        ensures
            r == self.leftpad,
    {
        self.leftpad
    }

    /// How many spaces are printed after this.
    pub fn rightpad(&self) -> (r: u8)
        ensures
            r == self.rightpad,
    {
        self.rightpad
    }

    /// A fragment's emission never exceeds the remaining capacity.
    pub proof fn lemma_emission_len(self, rem: int)
        requires
            rem >= 0,
        ensures
            self.emission(rem).len() <= rem,
    {
        if self.leftpad <= rem {
            let b = rem - self.leftpad;
            let body = self.body_emission(b);
            match self.var {
                PanicVariant::Str(s) => {
                    if self.is_display is Yes {
                    } else {
                        crate::utils::lemma_debug_emission_len(s.spec_bytes(), b);
                    }
                },
                PanicVariant::Int(iv) => {},
            }
            assert(body.len() <= b);
        }
    }

    /// The truncation computation: given the remaining capacity, returns
    /// the applied left padding, the applied right padding, the content
    /// bytes, the display mode of the emission, and the truncation
    /// outcome, whose length gives how many content bytes are visible.
    ///
    /// When the left padding alone exceeds the capacity, the applied left
    /// padding is the whole remaining capacity, nothing is visible, and
    /// the outcome is a truncation with no residual length. Otherwise the
    /// content bytes are the fragment's own, the visible count follows
    /// the fragment's mode (byte-count for Display text, whole escape
    /// units for Debug text, all or nothing for an integer), and the
    /// applied right padding is what the budget still allows after the
    /// visible content's encoded width.
    pub fn __string<'s>(&'s self, truncate_to: usize) -> (r: (
        usize,
        usize,
        &'s [u8],
        IsDisplay,
        WasTruncated,
    ))
        ensures
            ({
                let rem = truncate_to as int;
                let vis = spec_get_length(r.4, r.2@.len() as int);
                &&& 0 <= vis <= r.2@.len()
                &&& (r.4 matches WasTruncated::Yes(_)) == self.truncated(rem)
                &&& self.emission(rem) == spaces(r.0 as int) + (if r.3 is Yes {
                    r.2@.take(vis)
                } else {
                    debug_emission(r.2@, rem - r.0)
                }) + spaces(r.1 as int)
                &&& (r.3 is No) ==> vis == debug_vis(r.2@, rem - r.0 - 1)
                &&& (r.3 is No) ==> ((r.4 is No) <==> vis == r.2@.len())
                &&& if self.leftpad > rem {
                    &&& r.0 == truncate_to
                    &&& r.1 == 0
                    &&& r.2@ == Seq::<u8>::empty()
                    &&& r.3 is Yes
                    &&& r.4 == WasTruncated::Yes(0usize)
                } else {
                    let b = rem - self.leftpad;
                    &&& r.0 == self.leftpad
                    &&& r.1 == vstd::math::min(
                        self.rightpad as int,
                        b - self.body_emission(b).len(),
                    )
                    &&& r.2@ == self.content()
                    &&& (r.3 is Yes) == self.display_mode()
                    &&& vis == self.content_vis(b)
                    &&& (r.4 matches WasTruncated::Yes(n) ==> n == self.content_vis(b))
                    &&& ((r.4 is No) <==> !self.content_truncated(b))
                }
            }),
    {
        let ghost rem = truncate_to as int;
        let leftpad = self.leftpad as usize;
        if leftpad > truncate_to {
            let string: &[u8] = &[];
            proof {
                assert(string@ =~= Seq::<u8>::empty());
                assert(self.emission(rem) =~= spaces(rem) + string@.take(0) + spaces(0));
            }
            return (truncate_to, 0, string, IsDisplay::Yes, WasTruncated::Yes(0));
        }
        let budget = truncate_to - leftpad;
        let ghost b = budget as int;

        let string: &[u8];
        let is_display: IsDisplay;
        let was_trunc: WasTruncated;
        let consumed: usize;

        match &self.var {
            PanicVariant::Str(s) => {
                string = s.as_bytes();
                match self.is_display {
                    IsDisplay::Yes => {
                        is_display = IsDisplay::Yes;
                        was_trunc = truncated_str_len(string, budget);
                        consumed = was_trunc.get_length(string);
                    },
                    IsDisplay::No => {
                        is_display = IsDisplay::No;
                        let (wt, enc1) = truncated_debug_str_len(string, budget);
                        was_trunc = wt;
                        proof {
                            lemma_debug_vis_bounds(string@, b - 1);
                            if b >= 1 {
                                lemma_debug_vis_enc(string@, b - 1);
                            }
                        }
                        if budget == 0 {
                            consumed = 0;
                        } else if matches!(wt, WasTruncated::No) && enc1 < budget {
                            consumed = enc1 + 1;
                        } else {
                            consumed = enc1;
                        }
                    },
                }
            },
            PanicVariant::Int(iv) => {
                string = iv.get();
                is_display = IsDisplay::Yes;
                if string.len() <= budget {
                    was_trunc = WasTruncated::No;
                    consumed = string.len();
                } else {
                    was_trunc = WasTruncated::Yes(0);
                    consumed = 0;
                }
            },
        }

        let rightpad = min_usize(self.rightpad as usize, budget - consumed);
        proof {
            let vis = spec_get_length(was_trunc, string@.len() as int);
            let body = self.body_emission(b);
            if is_display is Yes {
                assert(body =~= string@.take(vis));
            } else {
                assert(body == debug_emission(string@, b));
                if b == 0 {
                    assert(body =~= Seq::<u8>::empty());
                } else {
                    assert(string@.take(vis) == string@.take(debug_vis(string@, b - 1)));
                }
            }
            assert(body.len() == consumed);
            assert(self.emission(rem) == spaces(leftpad as int) + body + spaces(rightpad as int));
            assert(string@ == self.content());
            assert(vis == self.content_vis(b));
            assert(rightpad == vstd::math::min(self.rightpad as int, b - body.len()));
        }
        (leftpad, rightpad, string, is_display, was_trunc)
    }
}

} // verus!
