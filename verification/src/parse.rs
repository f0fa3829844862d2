//! The JSON parser for the wire codec.
//!
//! The grammar is given by spec functions over byte sequences (`sp_value`
//! and companions); the executable parser mirrors them exactly, so a parse
//! succeeds if and only if the grammar accepts the bytes, and then yields
//! precisely the value the grammar assigns to them.
//!
//! Strings must be valid UTF-8 after resolving escapes (including `\uXXXX`
//! escapes and surrogate pairs).  Numbers keep their decimal notation.
//! Nesting is limited to [`MAX_DEPTH`] levels.

use vstd::prelude::*;

verus! {

use vstd::utf8::{valid_utf8, decode_utf8, encode_scalar};
use crate::frame::is_json_ws;
use crate::json::{Json, JsonView, JsonNum, JsonNumView, spec_is_digit, utf8_to_string, view_pairs, view_items};

/// How deep values may nest before the parser gives up.
pub const MAX_DEPTH: u32 = 128;

// ---------------------------------------------------------------------------
// Whitespace and digit runs
// ---------------------------------------------------------------------------
/// The index of the first byte at or after `i` that is not JSON whitespace.
pub open spec fn sp_ws(s: Seq<u8>, i: int) -> int
    decreases s.len() - i,
{
    if 0 <= i < s.len() && is_json_ws(s[i]) {
        sp_ws(s, i + 1)
    } else {
        i
    }
}

/// The index of the first byte at or after `i` that is not an ASCII digit.
pub open spec fn sp_digits_end(s: Seq<u8>, i: int) -> int
    decreases s.len() - i,
{
    if 0 <= i < s.len() && spec_is_digit(s[i]) {
        sp_digits_end(s, i + 1)
    } else {
        i
    }
}

fn skip_ws(s: &[u8], i: usize) -> (j: usize)
    requires
        i <= s@.len(),
    ensures
        j == sp_ws(s@, i as int),
        i <= j <= s@.len(),
{
    let n = s.len();
    let mut cur = i;
    while cur < n && (s[cur] == 0x20 || s[cur] == 0x09 || s[cur] == 0x0a || s[cur] == 0x0d)
        invariant
            i <= cur <= n,
            n == s@.len(),
            sp_ws(s@, i as int) == sp_ws(s@, cur as int),
        decreases n - cur,
    {
        cur += 1;
    }
    cur
}

fn scan_digits(s: &[u8], i: usize) -> (j: usize)
    requires
        i <= s@.len(),
    ensures
        j == sp_digits_end(s@, i as int),
        i <= j <= s@.len(),
{
    let n = s.len();
    let mut cur = i;
    while cur < n && s[cur] >= 0x30 && s[cur] <= 0x39
        invariant
            i <= cur <= n,
            n == s@.len(),
            sp_digits_end(s@, i as int) == sp_digits_end(s@, cur as int),
        decreases n - cur,
    {
        cur += 1;
    }
    cur
}

/// Copy `s[from..to]` into a fresh vector.
fn copy_range(s: &[u8], from: usize, to: usize) -> (v: Vec<u8>)
    requires
        from <= to <= s@.len(),
    ensures
        v@ == s@.subrange(from as int, to as int),
{
    let mut v: Vec<u8> = Vec::new();
    let mut cur = from;
    while cur < to
        invariant
            from <= cur <= to <= s@.len(),
            v@ == s@.subrange(from as int, cur as int),
        decreases to - cur,
    {
        v.push(s[cur]);
        proof {
            assert(s@.subrange(from as int, cur + 1) =~= s@.subrange(from as int, cur as int)
                + seq![s@[cur as int]]);
        }
        cur += 1;
    }
    v
}

// ---------------------------------------------------------------------------
// Hex quads for \uXXXX escapes
// ---------------------------------------------------------------------------
/// The value of a hex digit byte, or -1.
pub open spec fn spec_hex_val(b: u8) -> int {
    if 0x30 <= b <= 0x39 {
        b - 0x30
    } else if 0x41 <= b <= 0x46 {
        b - 0x41 + 10
    } else if 0x61 <= b <= 0x66 {
        b - 0x61 + 10
    } else {
        -1
    }
}

/// The value of the four hex digits at `s[i..i+4]`, or -1.
pub open spec fn sp_hex4(s: Seq<u8>, i: int) -> int {
    if i + 4 <= s.len() && i >= 0 && spec_hex_val(s[i]) >= 0 && spec_hex_val(s[i + 1]) >= 0
        && spec_hex_val(s[i + 2]) >= 0 && spec_hex_val(s[i + 3]) >= 0 {
        spec_hex_val(s[i]) * 0x1000 + spec_hex_val(s[i + 1]) * 0x100 + spec_hex_val(s[i + 2]) * 0x10
            + spec_hex_val(s[i + 3])
    } else {
        -1
    }
}

fn hex_val(b: u8) -> (r: Option<u8>)
    ensures
        match r {
            Some(v) => spec_hex_val(b) == v && v < 16,
            None => spec_hex_val(b) == -1,
        },
{
    if 0x30 <= b && b <= 0x39 {
        Some(b - 0x30)
    } else if 0x41 <= b && b <= 0x46 {
        Some(b - 0x41 + 10)
    } else if 0x61 <= b && b <= 0x66 {
        Some(b - 0x61 + 10)
    } else {
        None
    }
}

fn parse_hex4(s: &[u8], i: usize) -> (r: Option<u32>)
    requires
        i <= s@.len(),
    ensures
        match r {
            Some(v) => sp_hex4(s@, i as int) == v && v <= 0xFFFF && i + 4 <= s@.len(),
            None => sp_hex4(s@, i as int) == -1,
        },
{
    if s.len() - i < 4 {
        return None;
    }
    let h0 = hex_val(s[i]);
    let h1 = hex_val(s[i + 1]);
    let h2 = hex_val(s[i + 2]);
    let h3 = hex_val(s[i + 3]);
    match (h0, h1, h2, h3) {
        (Some(a), Some(b), Some(c), Some(d)) => Some(
            (a as u32) * 0x1000 + (b as u32) * 0x100 + (c as u32) * 0x10 + (d as u32),
        ),
        _ => None,
    }
}

// ---------------------------------------------------------------------------
// Strings
// ---------------------------------------------------------------------------
/// The bytes a string body (after the opening quote) denotes, with escapes
/// resolved, and the index just past the closing quote.
pub open spec fn sp_str_body(s: Seq<u8>, i: int) -> Option<(Seq<u8>, int)>
    decreases s.len() - i,
{
    if i < 0 || i >= s.len() {
        None
    } else if s[i] == 0x22 {
        Some((seq![], i + 1))
    } else if s[i] == 0x5c {
        if i + 2 > s.len() {
            None
        } else {
            let e = s[i + 1];
            if e == 0x22 || e == 0x5c || e == 0x2f {
                sp_str_prepend(seq![e], sp_str_body(s, i + 2))
            } else if e == 0x62 {
                sp_str_prepend(seq![0x08u8], sp_str_body(s, i + 2))
            } else if e == 0x66 {
                sp_str_prepend(seq![0x0cu8], sp_str_body(s, i + 2))
            } else if e == 0x6e {
                sp_str_prepend(seq![0x0au8], sp_str_body(s, i + 2))
            } else if e == 0x72 {
                sp_str_prepend(seq![0x0du8], sp_str_body(s, i + 2))
            } else if e == 0x74 {
                sp_str_prepend(seq![0x09u8], sp_str_body(s, i + 2))
            } else if e == 0x75 {
                let c = sp_hex4(s, i + 2);
                if c < 0 {
                    None
                } else if 0xD800 <= c < 0xDC00 {
                    let c2 = if i + 8 <= s.len() && s[i + 6] == 0x5c && s[i + 7] == 0x75 {
                        sp_hex4(s, i + 8)
                    } else {
                        -1
                    };
                    if 0xDC00 <= c2 < 0xE000 {
                        let scalar = 0x10000 + (c - 0xD800) * 0x400 + (c2 - 0xDC00);
                        sp_str_prepend(encode_scalar(scalar as u32), sp_str_body(s, i + 12))
                    } else {
                        None
                    }
                } else if 0xDC00 <= c < 0xE000 {
                    None
                } else {
                    sp_str_prepend(encode_scalar(c as u32), sp_str_body(s, i + 6))
                }
            } else {
                None
            }
        }
    } else if s[i] < 0x20 {
        None
    } else {
        sp_str_prepend(seq![s[i]], sp_str_body(s, i + 1))
    }
}

pub open spec fn sp_str_prepend(pre: Seq<u8>, rest: Option<(Seq<u8>, int)>) -> Option<
    (Seq<u8>, int),
> {
    match rest {
        Some((bs, j)) => Some((pre + bs, j)),
        None => None,
    }
}

/// The characters of a string literal starting at `i` (at its opening
/// quote), and the index just past its closing quote.  The resolved bytes
/// must form valid UTF-8.
pub open spec fn sp_string(s: Seq<u8>, i: int) -> Option<(Seq<char>, int)> {
    if 0 <= i < s.len() && s[i] == 0x22 {
        match sp_str_body(s, i + 1) {
            Some((bytes, j)) => if valid_utf8(bytes) {
                Some((decode_utf8(bytes), j))
            } else {
                None
            },
            None => None,
        }
    } else {
        None
    }
}

#[verifier::rlimit(50)]
fn parse_string(s: &[u8], i: usize) -> (r: Result<(String, usize), ()>)
    requires
        i <= s@.len(),
    ensures
        match r {
            Ok((st, j)) => sp_string(s@, i as int) == Some((st@, j as int)) && i < j <= s@.len(),
            Err(()) => sp_string(s@, i as int) is None,
        },
{
    let ghost sq = s@;
    let n = s.len();
    if i >= n || s[i] != 0x22 {
        return Err(());
    }
    let ghost start = i + 1;
    let mut out: Vec<u8> = Vec::new();
    let mut cur: usize = i + 1;
    loop
        invariant_except_break
            i + 1 <= cur <= n,
            n == sq.len(),
            sq == s@,
            i < n,
            sq[i as int] == 0x22,
            start == i + 1,
            match sp_str_body(sq, cur as int) {
                Some((rest, j)) => sp_str_body(sq, start) == Some((out@ + rest, j)),
                None => sp_str_body(sq, start) is None,
            },
        ensures
            sq == s@,
            i + 1 <= cur < n,
            i < n && sq[i as int] == 0x22 && start == i + 1,
            sp_str_body(sq, start) == Some((out@, (cur + 1) as int)),
        decreases n - cur,
    {
        if cur >= n {
            // the string never closes
            proof {
                assert(sp_str_body(sq, cur as int) is None);
            }
            return Err(());
        }
        let b = s[cur];
        if b == 0x22 {
            proof {
                assert(sp_str_body(sq, cur as int) == Some((Seq::<u8>::empty(), cur + 1)));
                assert(out@ + Seq::<u8>::empty() =~= out@);
            }
            break ;
        } else if b == 0x5c {
            if cur + 1 >= n {
                proof {
                    assert(sp_str_body(sq, cur as int) is None);
                }
                return Err(());
            }
            let e = s[cur + 1];
            let ghost prev = out@;
            if e == 0x22 || e == 0x5c || e == 0x2f {
                push_byte(&mut out, e);
                proof {
                    lemma_body_step(sq, start, cur as int, prev, seq![e], (cur + 2) as int, out@);
                }
                cur = cur + 2;
            } else if e == 0x62 {
                push_byte(&mut out, 0x08);
                proof {
                    lemma_body_step(
                        sq,
                        start,
                        cur as int,
                        prev,
                        seq![0x08u8],
                        (cur + 2) as int,
                        out@,
                    );
                }
                cur = cur + 2;
            } else if e == 0x66 {
                push_byte(&mut out, 0x0c);
                proof {
                    lemma_body_step(
                        sq,
                        start,
                        cur as int,
                        prev,
                        seq![0x0cu8],
                        (cur + 2) as int,
                        out@,
                    );
                }
                cur = cur + 2;
            } else if e == 0x6e {
                push_byte(&mut out, 0x0a);
                proof {
                    lemma_body_step(
                        sq,
                        start,
                        cur as int,
                        prev,
                        seq![0x0au8],
                        (cur + 2) as int,
                        out@,
                    );
                }
                cur = cur + 2;
            } else if e == 0x72 {
                push_byte(&mut out, 0x0d);
                proof {
                    lemma_body_step(
                        sq,
                        start,
                        cur as int,
                        prev,
                        seq![0x0du8],
                        (cur + 2) as int,
                        out@,
                    );
                }
                cur = cur + 2;
            } else if e == 0x74 {
                push_byte(&mut out, 0x09);
                proof {
                    lemma_body_step(
                        sq,
                        start,
                        cur as int,
                        prev,
                        seq![0x09u8],
                        (cur + 2) as int,
                        out@,
                    );
                }
                cur = cur + 2;
            } else if e == 0x75 {
                let c = match parse_hex4(s, cur + 2) {
                    Some(c) => c,
                    None => {
                        proof {
                            assert(sp_str_body(sq, cur as int) is None);
                        }
                        return Err(());
                    },
                };
                if 0xD800 <= c && c < 0xDC00 {
                    // high surrogate: a low surrogate escape must follow
                    if n - cur < 8 || s[cur + 6] != 0x5c || s[cur + 7] != 0x75 {
                        proof {
                            assert(sp_str_body(sq, cur as int) is None);
                        }
                        return Err(());
                    }
                    let c2 = match parse_hex4(s, cur + 8) {
                        Some(c2) => c2,
                        None => {
                            proof {
                                assert(sp_str_body(sq, cur as int) is None);
                            }
                            return Err(());
                        },
                    };
                    if !(0xDC00 <= c2 && c2 < 0xE000) {
                        proof {
                            assert(sp_str_body(sq, cur as int) is None);
                        }
                        return Err(());
                    }
                    let scalar: u32 = 0x10000 + (c - 0xD800) * 0x400 + (c2 - 0xDC00);
                    push_scalar_utf8(&mut out, scalar);
                    proof {
                        lemma_body_step(
                            sq,
                            start,
                            cur as int,
                            prev,
                            encode_scalar(scalar),
                            (cur + 12) as int,
                            out@,
                        );
                    }
                    cur = cur + 12;
                } else if 0xDC00 <= c && c < 0xE000 {
                    proof {
                        assert(sp_str_body(sq, cur as int) is None);
                    }
                    return Err(());
                } else {
                    push_scalar_utf8(&mut out, c);
                    proof {
                        lemma_body_step(
                            sq,
                            start,
                            cur as int,
                            prev,
                            encode_scalar(c),
                            (cur + 6) as int,
                            out@,
                        );
                    }
                    cur = cur + 6;
                }
            } else {
                proof {
                    assert(sp_str_body(sq, cur as int) is None);
                }
                return Err(());
            }
        } else if b < 0x20 {
            proof {
                assert(sp_str_body(sq, cur as int) is None);
            }
            return Err(());
        } else {
            let ghost prev = out@;
            push_byte(&mut out, b);
            proof {
                lemma_body_step(sq, start, cur as int, prev, seq![b], (cur + 1) as int, out@);
            }
            cur = cur + 1;
        }
    }
    // the loop ended at the closing quote
    let end = cur + 1;
    match utf8_to_string(out.as_slice()) {
        Some(st) => Ok((st, end)),
        None => Err(()),
    }
}

/// Shift one resolved piece of the string body from "still to parse" to
/// "already accumulated": maintains the parsing loop's invariant.
proof fn lemma_body_step(
    s: Seq<u8>,
    start: int,
    cur: int,
    prev: Seq<u8>,
    pre: Seq<u8>,
    next: int,
    outv: Seq<u8>,
)
    requires
        sp_str_body(s, cur) == sp_str_prepend(pre, sp_str_body(s, next)),
        outv == prev + pre,
        match sp_str_body(s, cur) {
            Some((rest, j)) => sp_str_body(s, start) == Some((prev + rest, j)),
            None => sp_str_body(s, start) is None,
        },
    ensures
        match sp_str_body(s, next) {
            Some((rest, j)) => sp_str_body(s, start) == Some((outv + rest, j)),
            None => sp_str_body(s, start) is None,
        },
{
    match sp_str_body(s, next) {
        Some((rest, j)) => {
            assert(prev + (pre + rest) =~= (prev + pre) + rest);
        },
        None => {},
    }
}

/// Append one byte.
fn push_byte(out: &mut Vec<u8>, b: u8)
    ensures
        final(out)@ == old(out)@ + seq![b],
{
    out.push(b);
    proof {
        assert(final(out)@ =~= old(out)@ + seq![b]);
    }
}

/// Append the UTF-8 encoding of a Unicode scalar value.
fn push_scalar_utf8(out: &mut Vec<u8>, scalar: u32)
    requires
        scalar < 0x110000,
        !(0xD800 <= scalar < 0xE000),
    ensures
        final(out)@ == old(out)@ + encode_scalar(scalar),
{
    if scalar < 0x80 {
        out.push((scalar & 0x7F) as u8);
    } else if scalar < 0x800 {
        out.push(0xC0 | ((scalar >> 6) & 0x1F) as u8);
        out.push(0x80 | (scalar & 0x3F) as u8);
    } else if scalar < 0x10000 {
        out.push(0xE0 | ((scalar >> 12) & 0x0F) as u8);
        out.push(0x80 | ((scalar >> 6) & 0x3F) as u8);
        out.push(0x80 | (scalar & 0x3F) as u8);
    } else {
        out.push(0xF0 | ((scalar >> 18) & 0x7) as u8);
        out.push(0x80 | ((scalar >> 12) & 0x3F) as u8);
        out.push(0x80 | ((scalar >> 6) & 0x3F) as u8);
        out.push(0x80 | (scalar & 0x3F) as u8);
    }
    proof {
        assert(final(out)@ =~= old(out)@ + encode_scalar(scalar));
    }
}

// ---------------------------------------------------------------------------
// Numbers
// ---------------------------------------------------------------------------
/// A number's notation starting at `i`, and the index just past it.
pub open spec fn sp_number(s: Seq<u8>, i: int) -> Option<(JsonNumView, int)> {
    if !(0 <= i < s.len()) {
        None
    } else {
        let neg = s[i] == 0x2d;
        let i1 = if neg {
            i + 1
        } else {
            i
        };
        if !(i1 < s.len() && spec_is_digit(s[i1])) {
            None
        } else {
            let int_end = if s[i1] == 0x30 {
                i1 + 1
            } else {
                sp_digits_end(s, i1)
            };
            let ints = s.subrange(i1, int_end);
            if int_end < s.len() && s[int_end] == 0x2e {
                let fstart = int_end + 1;
                let fend = sp_digits_end(s, fstart);
                if fend == fstart {
                    None
                } else {
                    sp_number_exp(s, fend, neg, ints, s.subrange(fstart, fend))
                }
            } else {
                sp_number_exp(s, int_end, neg, ints, seq![])
            }
        }
    }
}

/// The optional exponent part at `pos`, completing a number.
pub open spec fn sp_number_exp(
    s: Seq<u8>,
    pos: int,
    neg: bool,
    ints: Seq<u8>,
    fracs: Seq<u8>,
) -> Option<(JsonNumView, int)> {
    if pos < s.len() && (s[pos] == 0x65 || s[pos] == 0x45) {
        let eneg = pos + 1 < s.len() && s[pos + 1] == 0x2d;
        let estart = if pos + 1 < s.len() && (s[pos + 1] == 0x2d || s[pos + 1] == 0x2b) {
            pos + 2
        } else {
            pos + 1
        };
        let eend = sp_digits_end(s, estart);
        if eend == estart {
            None
        } else {
            Some(
                (
                    JsonNumView {
                        neg,
                        int_digits: ints,
                        frac_digits: fracs,
                        exp_neg: eneg,
                        exp_digits: s.subrange(estart, eend),
                    },
                    eend,
                ),
            )
        }
    } else {
        Some(
            (
                JsonNumView {
                    neg,
                    int_digits: ints,
                    frac_digits: fracs,
                    exp_neg: false,
                    exp_digits: seq![],
                },
                pos,
            ),
        )
    }
}

#[verifier::rlimit(50)]
fn parse_number(s: &[u8], i: usize) -> (r: Result<(JsonNum, usize), ()>)
    requires
        i <= s@.len(),
    ensures
        match r {
            Ok((num, j)) => sp_number(s@, i as int) == Some((num@, j as int)) && i < j <= s@.len(),
            Err(()) => sp_number(s@, i as int) is None,
        },
{
    let n = s.len();
    if i >= n {
        return Err(());
    }
    let neg = s[i] == 0x2d;
    let i1 = if neg {
        i + 1
    } else {
        i
    };
    if i1 >= n || s[i1] < 0x30 || s[i1] > 0x39 {
        return Err(());
    }
    let int_end = if s[i1] == 0x30 {
        i1 + 1
    } else {
        // the first digit is already known; the run continues from there
        scan_digits(s, i1 + 1)
    };
    let ints = copy_range(s, i1, int_end);
    let mut fracs: Vec<u8> = Vec::new();
    let mut pos = int_end;
    if int_end < n && s[int_end] == 0x2e {
        let fstart = int_end + 1;
        let fend = scan_digits(s, fstart);
        if fend == fstart {
            return Err(());
        }
        fracs = copy_range(s, fstart, fend);
        pos = fend;
    }
    proof {
        assert(sp_number(s@, i as int) == sp_number_exp(s@, pos as int, neg, ints@, fracs@));
    }
    // exponent
    if pos < n && (s[pos] == 0x65 || s[pos] == 0x45) {
        let eneg = pos + 1 < n && s[pos + 1] == 0x2d;
        let estart = if pos + 1 < n && (s[pos + 1] == 0x2d || s[pos + 1] == 0x2b) {
            pos + 2
        } else {
            pos + 1
        };
        let eend = scan_digits(s, estart);
        if eend == estart {
            return Err(());
        }
        let exps = copy_range(s, estart, eend);
        let num = JsonNum { neg, int_digits: ints, frac_digits: fracs, exp_neg: eneg, exp_digits: exps };
        proof {
            if let Some((nv, j)) = sp_number_exp(s@, pos as int, neg, num@.int_digits, num@.frac_digits) {
                assert(num@ =~= nv);
            }
        }
        Ok((num, eend))
    } else {
        let num = JsonNum {
            neg,
            int_digits: ints,
            frac_digits: fracs,
            exp_neg: false,
            exp_digits: Vec::new(),
        };
        proof {
            if let Some((nv, j)) = sp_number_exp(s@, pos as int, neg, num@.int_digits, num@.frac_digits) {
                assert(num@ =~= nv);
            }
        }
        Ok((num, pos))
    }
}

// ---------------------------------------------------------------------------
// Values, objects, arrays
// ---------------------------------------------------------------------------
/// A JSON value starting exactly at `i` (no leading whitespace), and the
/// index just past it.  Nesting below `depth` levels.
pub open spec fn sp_value(s: Seq<u8>, i: int, depth: int) -> Option<(JsonView, int)>
    decreases depth, 2int, s.len() - i,
{
    if !(0 <= i < s.len()) {
        None
    } else {
        let b = s[i];
        if b == 0x6e {
            if i + 4 <= s.len() && s[i + 1] == 0x75 && s[i + 2] == 0x6c && s[i + 3] == 0x6c {
                Some((JsonView::Null, i + 4))
            } else {
                None
            }
        } else if b == 0x74 {
            if i + 4 <= s.len() && s[i + 1] == 0x72 && s[i + 2] == 0x75 && s[i + 3] == 0x65 {
                Some((JsonView::Bool(true), i + 4))
            } else {
                None
            }
        } else if b == 0x66 {
            if i + 5 <= s.len() && s[i + 1] == 0x61 && s[i + 2] == 0x6c && s[i + 3] == 0x73 && s[i
                + 4] == 0x65 {
                Some((JsonView::Bool(false), i + 5))
            } else {
                None
            }
        } else if b == 0x22 {
            match sp_string(s, i) {
                Some((cs, j)) => Some((JsonView::Str(cs), j)),
                None => None,
            }
        } else if b == 0x2d || spec_is_digit(b) {
            match sp_number(s, i) {
                Some((nv, j)) => Some((JsonView::Num(nv), j)),
                None => None,
            }
        } else if b == 0x7b {
            sp_object(s, i, depth)
        } else if b == 0x5b {
            sp_array(s, i, depth)
        } else {
            None
        }
    }
}

/// A JSON object starting at `i` (at its `{`).
pub open spec fn sp_object(s: Seq<u8>, i: int, depth: int) -> Option<(JsonView, int)>
    decreases depth, 1int, s.len() - i,
{
    if !(0 <= i < s.len() && s[i] == 0x7b) {
        None
    } else {
        let j = sp_ws(s, i + 1);
        if j < s.len() && s[j] == 0x7d {
            Some((JsonView::Obj(seq![]), j + 1))
        } else if i < j <= s.len() {
            match sp_members(s, j, depth) {
                Some((ms, k)) => Some((JsonView::Obj(ms), k)),
                None => None,
            }
        } else {
            None
        }
    }
}

/// One or more `"key": value` members starting at `i` (at the first key's
/// quote), up to and including the closing `}`.
pub open spec fn sp_members(s: Seq<u8>, i: int, depth: int) -> Option<
    (Seq<(Seq<char>, JsonView)>, int),
>
    decreases depth, 0int, s.len() - i,
{
    if depth <= 0 {
        None
    } else {
        match sp_string(s, i) {
            Some((key, j1)) => {
                let j2 = sp_ws(s, j1);
                if j2 < s.len() && s[j2] == 0x3a {
                    let j3 = sp_ws(s, j2 + 1);
                    match sp_value(s, j3, depth - 1) {
                        Some((v, j4)) => {
                            let j5 = sp_ws(s, j4);
                            if j5 < s.len() && s[j5] == 0x2c {
                                let j6 = sp_ws(s, j5 + 1);
                                if i < j6 <= s.len() {
                                    match sp_members(s, j6, depth) {
                                        Some((ms, k)) => Some((seq![(key, v)] + ms, k)),
                                        None => None,
                                    }
                                } else {
                                    None
                                }
                            } else if j5 < s.len() && s[j5] == 0x7d {
                                Some((seq![(key, v)], j5 + 1))
                            } else {
                                None
                            }
                        },
                        None => None,
                    }
                } else {
                    None
                }
            },
            None => None,
        }
    }
}

/// A JSON array starting at `i` (at its `[`).
pub open spec fn sp_array(s: Seq<u8>, i: int, depth: int) -> Option<(JsonView, int)>
    decreases depth, 1int, s.len() - i,
{
    if !(0 <= i < s.len() && s[i] == 0x5b) {
        None
    } else {
        let j = sp_ws(s, i + 1);
        if j < s.len() && s[j] == 0x5d {
            Some((JsonView::Arr(seq![]), j + 1))
        } else if i < j <= s.len() {
            match sp_elements(s, j, depth) {
                Some((vs, k)) => Some((JsonView::Arr(vs), k)),
                None => None,
            }
        } else {
            None
        }
    }
}

/// One or more array elements starting at `i` (at the first element), up to
/// and including the closing `]`.
pub open spec fn sp_elements(s: Seq<u8>, i: int, depth: int) -> Option<(Seq<JsonView>, int)>
    decreases depth, 0int, s.len() - i,
{
    if depth <= 0 {
        None
    } else {
        match sp_value(s, i, depth - 1) {
            Some((v, j1)) => {
                let j2 = sp_ws(s, j1);
                if j2 < s.len() && s[j2] == 0x2c {
                    let j3 = sp_ws(s, j2 + 1);
                    if i < j3 <= s.len() {
                        match sp_elements(s, j3, depth) {
                            Some((vs, k)) => Some((seq![v] + vs, k)),
                            None => None,
                        }
                    } else {
                        None
                    }
                } else if j2 < s.len() && s[j2] == 0x5d {
                    Some((seq![v], j2 + 1))
                } else {
                    None
                }
            },
            None => None,
        }
    }
}

/// The value a whole buffer denotes: optional whitespace, one value,
/// optional whitespace, end of input.
pub open spec fn json_of(s: Seq<u8>) -> Option<JsonView> {
    let i = sp_ws(s, 0);
    if 0 <= i <= s.len() {
        match sp_value(s, i, MAX_DEPTH as int) {
            Some((v, j)) => if 0 <= j <= s.len() && sp_ws(s, j) == s.len() {
                Some(v)
            } else {
                None
            },
            None => None,
        }
    } else {
        None
    }
}

proof fn lemma_view_pairs_snoc(ps: Seq<(String, Json)>, x: (String, Json))
    ensures
        view_pairs(ps.push(x)) == view_pairs(ps) + seq![(x.0@, x.1.view_rec())],
{
    assert(ps.push(x).drop_last() =~= ps);
    assert(view_pairs(ps).push((x.0@, x.1.view_rec())) =~= view_pairs(ps) + seq![
        (x.0@, x.1.view_rec()),
    ]);
}

proof fn lemma_view_items_snoc(ps: Seq<Json>, x: Json)
    ensures
        view_items(ps.push(x)) == view_items(ps) + seq![x.view_rec()],
{
    assert(ps.push(x).drop_last() =~= ps);
    assert(view_items(ps).push(x.view_rec()) =~= view_items(ps) + seq![x.view_rec()]);
}

#[verifier::rlimit(100)]
fn parse_value(s: &[u8], i: usize, depth: u32) -> (r: Result<(Json, usize), ()>)
    requires
        i <= s@.len(),
    ensures
        match r {
            Ok((v, j)) => sp_value(s@, i as int, depth as int) == Some((v@, j as int)) && i < j
                <= s@.len(),
            Err(()) => sp_value(s@, i as int, depth as int) is None,
        },
    decreases depth, 2int,
{
    let n = s.len();
    if i >= n {
        return Err(());
    }
    let b = s[i];
    if b == 0x6e {
        if n - i >= 4 && s[i + 1] == 0x75 && s[i + 2] == 0x6c && s[i + 3] == 0x6c {
            Ok((Json::Null, i + 4))
        } else {
            Err(())
        }
    } else if b == 0x74 {
        if n - i >= 4 && s[i + 1] == 0x72 && s[i + 2] == 0x75 && s[i + 3] == 0x65 {
            Ok((Json::Bool(true), i + 4))
        } else {
            Err(())
        }
    } else if b == 0x66 {
        if n - i >= 5 && s[i + 1] == 0x61 && s[i + 2] == 0x6c && s[i + 3] == 0x73 && s[i + 4]
            == 0x65 {
            Ok((Json::Bool(false), i + 5))
        } else {
            Err(())
        }
    } else if b == 0x22 {
        match parse_string(s, i) {
            Ok((st, j)) => Ok((Json::Str(st), j)),
            Err(()) => Err(()),
        }
    } else if b == 0x2d || (0x30 <= b && b <= 0x39) {
        match parse_number(s, i) {
            Ok((num, j)) => Ok((Json::Num(num), j)),
            Err(()) => Err(()),
        }
    } else if b == 0x7b {
        parse_object(s, i, depth)
    } else if b == 0x5b {
        parse_array(s, i, depth)
    } else {
        Err(())
    }
}

#[verifier::rlimit(100)]
fn parse_object(s: &[u8], i: usize, depth: u32) -> (r: Result<(Json, usize), ()>)
    requires
        i <= s@.len(),
    ensures
        match r {
            Ok((v, j)) => sp_object(s@, i as int, depth as int) == Some((v@, j as int)) && i < j
                <= s@.len(),
            Err(()) => sp_object(s@, i as int, depth as int) is None,
        },
    decreases depth, 1int,
{
    let ghost sq = s@;
    let ghost d = depth as int;
    let n = s.len();
    if i >= n || s[i] != 0x7b {
        return Err(());
    }
    let j0 = skip_ws(s, i + 1);
    if j0 < n && s[j0] == 0x7d {
        let empty: Vec<(String, Json)> = Vec::new();
        proof {
            assert(Json::Obj(empty)@ =~= JsonView::Obj(seq![]));
        }
        return Ok((Json::Obj(empty), j0 + 1));
    }
    if depth == 0 {
        proof {
            assert(sp_members(sq, j0 as int, d) is None);
        }
        return Err(());
    }
    let mut acc: Vec<(String, Json)> = Vec::new();
    let mut cur = j0;
    proof {
        match sp_members(sq, j0 as int, d) {
            Some((ms, k)) => {
                assert(view_pairs(acc@) + ms =~= ms);
            },
            None => {},
        }
    }
    loop
        invariant
            sq == s@,
            n == sq.len(),
            i < n,
            sq[i as int] == 0x7b,
            j0 == sp_ws(sq, i + 1),
            i < j0 <= n,
            !(j0 < n && sq[j0 as int] == 0x7d),
            d == depth as int,
            depth >= 1,
            j0 <= cur <= n,
            match sp_members(sq, cur as int, d) {
                Some((ms, k)) => sp_members(sq, j0 as int, d) == Some((view_pairs(acc@) + ms, k)),
                None => sp_members(sq, j0 as int, d) is None,
            },
        decreases n - cur,
    {
        let (key, j1) = match parse_string(s, cur) {
            Ok(p) => p,
            Err(()) => {
                proof {
                    assert(sp_members(sq, cur as int, d) is None);
                }
                return Err(());
            },
        };
        let j2 = skip_ws(s, j1);
        if j2 >= n || s[j2] != 0x3a {
            proof {
                assert(sp_members(sq, cur as int, d) is None);
            }
            return Err(());
        }
        let j3 = skip_ws(s, j2 + 1);
        let (v, j4) = match parse_value(s, j3, depth - 1) {
            Ok(p) => p,
            Err(()) => {
                proof {
                    assert(sp_members(sq, cur as int, d) is None);
                }
                return Err(());
            },
        };
        let j5 = skip_ws(s, j4);
        let ghost gkey = key@;
        let ghost gv = v@;
        let ghost gx = (key, v);
        if j5 < n && s[j5] == 0x2c {
            let j6 = skip_ws(s, j5 + 1);
            let ghost prev = acc@;
            acc.push((key, v));
            proof {
                lemma_view_pairs_snoc(prev, gx);
                assert(acc@ == prev.push(gx));
                match sp_members(sq, j6 as int, d) {
                    Some((ms, k)) => {
                        assert(view_pairs(prev) + (seq![(gkey, gv)] + ms) =~= view_pairs(acc@)
                            + ms);
                    },
                    None => {},
                }
            }
            cur = j6;
        } else if j5 < n && s[j5] == 0x7d {
            let ghost prev = acc@;
            acc.push((key, v));
            proof {
                lemma_view_pairs_snoc(prev, gx);
                assert(acc@ == prev.push(gx));
                assert(sp_members(sq, cur as int, d) == Some((seq![(gkey, gv)], j5 + 1)));
                assert(view_pairs(prev) + seq![(gkey, gv)] =~= view_pairs(acc@));
                assert(sp_members(sq, j0 as int, d) == Some((view_pairs(acc@), j5 + 1)));
                assert(Json::Obj(acc)@ =~= JsonView::Obj(view_pairs(acc@)));
            }
            return Ok((Json::Obj(acc), j5 + 1));
        } else {
            proof {
                assert(sp_members(sq, cur as int, d) is None);
            }
            return Err(());
        }
    }
}

#[verifier::rlimit(100)]
fn parse_array(s: &[u8], i: usize, depth: u32) -> (r: Result<(Json, usize), ()>)
    requires
        i <= s@.len(),
    ensures
        match r {
            Ok((v, j)) => sp_array(s@, i as int, depth as int) == Some((v@, j as int)) && i < j
                <= s@.len(),
            Err(()) => sp_array(s@, i as int, depth as int) is None,
        },
    decreases depth, 1int,
{
    let ghost sq = s@;
    let ghost d = depth as int;
    let n = s.len();
    if i >= n || s[i] != 0x5b {
        return Err(());
    }
    let j0 = skip_ws(s, i + 1);
    if j0 < n && s[j0] == 0x5d {
        let empty: Vec<Json> = Vec::new();
        proof {
            assert(Json::Arr(empty)@ =~= JsonView::Arr(seq![]));
        }
        return Ok((Json::Arr(empty), j0 + 1));
    }
    if depth == 0 {
        proof {
            assert(sp_elements(sq, j0 as int, d) is None);
        }
        return Err(());
    }
    let mut acc: Vec<Json> = Vec::new();
    let mut cur = j0;
    proof {
        match sp_elements(sq, j0 as int, d) {
            Some((vs, k)) => {
                assert(view_items(acc@) + vs =~= vs);
            },
            None => {},
        }
    }
    loop
        invariant
            sq == s@,
            n == sq.len(),
            i < n,
            sq[i as int] == 0x5b,
            j0 == sp_ws(sq, i + 1),
            i < j0 <= n,
            !(j0 < n && sq[j0 as int] == 0x5d),
            d == depth as int,
            depth >= 1,
            j0 <= cur <= n,
            match sp_elements(sq, cur as int, d) {
                Some((vs, k)) => sp_elements(sq, j0 as int, d) == Some((view_items(acc@) + vs, k)),
                None => sp_elements(sq, j0 as int, d) is None,
            },
        decreases n - cur,
    {
        let (v, j1) = match parse_value(s, cur, depth - 1) {
            Ok(p) => p,
            Err(()) => {
                proof {
                    assert(sp_elements(sq, cur as int, d) is None);
                }
                return Err(());
            },
        };
        let j2 = skip_ws(s, j1);
        let ghost gv = v@;
        let ghost gx = v;
        if j2 < n && s[j2] == 0x2c {
            let j3 = skip_ws(s, j2 + 1);
            let ghost prev = acc@;
            acc.push(v);
            proof {
                lemma_view_items_snoc(prev, gx);
                assert(acc@ == prev.push(gx));
                match sp_elements(sq, j3 as int, d) {
                    Some((vs, k)) => {
                        assert(view_items(prev) + (seq![gv] + vs) =~= view_items(acc@) + vs);
                    },
                    None => {},
                }
            }
            cur = j3;
        } else if j2 < n && s[j2] == 0x5d {
            let ghost prev = acc@;
            acc.push(v);
            proof {
                lemma_view_items_snoc(prev, gx);
                assert(acc@ == prev.push(gx));
                assert(sp_elements(sq, cur as int, d) == Some((seq![gv], j2 + 1)));
                assert(view_items(prev) + seq![gv] =~= view_items(acc@));
                assert(sp_elements(sq, j0 as int, d) == Some((view_items(acc@), j2 + 1)));
                assert(Json::Arr(acc)@ =~= JsonView::Arr(view_items(acc@)));
            }
            return Ok((Json::Arr(acc), j2 + 1));
        } else {
            proof {
                assert(sp_elements(sq, cur as int, d) is None);
            }
            return Err(());
        }
    }
}

/// Parse a whole buffer as one JSON value.
///
/// Succeeds exactly when the buffer holds one value of the grammar
/// ([`json_of`]), surrounded only by whitespace, and then returns exactly
/// that value.
pub fn parse_json(s: &[u8]) -> (r: Option<Json>)
    ensures
        match r {
            Some(v) => json_of(s@) == Some(v@),
            None => json_of(s@) is None,
        },
{
    let i = skip_ws(s, 0);
    match parse_value(s, i, MAX_DEPTH) {
        Ok((v, j)) => {
            let k = skip_ws(s, j);
            if k == s.len() {
                Some(v)
            } else {
                None
            }
        },
        Err(()) => None,
    }
}

} // verus!
