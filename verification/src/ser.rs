//! The JSON serializer for the wire codec.
//!
//! Compact form: no insignificant whitespace, object members in order,
//! strings escaped with `\"`, `\\`, the short control escapes and `\u00xx`
//! for the remaining control bytes.  [`ser_view`] is the specification;
//! [`write_json`] produces exactly those bytes.

use vstd::prelude::*;

verus! {

use vstd::utf8::encode_utf8;
use crate::json::{Json, JsonView, JsonNum, JsonNumView, view_items, view_pairs,
    lemma_view_items_index, lemma_view_pairs_index};

/// The lower-case hex digit for a value below 16.
pub open spec fn spec_hex_digit(v: u8) -> u8 {
    if v < 10 {
        (0x30 + v) as u8
    } else {
        (0x57 + v) as u8
    }
}

/// How one byte of a string's UTF-8 appears inside a JSON string literal.
pub open spec fn esc_byte(b: u8) -> Seq<u8> {
    if b == 0x22 {
        seq![0x5cu8, 0x22u8]
    } else if b == 0x5c {
        seq![0x5cu8, 0x5cu8]
    } else if b == 0x08 {
        seq![0x5cu8, 0x62u8]
    } else if b == 0x09 {
        seq![0x5cu8, 0x74u8]
    } else if b == 0x0a {
        seq![0x5cu8, 0x6eu8]
    } else if b == 0x0c {
        seq![0x5cu8, 0x66u8]
    } else if b == 0x0d {
        seq![0x5cu8, 0x72u8]
    } else if b < 0x20 {
        seq![0x5cu8, 0x75u8, 0x30u8, 0x30u8, spec_hex_digit(b / 16), spec_hex_digit(b % 16)]
    } else {
        seq![b]
    }
}

pub open spec fn esc_bytes(bs: Seq<u8>) -> Seq<u8>
    decreases bs,
{
    if bs.len() == 0 {
        seq![]
    } else {
        esc_bytes(bs.drop_last()) + esc_byte(bs.last())
    }
}

/// A string literal: quotes around the escaped UTF-8 of its characters.
pub open spec fn ser_str(cs: Seq<char>) -> Seq<u8> {
    seq![0x22u8] + esc_bytes(encode_utf8(cs)) + seq![0x22u8]
}

/// A number in its decimal notation.
pub open spec fn ser_num(n: JsonNumView) -> Seq<u8> {
    (if n.neg {
        seq![0x2du8]
    } else {
        seq![]
    }) + n.int_digits + (if n.frac_digits.len() > 0 {
        seq![0x2eu8] + n.frac_digits
    } else {
        seq![]
    }) + (if n.exp_digits.len() > 0 {
        seq![0x65u8] + (if n.exp_neg {
            seq![0x2du8]
        } else {
            seq![]
        }) + n.exp_digits
    } else {
        seq![]
    })
}

/// The compact serialization of a JSON value.
pub open spec fn ser_view(v: JsonView) -> Seq<u8>
    decreases v,
{
    match v {
        JsonView::Null => seq![0x6eu8, 0x75u8, 0x6cu8, 0x6cu8],
        JsonView::Bool(b) => if b {
            seq![0x74u8, 0x72u8, 0x75u8, 0x65u8]
        } else {
            seq![0x66u8, 0x61u8, 0x6cu8, 0x73u8, 0x65u8]
        },
        JsonView::Num(n) => ser_num(n),
        JsonView::Str(cs) => ser_str(cs),
        JsonView::Arr(items) => seq![0x5bu8] + ser_items(items) + seq![0x5du8],
        JsonView::Obj(pairs) => seq![0x7bu8] + ser_pairs(pairs) + seq![0x7du8],
    }
}

pub open spec fn ser_items(items: Seq<JsonView>) -> Seq<u8>
    decreases items,
{
    if items.len() == 0 {
        seq![]
    } else if items.len() == 1 {
        ser_view(items[0])
    } else {
        ser_items(items.drop_last()) + seq![0x2cu8] + ser_view(items.last())
    }
}

pub open spec fn ser_pairs(pairs: Seq<(Seq<char>, JsonView)>) -> Seq<u8>
    decreases pairs,
{
    if pairs.len() == 0 {
        seq![]
    } else if pairs.len() == 1 {
        ser_str(pairs[0].0) + seq![0x3au8] + ser_view(pairs[0].1)
    } else {
        ser_pairs(pairs.drop_last()) + seq![0x2cu8] + ser_str(pairs.last().0) + seq![0x3au8]
            + ser_view(pairs.last().1)
    }
}

/// Append one byte.
fn put(out: &mut Vec<u8>, b: u8)
    ensures
        final(out)@ == old(out)@ + seq![b],
{
    out.push(b);
    proof {
        assert(final(out)@ =~= old(out)@ + seq![b]);
    }
}

fn write_escaped(bs: &[u8], out: &mut Vec<u8>)
    ensures
        final(out)@ == old(out)@ + esc_bytes(bs@),
{
    let ghost base = out@;
    let n = bs.len();
    let mut j: usize = 0;
    proof {
        assert(base + esc_bytes(bs@.take(0)) =~= base);
    }
    while j < n
        invariant
            0 <= j <= n,
            n == bs@.len(),
            out@ == base + esc_bytes(bs@.take(j as int)),
        decreases n - j,
    {
        let b = bs[j];
        proof {
            assert(bs@.take(j + 1).drop_last() =~= bs@.take(j as int));
            assert(bs@.take(j + 1).last() == bs@[j as int]);
        }
        if b == 0x22 {
            put(out, 0x5c);
            put(out, 0x22);
        } else if b == 0x5c {
            put(out, 0x5c);
            put(out, 0x5c);
        } else if b == 0x08 {
            put(out, 0x5c);
            put(out, 0x62);
        } else if b == 0x09 {
            put(out, 0x5c);
            put(out, 0x74);
        } else if b == 0x0a {
            put(out, 0x5c);
            put(out, 0x6e);
        } else if b == 0x0c {
            put(out, 0x5c);
            put(out, 0x66);
        } else if b == 0x0d {
            put(out, 0x5c);
            put(out, 0x72);
        } else if b < 0x20 {
            put(out, 0x5c);
            put(out, 0x75);
            put(out, 0x30);
            put(out, 0x30);
            let hi = b / 16;
            let lo = b % 16;
            put(out, if hi < 10 { 0x30 + hi } else { 0x57 + hi });
            put(out, if lo < 10 { 0x30 + lo } else { 0x57 + lo });
        } else {
            put(out, b);
        }
        proof {
            assert(out@ =~= base + esc_bytes(bs@.take(j + 1)));
        }
        j += 1;
    }
    proof {
        assert(bs@.take(n as int) =~= bs@);
    }
}

fn write_str(s: &str, out: &mut Vec<u8>)
    ensures
        final(out)@ == old(out)@ + ser_str(s@),
{
    put(out, 0x22);
    write_escaped(s.as_bytes(), out);
    put(out, 0x22);
    proof {
        assert(final(out)@ =~= old(out)@ + ser_str(s@));
    }
}

fn write_num(n: &JsonNum, out: &mut Vec<u8>)
    ensures
        final(out)@ == old(out)@ + ser_num(n@),
{
    if n.neg {
        put(out, 0x2d);
    }
    out.extend_from_slice(n.int_digits.as_slice());
    if n.frac_digits.len() > 0 {
        put(out, 0x2e);
        out.extend_from_slice(n.frac_digits.as_slice());
    }
    if n.exp_digits.len() > 0 {
        put(out, 0x65);
        if n.exp_neg {
            put(out, 0x2d);
        }
        out.extend_from_slice(n.exp_digits.as_slice());
    }
    proof {
        assert(final(out)@ =~= old(out)@ + ser_num(n@));
    }
}

/// Append the compact serialization of `v`.
#[verifier::loop_isolation(false)]
pub fn write_json(v: &Json, out: &mut Vec<u8>)
    ensures
        final(out)@ == old(out)@ + ser_view(v@),
    decreases v,
{
    match v {
        Json::Null => {
            put(out, 0x6e);
            put(out, 0x75);
            put(out, 0x6c);
            put(out, 0x6c);
            proof {
                assert(final(out)@ =~= old(out)@ + ser_view(v@));
            }
        },
        Json::Bool(b) => {
            if *b {
                put(out, 0x74);
                put(out, 0x72);
                put(out, 0x75);
                put(out, 0x65);
            } else {
                put(out, 0x66);
                put(out, 0x61);
                put(out, 0x6c);
                put(out, 0x73);
                put(out, 0x65);
            }
            proof {
                assert(final(out)@ =~= old(out)@ + ser_view(v@));
            }
        },
        Json::Num(n) => {
            write_num(n, out);
        },
        Json::Str(s) => {
            write_str(s.as_str(), out);
        },
        Json::Arr(items) => {
            let ghost base = out@;
            let ghost tv = view_items(items@);
            proof {
                lemma_view_items_index(items@);
            }
            put(out, 0x5b);
            let n = items.len();
            let mut j: usize = 0;
            proof {
                assert(base + seq![0x5bu8] + ser_items(tv.take(0)) =~= base + seq![0x5bu8]);
            }
            while j < n
                invariant
                    0 <= j <= n,
                    n == items@.len(),
                    tv == view_items(items@),
                    tv.len() == items@.len(),
                    forall|k: int| 0 <= k < items@.len() ==> tv[k] == items@[k].view_rec(),
                    out@ == base + seq![0x5bu8] + ser_items(tv.take(j as int)),
                decreases n - j,
            {
                if j > 0 {
                    put(out, 0x2c);
                }
                proof {
                    assert(decreases_to!(*v => v->Arr_0));
                    assert(decreases_to!(v->Arr_0 => v->Arr_0@));
                    assert(decreases_to!(v->Arr_0@ => v->Arr_0@[j as int]));
                }
                write_json(&items[j], out);
                proof {
                    assert(tv.take(j + 1).drop_last() =~= tv.take(j as int));
                    assert(tv.take(j + 1).last() == tv[j as int]);
                    assert(out@ =~= base + seq![0x5bu8] + ser_items(tv.take(j + 1)));
                }
                j += 1;
            }
            put(out, 0x5d);
            proof {
                assert(tv.take(n as int) =~= tv);
                assert(final(out)@ =~= base + ser_view(v@));
            }
        },
        Json::Obj(pairs) => {
            let ghost base = out@;
            let ghost tv = view_pairs(pairs@);
            proof {
                lemma_view_pairs_index(pairs@);
            }
            put(out, 0x7b);
            let n = pairs.len();
            let mut j: usize = 0;
            proof {
                assert(base + seq![0x7bu8] + ser_pairs(tv.take(0)) =~= base + seq![0x7bu8]);
            }
            while j < n
                invariant
                    0 <= j <= n,
                    n == pairs@.len(),
                    tv == view_pairs(pairs@),
                    tv.len() == pairs@.len(),
                    forall|k: int| 0 <= k < pairs@.len() ==> tv[k] == (
                        pairs@[k].0@,
                        pairs@[k].1.view_rec(),
                    ),
                    out@ == base + seq![0x7bu8] + ser_pairs(tv.take(j as int)),
                decreases n - j,
            {
                if j > 0 {
                    put(out, 0x2c);
                }
                write_str(pairs[j].0.as_str(), out);
                put(out, 0x3a);
                proof {
                    assert(decreases_to!(*v => v->Obj_0));
                    assert(decreases_to!(v->Obj_0 => v->Obj_0@));
                    assert(decreases_to!(v->Obj_0@ => v->Obj_0@[j as int]));
                    assert(decreases_to!(v->Obj_0@[j as int] => v->Obj_0@[j as int].1));
                }
                write_json(&pairs[j].1, out);
                proof {
                    assert(tv.take(j + 1).drop_last() =~= tv.take(j as int));
                    assert(tv.take(j + 1).last() == tv[j as int]);
                    assert(out@ =~= base + seq![0x7bu8] + ser_pairs(tv.take(j + 1)));
                }
                j += 1;
            }
            put(out, 0x7d);
            proof {
                assert(tv.take(n as int) =~= tv);
                assert(final(out)@ =~= base + ser_view(v@));
            }
        },
    }
}

/// The compact serialization of `v` as a fresh buffer.
pub fn to_bytes(v: &Json) -> (r: Vec<u8>)
    ensures
        r@ == ser_view(v@),
{
    let mut out: Vec<u8> = Vec::new();
    write_json(v, &mut out);
    proof {
        assert(Seq::<u8>::empty() + ser_view(v@) =~= ser_view(v@));
    }
    out
}

} // verus!
