//! Version negotiation: classifying the remote daemon's protocol dialect.
//!
//! The probe is a plain `getself` request; the raw successful reply is
//! inspected structurally, in fixed precedence order.  A reply whose payload
//! nests under a `self` wrapper comes from the oldest wire format.  Failing
//! that, a reply carrying a `build_version` string is split on `.` and `-`,
//! the first three components are parsed as numbers (unparsable ones are
//! dropped), and `0.4.x` marks the intermediate generation.  Everything
//! else - including a failed or inconclusive probe - is taken to be the
//! current generation.

use vstd::prelude::*;

verus! {

use vstd::utf8::encode_utf8;
use crate::json::{Json, JsonView, spec_lookup, lookup, all_digits, digits_val,
    lemma_digits_val_nonneg, lemma_digits_val_prefix_mono, spec_is_digit};

/// A known generation of the remote protocol.
///
/// `__v0_4_4` is the oldest dialect (up to 0.4.4), `v0_4_5__v0_4_7` the
/// intermediate one (0.4.5 through 0.4.7), `v0_5_0__` the current one
/// (0.5.0 and later).  Once classified for a connection it never changes.
#[derive(Clone, Copy, PartialEq, Eq, Structural, Debug)]
#[allow(non_camel_case_types)]
pub enum RouterVersion {
    __v0_4_4,
    v0_4_5__v0_4_7,
    v0_5_0__,
}

/// A version-string separator: `.` or `-`.
pub open spec fn spec_is_sep(b: u8) -> bool {
    b == 0x2e || b == 0x2d
}

/// The first separator at or after `i`, or the end of the string.
pub open spec fn sp_comp_end(s: Seq<u8>, i: int) -> int
    decreases s.len() - i,
{
    if 0 <= i < s.len() && !spec_is_sep(s[i]) {
        sp_comp_end(s, i + 1)
    } else {
        i
    }
}

/// The components of `s[i..]`, split on separators (empty components kept).
pub open spec fn sp_components(s: Seq<u8>, i: int) -> Seq<Seq<u8>>
    decreases s.len() - i,
{
    let e = sp_comp_end(s, i);
    if i <= e < s.len() {
        seq![s.subrange(i, e)] + sp_components(s, e + 1)
    } else if i <= e {
        seq![s.subrange(i, s.len() as int)]
    } else {
        seq![]
    }
}

/// What parsing a component as a signed 32-bit decimal yields: an optional
/// single sign, then at least one digit, all digits, value in range.
pub open spec fn sp_parse_i32(bs: Seq<u8>) -> Option<int> {
    if bs.len() == 0 {
        None
    } else {
        let neg = bs[0] == 0x2d;
        let ds = if bs[0] == 0x2b || bs[0] == 0x2d {
            bs.skip(1)
        } else {
            bs
        };
        if ds.len() > 0 && all_digits(ds) {
            if neg && digits_val(ds) <= 0x8000_0000 {
                Some(-digits_val(ds))
            } else if !neg && digits_val(ds) <= 0x7fff_ffff {
                Some(digits_val(ds))
            } else {
                None
            }
        } else {
            None
        }
    }
}

/// Parse each component, dropping the ones that do not parse.
pub open spec fn sp_filtered(cs: Seq<Seq<u8>>) -> Seq<int>
    decreases cs,
{
    if cs.len() == 0 {
        seq![]
    } else {
        match sp_parse_i32(cs[0]) {
            Some(v) => seq![v] + sp_filtered(cs.skip(1)),
            None => sp_filtered(cs.skip(1)),
        }
    }
}

/// Whether a `build_version` string (as UTF-8 bytes) marks the intermediate
/// dialect: of its first three components, all three parse, and they read
/// `0`, `4`, anything.
pub open spec fn spec_is_v04(bs: Seq<u8>) -> bool {
    let cs = sp_components(bs, 0);
    let t = sp_filtered(
        if cs.len() <= 3 {
            cs
        } else {
            cs.take(3)
        },
    );
    t.len() == 3 && t[0] == 0 && t[1] == 4
}

/// How a raw successful probe reply classifies the remote dialect.
pub open spec fn spec_classify(v: JsonView) -> RouterVersion {
    match v {
        JsonView::Obj(pairs) => if spec_lookup(pairs, "self"@) is Some {
            RouterVersion::__v0_4_4
        } else {
            match spec_lookup(pairs, "build_version"@) {
                Some(JsonView::Str(bv)) => if spec_is_v04(encode_utf8(bv)) {
                    RouterVersion::v0_4_5__v0_4_7
                } else {
                    RouterVersion::v0_5_0__
                },
                _ => RouterVersion::v0_5_0__,
            }
        },
        _ => RouterVersion::v0_5_0__,
    }
}

proof fn lemma_comp_end_ge(s: Seq<u8>, i: int)
    requires
        i >= 0,
    ensures
        sp_comp_end(s, i) >= i,
    decreases s.len() - i,
{
    if 0 <= i < s.len() && !spec_is_sep(s[i]) {
        lemma_comp_end_ge(s, i + 1);
    }
}

fn comp_end(s: &[u8], i: usize) -> (j: usize)
    requires
        i <= s@.len(),
    ensures
        j == sp_comp_end(s@, i as int),
        i <= j <= s@.len(),
{
    let n = s.len();
    let mut cur = i;
    while cur < n && s[cur] != 0x2e && s[cur] != 0x2d
        invariant
            i <= cur <= n,
            n == s@.len(),
            sp_comp_end(s@, i as int) == sp_comp_end(s@, cur as int),
        decreases n - cur,
    {
        cur += 1;
    }
    cur
}

/// Parse `s[from..to]` as a signed 32-bit decimal.
#[verifier::loop_isolation(false)]
fn parse_i32_range(s: &[u8], from: usize, to: usize) -> (r: Option<i32>)
    requires
        from <= to <= s@.len(),
    ensures
        match r {
            Some(v) => sp_parse_i32(s@.subrange(from as int, to as int)) == Some(v as int),
            None => sp_parse_i32(s@.subrange(from as int, to as int)) is None,
        },
{
    let ghost bs = s@.subrange(from as int, to as int);
    if from == to {
        return None;
    }
    let b0 = s[from];
    let neg = b0 == 0x2d;
    let dstart = if b0 == 0x2b || b0 == 0x2d {
        from + 1
    } else {
        from
    };
    let ghost ds = s@.subrange(dstart as int, to as int);
    proof {
        if b0 == 0x2b || b0 == 0x2d {
            assert(ds =~= bs.skip(1));
        } else {
            assert(ds =~= bs);
        }
    }
    if dstart == to {
        return None;
    }
    let mut acc: u64 = 0;
    let mut k = dstart;
    while k < to
        invariant
            dstart <= k <= to <= s@.len(),
            ds == s@.subrange(dstart as int, to as int),
            ds.len() == to - dstart,
            forall|m: int| 0 <= m < ds.len() ==> ds[m] == s@[dstart + m],
            all_digits(ds.take(k - dstart)),
            acc == digits_val(ds.take(k - dstart)),
            acc <= 0x1_0000_0000u64,
        decreases to - k,
    {
        let d = s[k];
        proof {
            assert(ds.take(k - dstart + 1).drop_last() =~= ds.take(k - dstart));
            assert(ds.take(k - dstart + 1).last() == ds[k - dstart]);
        }
        if d < 0x30 || d > 0x39 {
            proof {
                assert(!spec_is_digit(ds[k - dstart]));
                assert(!all_digits(ds));
            }
            return None;
        }
        if acc > 0x1_0000_0000u64 / 10 {
            // even without the remaining digits the value is out of range
            proof {
                if all_digits(ds) {
                    lemma_digits_val_nonneg(ds.take(k - dstart));
                    assert(acc * 10 + (d - 0x30) > 0x1_0000_0000u64) by (nonlinear_arith)
                        requires
                            acc > 0x1_0000_0000u64 / 10,
                            0 <= d - 0x30 <= 9,
                    ;
                    lemma_digits_val_prefix_mono(ds, k - dstart + 1);
                }
            }
            return None;
        }
        acc = acc * 10 + ((d - 0x30) as u64);
        proof {
            if acc > 0x1_0000_0000u64 {
                if all_digits(ds) {
                    lemma_digits_val_prefix_mono(ds, k - dstart + 1);
                }
            }
        }
        if acc > 0x1_0000_0000u64 {
            return None;
        }
        k += 1;
    }
    proof {
        assert(ds.take(to - dstart) =~= ds);
    }
    if neg {
        if acc <= 0x8000_0000u64 {
            if acc == 0x8000_0000u64 {
                Some(i32::MIN)
            } else {
                Some(-(acc as i32))
            }
        } else {
            None
        }
    } else {
        if acc <= 0x7fff_ffffu64 {
            Some(acc as i32)
        } else {
            None
        }
    }
}

/// Whether a version string marks the intermediate dialect.
#[verifier::rlimit(50)]
fn is_v04(s: &[u8]) -> (r: bool)
    ensures
        r == spec_is_v04(s@),
{
    let n = s.len();
    let ghost cs = sp_components(s@, 0);
    let e0 = comp_end(s, 0);
    let c0 = parse_i32_range(s, 0, e0);
    if e0 >= n {
        // a single component can never make a triple
        proof {
            reveal_with_fuel(sp_components, 2);
            assert(cs == seq![s@.subrange(0, n as int)]);
            lemma_filtered_len(cs);
        }
        return false;
    }
    let e1 = comp_end(s, e0 + 1);
    let c1 = parse_i32_range(s, e0 + 1, e1);
    if e1 >= n {
        proof {
            reveal_with_fuel(sp_components, 3);
            assert(sp_components(s@, e0 + 1) == seq![s@.subrange(e0 + 1, n as int)]);
            assert(cs == seq![s@.subrange(0, e0 as int)] + sp_components(s@, e0 + 1));
            assert(cs =~= seq![
                s@.subrange(0, e0 as int),
                s@.subrange(e0 + 1, n as int),
            ]);
            lemma_filtered_len(cs);
        }
        return false;
    }
    let e2 = comp_end(s, e1 + 1);
    let c2 = parse_i32_range(s, e1 + 1, e2);
    let ghost first3 = seq![
        s@.subrange(0, e0 as int),
        s@.subrange(e0 + 1, e1 as int),
        s@.subrange(e1 + 1, e2 as int),
    ];
    proof {
        reveal_with_fuel(sp_components, 4);
        assert(sp_components(s@, e0 + 1) == seq![s@.subrange(e0 + 1, e1 as int)]
            + sp_components(s@, e1 + 1));
        assert(cs == seq![s@.subrange(0, e0 as int)] + sp_components(s@, e0 + 1));
        if e2 < n {
            assert(sp_components(s@, e1 + 1) == seq![s@.subrange(e1 + 1, e2 as int)]
                + sp_components(s@, e2 + 1));
            lemma_comp_end_ge(s@, e2 + 1);
            assert(sp_components(s@, e2 + 1).len() >= 1);
            assert(cs =~= first3 + sp_components(s@, e2 + 1));
            assert(cs.len() > 3);
            assert(cs.take(3) =~= first3);
        } else {
            assert(sp_components(s@, e1 + 1) == seq![s@.subrange(e1 + 1, n as int)]);
            assert(cs =~= first3);
        }
        lemma_filtered3(first3);
    }
    match (c0, c1, c2) {
        (Some(a), Some(b), Some(_)) => a == 0 && b == 4,
        _ => false,
    }
}

/// Parsing drops components, so no more come out than went in.
proof fn lemma_filtered_len(cs: Seq<Seq<u8>>)
    ensures
        sp_filtered(cs).len() <= cs.len(),
    decreases cs,
{
    if cs.len() > 0 {
        lemma_filtered_len(cs.skip(1));
    }
}

/// What filtering does to exactly three components.
proof fn lemma_filtered3(cs: Seq<Seq<u8>>)
    requires
        cs.len() == 3,
    ensures
        sp_filtered(cs) == ({
            let p0 = sp_parse_i32(cs[0]);
            let p1 = sp_parse_i32(cs[1]);
            let p2 = sp_parse_i32(cs[2]);
            let t0: Seq<int> = match p0 {
                Some(v) => seq![v],
                None => seq![],
            };
            let t1: Seq<int> = match p1 {
                Some(v) => seq![v],
                None => seq![],
            };
            let t2: Seq<int> = match p2 {
                Some(v) => seq![v],
                None => seq![],
            };
            t0 + t1 + t2
        }),
{
    let tail1 = cs.skip(1);
    let tail2 = tail1.skip(1);
    assert(tail1[0] == cs[1]);
    assert(tail2[0] == cs[2]);
    assert(tail2.skip(1) =~= Seq::<Seq<u8>>::empty());
    assert(sp_filtered(tail2.skip(1)) =~= Seq::<int>::empty());
    let t0: Seq<int> = match sp_parse_i32(cs[0]) {
        Some(v) => seq![v],
        None => seq![],
    };
    let t1: Seq<int> = match sp_parse_i32(cs[1]) {
        Some(v) => seq![v],
        None => seq![],
    };
    let t2: Seq<int> = match sp_parse_i32(cs[2]) {
        Some(v) => seq![v],
        None => seq![],
    };
    assert(sp_filtered(tail2) =~= t2);
    assert(sp_filtered(tail1) =~= t1 + t2);
    assert(sp_filtered(cs) =~= t0 + (t1 + t2));
    assert(t0 + (t1 + t2) =~= t0 + t1 + t2);
}

/// Classify the remote dialect from the raw `getself` probe reply.
pub fn classify_self_reply(reply: &Json) -> (r: RouterVersion)
    ensures
        r == spec_classify(reply@),
{
    broadcast use vstd::utf8::encode_utf8_decode_utf8;

    match reply {
        Json::Obj(pairs) => {
            if lookup(pairs, "self").is_some() {
                return RouterVersion::__v0_4_4;
            }
            match lookup(pairs, "build_version") {
                Some(Json::Str(bv)) => {
                    if is_v04(bv.as_str().as_bytes()) {
                        RouterVersion::v0_4_5__v0_4_7
                    } else {
                        RouterVersion::v0_5_0__
                    }
                },
                _ => RouterVersion::v0_5_0__,
            }
        },
        _ => RouterVersion::v0_5_0__,
    }
}

} // verus!
