//! The schema normalizer: reshaping dialect-specific reply payloads into
//! the version-independent entity records.
//!
//! One strategy per dialect and logical query.  The oldest dialect keys
//! some collections by address; those mappings are flattened into arrays by
//! folding the key into the record as its address field, in wire order.
//! Fields a dialect does not carry come out as `None`, except where zero is
//! the old dialect's own absence-of-history default (session byte
//! counters).  Required members must be present with the right type;
//! unknown members are ignored.  For each known member the first
//! occurrence decides.

use vstd::prelude::*;

verus! {

use crate::dialect::RouterVersion;
use crate::json::{Json, JsonView, JsonNumView, spec_lookup, lookup, num_as_u64, all_digits,
    digits_val, view_pairs, view_items, lemma_view_pairs_index, lemma_view_items_index};
use crate::entities::{DurationValue, PeerEntry, SessionEntry, SelfEntry, PathEntry, DHTEntry,
    TunEntry, TreeEntry, ListEntry, Empty};

// ---------------------------------------------------------------------------
// Reading one member of a record
// ---------------------------------------------------------------------------
/// A required string member.
pub open spec fn f_str(ps: Seq<(Seq<char>, JsonView)>, key: Seq<char>) -> Option<Seq<char>> {
    match spec_lookup(ps, key) {
        Some(JsonView::Str(s)) => Some(s),
        _ => None,
    }
}

/// A required unsigned integer member.
pub open spec fn f_u64(ps: Seq<(Seq<char>, JsonView)>, key: Seq<char>) -> Option<u64> {
    match spec_lookup(ps, key) {
        Some(JsonView::Num(n)) => num_as_u64(n),
        _ => None,
    }
}

/// A required boolean member.
pub open spec fn f_bool(ps: Seq<(Seq<char>, JsonView)>, key: Seq<char>) -> Option<bool> {
    match spec_lookup(ps, key) {
        Some(JsonView::Bool(b)) => Some(b),
        _ => None,
    }
}

/// An optional string member: absent or `null` reads as `None`.
pub open spec fn f_opt_str(ps: Seq<(Seq<char>, JsonView)>, key: Seq<char>) -> Option<
    Option<Seq<char>>,
> {
    match spec_lookup(ps, key) {
        None => Some(None),
        Some(JsonView::Null) => Some(None),
        Some(JsonView::Str(s)) => Some(Some(s)),
        Some(_) => None,
    }
}

/// An optional unsigned integer member: absent or `null` reads as `None`.
pub open spec fn f_opt_u64(ps: Seq<(Seq<char>, JsonView)>, key: Seq<char>) -> Option<Option<u64>> {
    match spec_lookup(ps, key) {
        None => Some(None),
        Some(JsonView::Null) => Some(None),
        Some(JsonView::Num(n)) => match num_as_u64(n) {
            Some(v) => Some(Some(v)),
            None => None,
        },
        Some(_) => None,
    }
}

/// The seconds-and-nanoseconds reading of a non-negative decimal number
/// without an exponent; fraction digits beyond the ninth are dropped.
pub open spec fn duration_of_num(n: JsonNumView) -> Option<DurationValue> {
    if !n.neg && n.exp_digits.len() == 0 && all_digits(n.int_digits) && all_digits(n.frac_digits)
        && n.int_digits.len() > 0 && digits_val(n.int_digits) <= u64::MAX {
        Some(
            DurationValue {
                secs: digits_val(n.int_digits) as u64,
                nanos: frac_nanos(n.frac_digits) as u32,
            },
        )
    } else {
        None
    }
}

/// The nanosecond value of a fraction-digit string: its first nine digits,
/// right-padded with zeros.
pub open spec fn frac_nanos(ds: Seq<u8>) -> int {
    digits_val(pad9(ds))
}

pub open spec fn pad9(ds: Seq<u8>) -> Seq<u8> {
    if ds.len() >= 9 {
        ds.take(9)
    } else {
        ds + Seq::new((9 - ds.len()) as nat, |i: int| 0x30u8)
    }
}

/// Nine digits stay below one billion.
pub proof fn lemma_digits_val_digits_bound(ds: Seq<u8>)
    requires
        all_digits(ds),
        ds.len() <= 9,
    ensures
        0 <= digits_val(ds) < 1_000_000_000,
    decreases ds.len(),
{
    lemma_pow10_mono(ds.len() as nat, 9);
    assert(pow10(9) == 1_000_000_000) by {
        reveal_with_fuel(pow10, 10);
    }
    lemma_digits_val_digits_bound_aux(ds, 1_000_000_000);
}

proof fn lemma_pow10_pos(n: nat)
    ensures
        pow10(n) >= 1,
    decreases n,
{
    if n > 0 {
        lemma_pow10_pos((n - 1) as nat);
    }
}

proof fn lemma_pow10_mono(a: nat, b: nat)
    requires
        a <= b,
    ensures
        pow10(a) <= pow10(b),
    decreases b,
{
    if a < b {
        lemma_pow10_mono(a, (b - 1) as nat);
        lemma_pow10_pos((b - 1) as nat);
    }
}

proof fn lemma_digits_val_digits_bound_aux(ds: Seq<u8>, bound: int)
    requires
        all_digits(ds),
        pow10(ds.len() as nat) <= bound,
    ensures
        0 <= digits_val(ds) < bound,
    decreases ds.len(),
{
    if ds.len() == 0 {
    } else {
        lemma_digits_val_digits_bound_aux(ds.drop_last(), pow10((ds.len() - 1) as nat));
        assert(digits_val(ds) == digits_val(ds.drop_last()) * 10 + (ds.last() - 0x30));
        assert(digits_val(ds.drop_last()) * 10 <= (pow10((ds.len() - 1) as nat) - 1) * 10)
            by (nonlinear_arith)
            requires
                digits_val(ds.drop_last()) <= pow10((ds.len() - 1) as nat) - 1,
        ;
    }
}

pub open spec fn pow10(n: nat) -> int
    decreases n,
{
    if n == 0 {
        1
    } else {
        10 * pow10((n - 1) as nat)
    }
}

/// A required duration member (the old dialects' `uptime` number).
pub open spec fn f_dur(ps: Seq<(Seq<char>, JsonView)>, key: Seq<char>) -> Option<DurationValue> {
    match spec_lookup(ps, key) {
        Some(JsonView::Num(n)) => duration_of_num(n),
        _ => None,
    }
}

/// An optional duration member: absent or `null` reads as `None`.
pub open spec fn f_opt_dur(ps: Seq<(Seq<char>, JsonView)>, key: Seq<char>) -> Option<
    Option<DurationValue>,
> {
    match spec_lookup(ps, key) {
        None => Some(None),
        Some(JsonView::Null) => Some(None),
        Some(JsonView::Num(n)) => match duration_of_num(n) {
            Some(d) => Some(Some(d)),
            None => None,
        },
        Some(_) => None,
    }
}

/// An optional nanosecond-count member (`last_error_time`): absent reads as
/// `None`; when present it must be an unsigned integer (even `null` is
/// rejected) and is split into seconds and nanoseconds.
pub open spec fn f_opt_nanos(ps: Seq<(Seq<char>, JsonView)>, key: Seq<char>) -> Option<
    Option<DurationValue>,
> {
    match spec_lookup(ps, key) {
        None => Some(None),
        Some(JsonView::Num(n)) => match num_as_u64(n) {
            Some(v) => Some(Some(DurationValue::spec_from_nanos(v))),
            None => None,
        },
        Some(_) => None,
    }
}

/// A required array-of-unsigned-integers member.
pub open spec fn arr_u64(items: Seq<JsonView>) -> Option<Seq<u64>>
    decreases items,
{
    if items.len() == 0 {
        Some(seq![])
    } else {
        match items[0] {
            JsonView::Num(n) => match num_as_u64(n) {
                Some(v) => match arr_u64(items.skip(1)) {
                    Some(rest) => Some(seq![v] + rest),
                    None => None,
                },
                None => None,
            },
            _ => None,
        }
    }
}

pub open spec fn f_u64_arr(ps: Seq<(Seq<char>, JsonView)>, key: Seq<char>) -> Option<Seq<u64>> {
    match spec_lookup(ps, key) {
        Some(JsonView::Arr(items)) => arr_u64(items),
        _ => None,
    }
}

/// A required array-of-strings member.
pub open spec fn arr_str(items: Seq<JsonView>) -> Option<Seq<Seq<char>>>
    decreases items,
{
    if items.len() == 0 {
        Some(seq![])
    } else {
        match items[0] {
            JsonView::Str(s) => match arr_str(items.skip(1)) {
                Some(rest) => Some(seq![s] + rest),
                None => None,
            },
            _ => None,
        }
    }
}

pub open spec fn f_str_arr(ps: Seq<(Seq<char>, JsonView)>, key: Seq<char>) -> Option<
    Seq<Seq<char>>,
> {
    match spec_lookup(ps, key) {
        Some(JsonView::Arr(items)) => arr_str(items),
        _ => None,
    }
}

/// An optional array-of-strings member: absent or `null` reads as `None`.
pub open spec fn f_opt_str_arr(ps: Seq<(Seq<char>, JsonView)>, key: Seq<char>) -> Option<
    Option<Seq<Seq<char>>>,
> {
    match spec_lookup(ps, key) {
        None => Some(None),
        Some(JsonView::Null) => Some(None),
        Some(JsonView::Arr(items)) => match arr_str(items) {
            Some(ss) => Some(Some(ss)),
            None => None,
        },
        Some(_) => None,
    }
}

/// The views of an optional string.
pub open spec fn ov_str(o: Option<String>) -> Option<Seq<char>> {
    match o {
        Some(s) => Some(s@),
        None => None,
    }
}

/// The views of an optional string vector.
pub open spec fn ov_str_vec(o: Option<Vec<String>>) -> Option<Seq<Seq<char>>> {
    match o {
        Some(v) => Some(v.deep_view()),
        None => None,
    }
}

// ---------------------------------------------------------------------------
// Executable counterparts
// ---------------------------------------------------------------------------
impl crate::json::JsonNum {
    /// Read this number as a duration, exactly when [`duration_of_num`]
    /// allows it.
    pub fn as_duration(&self) -> (r: Option<DurationValue>)
        ensures
            r == duration_of_num(self@),
    {
        if self.neg || self.exp_digits.len() != 0 || self.int_digits.len() == 0 {
            return None;
        }
        let secs = match crate::json::digits_to_u64(self.int_digits.as_slice()) {
            Some(v) => v,
            None => {
                return None;
            },
        };
        let ghost fs = self.frac_digits@;
        // every fraction digit must be a digit
        let mut m: usize = 0;
        while m < self.frac_digits.len()
            invariant
                0 <= m <= fs.len(),
                fs == self.frac_digits@,
                all_digits(fs.take(m as int)),
            decreases fs.len() - m,
        {
            let d = self.frac_digits[m];
            proof {
                assert(fs.take(m + 1).drop_last() =~= fs.take(m as int));
                assert(fs.take(m + 1).last() == fs[m as int]);
            }
            if d < 0x30 || d > 0x39 {
                proof {
                    assert(!crate::json::spec_is_digit(fs[m as int]));
                    assert(!all_digits(fs));
                }
                return None;
            }
            m += 1;
        }
        proof {
            assert(fs.take(fs.len() as int) =~= fs);
            assert(all_digits(fs));
            assert(forall|j: int| 0 <= j < pad9(fs).len() ==> crate::json::spec_is_digit(
                #[trigger] pad9(fs)[j],
            ));
        }
        // the first nine fraction digits, right-padded with zeros
        let mut nanos: u32 = 0;
        let mut k: usize = 0;
        proof {
            assert(pad9(fs).take(0) =~= Seq::<u8>::empty());
        }
        while k < 9
            invariant
                0 <= k <= 9,
                fs == self.frac_digits@,
                all_digits(fs),
                all_digits(pad9(fs)),
                pad9(fs).len() == 9,
                nanos == digits_val(pad9(fs).take(k as int)),
                nanos < 1_000_000_000,
            decreases 9 - k,
        {
            let d: u8 = if k < self.frac_digits.len() {
                self.frac_digits[k]
            } else {
                0x30
            };
            proof {
                assert(pad9(fs)[k as int] == d);
                assert(pad9(fs).take(k + 1).drop_last() =~= pad9(fs).take(k as int));
                assert(pad9(fs).take(k + 1).last() == pad9(fs)[k as int]);
                assert(all_digits(pad9(fs).take(k + 1)));
                lemma_digits_val_digits_bound(pad9(fs).take(k + 1));
            }
            nanos = nanos * 10 + ((d - 0x30) as u32);
            k += 1;
        }
        proof {
            assert(pad9(fs).take(9) =~= pad9(fs));
        }
        Some(DurationValue { secs, nanos })
    }
}

/// A required string member.
fn get_str(pairs: &Vec<(String, Json)>, key: &str) -> (r: Option<String>)
    ensures
        match f_str(view_pairs(pairs@), key@) {
            Some(s) => r matches Some(rs) && rs@ == s,
            None => r is None,
        },
{
    match lookup(pairs, key) {
        Some(Json::Str(s)) => Some(s.clone()),
        _ => None,
    }
}

/// A required unsigned integer member.
fn get_u64(pairs: &Vec<(String, Json)>, key: &str) -> (r: Option<u64>)
    ensures
        r == f_u64(view_pairs(pairs@), key@),
{
    match lookup(pairs, key) {
        Some(Json::Num(n)) => n.as_u64(),
        _ => None,
    }
}

/// A required boolean member.
fn get_bool(pairs: &Vec<(String, Json)>, key: &str) -> (r: Option<bool>)
    ensures
        r == f_bool(view_pairs(pairs@), key@),
{
    match lookup(pairs, key) {
        Some(Json::Bool(b)) => Some(*b),
        _ => None,
    }
}

/// An optional string member.
fn get_opt_str(pairs: &Vec<(String, Json)>, key: &str) -> (r: Option<Option<String>>)
    ensures
        match f_opt_str(view_pairs(pairs@), key@) {
            Some(o) => r matches Some(ro) && ov_str(ro) == o,
            None => r is None,
        },
{
    match lookup(pairs, key) {
        None => Some(None),
        Some(Json::Null) => Some(None),
        Some(Json::Str(s)) => Some(Some(s.clone())),
        Some(_) => None,
    }
}

/// An optional unsigned integer member.
fn get_opt_u64(pairs: &Vec<(String, Json)>, key: &str) -> (r: Option<Option<u64>>)
    ensures
        r == f_opt_u64(view_pairs(pairs@), key@),
{
    match lookup(pairs, key) {
        None => Some(None),
        Some(Json::Null) => Some(None),
        Some(Json::Num(n)) => match n.as_u64() {
            Some(v) => Some(Some(v)),
            None => None,
        },
        Some(_) => None,
    }
}

/// A required duration member.
fn get_dur(pairs: &Vec<(String, Json)>, key: &str) -> (r: Option<DurationValue>)
    ensures
        r == f_dur(view_pairs(pairs@), key@),
{
    match lookup(pairs, key) {
        Some(Json::Num(n)) => n.as_duration(),
        _ => None,
    }
}

/// An optional duration member.
fn get_opt_dur(pairs: &Vec<(String, Json)>, key: &str) -> (r: Option<Option<DurationValue>>)
    ensures
        r == f_opt_dur(view_pairs(pairs@), key@),
{
    match lookup(pairs, key) {
        None => Some(None),
        Some(Json::Null) => Some(None),
        Some(Json::Num(n)) => match n.as_duration() {
            Some(d) => Some(Some(d)),
            None => None,
        },
        Some(_) => None,
    }
}

/// An optional nanosecond-count member.
fn get_opt_nanos(pairs: &Vec<(String, Json)>, key: &str) -> (r: Option<Option<DurationValue>>)
    ensures
        r == f_opt_nanos(view_pairs(pairs@), key@),
{
    match lookup(pairs, key) {
        None => Some(None),
        Some(Json::Num(n)) => match n.as_u64() {
            Some(v) => Some(Some(DurationValue::from_nanos(v))),
            None => None,
        },
        Some(_) => None,
    }
}

/// Read an array of unsigned integers.
fn u64_items(items: &Vec<Json>) -> (r: Option<Vec<u64>>)
    ensures
        match arr_u64(view_items(items@)) {
            Some(vs) => r matches Some(rv) && rv@ == vs,
            None => r is None,
        },
{
    proof {
        lemma_view_items_index(items@);
    }
    let ghost tv = view_items(items@);
    let mut out: Vec<u64> = Vec::new();
    let mut i: usize = 0;
    proof {
        assert(tv.skip(0) =~= tv);
    }
    while i < items.len()
        invariant
            0 <= i <= items@.len(),
            tv == view_items(items@),
            tv.len() == items@.len(),
            forall|k: int| 0 <= k < items@.len() ==> tv[k] == items@[k].view_rec(),
            out@.len() == i,
            match arr_u64(tv.skip(i as int)) {
                Some(rest) => arr_u64(tv) == Some(out@ + rest),
                None => arr_u64(tv) is None,
            },
        decreases items@.len() - i,
    {
        proof {
            assert(tv.skip(i as int)[0] == tv[i as int]);
            assert(tv.skip(i as int).skip(1) =~= tv.skip(i + 1));
        }
        let v = match &items[i] {
            Json::Num(n) => match n.as_u64() {
                Some(v) => v,
                None => {
                    return None;
                },
            },
            _ => {
                return None;
            },
        };
        let ghost prev = out@;
        out.push(v);
        proof {
            match arr_u64(tv.skip(i + 1)) {
                Some(rest) => {
                    assert(prev + (seq![v] + rest) =~= out@ + rest);
                },
                None => {},
            }
        }
        i += 1;
    }
    proof {
        assert(tv.skip(items@.len() as int) =~= Seq::<JsonView>::empty());
        assert(out@ + Seq::<u64>::empty() =~= out@);
    }
    Some(out)
}

/// Read an array of strings.
fn str_items(items: &Vec<Json>) -> (r: Option<Vec<String>>)
    ensures
        match arr_str(view_items(items@)) {
            Some(ss) => r matches Some(rv) && rv.deep_view() == ss,
            None => r is None,
        },
{
    proof {
        lemma_view_items_index(items@);
    }
    let ghost tv = view_items(items@);
    let mut out: Vec<String> = Vec::new();
    let mut i: usize = 0;
    proof {
        assert(tv.skip(0) =~= tv);
        assert(out.deep_view() =~= Seq::<Seq<char>>::empty());
    }
    while i < items.len()
        invariant
            0 <= i <= items@.len(),
            tv == view_items(items@),
            tv.len() == items@.len(),
            forall|k: int| 0 <= k < items@.len() ==> tv[k] == items@[k].view_rec(),
            out@.len() == i,
            match arr_str(tv.skip(i as int)) {
                Some(rest) => arr_str(tv) == Some(out.deep_view() + rest),
                None => arr_str(tv) is None,
            },
        decreases items@.len() - i,
    {
        proof {
            assert(tv.skip(i as int)[0] == tv[i as int]);
            assert(tv.skip(i as int).skip(1) =~= tv.skip(i + 1));
        }
        let s = match &items[i] {
            Json::Str(s) => s.clone(),
            _ => {
                return None;
            },
        };
        let ghost prev = out.deep_view();
        let ghost gs = s@;
        out.push(s);
        proof {
            assert(out.deep_view() =~= prev + seq![gs]);
            match arr_str(tv.skip(i + 1)) {
                Some(rest) => {
                    assert(prev + (seq![gs] + rest) =~= out.deep_view() + rest);
                },
                None => {},
            }
        }
        i += 1;
    }
    proof {
        assert(tv.skip(items@.len() as int) =~= Seq::<JsonView>::empty());
        assert(out.deep_view() + Seq::<Seq<char>>::empty() =~= out.deep_view());
    }
    Some(out)
}

/// A required array-of-unsigned-integers member.
fn get_u64_arr(pairs: &Vec<(String, Json)>, key: &str) -> (r: Option<Vec<u64>>)
    ensures
        match f_u64_arr(view_pairs(pairs@), key@) {
            Some(vs) => r matches Some(rv) && rv@ == vs,
            None => r is None,
        },
{
    match lookup(pairs, key) {
        Some(Json::Arr(items)) => u64_items(items),
        _ => None,
    }
}

/// A required array-of-strings member.
fn get_str_arr(pairs: &Vec<(String, Json)>, key: &str) -> (r: Option<Vec<String>>)
    ensures
        match f_str_arr(view_pairs(pairs@), key@) {
            Some(ss) => r matches Some(rv) && rv.deep_view() == ss,
            None => r is None,
        },
{
    match lookup(pairs, key) {
        Some(Json::Arr(items)) => str_items(items),
        _ => None,
    }
}

/// An optional array-of-strings member.
fn get_opt_str_arr(pairs: &Vec<(String, Json)>, key: &str) -> (r: Option<Option<Vec<String>>>)
    ensures
        match f_opt_str_arr(view_pairs(pairs@), key@) {
            Some(o) => r matches Some(ro) && ov_str_vec(ro) == o,
            None => r is None,
        },
{
    match lookup(pairs, key) {
        None => Some(None),
        Some(Json::Null) => Some(None),
        Some(Json::Arr(items)) => match str_items(items) {
            Some(v) => Some(Some(v)),
            None => None,
        },
        Some(_) => None,
    }
}

// ---------------------------------------------------------------------------
// Per-record shapes, one pair of predicates per dialect and query:
// `..._ok` says the wire record is well-formed, `is_...` relates it to the
// entity it normalizes to.
// ---------------------------------------------------------------------------
pub open spec fn old_peer_ok(rec: JsonView) -> bool {
    match rec {
        JsonView::Obj(ps) => f_str(ps, "key"@) is Some && f_u64(ps, "port"@) is Some && f_u64_arr(
            ps,
            "coords"@,
        ) is Some && f_str(ps, "remote"@) is Some && f_u64(ps, "bytes_recvd"@) is Some && f_u64(
            ps,
            "bytes_sent"@,
        ) is Some && f_dur(ps, "uptime"@) is Some,
        _ => false,
    }
}

/// The oldest dialect's peer record, keyed by `addr`: carried fields move
/// over, `priority` and the error fields are unknown, and a listed peer
/// counts as up and outbound.
pub open spec fn is_old_peer(addr: Seq<char>, rec: JsonView, p: PeerEntry) -> bool {
    match rec {
        JsonView::Obj(ps) => {
            &&& ov_str(p.address) == Some(addr)
            &&& f_str(ps, "key"@) == Some(p.key@)
            &&& f_u64(ps, "port"@) == Some(p.port)
            &&& f_str(ps, "remote"@) == ov_str(p.remote)
            &&& p.remote is Some
            &&& f_u64(ps, "bytes_recvd"@) == p.bytes_recvd
            &&& p.bytes_recvd is Some
            &&& f_u64(ps, "bytes_sent"@) == p.bytes_sent
            &&& p.bytes_sent is Some
            &&& f_dur(ps, "uptime"@) == p.uptime
            &&& p.uptime is Some
            &&& p.priority is None
            &&& p.up == true
            &&& p.inbound == false
            &&& p.last_error is None
            &&& p.last_error_time is None
        },
        _ => false,
    }
}

pub open spec fn mid_peer_ok(rec: JsonView) -> bool {
    match rec {
        JsonView::Obj(ps) => f_str(ps, "address"@) is Some && f_str(ps, "key"@) is Some && f_u64(
            ps,
            "port"@,
        ) is Some && f_u64(ps, "priority"@) is Some && f_u64_arr(ps, "coords"@) is Some && f_str(
            ps,
            "remote"@,
        ) is Some && f_u64(ps, "bytes_recvd"@) is Some && f_u64(ps, "bytes_sent"@) is Some
            && f_dur(ps, "uptime"@) is Some,
        _ => false,
    }
}

/// The intermediate dialect's peer record: like the oldest, with the
/// address as a field; its `priority` is still discarded as unknown.
pub open spec fn is_mid_peer(rec: JsonView, p: PeerEntry) -> bool {
    match rec {
        JsonView::Obj(ps) => {
            &&& f_str(ps, "address"@) == ov_str(p.address)
            &&& p.address is Some
            &&& f_str(ps, "key"@) == Some(p.key@)
            &&& f_u64(ps, "port"@) == Some(p.port)
            &&& f_str(ps, "remote"@) == ov_str(p.remote)
            &&& p.remote is Some
            &&& f_u64(ps, "bytes_recvd"@) == p.bytes_recvd
            &&& p.bytes_recvd is Some
            &&& f_u64(ps, "bytes_sent"@) == p.bytes_sent
            &&& p.bytes_sent is Some
            &&& f_dur(ps, "uptime"@) == p.uptime
            &&& p.uptime is Some
            &&& p.priority is None
            &&& p.up == true
            &&& p.inbound == false
            &&& p.last_error is None
            &&& p.last_error_time is None
        },
        _ => false,
    }
}

pub open spec fn new_peer_ok(rec: JsonView) -> bool {
    match rec {
        JsonView::Obj(ps) => f_opt_str(ps, "address"@) is Some && f_str(ps, "key"@) is Some
            && f_u64(ps, "port"@) is Some && f_opt_u64(ps, "priority"@) is Some && f_opt_str(
            ps,
            "remote"@,
        ) is Some && f_opt_u64(ps, "bytes_recvd"@) is Some && f_opt_u64(ps, "bytes_sent"@) is Some
            && f_opt_dur(ps, "uptime"@) is Some && f_bool(ps, "up"@) is Some && f_bool(
            ps,
            "inbound"@,
        ) is Some && f_opt_str(ps, "last_error"@) is Some && f_opt_nanos(
            ps,
            "last_error_time"@,
        ) is Some,
        _ => false,
    }
}

/// The current dialect's peer record: all entity fields come straight from
/// the wire.
pub open spec fn is_new_peer(rec: JsonView, p: PeerEntry) -> bool {
    match rec {
        JsonView::Obj(ps) => {
            &&& f_opt_str(ps, "address"@) == Some(ov_str(p.address))
            &&& f_str(ps, "key"@) == Some(p.key@)
            &&& f_u64(ps, "port"@) == Some(p.port)
            &&& f_opt_u64(ps, "priority"@) == Some(p.priority)
            &&& f_opt_str(ps, "remote"@) == Some(ov_str(p.remote))
            &&& f_opt_u64(ps, "bytes_recvd"@) == Some(p.bytes_recvd)
            &&& f_opt_u64(ps, "bytes_sent"@) == Some(p.bytes_sent)
            &&& f_opt_dur(ps, "uptime"@) == Some(p.uptime)
            &&& f_bool(ps, "up"@) == Some(p.up)
            &&& f_bool(ps, "inbound"@) == Some(p.inbound)
            &&& f_opt_str(ps, "last_error"@) == Some(ov_str(p.last_error))
            &&& f_opt_nanos(ps, "last_error_time"@) == Some(p.last_error_time)
        },
        _ => false,
    }
}

pub open spec fn old_session_ok(rec: JsonView) -> bool {
    match rec {
        JsonView::Obj(ps) => f_str(ps, "key"@) is Some,
        _ => false,
    }
}

/// The oldest dialect's session record carries only the key; its byte
/// counters read as zero (no history yet), its uptime as unknown.
pub open spec fn is_old_session(addr: Seq<char>, rec: JsonView, s: SessionEntry) -> bool {
    match rec {
        JsonView::Obj(ps) => {
            &&& s.address@ == addr
            &&& f_str(ps, "key"@) == Some(s.key@)
            &&& s.bytes_recvd == Some(0u64)
            &&& s.bytes_sent == Some(0u64)
            &&& s.uptime is None
        },
        _ => false,
    }
}

pub open spec fn new_session_ok(rec: JsonView) -> bool {
    match rec {
        JsonView::Obj(ps) => f_str(ps, "address"@) is Some && f_str(ps, "key"@) is Some
            && f_opt_u64(ps, "bytes_recvd"@) is Some && f_opt_u64(ps, "bytes_sent"@) is Some
            && f_opt_dur(ps, "uptime"@) is Some,
        _ => false,
    }
}

pub open spec fn is_new_session(rec: JsonView, s: SessionEntry) -> bool {
    match rec {
        JsonView::Obj(ps) => {
            &&& f_str(ps, "address"@) == Some(s.address@)
            &&& f_str(ps, "key"@) == Some(s.key@)
            &&& f_opt_u64(ps, "bytes_recvd"@) == Some(s.bytes_recvd)
            &&& f_opt_u64(ps, "bytes_sent"@) == Some(s.bytes_sent)
            &&& f_opt_dur(ps, "uptime"@) == Some(s.uptime)
        },
        _ => false,
    }
}

pub open spec fn old_self_rec_ok(rec: JsonView) -> bool {
    match rec {
        JsonView::Obj(ps) => f_str(ps, "build_name"@) is Some && f_str(ps, "build_version"@)
            is Some && f_str(ps, "key"@) is Some && f_u64_arr(ps, "coords"@) is Some && f_str(
            ps,
            "subnet"@,
        ) is Some,
        _ => false,
    }
}

pub open spec fn is_old_self(addr: Seq<char>, rec: JsonView, e: SelfEntry) -> bool {
    match rec {
        JsonView::Obj(ps) => {
            &&& e.address@ == addr
            &&& f_str(ps, "build_name"@) == Some(e.build_name@)
            &&& f_str(ps, "build_version"@) == Some(e.build_version@)
            &&& f_str(ps, "key"@) == Some(e.key@)
            &&& f_str(ps, "subnet"@) == Some(e.subnet@)
            &&& e.routing_entries is None
        },
        _ => false,
    }
}

pub open spec fn mid_self_ok(rec: JsonView) -> bool {
    match rec {
        JsonView::Obj(ps) => f_str(ps, "build_name"@) is Some && f_str(ps, "build_version"@)
            is Some && f_str(ps, "key"@) is Some && f_str(ps, "address"@) is Some && f_u64_arr(
            ps,
            "coords"@,
        ) is Some && f_str(ps, "subnet"@) is Some,
        _ => false,
    }
}

pub open spec fn is_mid_self(rec: JsonView, e: SelfEntry) -> bool {
    match rec {
        JsonView::Obj(ps) => {
            &&& f_str(ps, "build_name"@) == Some(e.build_name@)
            &&& f_str(ps, "build_version"@) == Some(e.build_version@)
            &&& f_str(ps, "key"@) == Some(e.key@)
            &&& f_str(ps, "address"@) == Some(e.address@)
            &&& f_str(ps, "subnet"@) == Some(e.subnet@)
            &&& e.routing_entries is None
        },
        _ => false,
    }
}

pub open spec fn new_self_ok(rec: JsonView) -> bool {
    match rec {
        JsonView::Obj(ps) => f_str(ps, "build_name"@) is Some && f_str(ps, "build_version"@)
            is Some && f_str(ps, "key"@) is Some && f_str(ps, "address"@) is Some && f_str(
            ps,
            "subnet"@,
        ) is Some && f_opt_u64(ps, "routing_entries"@) is Some,
        _ => false,
    }
}

pub open spec fn is_new_self(rec: JsonView, e: SelfEntry) -> bool {
    match rec {
        JsonView::Obj(ps) => {
            &&& f_str(ps, "build_name"@) == Some(e.build_name@)
            &&& f_str(ps, "build_version"@) == Some(e.build_version@)
            &&& f_str(ps, "key"@) == Some(e.key@)
            &&& f_str(ps, "address"@) == Some(e.address@)
            &&& f_str(ps, "subnet"@) == Some(e.subnet@)
            &&& f_opt_u64(ps, "routing_entries"@) == Some(e.routing_entries)
        },
        _ => false,
    }
}

pub open spec fn old_path_ok(rec: JsonView) -> bool {
    match rec {
        JsonView::Obj(ps) => f_str(ps, "key"@) is Some && f_u64_arr(ps, "path"@) is Some,
        _ => false,
    }
}

pub open spec fn is_old_path(addr: Seq<char>, rec: JsonView, e: PathEntry) -> bool {
    match rec {
        JsonView::Obj(ps) => {
            &&& e.address@ == addr
            &&& f_str(ps, "key"@) == Some(e.key@)
            &&& f_u64_arr(ps, "path"@) == Some(e.path@)
            &&& e.sequence is None
        },
        _ => false,
    }
}

pub open spec fn new_path_ok(rec: JsonView) -> bool {
    match rec {
        JsonView::Obj(ps) => f_str(ps, "address"@) is Some && f_str(ps, "key"@) is Some
            && f_u64_arr(ps, "path"@) is Some && f_opt_u64(ps, "sequence"@) is Some,
        _ => false,
    }
}

pub open spec fn is_new_path(rec: JsonView, e: PathEntry) -> bool {
    match rec {
        JsonView::Obj(ps) => {
            &&& f_str(ps, "address"@) == Some(e.address@)
            &&& f_str(ps, "key"@) == Some(e.key@)
            &&& f_u64_arr(ps, "path"@) == Some(e.path@)
            &&& f_opt_u64(ps, "sequence"@) == Some(e.sequence)
        },
        _ => false,
    }
}

pub open spec fn old_dht_ok(rec: JsonView) -> bool {
    match rec {
        JsonView::Obj(ps) => f_str(ps, "key"@) is Some && f_u64(ps, "port"@) is Some && f_u64(
            ps,
            "rest"@,
        ) is Some,
        _ => false,
    }
}

pub open spec fn is_old_dht(addr: Seq<char>, rec: JsonView, e: DHTEntry) -> bool {
    match rec {
        JsonView::Obj(ps) => {
            &&& e.address@ == addr
            &&& f_str(ps, "key"@) == Some(e.key@)
            &&& f_u64(ps, "port"@) == Some(e.port)
            &&& f_u64(ps, "rest"@) == Some(e.rest)
        },
        _ => false,
    }
}

pub open spec fn new_dht_ok(rec: JsonView) -> bool {
    match rec {
        JsonView::Obj(ps) => f_str(ps, "address"@) is Some && f_str(ps, "key"@) is Some && f_u64(
            ps,
            "port"@,
        ) is Some && f_u64(ps, "rest"@) is Some,
        _ => false,
    }
}

pub open spec fn is_new_dht(rec: JsonView, e: DHTEntry) -> bool {
    match rec {
        JsonView::Obj(ps) => {
            &&& f_str(ps, "address"@) == Some(e.address@)
            &&& f_str(ps, "key"@) == Some(e.key@)
            &&& f_u64(ps, "port"@) == Some(e.port)
            &&& f_u64(ps, "rest"@) == Some(e.rest)
        },
        _ => false,
    }
}

pub open spec fn tun_ok(rec: JsonView) -> bool {
    match rec {
        JsonView::Obj(ps) => f_bool(ps, "enabled"@) is Some && f_opt_str(ps, "name"@) is Some
            && f_opt_u64(ps, "mtu"@) is Some,
        _ => false,
    }
}

pub open spec fn is_tun(rec: JsonView, e: TunEntry) -> bool {
    match rec {
        JsonView::Obj(ps) => {
            &&& f_bool(ps, "enabled"@) == Some(e.enabled)
            &&& f_opt_str(ps, "name"@) == Some(ov_str(e.name))
            &&& f_opt_u64(ps, "mtu"@) == Some(e.mtu)
        },
        _ => false,
    }
}

pub open spec fn tree_rec_ok(rec: JsonView) -> bool {
    match rec {
        JsonView::Obj(ps) => f_str(ps, "address"@) is Some && f_str(ps, "key"@) is Some && f_str(
            ps,
            "parent"@,
        ) is Some && f_u64(ps, "sequence"@) is Some,
        _ => false,
    }
}

pub open spec fn is_tree_rec(rec: JsonView, e: TreeEntry) -> bool {
    match rec {
        JsonView::Obj(ps) => {
            &&& f_str(ps, "address"@) == Some(e.address@)
            &&& f_str(ps, "key"@) == Some(e.key@)
            &&& f_str(ps, "parent"@) == Some(e.parent@)
            &&& f_u64(ps, "sequence"@) == Some(e.sequence)
        },
        _ => false,
    }
}

pub open spec fn old_list_rec_ok(rec: JsonView) -> bool {
    match rec {
        JsonView::Obj(ps) => f_str_arr(ps, "fields"@) is Some,
        _ => false,
    }
}

/// The oldest dialect's command record, keyed by command name; commands
/// had no description then, so it comes out empty.
pub open spec fn is_old_list_rec(cmd: Seq<char>, rec: JsonView, e: ListEntry) -> bool {
    match rec {
        JsonView::Obj(ps) => {
            &&& e.command@ == cmd
            &&& e.description@ == Seq::<char>::empty()
            &&& f_str_arr(ps, "fields"@) == ov_str_vec(e.fields)
            &&& e.fields is Some
        },
        _ => false,
    }
}

pub open spec fn new_list_rec_ok(rec: JsonView) -> bool {
    match rec {
        JsonView::Obj(ps) => f_str(ps, "command"@) is Some && f_str(ps, "description"@) is Some
            && f_opt_str_arr(ps, "fields"@) is Some,
        _ => false,
    }
}

pub open spec fn is_new_list_rec(rec: JsonView, e: ListEntry) -> bool {
    match rec {
        JsonView::Obj(ps) => {
            &&& f_str(ps, "command"@) == Some(e.command@)
            &&& f_str(ps, "description"@) == Some(e.description@)
            &&& f_opt_str_arr(ps, "fields"@) == Some(ov_str_vec(e.fields))
        },
        _ => false,
    }
}

// ---------------------------------------------------------------------------
// Executable record constructors
// ---------------------------------------------------------------------------
fn old_peer_from(addr: &String, rec: &Json) -> (r: Option<PeerEntry>)
    ensures
        r matches Some(p) ==> is_old_peer(addr@, rec@, p),
        r is Some <==> old_peer_ok(rec@),
{
    let ps = match rec {
        Json::Obj(ps) => ps,
        _ => {
            return None;
        },
    };
    let key = match get_str(ps, "key") {
        Some(v) => v,
        None => {
            return None;
        },
    };
    let port = match get_u64(ps, "port") {
        Some(v) => v,
        None => {
            return None;
        },
    };
    if get_u64_arr(ps, "coords").is_none() {
        return None;
    }
    let remote = match get_str(ps, "remote") {
        Some(v) => v,
        None => {
            return None;
        },
    };
    let bytes_recvd = match get_u64(ps, "bytes_recvd") {
        Some(v) => v,
        None => {
            return None;
        },
    };
    let bytes_sent = match get_u64(ps, "bytes_sent") {
        Some(v) => v,
        None => {
            return None;
        },
    };
    let uptime = match get_dur(ps, "uptime") {
        Some(v) => v,
        None => {
            return None;
        },
    };
    Some(
        PeerEntry {
            address: Some(addr.clone()),
            key,
            port,
            priority: None,
            remote: Some(remote),
            bytes_recvd: Some(bytes_recvd),
            bytes_sent: Some(bytes_sent),
            uptime: Some(uptime),
            up: true,
            inbound: false,
            last_error: None,
            last_error_time: None,
        },
    )
}

fn mid_peer_from(rec: &Json) -> (r: Option<PeerEntry>)
    ensures
        r matches Some(p) ==> is_mid_peer(rec@, p),
        r is Some <==> mid_peer_ok(rec@),
{
    let ps = match rec {
        Json::Obj(ps) => ps,
        _ => {
            return None;
        },
    };
    let address = match get_str(ps, "address") {
        Some(v) => v,
        None => {
            return None;
        },
    };
    let key = match get_str(ps, "key") {
        Some(v) => v,
        None => {
            return None;
        },
    };
    let port = match get_u64(ps, "port") {
        Some(v) => v,
        None => {
            return None;
        },
    };
    if get_u64(ps, "priority").is_none() {
        return None;
    }
    if get_u64_arr(ps, "coords").is_none() {
        return None;
    }
    let remote = match get_str(ps, "remote") {
        Some(v) => v,
        None => {
            return None;
        },
    };
    let bytes_recvd = match get_u64(ps, "bytes_recvd") {
        Some(v) => v,
        None => {
            return None;
        },
    };
    let bytes_sent = match get_u64(ps, "bytes_sent") {
        Some(v) => v,
        None => {
            return None;
        },
    };
    let uptime = match get_dur(ps, "uptime") {
        Some(v) => v,
        None => {
            return None;
        },
    };
    Some(
        PeerEntry {
            address: Some(address),
            key,
            port,
            priority: None,
            remote: Some(remote),
            bytes_recvd: Some(bytes_recvd),
            bytes_sent: Some(bytes_sent),
            uptime: Some(uptime),
            up: true,
            inbound: false,
            last_error: None,
            last_error_time: None,
        },
    )
}

fn new_peer_from(rec: &Json) -> (r: Option<PeerEntry>)
    ensures
        r matches Some(p) ==> is_new_peer(rec@, p),
        r is Some <==> new_peer_ok(rec@),
{
    let ps = match rec {
        Json::Obj(ps) => ps,
        _ => {
            return None;
        },
    };
    let address = match get_opt_str(ps, "address") {
        Some(v) => v,
        None => {
            return None;
        },
    };
    let key = match get_str(ps, "key") {
        Some(v) => v,
        None => {
            return None;
        },
    };
    let port = match get_u64(ps, "port") {
        Some(v) => v,
        None => {
            return None;
        },
    };
    let priority = match get_opt_u64(ps, "priority") {
        Some(v) => v,
        None => {
            return None;
        },
    };
    let remote = match get_opt_str(ps, "remote") {
        Some(v) => v,
        None => {
            return None;
        },
    };
    let bytes_recvd = match get_opt_u64(ps, "bytes_recvd") {
        Some(v) => v,
        None => {
            return None;
        },
    };
    let bytes_sent = match get_opt_u64(ps, "bytes_sent") {
        Some(v) => v,
        None => {
            return None;
        },
    };
    let uptime = match get_opt_dur(ps, "uptime") {
        Some(v) => v,
        None => {
            return None;
        },
    };
    let up = match get_bool(ps, "up") {
        Some(v) => v,
        None => {
            return None;
        },
    };
    let inbound = match get_bool(ps, "inbound") {
        Some(v) => v,
        None => {
            return None;
        },
    };
    let last_error = match get_opt_str(ps, "last_error") {
        Some(v) => v,
        None => {
            return None;
        },
    };
    let last_error_time = match get_opt_nanos(ps, "last_error_time") {
        Some(v) => v,
        None => {
            return None;
        },
    };
    Some(
        PeerEntry {
            address,
            key,
            port,
            priority,
            remote,
            bytes_recvd,
            bytes_sent,
            uptime,
            up,
            inbound,
            last_error,
            last_error_time,
        },
    )
}

fn old_session_from(addr: &String, rec: &Json) -> (r: Option<SessionEntry>)
    ensures
        r matches Some(s) ==> is_old_session(addr@, rec@, s),
        r is Some <==> old_session_ok(rec@),
{
    let ps = match rec {
        Json::Obj(ps) => ps,
        _ => {
            return None;
        },
    };
    let key = match get_str(ps, "key") {
        Some(v) => v,
        None => {
            return None;
        },
    };
    Some(
        SessionEntry {
            address: addr.clone(),
            key,
            bytes_recvd: Some(0),
            bytes_sent: Some(0),
            uptime: None,
        },
    )
}

fn new_session_from(rec: &Json) -> (r: Option<SessionEntry>)
    ensures
        r matches Some(s) ==> is_new_session(rec@, s),
        r is Some <==> new_session_ok(rec@),
{
    let ps = match rec {
        Json::Obj(ps) => ps,
        _ => {
            return None;
        },
    };
    let address = match get_str(ps, "address") {
        Some(v) => v,
        None => {
            return None;
        },
    };
    let key = match get_str(ps, "key") {
        Some(v) => v,
        None => {
            return None;
        },
    };
    let bytes_recvd = match get_opt_u64(ps, "bytes_recvd") {
        Some(v) => v,
        None => {
            return None;
        },
    };
    let bytes_sent = match get_opt_u64(ps, "bytes_sent") {
        Some(v) => v,
        None => {
            return None;
        },
    };
    let uptime = match get_opt_dur(ps, "uptime") {
        Some(v) => v,
        None => {
            return None;
        },
    };
    Some(SessionEntry { address, key, bytes_recvd, bytes_sent, uptime })
}

fn old_self_from(addr: &String, rec: &Json) -> (r: Option<SelfEntry>)
    ensures
        r matches Some(e) ==> is_old_self(addr@, rec@, e),
        r is Some <==> old_self_rec_ok(rec@),
{
    let ps = match rec {
        Json::Obj(ps) => ps,
        _ => {
            return None;
        },
    };
    let build_name = match get_str(ps, "build_name") {
        Some(v) => v,
        None => {
            return None;
        },
    };
    let build_version = match get_str(ps, "build_version") {
        Some(v) => v,
        None => {
            return None;
        },
    };
    let key = match get_str(ps, "key") {
        Some(v) => v,
        None => {
            return None;
        },
    };
    if get_u64_arr(ps, "coords").is_none() {
        return None;
    }
    let subnet = match get_str(ps, "subnet") {
        Some(v) => v,
        None => {
            return None;
        },
    };
    Some(
        SelfEntry {
            build_name,
            build_version,
            key,
            address: addr.clone(),
            subnet,
            routing_entries: None,
        },
    )
}

fn mid_self_from(rec: &Json) -> (r: Option<SelfEntry>)
    ensures
        r matches Some(e) ==> is_mid_self(rec@, e),
        r is Some <==> mid_self_ok(rec@),
{
    let ps = match rec {
        Json::Obj(ps) => ps,
        _ => {
            return None;
        },
    };
    let build_name = match get_str(ps, "build_name") {
        Some(v) => v,
        None => {
            return None;
        },
    };
    let build_version = match get_str(ps, "build_version") {
        Some(v) => v,
        None => {
            return None;
        },
    };
    let key = match get_str(ps, "key") {
        Some(v) => v,
        None => {
            return None;
        },
    };
    let address = match get_str(ps, "address") {
        Some(v) => v,
        None => {
            return None;
        },
    };
    if get_u64_arr(ps, "coords").is_none() {
        return None;
    }
    let subnet = match get_str(ps, "subnet") {
        Some(v) => v,
        None => {
            return None;
        },
    };
    Some(SelfEntry { build_name, build_version, key, address, subnet, routing_entries: None })
}

fn new_self_from(rec: &Json) -> (r: Option<SelfEntry>)
    ensures
        r matches Some(e) ==> is_new_self(rec@, e),
        r is Some <==> new_self_ok(rec@),
{
    let ps = match rec {
        Json::Obj(ps) => ps,
        _ => {
            return None;
        },
    };
    let build_name = match get_str(ps, "build_name") {
        Some(v) => v,
        None => {
            return None;
        },
    };
    let build_version = match get_str(ps, "build_version") {
        Some(v) => v,
        None => {
            return None;
        },
    };
    let key = match get_str(ps, "key") {
        Some(v) => v,
        None => {
            return None;
        },
    };
    let address = match get_str(ps, "address") {
        Some(v) => v,
        None => {
            return None;
        },
    };
    let subnet = match get_str(ps, "subnet") {
        Some(v) => v,
        None => {
            return None;
        },
    };
    let routing_entries = match get_opt_u64(ps, "routing_entries") {
        Some(v) => v,
        None => {
            return None;
        },
    };
    Some(SelfEntry { build_name, build_version, key, address, subnet, routing_entries })
}

fn old_path_from(addr: &String, rec: &Json) -> (r: Option<PathEntry>)
    ensures
        r matches Some(e) ==> is_old_path(addr@, rec@, e),
        r is Some <==> old_path_ok(rec@),
{
    let ps = match rec {
        Json::Obj(ps) => ps,
        _ => {
            return None;
        },
    };
    let key = match get_str(ps, "key") {
        Some(v) => v,
        None => {
            return None;
        },
    };
    let path = match get_u64_arr(ps, "path") {
        Some(v) => v,
        None => {
            return None;
        },
    };
    Some(PathEntry { address: addr.clone(), key, path, sequence: None })
}

fn new_path_from(rec: &Json) -> (r: Option<PathEntry>)
    ensures
        r matches Some(e) ==> is_new_path(rec@, e),
        r is Some <==> new_path_ok(rec@),
{
    let ps = match rec {
        Json::Obj(ps) => ps,
        _ => {
            return None;
        },
    };
    let address = match get_str(ps, "address") {
        Some(v) => v,
        None => {
            return None;
        },
    };
    let key = match get_str(ps, "key") {
        Some(v) => v,
        None => {
            return None;
        },
    };
    let path = match get_u64_arr(ps, "path") {
        Some(v) => v,
        None => {
            return None;
        },
    };
    let sequence = match get_opt_u64(ps, "sequence") {
        Some(v) => v,
        None => {
            return None;
        },
    };
    Some(PathEntry { address, key, path, sequence })
}

fn old_dht_from(addr: &String, rec: &Json) -> (r: Option<DHTEntry>)
    ensures
        r matches Some(e) ==> is_old_dht(addr@, rec@, e),
        r is Some <==> old_dht_ok(rec@),
{
    let ps = match rec {
        Json::Obj(ps) => ps,
        _ => {
            return None;
        },
    };
    let key = match get_str(ps, "key") {
        Some(v) => v,
        None => {
            return None;
        },
    };
    let port = match get_u64(ps, "port") {
        Some(v) => v,
        None => {
            return None;
        },
    };
    let rest = match get_u64(ps, "rest") {
        Some(v) => v,
        None => {
            return None;
        },
    };
    Some(DHTEntry { address: addr.clone(), key, port, rest })
}

fn new_dht_from(rec: &Json) -> (r: Option<DHTEntry>)
    ensures
        r matches Some(e) ==> is_new_dht(rec@, e),
        r is Some <==> new_dht_ok(rec@),
{
    let ps = match rec {
        Json::Obj(ps) => ps,
        _ => {
            return None;
        },
    };
    let address = match get_str(ps, "address") {
        Some(v) => v,
        None => {
            return None;
        },
    };
    let key = match get_str(ps, "key") {
        Some(v) => v,
        None => {
            return None;
        },
    };
    let port = match get_u64(ps, "port") {
        Some(v) => v,
        None => {
            return None;
        },
    };
    let rest = match get_u64(ps, "rest") {
        Some(v) => v,
        None => {
            return None;
        },
    };
    Some(DHTEntry { address, key, port, rest })
}

fn tun_from(rec: &Json) -> (r: Option<TunEntry>)
    ensures
        r matches Some(e) ==> is_tun(rec@, e),
        r is Some <==> tun_ok(rec@),
{
    let ps = match rec {
        Json::Obj(ps) => ps,
        _ => {
            return None;
        },
    };
    let enabled = match get_bool(ps, "enabled") {
        Some(v) => v,
        None => {
            return None;
        },
    };
    let name = match get_opt_str(ps, "name") {
        Some(v) => v,
        None => {
            return None;
        },
    };
    let mtu = match get_opt_u64(ps, "mtu") {
        Some(v) => v,
        None => {
            return None;
        },
    };
    Some(TunEntry { enabled, name, mtu })
}

fn tree_from(rec: &Json) -> (r: Option<TreeEntry>)
    ensures
        r matches Some(e) ==> is_tree_rec(rec@, e),
        r is Some <==> tree_rec_ok(rec@),
{
    let ps = match rec {
        Json::Obj(ps) => ps,
        _ => {
            return None;
        },
    };
    let address = match get_str(ps, "address") {
        Some(v) => v,
        None => {
            return None;
        },
    };
    let key = match get_str(ps, "key") {
        Some(v) => v,
        None => {
            return None;
        },
    };
    let parent = match get_str(ps, "parent") {
        Some(v) => v,
        None => {
            return None;
        },
    };
    let sequence = match get_u64(ps, "sequence") {
        Some(v) => v,
        None => {
            return None;
        },
    };
    Some(TreeEntry { address, key, parent, sequence })
}

fn old_list_from(cmd: &String, rec: &Json) -> (r: Option<ListEntry>)
    ensures
        r matches Some(e) ==> is_old_list_rec(cmd@, rec@, e),
        r is Some <==> old_list_rec_ok(rec@),
{
    let ps = match rec {
        Json::Obj(ps) => ps,
        _ => {
            return None;
        },
    };
    let fields = match get_str_arr(ps, "fields") {
        Some(v) => v,
        None => {
            return None;
        },
    };
    Some(ListEntry { command: cmd.clone(), description: String::new(), fields: Some(fields) })
}

fn new_list_from(rec: &Json) -> (r: Option<ListEntry>)
    ensures
        r matches Some(e) ==> is_new_list_rec(rec@, e),
        r is Some <==> new_list_rec_ok(rec@),
{
    let ps = match rec {
        Json::Obj(ps) => ps,
        _ => {
            return None;
        },
    };
    let command = match get_str(ps, "command") {
        Some(v) => v,
        None => {
            return None;
        },
    };
    let description = match get_str(ps, "description") {
        Some(v) => v,
        None => {
            return None;
        },
    };
    let fields = match get_opt_str_arr(ps, "fields") {
        Some(v) => v,
        None => {
            return None;
        },
    };
    Some(ListEntry { command, description, fields })
}

// ---------------------------------------------------------------------------
// Collections
// ---------------------------------------------------------------------------
/// The member `key` of an object reply.
pub open spec fn resp_coll(resp: JsonView, key: Seq<char>) -> Option<JsonView> {
    match resp {
        JsonView::Obj(ps) => spec_lookup(ps, key),
        _ => None,
    }
}

pub open spec fn old_peer_recs_ok(mp: Seq<(Seq<char>, JsonView)>) -> bool {
    forall|i: int| 0 <= i < mp.len() ==> old_peer_ok(#[trigger] mp[i].1)
}

pub open spec fn old_peer_recs_match(mp: Seq<(Seq<char>, JsonView)>, out: Seq<PeerEntry>) -> bool {
    out.len() == mp.len() && (forall|i: int|
        0 <= i < mp.len() ==> is_old_peer(mp[i].0, mp[i].1, #[trigger] out[i]))
}

pub open spec fn old_peers_ok(resp: JsonView) -> bool {
    match resp_coll(resp, "peers"@) {
        Some(JsonView::Obj(mp)) => old_peer_recs_ok(mp),
        _ => false,
    }
}

pub open spec fn old_peers_match(resp: JsonView, out: Seq<PeerEntry>) -> bool {
    match resp_coll(resp, "peers"@) {
        Some(JsonView::Obj(mp)) => old_peer_recs_match(mp, out),
        _ => false,
    }
}

pub open spec fn mid_peer_recs_ok(items: Seq<JsonView>) -> bool {
    forall|i: int| 0 <= i < items.len() ==> mid_peer_ok(#[trigger] items[i])
}

pub open spec fn mid_peer_recs_match(items: Seq<JsonView>, out: Seq<PeerEntry>) -> bool {
    out.len() == items.len() && (forall|i: int|
        0 <= i < items.len() ==> is_mid_peer(items[i], #[trigger] out[i]))
}

pub open spec fn mid_peers_ok(resp: JsonView) -> bool {
    match resp_coll(resp, "peers"@) {
        Some(JsonView::Arr(items)) => mid_peer_recs_ok(items),
        _ => false,
    }
}

pub open spec fn mid_peers_match(resp: JsonView, out: Seq<PeerEntry>) -> bool {
    match resp_coll(resp, "peers"@) {
        Some(JsonView::Arr(items)) => mid_peer_recs_match(items, out),
        _ => false,
    }
}

pub open spec fn new_peer_recs_ok(items: Seq<JsonView>) -> bool {
    forall|i: int| 0 <= i < items.len() ==> new_peer_ok(#[trigger] items[i])
}

pub open spec fn new_peer_recs_match(items: Seq<JsonView>, out: Seq<PeerEntry>) -> bool {
    out.len() == items.len() && (forall|i: int|
        0 <= i < items.len() ==> is_new_peer(items[i], #[trigger] out[i]))
}

pub open spec fn new_peers_ok(resp: JsonView) -> bool {
    match resp_coll(resp, "peers"@) {
        Some(JsonView::Arr(items)) => new_peer_recs_ok(items),
        _ => false,
    }
}

pub open spec fn new_peers_match(resp: JsonView, out: Seq<PeerEntry>) -> bool {
    match resp_coll(resp, "peers"@) {
        Some(JsonView::Arr(items)) => new_peer_recs_match(items, out),
        _ => false,
    }
}

/// The whole contract of [`peers_from_response`]: per dialect, success
/// exactly when the reply has that dialect's shape, and then every record
/// normalized in order.
pub open spec fn peers_post(version: RouterVersion, resp: JsonView, r: Option<Vec<PeerEntry>>) -> bool {
    match version {
        RouterVersion::__v0_4_4 => (match r {
            Some(v) => old_peers_match(resp, v@),
            None => true,
        }) && (r is Some <==> old_peers_ok(resp)),
        RouterVersion::v0_4_5__v0_4_7 => (match r {
            Some(v) => mid_peers_match(resp, v@),
            None => true,
        }) && (r is Some <==> mid_peers_ok(resp)),
        RouterVersion::v0_5_0__ => (match r {
            Some(v) => new_peers_match(resp, v@),
            None => true,
        }) && (r is Some <==> new_peers_ok(resp)),
    }
}

/// Normalize a `getpeers` reply payload.
#[verifier::loop_isolation(false)]
pub fn peers_from_response(version: RouterVersion, response: &Json) -> (r: Option<Vec<PeerEntry>>)
    ensures
        peers_post(version, response@, r),
{
    match version {
        RouterVersion::__v0_4_4 => {
            let ps = match response {
                Json::Obj(ps) => ps,
                _ => {
                    return None;
                },
            };
            let mp = match lookup(ps, "peers") {
                Some(Json::Obj(mp)) => mp,
                _ => {
                    return None;
                },
            };
            proof {
                lemma_view_pairs_index(mp@);
            }
            let ghost mv = view_pairs(mp@);
            let mut out: Vec<PeerEntry> = Vec::new();
            let mut i: usize = 0;
            while i < mp.len()
                invariant
                    0 <= i <= mp@.len(),
                    out@.len() == i,
                    forall|k: int| 0 <= k < i ==> old_peer_ok(#[trigger] mv[k].1),
                    forall|k: int| 0 <= k < i ==> is_old_peer(mv[k].0, mv[k].1, #[trigger] out@[k]),
                decreases mp@.len() - i,
            {
                let p = match old_peer_from(&mp[i].0, &mp[i].1) {
                    Some(p) => p,
                    None => {
                        proof {
                            assert(!old_peer_ok(mv[i as int].1));
                            assert(!old_peer_recs_ok(mv));
                        }
                        return None;
                    },
                };
                out.push(p);
                i += 1;
            }
            Some(out)
        },
        RouterVersion::v0_4_5__v0_4_7 => {
            let ps = match response {
                Json::Obj(ps) => ps,
                _ => {
                    return None;
                },
            };
            let items = match lookup(ps, "peers") {
                Some(Json::Arr(items)) => items,
                _ => {
                    return None;
                },
            };
            proof {
                lemma_view_items_index(items@);
            }
            let ghost tv = view_items(items@);
            let mut out: Vec<PeerEntry> = Vec::new();
            let mut i: usize = 0;
            while i < items.len()
                invariant
                    0 <= i <= items@.len(),
                    out@.len() == i,
                    forall|k: int| 0 <= k < i ==> mid_peer_ok(#[trigger] tv[k]),
                    forall|k: int| 0 <= k < i ==> is_mid_peer(tv[k], #[trigger] out@[k]),
                decreases items@.len() - i,
            {
                let p = match mid_peer_from(&items[i]) {
                    Some(p) => p,
                    None => {
                        proof {
                            assert(!mid_peer_ok(tv[i as int]));
                            assert(!mid_peer_recs_ok(tv));
                        }
                        return None;
                    },
                };
                out.push(p);
                i += 1;
            }
            Some(out)
        },
        RouterVersion::v0_5_0__ => {
            let ps = match response {
                Json::Obj(ps) => ps,
                _ => {
                    return None;
                },
            };
            let items = match lookup(ps, "peers") {
                Some(Json::Arr(items)) => items,
                _ => {
                    return None;
                },
            };
            proof {
                lemma_view_items_index(items@);
            }
            let ghost tv = view_items(items@);
            let mut out: Vec<PeerEntry> = Vec::new();
            let mut i: usize = 0;
            while i < items.len()
                invariant
                    0 <= i <= items@.len(),
                    out@.len() == i,
                    forall|k: int| 0 <= k < i ==> new_peer_ok(#[trigger] tv[k]),
                    forall|k: int| 0 <= k < i ==> is_new_peer(tv[k], #[trigger] out@[k]),
                decreases items@.len() - i,
            {
                let p = match new_peer_from(&items[i]) {
                    Some(p) => p,
                    None => {
                        proof {
                            assert(!new_peer_ok(tv[i as int]));
                            assert(!new_peer_recs_ok(tv));
                        }
                        return None;
                    },
                };
                out.push(p);
                i += 1;
            }
            Some(out)
        },
    }
}

// --- sessions ---------------------------------------------------------------
pub open spec fn old_session_recs_ok(mp: Seq<(Seq<char>, JsonView)>) -> bool {
    forall|i: int| 0 <= i < mp.len() ==> old_session_ok(#[trigger] mp[i].1)
}

pub open spec fn old_session_recs_match(mp: Seq<(Seq<char>, JsonView)>, out: Seq<SessionEntry>) -> bool {
    out.len() == mp.len() && (forall|i: int|
        0 <= i < mp.len() ==> is_old_session(mp[i].0, mp[i].1, #[trigger] out[i]))
}

pub open spec fn old_sessions_ok(resp: JsonView) -> bool {
    match resp_coll(resp, "sessions"@) {
        Some(JsonView::Obj(mp)) => old_session_recs_ok(mp),
        _ => false,
    }
}

pub open spec fn old_sessions_match(resp: JsonView, out: Seq<SessionEntry>) -> bool {
    match resp_coll(resp, "sessions"@) {
        Some(JsonView::Obj(mp)) => old_session_recs_match(mp, out),
        _ => false,
    }
}

pub open spec fn new_session_recs_ok(items: Seq<JsonView>) -> bool {
    forall|i: int| 0 <= i < items.len() ==> new_session_ok(#[trigger] items[i])
}

pub open spec fn new_session_recs_match(items: Seq<JsonView>, out: Seq<SessionEntry>) -> bool {
    out.len() == items.len() && (forall|i: int|
        0 <= i < items.len() ==> is_new_session(items[i], #[trigger] out[i]))
}

pub open spec fn new_sessions_ok(resp: JsonView) -> bool {
    match resp_coll(resp, "sessions"@) {
        Some(JsonView::Arr(items)) => new_session_recs_ok(items),
        _ => false,
    }
}

pub open spec fn new_sessions_match(resp: JsonView, out: Seq<SessionEntry>) -> bool {
    match resp_coll(resp, "sessions"@) {
        Some(JsonView::Arr(items)) => new_session_recs_match(items, out),
        _ => false,
    }
}

/// The whole contract of [`sessions_from_response`].
pub open spec fn sessions_post(
    version: RouterVersion,
    resp: JsonView,
    r: Option<Vec<SessionEntry>>,
) -> bool {
    match version {
        RouterVersion::__v0_4_4 => (match r {
            Some(v) => old_sessions_match(resp, v@),
            None => true,
        }) && (r is Some <==> old_sessions_ok(resp)),
        _ => (match r {
            Some(v) => new_sessions_match(resp, v@),
            None => true,
        }) && (r is Some <==> new_sessions_ok(resp)),
    }
}

/// Normalize a `getsessions` reply payload.
#[verifier::loop_isolation(false)]
pub fn sessions_from_response(version: RouterVersion, response: &Json) -> (r: Option<
    Vec<SessionEntry>,
>)
    ensures
        sessions_post(version, response@, r),
{
    let ps = match response {
        Json::Obj(ps) => ps,
        _ => {
            return None;
        },
    };
    match version {
        RouterVersion::__v0_4_4 => {
            let mp = match lookup(ps, "sessions") {
                Some(Json::Obj(mp)) => mp,
                _ => {
                    return None;
                },
            };
            proof {
                lemma_view_pairs_index(mp@);
            }
            let ghost mv = view_pairs(mp@);
            let mut out: Vec<SessionEntry> = Vec::new();
            let mut i: usize = 0;
            while i < mp.len()
                invariant
                    0 <= i <= mp@.len(),
                    out@.len() == i,
                    forall|k: int| 0 <= k < i ==> old_session_ok(#[trigger] mv[k].1),
                    forall|k: int| 0 <= k < i ==> is_old_session(
                        mv[k].0,
                        mv[k].1,
                        #[trigger] out@[k],
                    ),
                decreases mp@.len() - i,
            {
                let s = match old_session_from(&mp[i].0, &mp[i].1) {
                    Some(s) => s,
                    None => {
                        proof {
                            assert(!old_session_ok(mv[i as int].1));
                            assert(!old_session_recs_ok(mv));
                        }
                        return None;
                    },
                };
                out.push(s);
                i += 1;
            }
            Some(out)
        },
        _ => {
            let items = match lookup(ps, "sessions") {
                Some(Json::Arr(items)) => items,
                _ => {
                    return None;
                },
            };
            proof {
                lemma_view_items_index(items@);
            }
            let ghost tv = view_items(items@);
            let mut out: Vec<SessionEntry> = Vec::new();
            let mut i: usize = 0;
            while i < items.len()
                invariant
                    0 <= i <= items@.len(),
                    out@.len() == i,
                    forall|k: int| 0 <= k < i ==> new_session_ok(#[trigger] tv[k]),
                    forall|k: int| 0 <= k < i ==> is_new_session(tv[k], #[trigger] out@[k]),
                decreases items@.len() - i,
            {
                let s = match new_session_from(&items[i]) {
                    Some(s) => s,
                    None => {
                        proof {
                            assert(!new_session_ok(tv[i as int]));
                            assert(!new_session_recs_ok(tv));
                        }
                        return None;
                    },
                };
                out.push(s);
                i += 1;
            }
            Some(out)
        },
    }
}

// --- self --------------------------------------------------------------------
/// The oldest dialect's `getself` wrapper mapping, under `self` (or its
/// alternate spelling `entry`).
pub open spec fn old_self_map(resp: JsonView) -> Option<Seq<(Seq<char>, JsonView)>> {
    match resp {
        JsonView::Obj(ps) => {
            let m = if spec_lookup(ps, "self"@) is Some {
                spec_lookup(ps, "self"@)
            } else {
                spec_lookup(ps, "entry"@)
            };
            match m {
                Some(JsonView::Obj(mp)) => Some(mp),
                _ => None,
            }
        },
        _ => None,
    }
}

/// The whole contract of [`self_from_response`]: in the oldest dialect the
/// first entry of the wrapper mapping becomes the record, and an empty
/// mapping is an application-level "Unknown" failure; the later dialects
/// carry the record directly.
pub open spec fn self_post(
    version: RouterVersion,
    resp: JsonView,
    r: Option<Result<SelfEntry, String>>,
) -> bool {
    match version {
        RouterVersion::__v0_4_4 => match old_self_map(resp) {
            Some(mp) => if mp.len() == 0 {
                r matches Some(x) && x matches Err(m) && m@ == "Unknown"@
            } else {
                ((r matches Some(x) && x matches Ok(e)) ==> is_old_self(mp[0].0, mp[0].1, r->0->Ok_0))
                    && (r is Some <==> old_self_rec_ok(mp[0].1)) && (r matches Some(x) ==> x is Ok)
            },
            None => r is None,
        },
        RouterVersion::v0_4_5__v0_4_7 => ((r matches Some(x) && x matches Ok(e)) ==> is_mid_self(
            resp,
            r->0->Ok_0,
        )) && (r is Some <==> mid_self_ok(resp)) && (r matches Some(x) ==> x is Ok),
        RouterVersion::v0_5_0__ => ((r matches Some(x) && x matches Ok(e)) ==> is_new_self(
            resp,
            r->0->Ok_0,
        )) && (r is Some <==> new_self_ok(resp)) && (r matches Some(x) ==> x is Ok),
    }
}

/// Normalize a `getself` reply payload.
pub fn self_from_response(version: RouterVersion, response: &Json) -> (r: Option<
    Result<SelfEntry, String>,
>)
    ensures
        self_post(version, response@, r),
{
    match version {
        RouterVersion::__v0_4_4 => {
            let ps = match response {
                Json::Obj(ps) => ps,
                _ => {
                    return None;
                },
            };
            let found = match lookup(ps, "self") {
                Some(m) => Some(m),
                None => lookup(ps, "entry"),
            };
            let mp = match found {
                Some(Json::Obj(mp)) => mp,
                _ => {
                    return None;
                },
            };
            proof {
                lemma_view_pairs_index(mp@);
            }
            if mp.len() == 0 {
                return Some(Err("Unknown".to_owned()));
            }
            match old_self_from(&mp[0].0, &mp[0].1) {
                Some(e) => Some(Ok(e)),
                None => None,
            }
        },
        RouterVersion::v0_4_5__v0_4_7 => match mid_self_from(response) {
            Some(e) => Some(Ok(e)),
            None => None,
        },
        RouterVersion::v0_5_0__ => match new_self_from(response) {
            Some(e) => Some(Ok(e)),
            None => None,
        },
    }
}

// --- paths -------------------------------------------------------------------
pub open spec fn old_path_recs_ok(mp: Seq<(Seq<char>, JsonView)>) -> bool {
    forall|i: int| 0 <= i < mp.len() ==> old_path_ok(#[trigger] mp[i].1)
}

pub open spec fn old_path_recs_match(mp: Seq<(Seq<char>, JsonView)>, out: Seq<PathEntry>) -> bool {
    out.len() == mp.len() && (forall|i: int|
        0 <= i < mp.len() ==> is_old_path(mp[i].0, mp[i].1, #[trigger] out[i]))
}

pub open spec fn old_paths_ok(resp: JsonView) -> bool {
    match resp_coll(resp, "paths"@) {
        Some(JsonView::Obj(mp)) => old_path_recs_ok(mp),
        _ => false,
    }
}

pub open spec fn old_paths_match(resp: JsonView, out: Seq<PathEntry>) -> bool {
    match resp_coll(resp, "paths"@) {
        Some(JsonView::Obj(mp)) => old_path_recs_match(mp, out),
        _ => false,
    }
}

pub open spec fn new_path_recs_ok(items: Seq<JsonView>) -> bool {
    forall|i: int| 0 <= i < items.len() ==> new_path_ok(#[trigger] items[i])
}

pub open spec fn new_path_recs_match(items: Seq<JsonView>, out: Seq<PathEntry>) -> bool {
    out.len() == items.len() && (forall|i: int|
        0 <= i < items.len() ==> is_new_path(items[i], #[trigger] out[i]))
}

pub open spec fn new_paths_ok(resp: JsonView) -> bool {
    match resp_coll(resp, "paths"@) {
        Some(JsonView::Arr(items)) => new_path_recs_ok(items),
        _ => false,
    }
}

pub open spec fn new_paths_match(resp: JsonView, out: Seq<PathEntry>) -> bool {
    match resp_coll(resp, "paths"@) {
        Some(JsonView::Arr(items)) => new_path_recs_match(items, out),
        _ => false,
    }
}

/// The whole contract of [`paths_from_response`].
pub open spec fn paths_post(version: RouterVersion, resp: JsonView, r: Option<Vec<PathEntry>>) -> bool {
    match version {
        RouterVersion::__v0_4_4 => (match r {
            Some(v) => old_paths_match(resp, v@),
            None => true,
        }) && (r is Some <==> old_paths_ok(resp)),
        _ => (match r {
            Some(v) => new_paths_match(resp, v@),
            None => true,
        }) && (r is Some <==> new_paths_ok(resp)),
    }
}

/// Normalize a `getpaths` reply payload.
#[verifier::loop_isolation(false)]
pub fn paths_from_response(version: RouterVersion, response: &Json) -> (r: Option<Vec<PathEntry>>)
    ensures
        paths_post(version, response@, r),
{
    let ps = match response {
        Json::Obj(ps) => ps,
        _ => {
            return None;
        },
    };
    match version {
        RouterVersion::__v0_4_4 => {
            let mp = match lookup(ps, "paths") {
                Some(Json::Obj(mp)) => mp,
                _ => {
                    return None;
                },
            };
            proof {
                lemma_view_pairs_index(mp@);
            }
            let ghost mv = view_pairs(mp@);
            let mut out: Vec<PathEntry> = Vec::new();
            let mut i: usize = 0;
            while i < mp.len()
                invariant
                    0 <= i <= mp@.len(),
                    out@.len() == i,
                    forall|k: int| 0 <= k < i ==> old_path_ok(#[trigger] mv[k].1),
                    forall|k: int| 0 <= k < i ==> is_old_path(mv[k].0, mv[k].1, #[trigger] out@[k]),
                decreases mp@.len() - i,
            {
                let e = match old_path_from(&mp[i].0, &mp[i].1) {
                    Some(e) => e,
                    None => {
                        proof {
                            assert(!old_path_ok(mv[i as int].1));
                            assert(!old_path_recs_ok(mv));
                        }
                        return None;
                    },
                };
                out.push(e);
                i += 1;
            }
            Some(out)
        },
        _ => {
            let items = match lookup(ps, "paths") {
                Some(Json::Arr(items)) => items,
                _ => {
                    return None;
                },
            };
            proof {
                lemma_view_items_index(items@);
            }
            let ghost tv = view_items(items@);
            let mut out: Vec<PathEntry> = Vec::new();
            let mut i: usize = 0;
            while i < items.len()
                invariant
                    0 <= i <= items@.len(),
                    out@.len() == i,
                    forall|k: int| 0 <= k < i ==> new_path_ok(#[trigger] tv[k]),
                    forall|k: int| 0 <= k < i ==> is_new_path(tv[k], #[trigger] out@[k]),
                decreases items@.len() - i,
            {
                let e = match new_path_from(&items[i]) {
                    Some(e) => e,
                    None => {
                        proof {
                            assert(!new_path_ok(tv[i as int]));
                            assert(!new_path_recs_ok(tv));
                        }
                        return None;
                    },
                };
                out.push(e);
                i += 1;
            }
            Some(out)
        },
    }
}

// --- dht ---------------------------------------------------------------------
pub open spec fn old_dht_recs_ok(mp: Seq<(Seq<char>, JsonView)>) -> bool {
    forall|i: int| 0 <= i < mp.len() ==> old_dht_ok(#[trigger] mp[i].1)
}

pub open spec fn old_dht_recs_match(mp: Seq<(Seq<char>, JsonView)>, out: Seq<DHTEntry>) -> bool {
    out.len() == mp.len() && (forall|i: int|
        0 <= i < mp.len() ==> is_old_dht(mp[i].0, mp[i].1, #[trigger] out[i]))
}

pub open spec fn old_dhts_ok(resp: JsonView) -> bool {
    match resp_coll(resp, "dht"@) {
        Some(JsonView::Obj(mp)) => old_dht_recs_ok(mp),
        _ => false,
    }
}

pub open spec fn old_dhts_match(resp: JsonView, out: Seq<DHTEntry>) -> bool {
    match resp_coll(resp, "dht"@) {
        Some(JsonView::Obj(mp)) => old_dht_recs_match(mp, out),
        _ => false,
    }
}

pub open spec fn new_dht_recs_ok(items: Seq<JsonView>) -> bool {
    forall|i: int| 0 <= i < items.len() ==> new_dht_ok(#[trigger] items[i])
}

pub open spec fn new_dht_recs_match(items: Seq<JsonView>, out: Seq<DHTEntry>) -> bool {
    out.len() == items.len() && (forall|i: int|
        0 <= i < items.len() ==> is_new_dht(items[i], #[trigger] out[i]))
}

pub open spec fn new_dhts_ok(resp: JsonView) -> bool {
    match resp_coll(resp, "dht"@) {
        Some(JsonView::Arr(items)) => new_dht_recs_ok(items),
        _ => false,
    }
}

pub open spec fn new_dhts_match(resp: JsonView, out: Seq<DHTEntry>) -> bool {
    match resp_coll(resp, "dht"@) {
        Some(JsonView::Arr(items)) => new_dht_recs_match(items, out),
        _ => false,
    }
}

/// The whole contract of [`dht_from_response`].
pub open spec fn dht_post(version: RouterVersion, resp: JsonView, r: Option<Vec<DHTEntry>>) -> bool {
    match version {
        RouterVersion::__v0_4_4 => (match r {
            Some(v) => old_dhts_match(resp, v@),
            None => true,
        }) && (r is Some <==> old_dhts_ok(resp)),
        _ => (match r {
            Some(v) => new_dhts_match(resp, v@),
            None => true,
        }) && (r is Some <==> new_dhts_ok(resp)),
    }
}

/// Normalize a `getdht` reply payload.
#[verifier::loop_isolation(false)]
pub fn dht_from_response(version: RouterVersion, response: &Json) -> (r: Option<Vec<DHTEntry>>)
    ensures
        dht_post(version, response@, r),
{
    let ps = match response {
        Json::Obj(ps) => ps,
        _ => {
            return None;
        },
    };
    match version {
        RouterVersion::__v0_4_4 => {
            let mp = match lookup(ps, "dht") {
                Some(Json::Obj(mp)) => mp,
                _ => {
                    return None;
                },
            };
            proof {
                lemma_view_pairs_index(mp@);
            }
            let ghost mv = view_pairs(mp@);
            let mut out: Vec<DHTEntry> = Vec::new();
            let mut i: usize = 0;
            while i < mp.len()
                invariant
                    0 <= i <= mp@.len(),
                    out@.len() == i,
                    forall|k: int| 0 <= k < i ==> old_dht_ok(#[trigger] mv[k].1),
                    forall|k: int| 0 <= k < i ==> is_old_dht(mv[k].0, mv[k].1, #[trigger] out@[k]),
                decreases mp@.len() - i,
            {
                let e = match old_dht_from(&mp[i].0, &mp[i].1) {
                    Some(e) => e,
                    None => {
                        proof {
                            assert(!old_dht_ok(mv[i as int].1));
                            assert(!old_dht_recs_ok(mv));
                        }
                        return None;
                    },
                };
                out.push(e);
                i += 1;
            }
            Some(out)
        },
        _ => {
            let items = match lookup(ps, "dht") {
                Some(Json::Arr(items)) => items,
                _ => {
                    return None;
                },
            };
            proof {
                lemma_view_items_index(items@);
            }
            let ghost tv = view_items(items@);
            let mut out: Vec<DHTEntry> = Vec::new();
            let mut i: usize = 0;
            while i < items.len()
                invariant
                    0 <= i <= items@.len(),
                    out@.len() == i,
                    forall|k: int| 0 <= k < i ==> new_dht_ok(#[trigger] tv[k]),
                    forall|k: int| 0 <= k < i ==> is_new_dht(tv[k], #[trigger] out@[k]),
                decreases items@.len() - i,
            {
                let e = match new_dht_from(&items[i]) {
                    Some(e) => e,
                    None => {
                        proof {
                            assert(!new_dht_ok(tv[i as int]));
                            assert(!new_dht_recs_ok(tv));
                        }
                        return None;
                    },
                };
                out.push(e);
                i += 1;
            }
            Some(out)
        },
    }
}

// --- tree, tun, multicast interfaces, node info, list, empty -----------------
pub open spec fn tree_recs_ok(items: Seq<JsonView>) -> bool {
    forall|i: int| 0 <= i < items.len() ==> tree_rec_ok(#[trigger] items[i])
}

pub open spec fn tree_recs_match(items: Seq<JsonView>, out: Seq<TreeEntry>) -> bool {
    out.len() == items.len() && (forall|i: int|
        0 <= i < items.len() ==> is_tree_rec(items[i], #[trigger] out[i]))
}

pub open spec fn trees_ok(resp: JsonView) -> bool {
    match resp_coll(resp, "tree"@) {
        Some(JsonView::Arr(items)) => tree_recs_ok(items),
        _ => false,
    }
}

pub open spec fn trees_match(resp: JsonView, out: Seq<TreeEntry>) -> bool {
    match resp_coll(resp, "tree"@) {
        Some(JsonView::Arr(items)) => tree_recs_match(items, out),
        _ => false,
    }
}

/// Normalize a `gettree` reply payload (one shape, current dialect only).
#[verifier::loop_isolation(false)]
pub fn tree_from_response(response: &Json) -> (r: Option<Vec<TreeEntry>>)
    ensures
        r matches Some(v) ==> trees_match(response@, v@),
        r is Some <==> trees_ok(response@),
{
    let ps = match response {
        Json::Obj(ps) => ps,
        _ => {
            return None;
        },
    };
    let items = match lookup(ps, "tree") {
        Some(Json::Arr(items)) => items,
        _ => {
            return None;
        },
    };
    proof {
        lemma_view_items_index(items@);
    }
    let ghost tv = view_items(items@);
    let mut out: Vec<TreeEntry> = Vec::new();
    let mut i: usize = 0;
    while i < items.len()
        invariant
            0 <= i <= items@.len(),
            out@.len() == i,
            forall|k: int| 0 <= k < i ==> tree_rec_ok(#[trigger] tv[k]),
            forall|k: int| 0 <= k < i ==> is_tree_rec(tv[k], #[trigger] out@[k]),
        decreases items@.len() - i,
    {
        let e = match tree_from(&items[i]) {
            Some(e) => e,
            None => {
                proof {
                    assert(!tree_rec_ok(tv[i as int]));
                    assert(!tree_recs_ok(tv));
                }
                return None;
            },
        };
        out.push(e);
        i += 1;
    }
    Some(out)
}

/// Normalize a `gettun` reply payload (one shape, all dialects).
pub fn tun_from_response(response: &Json) -> (r: Option<TunEntry>)
    ensures
        r matches Some(e) ==> is_tun(response@, e),
        r is Some <==> tun_ok(response@),
{
    tun_from(response)
}

/// Normalize a `getmulticastinterfaces` reply payload.
pub fn multicast_interfaces_from_response(response: &Json) -> (r: Option<Vec<String>>)
    ensures
        match response@ {
            JsonView::Obj(ps) => (match f_str_arr(ps, "multicast_interfaces"@) {
                Some(ss) => r matches Some(v) && v.deep_view() == ss,
                None => r is None,
            }),
            _ => r is None,
        },
{
    let ps = match response {
        Json::Obj(ps) => ps,
        _ => {
            return None;
        },
    };
    get_str_arr(ps, "multicast_interfaces")
}

/// Normalize a `getnodeinfo` reply payload: the opaque mapping itself.
pub fn node_info_from_response(response: &Json) -> (r: Option<Vec<(String, Json)>>)
    ensures
        match response@ {
            JsonView::Obj(ps) => r matches Some(v) && view_pairs(v@) == ps,
            _ => r is None,
        },
{
    match response {
        Json::Obj(ps) => {
            let c = response.deep_clone();
            match c {
                Json::Obj(v) => Some(v),
                _ => None,
            }
        },
        _ => None,
    }
}

pub open spec fn old_list_recs_ok(mp: Seq<(Seq<char>, JsonView)>) -> bool {
    forall|i: int| 0 <= i < mp.len() ==> old_list_rec_ok(#[trigger] mp[i].1)
}

pub open spec fn old_list_recs_match(mp: Seq<(Seq<char>, JsonView)>, out: Seq<ListEntry>) -> bool {
    out.len() == mp.len() && (forall|i: int|
        0 <= i < mp.len() ==> is_old_list_rec(mp[i].0, mp[i].1, #[trigger] out[i]))
}

pub open spec fn old_lists_ok(resp: JsonView) -> bool {
    match resp_coll(resp, "list"@) {
        Some(JsonView::Obj(mp)) => old_list_recs_ok(mp),
        _ => false,
    }
}

pub open spec fn old_lists_match(resp: JsonView, out: Seq<ListEntry>) -> bool {
    match resp_coll(resp, "list"@) {
        Some(JsonView::Obj(mp)) => old_list_recs_match(mp, out),
        _ => false,
    }
}

pub open spec fn new_list_recs_ok(items: Seq<JsonView>) -> bool {
    forall|i: int| 0 <= i < items.len() ==> new_list_rec_ok(#[trigger] items[i])
}

pub open spec fn new_list_recs_match(items: Seq<JsonView>, out: Seq<ListEntry>) -> bool {
    out.len() == items.len() && (forall|i: int|
        0 <= i < items.len() ==> is_new_list_rec(items[i], #[trigger] out[i]))
}

pub open spec fn new_lists_ok(resp: JsonView) -> bool {
    match resp_coll(resp, "list"@) {
        Some(JsonView::Arr(items)) => new_list_recs_ok(items),
        _ => false,
    }
}

pub open spec fn new_lists_match(resp: JsonView, out: Seq<ListEntry>) -> bool {
    match resp_coll(resp, "list"@) {
        Some(JsonView::Arr(items)) => new_list_recs_match(items, out),
        _ => false,
    }
}

/// The whole contract of [`list_from_response`].
pub open spec fn list_post(version: RouterVersion, resp: JsonView, r: Option<Vec<ListEntry>>) -> bool {
    match version {
        RouterVersion::__v0_4_4 => (match r {
            Some(v) => old_lists_match(resp, v@),
            None => true,
        }) && (r is Some <==> old_lists_ok(resp)),
        _ => (match r {
            Some(v) => new_lists_match(resp, v@),
            None => true,
        }) && (r is Some <==> new_lists_ok(resp)),
    }
}

/// Normalize a `list` reply payload.
#[verifier::loop_isolation(false)]
pub fn list_from_response(version: RouterVersion, response: &Json) -> (r: Option<Vec<ListEntry>>)
    ensures
        list_post(version, response@, r),
{
    let ps = match response {
        Json::Obj(ps) => ps,
        _ => {
            return None;
        },
    };
    match version {
        RouterVersion::__v0_4_4 => {
            let mp = match lookup(ps, "list") {
                Some(Json::Obj(mp)) => mp,
                _ => {
                    return None;
                },
            };
            proof {
                lemma_view_pairs_index(mp@);
            }
            let ghost mv = view_pairs(mp@);
            let mut out: Vec<ListEntry> = Vec::new();
            let mut i: usize = 0;
            while i < mp.len()
                invariant
                    0 <= i <= mp@.len(),
                    out@.len() == i,
                    forall|k: int| 0 <= k < i ==> old_list_rec_ok(#[trigger] mv[k].1),
                    forall|k: int| 0 <= k < i ==> is_old_list_rec(
                        mv[k].0,
                        mv[k].1,
                        #[trigger] out@[k],
                    ),
                decreases mp@.len() - i,
            {
                let e = match old_list_from(&mp[i].0, &mp[i].1) {
                    Some(e) => e,
                    None => {
                        proof {
                            assert(!old_list_rec_ok(mv[i as int].1));
                            assert(!old_list_recs_ok(mv));
                        }
                        return None;
                    },
                };
                out.push(e);
                i += 1;
            }
            Some(out)
        },
        _ => {
            let items = match lookup(ps, "list") {
                Some(Json::Arr(items)) => items,
                _ => {
                    return None;
                },
            };
            proof {
                lemma_view_items_index(items@);
            }
            let ghost tv = view_items(items@);
            let mut out: Vec<ListEntry> = Vec::new();
            let mut i: usize = 0;
            while i < items.len()
                invariant
                    0 <= i <= items@.len(),
                    out@.len() == i,
                    forall|k: int| 0 <= k < i ==> new_list_rec_ok(#[trigger] tv[k]),
                    forall|k: int| 0 <= k < i ==> is_new_list_rec(tv[k], #[trigger] out@[k]),
                decreases items@.len() - i,
            {
                let e = match new_list_from(&items[i]) {
                    Some(e) => e,
                    None => {
                        proof {
                            assert(!new_list_rec_ok(tv[i as int]));
                            assert(!new_list_recs_ok(tv));
                        }
                        return None;
                    },
                };
                out.push(e);
                i += 1;
            }
            Some(out)
        },
    }
}

/// Normalize the payload of an operation that returns nothing: any object
/// counts as the empty success marker.
pub fn empty_from_response(response: &Json) -> (r: Option<Empty>)
    ensures
        r is Some <==> response@ is Obj,
{
    match response {
        Json::Obj(_) => Some(Empty {  }),
        _ => None,
    }
}

// ---------------------------------------------------------------------------
// Normalizer equivalence across dialects
//
// When an oldest-dialect wire record and a current-dialect wire record
// describe the same remote state - the current record carries the same
// values for every field the oldest dialect has at all - the two
// normalizers produce entities that agree on every carried field, while
// the oldest-dialect entity leaves exactly the dialect-absent fields
// unset (or zeroed, where zero is that dialect's own reading).
// ---------------------------------------------------------------------------
/// Equivalence for one peer record.
pub proof fn lemma_peer_equivalence(
    addr: Seq<char>,
    old_rec: JsonView,
    new_rec: JsonView,
    p_old: PeerEntry,
    p_new: PeerEntry,
)
    requires
        is_old_peer(addr, old_rec, p_old),
        is_new_peer(new_rec, p_new),
        old_rec matches JsonView::Obj(ops) && new_rec matches JsonView::Obj(nps) && {
            &&& f_opt_str(nps, "address"@) == Some(Some(addr))
            &&& f_str(nps, "key"@) == f_str(ops, "key"@)
            &&& f_u64(nps, "port"@) == f_u64(ops, "port"@)
            &&& f_opt_str(nps, "remote"@) == Some(f_str(ops, "remote"@))
            &&& f_opt_u64(nps, "bytes_recvd"@) == Some(f_u64(ops, "bytes_recvd"@))
            &&& f_opt_u64(nps, "bytes_sent"@) == Some(f_u64(ops, "bytes_sent"@))
            &&& f_opt_dur(nps, "uptime"@) == Some(f_dur(ops, "uptime"@))
        },
    ensures
// every field the oldest dialect carries agrees:

        ov_str(p_old.address) == ov_str(p_new.address),
        p_old.key@ == p_new.key@,
        p_old.port == p_new.port,
        ov_str(p_old.remote) == ov_str(p_new.remote),
        p_old.bytes_recvd == p_new.bytes_recvd,
        p_old.bytes_sent == p_new.bytes_sent,
        p_old.uptime == p_new.uptime,
        // the dialect-absent fields are unset, not defaulted:
        p_old.priority is None,
        p_old.last_error is None,
        p_old.last_error_time is None,
{
}

/// Equivalence for one session record.  The oldest dialect's byte counters
/// read as zero - its own absence-of-history default - while its unknown
/// uptime stays unset.
pub proof fn lemma_session_equivalence(
    addr: Seq<char>,
    old_rec: JsonView,
    new_rec: JsonView,
    s_old: SessionEntry,
    s_new: SessionEntry,
)
    requires
        is_old_session(addr, old_rec, s_old),
        is_new_session(new_rec, s_new),
        old_rec matches JsonView::Obj(ops) && new_rec matches JsonView::Obj(nps) && {
            &&& f_str(nps, "address"@) == Some(addr)
            &&& f_str(nps, "key"@) == f_str(ops, "key"@)
        },
    ensures
        s_old.address@ == s_new.address@,
        s_old.key@ == s_new.key@,
        s_old.bytes_recvd == Some(0u64),
        s_old.bytes_sent == Some(0u64),
        s_old.uptime is None,
{
}

/// Equivalence for the self record.
pub proof fn lemma_self_equivalence(
    addr: Seq<char>,
    old_rec: JsonView,
    new_rec: JsonView,
    e_old: SelfEntry,
    e_new: SelfEntry,
)
    requires
        is_old_self(addr, old_rec, e_old),
        is_new_self(new_rec, e_new),
        old_rec matches JsonView::Obj(ops) && new_rec matches JsonView::Obj(nps) && {
            &&& f_str(nps, "address"@) == Some(addr)
            &&& f_str(nps, "build_name"@) == f_str(ops, "build_name"@)
            &&& f_str(nps, "build_version"@) == f_str(ops, "build_version"@)
            &&& f_str(nps, "key"@) == f_str(ops, "key"@)
            &&& f_str(nps, "subnet"@) == f_str(ops, "subnet"@)
        },
    ensures
        e_old.address@ == e_new.address@,
        e_old.build_name@ == e_new.build_name@,
        e_old.build_version@ == e_new.build_version@,
        e_old.key@ == e_new.key@,
        e_old.subnet@ == e_new.subnet@,
        e_old.routing_entries is None,
{
}

/// Equivalence for one path record.
pub proof fn lemma_path_equivalence(
    addr: Seq<char>,
    old_rec: JsonView,
    new_rec: JsonView,
    e_old: PathEntry,
    e_new: PathEntry,
)
    requires
        is_old_path(addr, old_rec, e_old),
        is_new_path(new_rec, e_new),
        old_rec matches JsonView::Obj(ops) && new_rec matches JsonView::Obj(nps) && {
            &&& f_str(nps, "address"@) == Some(addr)
            &&& f_str(nps, "key"@) == f_str(ops, "key"@)
            &&& f_u64_arr(nps, "path"@) == f_u64_arr(ops, "path"@)
        },
    ensures
        e_old.address@ == e_new.address@,
        e_old.key@ == e_new.key@,
        e_old.path@ == e_new.path@,
        e_old.sequence is None,
{
}

/// Equivalence for one DHT record (the oldest dialect carries every field).
pub proof fn lemma_dht_equivalence(
    addr: Seq<char>,
    old_rec: JsonView,
    new_rec: JsonView,
    e_old: DHTEntry,
    e_new: DHTEntry,
)
    requires
        is_old_dht(addr, old_rec, e_old),
        is_new_dht(new_rec, e_new),
        old_rec matches JsonView::Obj(ops) && new_rec matches JsonView::Obj(nps) && {
            &&& f_str(nps, "address"@) == Some(addr)
            &&& f_str(nps, "key"@) == f_str(ops, "key"@)
            &&& f_u64(nps, "port"@) == f_u64(ops, "port"@)
            &&& f_u64(nps, "rest"@) == f_u64(ops, "rest"@)
        },
    ensures
        e_old.address@ == e_new.address@,
        e_old.key@ == e_new.key@,
        e_old.port == e_new.port,
        e_old.rest == e_new.rest,
{
}

/// Equivalence for one command record: the oldest dialect names the command
/// and its fields; it has no descriptions, so that field comes out empty.
pub proof fn lemma_list_equivalence(
    cmd: Seq<char>,
    old_rec: JsonView,
    new_rec: JsonView,
    e_old: ListEntry,
    e_new: ListEntry,
)
    requires
        is_old_list_rec(cmd, old_rec, e_old),
        is_new_list_rec(new_rec, e_new),
        old_rec matches JsonView::Obj(ops) && new_rec matches JsonView::Obj(nps) && {
            &&& f_str(nps, "command"@) == Some(cmd)
            &&& f_opt_str_arr(nps, "fields"@) == Some(f_str_arr(ops, "fields"@))
        },
    ensures
        e_old.command@ == e_new.command@,
        ov_str_vec(e_old.fields) == ov_str_vec(e_new.fields),
        e_old.description@ == Seq::<char>::empty(),
{
}

} // verus!
