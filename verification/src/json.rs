//! The JSON value model used on the wire.
//!
//! The admin protocol exchanges one JSON value per request/response pair.
//! `Json` is the executable representation of such a value; `JsonView` is its
//! mathematical counterpart used in specifications.  Numbers keep their
//! decimal notation (sign, integer digits, fraction digits, exponent) so that
//! no precision is lost between the wire and the caller.

use vstd::prelude::*;

verus! {

use vstd::utf8::{valid_utf8, decode_utf8, encode_utf8};

/// A JSON number, kept in decimal notation.
///
/// `int_digits`, `frac_digits` and `exp_digits` hold ASCII digit bytes.
/// An empty `frac_digits` means the number has no fraction part; an empty
/// `exp_digits` means it has no exponent (then `exp_neg` is `false`).
#[derive(Debug)]
pub struct JsonNum {
    pub neg: bool,
    pub int_digits: Vec<u8>,
    pub frac_digits: Vec<u8>,
    pub exp_neg: bool,
    pub exp_digits: Vec<u8>,
}

/// One JSON value. Object members keep their wire order; duplicate keys are
/// kept as they arrived, and lookups take the first occurrence.
#[derive(Debug)]
pub enum Json {
    Null,
    Bool(bool),
    Num(JsonNum),
    Str(String),
    Arr(Vec<Json>),
    Obj(Vec<(String, Json)>),
}

/// The mathematical form of a JSON number.
#[verifier::ext_equal]
pub ghost struct JsonNumView {
    pub neg: bool,
    pub int_digits: Seq<u8>,
    pub frac_digits: Seq<u8>,
    pub exp_neg: bool,
    pub exp_digits: Seq<u8>,
}

/// The mathematical form of a JSON value.
#[verifier::ext_equal]
pub ghost enum JsonView {
    Null,
    Bool(bool),
    Num(JsonNumView),
    Str(Seq<char>),
    Arr(Seq<JsonView>),
    Obj(Seq<(Seq<char>, JsonView)>),
}

impl View for JsonNum {
    type V = JsonNumView;

    open spec fn view(&self) -> JsonNumView {
        JsonNumView {
            neg: self.neg,
            int_digits: self.int_digits@,
            frac_digits: self.frac_digits@,
            exp_neg: self.exp_neg,
            exp_digits: self.exp_digits@,
        }
    }
}

impl Json {
    pub open spec fn view_rec(self) -> JsonView
        decreases self,
    {
        match self {
            Json::Null => JsonView::Null,
            Json::Bool(b) => JsonView::Bool(b),
            Json::Num(n) => JsonView::Num(n@),
            Json::Str(s) => JsonView::Str(s@),
            Json::Arr(items) => JsonView::Arr(view_items(items@)),
            Json::Obj(pairs) => JsonView::Obj(view_pairs(pairs@)),
        }
    }
}

impl View for Json {
    type V = JsonView;

    open spec fn view(&self) -> JsonView {
        self.view_rec()
    }
}

pub open spec fn view_items(items: Seq<Json>) -> Seq<JsonView>
    decreases items,
{
    if items.len() == 0 {
        seq![]
    } else {
        view_items(items.drop_last()).push(items.last().view_rec())
    }
}

pub open spec fn view_pairs(pairs: Seq<(String, Json)>) -> Seq<(Seq<char>, JsonView)>
    decreases pairs,
{
    if pairs.len() == 0 {
        seq![]
    } else {
        view_pairs(pairs.drop_last()).push((pairs.last().0@, pairs.last().1.view_rec()))
    }
}

pub proof fn lemma_view_items_index(items: Seq<Json>)
    ensures
        view_items(items).len() == items.len(),
        forall|i: int| 0 <= i < items.len() ==> view_items(items)[i] == items[i].view_rec(),
    decreases items.len(),
{
    if items.len() > 0 {
        lemma_view_items_index(items.drop_last());
    }
}

pub proof fn lemma_view_pairs_index(pairs: Seq<(String, Json)>)
    ensures
        view_pairs(pairs).len() == pairs.len(),
        forall|i: int| 0 <= i < pairs.len() ==> view_pairs(pairs)[i] == (
            pairs[i].0@,
            pairs[i].1.view_rec(),
        ),
    decreases pairs.len(),
{
    if pairs.len() > 0 {
        lemma_view_pairs_index(pairs.drop_last());
    }
}

// ---------------------------------------------------------------------------
// Byte and string helpers
// ---------------------------------------------------------------------------
/// Compare two byte slices for equality.
pub fn bytes_eq(a: &[u8], b: &[u8]) -> (r: bool)
    ensures
        r == (a@ == b@),
{
    if a.len() != b.len() {
        assert(a@.len() != b@.len());
        return false;
    }
    let mut i: usize = 0;
    while i < a.len()
        invariant
            0 <= i <= a.len(),
            a.len() == b.len(),
            forall|j: int| 0 <= j < i ==> a@[j] == b@[j],
        decreases a.len() - i,
    {
        if a[i] != b[i] {
            assert(a@[i as int] != b@[i as int]);
            return false;
        }
        i += 1;
    }
    assert(a@ =~= b@);
    true
}

/// Compare two string slices for equality, through their UTF-8 bytes.
pub fn str_eq(a: &str, b: &str) -> (r: bool)
    ensures
        r == (a@ == b@),
{
    broadcast use vstd::utf8::encode_utf8_decode_utf8;

    let r = bytes_eq(a.as_bytes(), b.as_bytes());
    proof {
        if r {
            assert(decode_utf8(encode_utf8(a@)) == decode_utf8(encode_utf8(b@)));
        }
    }
    r
}

/// Relies on `core::str::from_utf8`: it succeeds exactly on valid UTF-8
/// input and yields the characters those bytes encode.
#[verifier::external_body]
pub(crate) fn utf8_to_string(v: &[u8]) -> (r: Option<String>)
    ensures
        r is Some <==> valid_utf8(v@),
        r is Some ==> r->0@ == decode_utf8(v@),
{
    match core::str::from_utf8(v) {
        Ok(s) => Some(s.to_owned()),
        Err(_) => None,
    }
}

// ---------------------------------------------------------------------------
// Reading scalar values out of a JSON tree
// ---------------------------------------------------------------------------
pub open spec fn spec_is_digit(b: u8) -> bool {
    0x30 <= b <= 0x39
}

pub open spec fn all_digits(ds: Seq<u8>) -> bool {
    forall|i: int| 0 <= i < ds.len() ==> spec_is_digit(#[trigger] ds[i])
}

/// The value of a big-endian decimal ASCII digit string.
pub open spec fn digits_val(ds: Seq<u8>) -> int
    decreases ds,
{
    if ds.len() == 0 {
        0
    } else {
        digits_val(ds.drop_last()) * 10 + (ds.last() - 0x30)
    }
}

pub proof fn lemma_digits_val_nonneg(ds: Seq<u8>)
    requires
        all_digits(ds),
    ensures
        digits_val(ds) >= 0,
    decreases ds.len(),
{
    if ds.len() > 0 {
        lemma_digits_val_nonneg(ds.drop_last());
    }
}

/// The `u64` a JSON number denotes, when it is written as a plain
/// non-negative integer that fits.
pub open spec fn num_as_u64(n: JsonNumView) -> Option<u64> {
    if !n.neg && n.frac_digits.len() == 0 && n.exp_digits.len() == 0 && all_digits(n.int_digits)
        && digits_val(n.int_digits) <= u64::MAX {
        Some(digits_val(n.int_digits) as u64)
    } else {
        None
    }
}

/// Read a decimal digit string as a `u64`: all bytes must be digits and
/// the value must fit.
pub fn digits_to_u64(s: &[u8]) -> (r: Option<u64>)
    ensures
        match r {
            Some(v) => all_digits(s@) && digits_val(s@) == v,
            None => !(all_digits(s@) && digits_val(s@) <= u64::MAX),
        },
{
    let ghost ds = s@;
    let mut acc: u64 = 0;
    let mut i: usize = 0;
    while i < s.len()
        invariant
            0 <= i <= ds.len(),
            ds == s@,
            all_digits(ds.take(i as int)),
            acc == digits_val(ds.take(i as int)),
        decreases ds.len() - i,
    {
        let d = s[i];
        proof {
            assert(ds.take(i + 1).drop_last() =~= ds.take(i as int));
        }
        if d < 0x30 || d > 0x39 {
            return None;
        }
        let dv: u64 = (d - 0x30) as u64;
        if acc > (u64::MAX - dv) / 10 {
            proof {
                assert(acc * 10 + dv > u64::MAX) by (nonlinear_arith)
                    requires
                        acc > (u64::MAX - dv) / 10,
                        dv <= 9,
                ;
                if all_digits(ds) {
                    lemma_digits_val_prefix_mono(ds, i + 1);
                }
            }
            return None;
        }
        assert(acc * 10 + dv <= u64::MAX) by (nonlinear_arith)
            requires
                acc <= (u64::MAX - dv) / 10,
                dv <= 9,
        ;
        acc = acc * 10 + dv;
        i += 1;
    }
    proof {
        assert(ds.take(ds.len() as int) =~= ds);
    }
    Some(acc)
}

impl JsonNum {
    /// Read this number as a `u64`, exactly when it is a plain non-negative
    /// integer in range.
    pub fn as_u64(&self) -> (r: Option<u64>)
        ensures
            r == num_as_u64(self@),
    {
        if self.neg || self.frac_digits.len() != 0 || self.exp_digits.len() != 0 {
            return None;
        }
        digits_to_u64(self.int_digits.as_slice())
    }
}

/// A longer digit string never has a smaller value.
pub proof fn lemma_digits_val_prefix_mono(ds: Seq<u8>, i: int)
    requires
        all_digits(ds),
        0 <= i <= ds.len(),
    ensures
        digits_val(ds) >= digits_val(ds.take(i)),
    decreases ds.len() - i,
{
    if i < ds.len() {
        assert(ds.take(i + 1).drop_last() =~= ds.take(i));
        assert(digits_val(ds.take(i + 1)) == digits_val(ds.take(i)) * 10 + (ds.take(i + 1).last()
            - 0x30)) by {
            assert(ds.take(i + 1).last() == ds[i]);
        }
        assert(all_digits(ds.take(i)));
        lemma_digits_val_nonneg(ds.take(i));
        assert(digits_val(ds.take(i)) * 10 >= digits_val(ds.take(i))) by (nonlinear_arith)
            requires
                digits_val(ds.take(i)) >= 0,
        ;
        lemma_digits_val_prefix_mono(ds, i + 1);
    } else {
        assert(ds.take(i) =~= ds);
    }
}

// ---------------------------------------------------------------------------
// Object member lookup
// ---------------------------------------------------------------------------
/// The first member of `pairs` named `key`, if any.
pub open spec fn spec_lookup(pairs: Seq<(Seq<char>, JsonView)>, key: Seq<char>) -> Option<JsonView>
    decreases pairs,
{
    if pairs.len() == 0 {
        None
    } else if pairs[0].0 == key {
        Some(pairs[0].1)
    } else {
        spec_lookup(pairs.skip(1), key)
    }
}

impl Json {
    pub open spec fn spec_obj(self) -> Option<Seq<(Seq<char>, JsonView)>> {
        match self@ {
            JsonView::Obj(pairs) => Some(pairs),
            _ => None,
        }
    }

    /// The first member named `key` of this object, if this is an object
    /// and it has one.
    pub fn get<'a>(&'a self, key: &str) -> (r: Option<&'a Json>)
        ensures
            match self.spec_obj() {
                Some(pairs) => match spec_lookup(pairs, key@) {
                    Some(v) => r is Some && r->0@ == v,
                    None => r is None,
                },
                None => r is None,
            },
    {
        match self {
            Json::Obj(pairs) => lookup(pairs, key),
            _ => None,
        }
    }
}

/// The first member of `pairs` named `key`, if any.
pub fn lookup<'a>(pairs: &'a Vec<(String, Json)>, key: &str) -> (r: Option<&'a Json>)
    ensures
        match spec_lookup(view_pairs(pairs@), key@) {
            Some(v) => r is Some && r->0@ == v,
            None => r is None,
        },
{
    proof {
        lemma_view_pairs_index(pairs@);
        assert(view_pairs(pairs@).skip(0) =~= view_pairs(pairs@));
    }
    let ghost vp = view_pairs(pairs@);
    let mut i: usize = 0;
    while i < pairs.len()
        invariant
            0 <= i <= pairs@.len(),
            vp == view_pairs(pairs@),
            vp.len() == pairs@.len(),
            forall|j: int| 0 <= j < pairs@.len() ==> vp[j] == (
                pairs@[j].0@,
                pairs@[j].1.view_rec(),
            ),
            spec_lookup(vp, key@) == spec_lookup(vp.skip(i as int), key@),
        decreases pairs@.len() - i,
    {
        proof {
            assert(vp.skip(i as int)[0] == vp[i as int]);
            assert(vp.skip(i as int).skip(1) =~= vp.skip(i + 1));
        }
        if str_eq(pairs[i].0.as_str(), key) {
            return Some(&pairs[i].1);
        }
        i += 1;
    }
    proof {
        assert(vp.skip(pairs@.len() as int) =~= Seq::<(Seq<char>, JsonView)>::empty());
    }
    None
}

impl Json {
    /// A structurally identical copy.
    #[verifier::loop_isolation(false)]
    pub fn deep_clone(&self) -> (r: Json)
        ensures
            r@ == self@,
        decreases self,
    {
        match self {
            Json::Null => Json::Null,
            Json::Bool(b) => Json::Bool(*b),
            Json::Num(n) => Json::Num(
                JsonNum {
                    neg: n.neg,
                    int_digits: n.int_digits.clone(),
                    frac_digits: n.frac_digits.clone(),
                    exp_neg: n.exp_neg,
                    exp_digits: n.exp_digits.clone(),
                },
            ),
            Json::Str(s) => Json::Str(s.clone()),
            Json::Arr(items) => {
                let mut acc: Vec<Json> = Vec::new();
                let n = items.len();
                let mut j: usize = 0;
                proof {
                    lemma_view_items_index(items@);
                }
                while j < n
                    invariant
                        0 <= j <= n,
                        acc@.len() == j,
                        forall|k: int| 0 <= k < j ==> acc@[k].view_rec() == items@[k].view_rec(),
                    decreases n - j,
                {
                    proof {
                        assert(decreases_to!(*self => self->Arr_0));
                        assert(decreases_to!(self->Arr_0 => self->Arr_0@));
                        assert(decreases_to!(self->Arr_0@ => self->Arr_0@[j as int]));
                    }
                    let c = items[j].deep_clone();
                    acc.push(c);
                    j += 1;
                }
                let r = Json::Arr(acc);
                proof {
                    lemma_view_items_index(acc@);
                    assert(view_items(acc@) =~= view_items(items@));
                }
                r
            },
            Json::Obj(pairs) => {
                let mut acc: Vec<(String, Json)> = Vec::new();
                let n = pairs.len();
                let mut j: usize = 0;
                proof {
                    lemma_view_pairs_index(pairs@);
                }
                while j < n
                    invariant
                        0 <= j <= n,
                        acc@.len() == j,
                        forall|k: int| 0 <= k < j ==> acc@[k].0@ == pairs@[k].0@ && acc@[k].1.view_rec()
                            == pairs@[k].1.view_rec(),
                    decreases n - j,
                {
                    proof {
                        assert(decreases_to!(*self => self->Obj_0));
                        assert(decreases_to!(self->Obj_0 => self->Obj_0@));
                        assert(decreases_to!(self->Obj_0@ => self->Obj_0@[j as int]));
                        assert(decreases_to!(self->Obj_0@[j as int] => self->Obj_0@[j as int].1));
                    }
                    let k = pairs[j].0.clone();
                    let c = pairs[j].1.deep_clone();
                    acc.push((k, c));
                    j += 1;
                }
                let r = Json::Obj(acc);
                proof {
                    lemma_view_pairs_index(acc@);
                    assert(view_pairs(acc@) =~= view_pairs(pairs@));
                }
                r
            },
        }
    }
}

} // verus!
