//! The wire grammar of a frame's payload: a flat JSON object in compact form
//! (no insignificant whitespace), with string, integer and boolean fields.
//! Both ends of the protocol emit compact objects, so the decoder accepts
//! exactly that shape, in any field order.
use vstd::prelude::*;

verus! {

/// A field value as the contracts speak of it: a byte string, an integer,
/// or a boolean.
pub enum GVal {
    Str(Seq<u8>),
    Num(int),
    Bool(bool),
}

/// A field value as the executable decoder returns it.
pub enum JsonVal {
    Str(Vec<u8>),
    Num { neg: bool, abs: u64 },
    Bool(bool),
}

impl View for JsonVal {
    type V = GVal;

    open spec fn view(&self) -> GVal {
        match self {
            JsonVal::Str(s) => GVal::Str(s@),
            JsonVal::Num { neg, abs } => GVal::Num(
                if *neg {
                    -(*abs as int)
                } else {
                    *abs as int
                },
            ),
            JsonVal::Bool(b) => GVal::Bool(*b),
        }
    }
}

pub open spec fn is_digit(b: u8) -> bool {
    ('0' as u8) <= b && b <= ('9' as u8)
}

pub open spec fn digit_val(b: u8) -> int {
    b - ('0' as u8)
}

pub open spec fn digit_byte(d: int) -> u8 {
    (d + 0x30) as u8
}

/// Decimal digits of `n`, most significant first.
pub open spec fn dec_bytes(n: nat) -> Seq<u8>
    decreases n,
{
    if n < 10 {
        seq![digit_byte(n as int)]
    } else {
        dec_bytes(n / 10) + seq![digit_byte((n % 10) as int)]
    }
}

pub open spec fn hex_digit(d: int) -> u8 {
    if d < 10 {
        (d + 0x30) as u8
    } else {
        (d - 10 + 0x61) as u8
    }
}

/// What the encoder emits for one byte of a string field.
pub open spec fn esc_byte(b: u8) -> Seq<u8> {
    if b == ('"' as u8) {
        seq![('\\' as u8), ('"' as u8)]
    } else if b == ('\\' as u8) {
        seq![('\\' as u8), ('\\' as u8)]
    } else if b == 0x0a {
        seq![('\\' as u8), ('n' as u8)]
    } else if b == 0x0d {
        seq![('\\' as u8), ('r' as u8)]
    } else if b == 0x09 {
        seq![('\\' as u8), ('t' as u8)]
    } else if b < 0x20 {
        seq![('\\' as u8), ('u' as u8), ('0' as u8), ('0' as u8), hex_digit(b as int / 16), hex_digit(b as int % 16)]
    } else {
        seq![b]
    }
}

pub open spec fn esc_bytes(s: Seq<u8>) -> Seq<u8>
    decreases s.len(),
{
    if s.len() == 0 {
        Seq::empty()
    } else {
        esc_byte(s[0]) + esc_bytes(s.drop_first())
    }
}

pub open spec fn lit_true() -> Seq<u8> {
    seq![('t' as u8), ('r' as u8), ('u' as u8), ('e' as u8)]
}

pub open spec fn lit_false() -> Seq<u8> {
    seq![('f' as u8), ('a' as u8), ('l' as u8), ('s' as u8), ('e' as u8)]
}

pub open spec fn enc_str(s: Seq<u8>) -> Seq<u8> {
    seq![('"' as u8)] + esc_bytes(s) + seq![('"' as u8)]
}

pub open spec fn enc_num(n: int) -> Seq<u8> {
    if n < 0 {
        seq![('-' as u8)] + dec_bytes((-n) as nat)
    } else {
        dec_bytes(n as nat)
    }
}

pub open spec fn enc_bool(b: bool) -> Seq<u8> {
    if b {
        lit_true()
    } else {
        lit_false()
    }
}

/// A value is encodable when its integer fits the wire's numeric range.
pub open spec fn wf_val(v: GVal) -> bool {
    match v {
        GVal::Num(n) => -(u64::MAX as int) <= n && n <= u64::MAX as int,
        _ => true,
    }
}

pub open spec fn enc_val(v: GVal) -> Seq<u8> {
    match v {
        GVal::Str(s) => enc_str(s),
        GVal::Num(n) => enc_num(n),
        GVal::Bool(b) => enc_bool(b),
    }
}

pub open spec fn enc_pair(k: Seq<u8>, v: GVal) -> Seq<u8> {
    enc_str(k) + seq![(':' as u8)] + enc_val(v)
}

pub open spec fn enc_members(ps: Seq<(Seq<u8>, GVal)>) -> Seq<u8>
    decreases ps.len(),
{
    if ps.len() == 0 {
        Seq::empty()
    } else if ps.len() == 1 {
        enc_pair(ps[0].0, ps[0].1)
    } else {
        enc_pair(ps[0].0, ps[0].1) + seq![(',' as u8)] + enc_members(ps.drop_first())
    }
}

/// The canonical compact encoding of a flat object.
pub open spec fn enc_obj(ps: Seq<(Seq<u8>, GVal)>) -> Seq<u8> {
    if ps.len() == 0 {
        seq![('{' as u8), ('}' as u8)]
    } else {
        seq![('{' as u8)] + enc_members(ps) + seq![('}' as u8)]
    }
}

pub open spec fn unesc_simple(b: u8) -> Option<u8> {
    if b == ('"' as u8) {
        Some(('"' as u8))
    } else if b == ('\\' as u8) {
        Some(('\\' as u8))
    } else if b == ('/' as u8) {
        Some(('/' as u8))
    } else if b == ('n' as u8) {
        Some(0x0au8)
    } else if b == ('r' as u8) {
        Some(0x0du8)
    } else if b == ('t' as u8) {
        Some(0x09u8)
    } else if b == ('b' as u8) {
        Some(0x08u8)
    } else if b == ('f' as u8) {
        Some(0x0cu8)
    } else {
        None
    }
}

pub open spec fn hex_val(b: u8) -> Option<int> {
    if ('0' as u8) <= b && b <= ('9' as u8) {
        Some(b - ('0' as u8))
    } else if ('a' as u8) <= b && b <= ('f' as u8) {
        Some(b - ('a' as u8) + 10)
    } else if ('A' as u8) <= b && b <= ('F' as u8) {
        Some(b - ('A' as u8) + 10)
    } else {
        None
    }
}

/// Parse the body of a string, after its opening quote: the decoded content
/// and what follows the closing quote.
pub open spec fn sp_str_body(s: Seq<u8>) -> Option<(Seq<u8>, Seq<u8>)>
    decreases s.len(),
{
    if s.len() == 0 {
        None
    } else if s[0] == ('"' as u8) {
        Some((Seq::empty(), s.drop_first()))
    } else if s[0] == ('\\' as u8) {
        if s.len() < 2 {
            None
        } else {
            match unesc_simple(s[1]) {
                Some(u) => match sp_str_body(s.skip(2)) {
                    Some((c, r)) => Some((seq![u] + c, r)),
                    None => None,
                },
                None => if s[1] == ('u' as u8) {
                    if s.len() < 6 {
                        None
                    } else {
                        match (hex_val(s[2]), hex_val(s[3]), hex_val(s[4]), hex_val(s[5])) {
                            (Some(h1), Some(h2), Some(h3), Some(h4)) => {
                                let v: int = h1 * 4096 + h2 * 256 + h3 * 16 + h4;
                                if v < 0x80 {
                                    match sp_str_body(s.skip(6)) {
                                        Some((c, r)) => Some((seq![v as u8] + c, r)),
                                        None => None,
                                    }
                                } else {
                                    None
                                }
                            },
                            _ => None,
                        }
                    }
                } else {
                    None
                },
            }
        }
    } else if s[0] < 0x20 {
        None
    } else {
        match sp_str_body(s.drop_first()) {
            Some((c, r)) => Some((seq![s[0]] + c, r)),
            None => None,
        }
    }
}

/// Accumulate decimal digits from the front of `s` onto `acc`; stops at the
/// first non-digit. Overflow past `u64::MAX` is a parse failure.
pub open spec fn sp_digits(s: Seq<u8>, acc: u64) -> Option<(u64, Seq<u8>)>
    decreases s.len(),
{
    if s.len() > 0 && is_digit(s[0]) {
        let v: int = acc * 10 + digit_val(s[0]);
        if v <= u64::MAX {
            sp_digits(s.drop_first(), v as u64)
        } else {
            None
        }
    } else {
        Some((acc, s))
    }
}

pub open spec fn sp_number(s: Seq<u8>) -> Option<(int, Seq<u8>)> {
    if s.len() == 0 {
        None
    } else if s[0] == ('-' as u8) {
        let t = s.drop_first();
        if t.len() > 0 && is_digit(t[0]) {
            match sp_digits(t, 0) {
                Some((m, r)) => Some((-(m as int), r)),
                None => None,
            }
        } else {
            None
        }
    } else if is_digit(s[0]) {
        match sp_digits(s, 0) {
            Some((m, r)) => Some((m as int, r)),
            None => None,
        }
    } else {
        None
    }
}

pub open spec fn sp_bool(s: Seq<u8>) -> Option<(bool, Seq<u8>)> {
    if s.len() >= 4 && s.take(4) == lit_true() {
        Some((true, s.skip(4)))
    } else if s.len() >= 5 && s.take(5) == lit_false() {
        Some((false, s.skip(5)))
    } else {
        None
    }
}

pub open spec fn sp_value(s: Seq<u8>) -> Option<(GVal, Seq<u8>)> {
    if s.len() == 0 {
        None
    } else if s[0] == ('"' as u8) {
        match sp_str_body(s.drop_first()) {
            Some((c, r)) => Some((GVal::Str(c), r)),
            None => None,
        }
    } else if s[0] == ('t' as u8) || s[0] == ('f' as u8) {
        match sp_bool(s) {
            Some((b, r)) => Some((GVal::Bool(b), r)),
            None => None,
        }
    } else if s[0] == ('-' as u8) || is_digit(s[0]) {
        match sp_number(s) {
            Some((n, r)) => Some((GVal::Num(n), r)),
            None => None,
        }
    } else {
        None
    }
}

/// Parse one or more `"key":value` members separated by commas. `fuel` bounds
/// the member count; the callers pass the input length, which no member count
/// can exceed.
pub open spec fn sp_members(s: Seq<u8>, fuel: nat) -> Option<(Seq<(Seq<u8>, GVal)>, Seq<u8>)>
    decreases fuel,
{
    if fuel == 0 {
        None
    } else if s.len() == 0 || s[0] != ('"' as u8) {
        None
    } else {
        match sp_str_body(s.drop_first()) {
            Some((k, r1)) => if r1.len() > 0 && r1[0] == (':' as u8) {
                match sp_value(r1.drop_first()) {
                    Some((v, r2)) => if r2.len() > 0 && r2[0] == (',' as u8) {
                        match sp_members(r2.drop_first(), (fuel - 1) as nat) {
                            Some((ps, r3)) => Some((seq![(k, v)] + ps, r3)),
                            None => None,
                        }
                    } else {
                        Some((seq![(k, v)], r2))
                    },
                    None => None,
                }
            } else {
                None
            },
            None => None,
        }
    }
}

pub open spec fn sp_object(s: Seq<u8>, fuel: nat) -> Option<(Seq<(Seq<u8>, GVal)>, Seq<u8>)> {
    if s.len() == 0 || s[0] != ('{' as u8) {
        None
    } else {
        let t = s.drop_first();
        if t.len() > 0 && t[0] == ('}' as u8) {
            Some((Seq::empty(), t.drop_first()))
        } else {
            match sp_members(t, fuel) {
                Some((ps, r)) => if r.len() > 0 && r[0] == ('}' as u8) {
                    Some((ps, r.drop_first()))
                } else {
                    None
                },
                None => None,
            }
        }
    }
}

/// A whole payload: one object and nothing after it.
pub open spec fn sp_doc(s: Seq<u8>) -> Option<Seq<(Seq<u8>, GVal)>> {
    match sp_object(s, s.len()) {
        Some((ps, r)) => if r.len() == 0 {
            Some(ps)
        } else {
            None
        },
        None => None,
    }
}

/// The value of the first member named `k`, if any.
pub open spec fn lookup(ps: Seq<(Seq<u8>, GVal)>, k: Seq<u8>) -> Option<GVal>
    decreases ps.len(),
{
    if ps.len() == 0 {
        None
    } else if ps[0].0 == k {
        Some(ps[0].1)
    } else {
        lookup(ps.drop_first(), k)
    }
}

// ---------------------------------------------------------------------------
// Round trip: parsing a canonical encoding gives back what was encoded.
// ---------------------------------------------------------------------------

/// Escaped string bodies parse back to their content, whatever follows the
/// closing quote.
pub proof fn lemma_str_round_trip(c: Seq<u8>, rest: Seq<u8>)
    ensures
        sp_str_body(esc_bytes(c) + seq![('"' as u8)] + rest) == Some((c, rest)),
    decreases c.len(),
{
    let s = esc_bytes(c) + seq![('"' as u8)] + rest;
    if c.len() == 0 {
        assert(esc_bytes(c) =~= Seq::<u8>::empty());
        assert(s =~= seq![('"' as u8)] + rest);
        assert(s[0] == ('"' as u8));
        assert(s.drop_first() =~= rest);
    } else {
        let c0 = c[0];
        let ct = c.drop_first();
        assert(esc_bytes(c) == esc_byte(c0) + esc_bytes(ct));
        let tail = esc_bytes(ct) + seq![('"' as u8)] + rest;
        assert(s =~= esc_byte(c0) + tail);
        lemma_str_round_trip(ct, rest);
        let e = esc_byte(c0);
        if c0 == ('"' as u8) || c0 == ('\\' as u8) || c0 == 0x0a || c0 == 0x0d || c0 == 0x09 {
            assert(e.len() == 2 && e[0] == ('\\' as u8) && unesc_simple(e[1]) == Some(c0));
            assert(s[0] == ('\\' as u8) && s[1] == e[1]);
            assert(s.skip(2) =~= tail);
            assert(sp_str_body(s) == Some((seq![c0] + ct, rest)));
            assert(seq![c0] + ct =~= c);
        } else if c0 < 0x20 {
            let h1: int = c0 as int / 16;
            let h2: int = c0 as int % 16;
            assert(e == seq![('\\' as u8), ('u' as u8), ('0' as u8), ('0' as u8), hex_digit(h1), hex_digit(h2)]);
            assert(s.len() >= 6);
            assert(s[0] == ('\\' as u8) && s[1] == ('u' as u8));
            assert(unesc_simple(('u' as u8)) is None);
            assert(s[2] == ('0' as u8) && s[3] == ('0' as u8));
            assert(s[4] == hex_digit(h1) && s[5] == hex_digit(h2));
            assert(hex_val(('0' as u8)) == Some(0int));
            assert(0 <= h1 < 2 && 0 <= h2 < 16);
            assert(hex_val(hex_digit(h1)) == Some(h1));
            assert(hex_val(hex_digit(h2)) == Some(h2));
            let v: int = 0 * 4096 + 0 * 256 + h1 * 16 + h2;
            assert(v == c0 as int);
            assert(v < 0x80);
            assert(s.skip(6) =~= tail);
            assert(sp_str_body(s) == Some((seq![(v as u8)] + ct, rest)));
            assert(v as u8 == c0);
            assert(seq![c0] + ct =~= c);
        } else {
            assert(e == seq![c0]);
            assert(s[0] == c0);
            assert(s[0] != ('"' as u8) && s[0] != ('\\' as u8) && !(s[0] < 0x20));
            assert(s.drop_first() =~= tail);
            assert(sp_str_body(s) == Some((seq![c0] + ct, rest)));
            assert(seq![c0] + ct =~= c);
        }
    }
}

pub open spec fn all_digits(ds: Seq<u8>) -> bool {
    forall|i: int| 0 <= i < ds.len() ==> is_digit(#[trigger] ds[i])
}

/// The left fold that digit accumulation computes.
pub open spec fn ext_digits(m: int, ds: Seq<u8>) -> int
    decreases ds.len(),
{
    if ds.len() == 0 {
        m
    } else {
        ext_digits(m * 10 + digit_val(ds[0]), ds.drop_first())
    }
}

pub open spec fn pow10(k: nat) -> int
    decreases k,
{
    if k == 0 {
        1
    } else {
        10 * pow10((k - 1) as nat)
    }
}

pub proof fn lemma_ext_ge(m: int, ds: Seq<u8>)
    requires
        m >= 0,
        all_digits(ds),
    ensures
        ext_digits(m, ds) >= m,
    decreases ds.len(),
{
    if ds.len() > 0 {
        let m2: int = m * 10 + digit_val(ds[0]);
        assert(m2 >= m);
        lemma_ext_ge(m2, ds.drop_first());
    }
}

pub proof fn lemma_digits_chain(ds: Seq<u8>, rest: Seq<u8>, m: u64)
    requires
        all_digits(ds),
        ext_digits(m as int, ds) <= u64::MAX,
        rest.len() == 0 || !is_digit(rest[0]),
    ensures
        sp_digits(ds + rest, m) == Some((ext_digits(m as int, ds) as u64, rest)),
    decreases ds.len(),
{
    let s = ds + rest;
    if ds.len() == 0 {
        assert(s =~= rest);
    } else {
        assert(s[0] == ds[0]);
        let v: int = m * 10 + digit_val(ds[0]);
        lemma_ext_ge(v, ds.drop_first());
        assert(v <= u64::MAX);
        assert(s.drop_first() =~= ds.drop_first() + rest);
        lemma_digits_chain(ds.drop_first(), rest, v as u64);
    }
}

pub proof fn lemma_dec_digits(n: nat)
    ensures
        dec_bytes(n).len() >= 1,
        all_digits(dec_bytes(n)),
    decreases n,
{
    if n < 10 {
        assert(is_digit(digit_byte(n as int)));
    } else {
        lemma_dec_digits(n / 10);
        assert(is_digit(digit_byte((n % 10) as int)));
        assert forall|i: int| 0 <= i < dec_bytes(n).len() implies is_digit(#[trigger] dec_bytes(n)[i]) by {
            if i < dec_bytes(n / 10).len() {
                assert(dec_bytes(n)[i] == dec_bytes(n / 10)[i]);
            } else {
                assert(dec_bytes(n)[i] == digit_byte((n % 10) as int));
            }
        }
    }
}

pub proof fn lemma_ext_append(m: int, a: Seq<u8>, b: Seq<u8>)
    ensures
        ext_digits(m, a + b) == ext_digits(ext_digits(m, a), b),
    decreases a.len(),
{
    if a.len() == 0 {
        assert(a + b =~= b);
    } else {
        let s = a + b;
        assert(s[0] == a[0]);
        assert(s.drop_first() =~= a.drop_first() + b);
        lemma_ext_append(m * 10 + digit_val(a[0]), a.drop_first(), b);
    }
}

pub proof fn lemma_ext_dec(n: nat, m: int)
    requires
        m >= 0,
    ensures
        ext_digits(m, dec_bytes(n)) == m * pow10(dec_bytes(n).len() as nat) + n,
    decreases n,
{
    if n < 10 {
        assert(dec_bytes(n) == seq![digit_byte(n as int)]);
        assert(ext_digits(m, dec_bytes(n)) == ext_digits(m * 10 + n, dec_bytes(n).drop_first()));
        assert(dec_bytes(n).drop_first() =~= Seq::<u8>::empty());
        assert(pow10(0) == 1);
        assert(pow10(1) == 10);
    } else {
        let q: nat = n / 10;
        let r: nat = n % 10;
        assert(n == 10 * q + r);
        let a = dec_bytes(q);
        let b = seq![digit_byte(r as int)];
        assert(dec_bytes(n) == a + b);
        lemma_ext_append(m, a, b);
        lemma_ext_dec(q, m);
        let k: nat = a.len() as nat;
        let e1: int = m * pow10(k) + q;
        assert(ext_digits(m, dec_bytes(n)) == ext_digits(e1, b));
        assert(b.drop_first() =~= Seq::<u8>::empty());
        assert(digit_val(digit_byte(r as int)) == r);
        assert(ext_digits(e1 * 10 + r, Seq::<u8>::empty()) == e1 * 10 + r);
        assert(ext_digits(e1, b) == e1 * 10 + r);
        assert(dec_bytes(n).len() == k + 1);
        assert(pow10(k + 1) == 10 * pow10(k));
        let p: int = pow10(k);
        assert((m * p + q) * 10 + r == m * (10 * p) + (10 * q + r)) by (nonlinear_arith);
    }
}

pub proof fn lemma_num_round_trip(n: int, rest: Seq<u8>)
    requires
        -(u64::MAX as int) <= n <= u64::MAX as int,
        rest.len() == 0 || !is_digit(rest[0]),
    ensures
        sp_number(enc_num(n) + rest) == Some((n, rest)),
{
    let s = enc_num(n) + rest;
    if n < 0 {
        let a: nat = (-n) as nat;
        lemma_dec_digits(a);
        lemma_ext_dec(a, 0);
        assert(ext_digits(0, dec_bytes(a)) == a) by {
            assert(0 * pow10(dec_bytes(a).len() as nat) == 0) by (nonlinear_arith);
        }
        assert(s =~= seq![('-' as u8)] + (dec_bytes(a) + rest));
        assert(s[0] == ('-' as u8));
        let t = s.drop_first();
        assert(t =~= dec_bytes(a) + rest);
        assert(t[0] == dec_bytes(a)[0]);
        assert(is_digit(t[0]));
        lemma_digits_chain(dec_bytes(a), rest, 0);
        assert(sp_digits(t, 0) == Some((a as u64, rest)));
    } else {
        let a: nat = n as nat;
        lemma_dec_digits(a);
        lemma_ext_dec(a, 0);
        assert(ext_digits(0, dec_bytes(a)) == a) by {
            assert(0 * pow10(dec_bytes(a).len() as nat) == 0) by (nonlinear_arith);
        }
        assert(s =~= dec_bytes(a) + rest);
        assert(s[0] == dec_bytes(a)[0]);
        assert(is_digit(s[0]));
        assert(s[0] != ('-' as u8));
        lemma_digits_chain(dec_bytes(a), rest, 0);
        assert(sp_digits(s, 0) == Some((a as u64, rest)));
    }
}

pub proof fn lemma_bool_round_trip(b: bool, rest: Seq<u8>)
    ensures
        sp_bool(enc_bool(b) + rest) == Some((b, rest)),
{
    let s = enc_bool(b) + rest;
    if b {
        assert(s.len() >= 4);
        assert(s.take(4) =~= lit_true());
        assert(s.skip(4) =~= rest);
    } else {
        assert(s.len() >= 5);
        if s.len() >= 4 {
            assert(s.take(4)[0] == ('f' as u8));
            assert(lit_true()[0] == ('t' as u8));
            assert(s.take(4) != lit_true());
        }
        assert(s.take(5) =~= lit_false());
        assert(s.skip(5) =~= rest);
    }
}

pub proof fn lemma_value_round_trip(v: GVal, rest: Seq<u8>)
    requires
        wf_val(v),
        rest.len() > 0,
        !is_digit(rest[0]),
    ensures
        sp_value(enc_val(v) + rest) == Some((v, rest)),
{
    let s = enc_val(v) + rest;
    match v {
        GVal::Str(c) => {
            assert(s[0] == ('"' as u8));
            assert(s.drop_first() =~= esc_bytes(c) + seq![('"' as u8)] + rest);
            lemma_str_round_trip(c, rest);
        },
        GVal::Num(n) => {
            assert(s =~= enc_num(n) + rest);
            if n < 0 {
                assert(s[0] == ('-' as u8));
            } else {
                lemma_dec_digits(n as nat);
                assert(s[0] == dec_bytes(n as nat)[0]);
                assert(is_digit(s[0]));
            }
            assert(s[0] != ('"' as u8) && s[0] != ('t' as u8) && s[0] != ('f' as u8));
            lemma_num_round_trip(n, rest);
        },
        GVal::Bool(b) => {
            assert(s =~= enc_bool(b) + rest);
            if b {
                assert(s[0] == ('t' as u8));
            } else {
                assert(s[0] == ('f' as u8));
            }
            assert(s[0] != ('"' as u8));
            lemma_bool_round_trip(b, rest);
        },
    }
}

pub open spec fn wf_pairs(ps: Seq<(Seq<u8>, GVal)>) -> bool {
    forall|i: int| 0 <= i < ps.len() ==> wf_val(#[trigger] ps[i].1)
}

#[verifier::rlimit(60)]
pub proof fn lemma_members_round_trip(ps: Seq<(Seq<u8>, GVal)>, rest: Seq<u8>, fuel: nat)
    requires
        ps.len() >= 1,
        fuel >= ps.len(),
        wf_pairs(ps),
        rest.len() > 0,
        rest[0] == ('}' as u8),
    ensures
        sp_members(enc_members(ps) + rest, fuel) == Some((ps, rest)),
    decreases ps.len(),
{
    let k0 = ps[0].0;
    let v0 = ps[0].1;
    let s = enc_members(ps) + rest;
    assert(s[0] == ('"' as u8));
    if ps.len() == 1 {
        let t1 = seq![(':' as u8)] + (enc_val(v0) + rest);
        assert(s.drop_first() =~= esc_bytes(k0) + seq![('"' as u8)] + t1);
        lemma_str_round_trip(k0, t1);
        assert(t1[0] == (':' as u8));
        assert(t1.drop_first() =~= enc_val(v0) + rest);
        assert(wf_val(v0));
        lemma_value_round_trip(v0, rest);
        assert(rest[0] != (',' as u8));
        assert(sp_members(s, fuel) == Some((seq![(k0, v0)], rest)));
        assert(seq![(k0, v0)] =~= ps);
    } else {
        let pt = ps.drop_first();
        let rest2 = seq![(',' as u8)] + (enc_members(pt) + rest);
        let t1 = seq![(':' as u8)] + (enc_val(v0) + rest2);
        assert(s.drop_first() =~= esc_bytes(k0) + seq![('"' as u8)] + t1);
        lemma_str_round_trip(k0, t1);
        assert(t1[0] == (':' as u8));
        assert(t1.drop_first() =~= enc_val(v0) + rest2);
        assert(wf_val(v0));
        assert(!is_digit((',' as u8)));
        lemma_value_round_trip(v0, rest2);
        assert(rest2[0] == (',' as u8));
        assert(rest2.drop_first() =~= enc_members(pt) + rest);
        assert(wf_pairs(pt)) by {
            assert(forall|i: int| 0 <= i < pt.len() ==> #[trigger] pt[i] == ps[i + 1]);
        }
        lemma_members_round_trip(pt, rest, (fuel - 1) as nat);
        assert(sp_members(s, fuel) == Some((seq![(k0, v0)] + pt, rest)));
        assert(seq![(k0, v0)] + pt =~= ps);
    }
}

pub proof fn lemma_enc_members_len(ps: Seq<(Seq<u8>, GVal)>)
    ensures
        enc_members(ps).len() >= ps.len(),
    decreases ps.len(),
{
    if ps.len() == 0 {
    } else if ps.len() == 1 {
        assert(enc_members(ps).len() >= 1);
    } else {
        lemma_enc_members_len(ps.drop_first());
    }
}

pub proof fn lemma_obj_round_trip(ps: Seq<(Seq<u8>, GVal)>, fuel: nat)
    requires
        ps.len() >= 1,
        fuel >= ps.len(),
        wf_pairs(ps),
    ensures
        sp_object(enc_obj(ps), fuel) == Some((ps, Seq::<u8>::empty())),
{
    let s = enc_obj(ps);
    assert(s =~= seq![('{' as u8)] + (enc_members(ps) + seq![('}' as u8)]));
    assert(s[0] == ('{' as u8));
    let t = s.drop_first();
    assert(t =~= enc_members(ps) + seq![('}' as u8)]);
    assert(enc_members(ps)[0] == ('"' as u8));
    assert(t[0] == ('"' as u8));
    lemma_members_round_trip(ps, seq![('}' as u8)], fuel);
    assert(sp_members(t, fuel) == Some((ps, seq![('}' as u8)])));
    assert(seq![('}' as u8)].drop_first() =~= Seq::<u8>::empty());
}

/// Parsing the canonical encoding of a flat object gives back its members.
pub proof fn lemma_doc_round_trip(ps: Seq<(Seq<u8>, GVal)>)
    requires
        ps.len() >= 1,
        wf_pairs(ps),
    ensures
        sp_doc(enc_obj(ps)) == Some(ps),
{
    lemma_enc_members_len(ps);
    assert(enc_obj(ps).len() >= ps.len());
    lemma_obj_round_trip(ps, enc_obj(ps).len() as nat);
}

// ---------------------------------------------------------------------------
// Executable encoding.
// ---------------------------------------------------------------------------

pub proof fn lemma_esc_append(a: Seq<u8>, b: Seq<u8>)
    ensures
        esc_bytes(a + b) == esc_bytes(a) + esc_bytes(b),
    decreases a.len(),
{
    if a.len() == 0 {
        assert(a + b =~= b);
        assert(esc_bytes(a) =~= Seq::<u8>::empty());
        assert(esc_bytes(a) + esc_bytes(b) =~= esc_bytes(b));
    } else {
        let s = a + b;
        assert(s[0] == a[0]);
        assert(s.drop_first() =~= a.drop_first() + b);
        lemma_esc_append(a.drop_first(), b);
        assert(esc_byte(a[0]) + (esc_bytes(a.drop_first()) + esc_bytes(b)) =~= (esc_byte(a[0])
            + esc_bytes(a.drop_first())) + esc_bytes(b));
    }
}

/// Append the escaped form of `s` to `out`.
pub fn push_escaped(out: &mut Vec<u8>, s: &Vec<u8>)
    ensures
        final(out)@ == old(out)@ + esc_bytes(s@),
{
    let base = Ghost(out@);
    let mut i: usize = 0;
    while i < s.len()
        invariant
            i <= s@.len(),
            out@ == base@ + esc_bytes(s@.take(i as int)),
        decreases s@.len() - i,
    {
        let b = s[i];
        proof {
            assert(s@.take(i + 1) =~= s@.take(i as int) + seq![s@[i as int]]);
            lemma_esc_append(s@.take(i as int), seq![s@[i as int]]);
            assert(seq![s@[i as int]].drop_first() =~= Seq::<u8>::empty());
            assert(esc_bytes(Seq::<u8>::empty()) =~= Seq::<u8>::empty());
            assert(esc_byte(s@[i as int]) + Seq::<u8>::empty() =~= esc_byte(s@[i as int]));
            assert(esc_bytes(seq![s@[i as int]]) =~= esc_byte(s@[i as int]));
        }
        if b == ('"' as u8) {
            out.push(('\\' as u8));
            out.push(('"' as u8));
        } else if b == ('\\' as u8) {
            out.push(('\\' as u8));
            out.push(('\\' as u8));
        } else if b == 0x0a {
            out.push(('\\' as u8));
            out.push(('n' as u8));
        } else if b == 0x0d {
            out.push(('\\' as u8));
            out.push(('r' as u8));
        } else if b == 0x09 {
            out.push(('\\' as u8));
            out.push(('t' as u8));
        } else if b < 0x20 {
            out.push(('\\' as u8));
            out.push(('u' as u8));
            out.push(('0' as u8));
            out.push(('0' as u8));
            let hi = b / 16;
            let lo = b % 16;
            out.push(if hi < 10 { hi + 0x30 } else { hi - 10 + 0x61 });
            out.push(if lo < 10 { lo + 0x30 } else { lo - 10 + 0x61 });
        } else {
            out.push(b);
        }
        proof {
            assert(out@ =~= base@ + esc_bytes(s@.take(i + 1)));
        }
        i = i + 1;
    }
    proof {
        assert(s@.take(s@.len() as int) =~= s@);
    }
}

/// Append the decimal digits of `n` to `out`.
pub fn push_u64(out: &mut Vec<u8>, n: u64)
    ensures
        final(out)@ == old(out)@ + dec_bytes(n as nat),
    decreases n,
{
    if n < 10 {
        out.push((n as u8) + 0x30);
        assert(out@ =~= old(out)@ + dec_bytes(n as nat));
    } else {
        push_u64(out, n / 10);
        out.push(((n % 10) as u8) + 0x30);
        assert(out@ =~= old(out)@ + dec_bytes(n as nat));
    }
}

/// Append `"s"` (quoted, escaped) to `out`.
pub fn push_quoted(out: &mut Vec<u8>, s: &Vec<u8>)
    ensures
        final(out)@ == old(out)@ + enc_str(s@),
{
    out.push(('"' as u8));
    push_escaped(out, s);
    out.push(('"' as u8));
    assert(out@ =~= old(out)@ + enc_str(s@));
}

/// Append `"k":"v"` to `out`.
pub fn push_pair_str(out: &mut Vec<u8>, k: &Vec<u8>, v: &Vec<u8>)
    ensures
        final(out)@ == old(out)@ + enc_pair(k@, GVal::Str(v@)),
{
    push_quoted(out, k);
    out.push((':' as u8));
    push_quoted(out, v);
    assert(out@ =~= old(out)@ + enc_pair(k@, GVal::Str(v@)));
}

/// Append `"k":n` to `out`.
pub fn push_pair_u64(out: &mut Vec<u8>, k: &Vec<u8>, n: u64)
    ensures
        final(out)@ == old(out)@ + enc_pair(k@, GVal::Num(n as int)),
{
    push_quoted(out, k);
    out.push((':' as u8));
    push_u64(out, n);
    assert(out@ =~= old(out)@ + enc_pair(k@, GVal::Num(n as int)));
}

// ---------------------------------------------------------------------------
// Executable parsing.
// ---------------------------------------------------------------------------

pub open spec fn prepend_str(p: Seq<u8>, o: Option<(Seq<u8>, Seq<u8>)>) -> Option<(Seq<u8>, Seq<u8>)> {
    match o {
        Some((c, r)) => Some((p + c, r)),
        None => None,
    }
}

pub proof fn lemma_prepend_str_assoc(a: Seq<u8>, b: Seq<u8>, o: Option<(Seq<u8>, Seq<u8>)>)
    ensures
        prepend_str(a, prepend_str(b, o)) == prepend_str(a + b, o),
{
    match o {
        Some((c, r)) => {
            assert(a + (b + c) =~= (a + b) + c);
        },
        None => {},
    }
}

/// Parse a string body at `i` (just past the opening quote); on success the
/// content and the index just past the closing quote.
pub fn parse_str_body(s: &Vec<u8>, i: usize) -> (r: Option<(Vec<u8>, usize)>)
    requires
        i <= s@.len(),
    ensures
        match r {
            Some((c, j)) => i < j <= s@.len() && sp_str_body(s@.skip(i as int)) == Some(
                (c@, s@.skip(j as int)),
            ),
            None => sp_str_body(s@.skip(i as int)) is None,
        },
{
    let mut acc: Vec<u8> = Vec::new();
    let mut p: usize = i;
    loop
        invariant
            i <= p <= s@.len(),
            prepend_str(acc@, sp_str_body(s@.skip(p as int))) == sp_str_body(s@.skip(i as int)),
        decreases s@.len() - p,
    {
        let ghost pre = s@.skip(p as int);
        if p >= s.len() {
            assert(pre.len() == 0);
            return None;
        }
        let b = s[p];
        assert(pre[0] == b);
        if b == ('"' as u8) {
            assert(pre.drop_first() =~= s@.skip(p + 1));
            assert(sp_str_body(pre) == Some((Seq::<u8>::empty(), s@.skip(p + 1))));
            assert(acc@ + Seq::<u8>::empty() =~= acc@);
            return Some((acc, p + 1));
        } else if b == ('\\' as u8) {
            if p + 1 >= s.len() {
                assert(pre.len() < 2);
                return None;
            }
            let e = s[p + 1];
            assert(pre[1] == e);
            let u: u8;
            let step: usize;
            if e == ('"' as u8) {
                u = ('"' as u8);
                step = 2;
            } else if e == ('\\' as u8) {
                u = ('\\' as u8);
                step = 2;
            } else if e == ('/' as u8) {
                u = ('/' as u8);
                step = 2;
            } else if e == ('n' as u8) {
                u = 0x0a;
                step = 2;
            } else if e == ('r' as u8) {
                u = 0x0d;
                step = 2;
            } else if e == ('t' as u8) {
                u = 0x09;
                step = 2;
            } else if e == ('b' as u8) {
                u = 0x08;
                step = 2;
            } else if e == ('f' as u8) {
                u = 0x0c;
                step = 2;
            } else if e == ('u' as u8) {
                if s.len() - p < 6 {
                    assert(pre.len() < 6);
                    return None;
                }
                let h1 = hex_nibble(s[p + 2]);
                let h2 = hex_nibble(s[p + 3]);
                let h3 = hex_nibble(s[p + 4]);
                let h4 = hex_nibble(s[p + 5]);
                assert(pre[2] == s@[p + 2] && pre[3] == s@[p + 3] && pre[4] == s@[p + 4] && pre[5]
                    == s@[p + 5]);
                match (h1, h2, h3, h4) {
                    (Some(d1), Some(d2), Some(d3), Some(d4)) => {
                        let v: u32 = (d1 as u32) * 4096 + (d2 as u32) * 256 + (d3 as u32) * 16
                            + (d4 as u32);
                        if v < 0x80 {
                            u = v as u8;
                            step = 6;
                        } else {
                            return None;
                        }
                    },
                    _ => {
                        return None;
                    },
                }
            } else {
                assert(unesc_simple(e) is None);
                return None;
            }
            proof {
                assert(pre.skip(step as int) =~= s@.skip(p + step));
                assert(sp_str_body(pre) == prepend_str(
                    seq![u],
                    sp_str_body(s@.skip(p + step as int)),
                ));
                lemma_prepend_str_assoc(acc@, seq![u], sp_str_body(s@.skip(p + step as int)));
                assert(acc@ + seq![u] =~= acc@.push(u));
            }
            acc.push(u);
            p = p + step;
        } else if b < 0x20 {
            return None;
        } else {
            proof {
                assert(pre.drop_first() =~= s@.skip(p + 1));
                assert(sp_str_body(pre) == prepend_str(seq![b], sp_str_body(s@.skip(p + 1))));
                lemma_prepend_str_assoc(acc@, seq![b], sp_str_body(s@.skip(p + 1)));
                assert(acc@ + seq![b] =~= acc@.push(b));
            }
            acc.push(b);
            p = p + 1;
        }
    }
}

/// The value of one hexadecimal digit.
pub fn hex_nibble(b: u8) -> (r: Option<u8>)
    ensures
        match r {
            Some(d) => hex_val(b) == Some(d as int),
            None => hex_val(b) is None,
        },
{
    if ('0' as u8) <= b && b <= ('9' as u8) {
        Some(b - 0x30)
    } else if ('a' as u8) <= b && b <= ('f' as u8) {
        Some(b - 0x61 + 10)
    } else if ('A' as u8) <= b && b <= ('F' as u8) {
        Some(b - 0x41 + 10)
    } else {
        None
    }
}

/// Parse a run of decimal digits starting at `i`, accumulating their value.
pub fn parse_digits(s: &Vec<u8>, i: usize) -> (r: Option<(u64, usize)>)
    requires
        i <= s@.len(),
    ensures
        match r {
            Some((m, j)) => i <= j <= s@.len() && sp_digits(s@.skip(i as int), 0) == Some(
                (m, s@.skip(j as int)),
            ),
            None => sp_digits(s@.skip(i as int), 0) is None,
        },
{
    let mut acc: u64 = 0;
    let mut p: usize = i;
    loop
        invariant
            i <= p <= s@.len(),
            sp_digits(s@.skip(p as int), acc) == sp_digits(s@.skip(i as int), 0),
        decreases s@.len() - p,
    {
        let ghost pre = s@.skip(p as int);
        if p >= s.len() {
            assert(pre.len() == 0);
            return Some((acc, p));
        }
        let b = s[p];
        assert(pre[0] == b);
        if ('0' as u8) <= b && b <= ('9' as u8) {
            let d = b - 0x30;
            let wide: u128 = (acc as u128) * 10 + (d as u128);
            if wide > u64::MAX as u128 {
                assert(acc * 10 + digit_val(b) > u64::MAX);
                return None;
            }
            proof {
                assert(pre.drop_first() =~= s@.skip(p + 1));
                assert(acc * 10 + digit_val(b) <= u64::MAX);
            }
            acc = (acc * 10) + (d as u64);
            p = p + 1;
        } else {
            assert(!is_digit(b));
            return Some((acc, p));
        }
    }
}

/// Parse a JSON number starting at `i`.
pub fn parse_number(s: &Vec<u8>, i: usize) -> (r: Option<(bool, u64, usize)>)
    requires
        i <= s@.len(),
    ensures
        match r {
            Some((neg, m, j)) => i < j <= s@.len() && sp_number(s@.skip(i as int)) == Some(
                (if neg { -(m as int) } else { m as int }, s@.skip(j as int)),
            ),
            None => sp_number(s@.skip(i as int)) is None,
        },
{
    let ghost pre = s@.skip(i as int);
    if i >= s.len() {
        assert(pre.len() == 0);
        return None;
    }
    let b = s[i];
    assert(pre[0] == b);
    if b == ('-' as u8) {
        assert(pre.drop_first() =~= s@.skip(i + 1));
        if i + 1 >= s.len() {
            return None;
        }
        let b2 = s[i + 1];
        assert(s@.skip(i + 1).len() > 0 && s@.skip(i + 1)[0] == b2);
        if !(('0' as u8) <= b2 && b2 <= ('9' as u8)) {
            assert(!is_digit(b2));
            return None;
        }
        match parse_digits(s, i + 1) {
            Some((m, j)) => Some((true, m, j)),
            None => None,
        }
    } else if ('0' as u8) <= b && b <= ('9' as u8) {
        match parse_digits(s, i) {
            Some((m, j)) => {
                proof {
                    let d: int = digit_val(b);
                    assert(0 * 10 + d <= u64::MAX);
                    assert(sp_digits(pre, 0) == sp_digits(pre.drop_first(), d as u64));
                    lemma_sp_digits_suffix(pre.drop_first(), d as u64);
                    assert(s@.skip(j as int).len() == s@.len() - j);
                    assert(pre.drop_first().len() == s@.len() - i - 1);
                    assert(j > i);
                }
                Some((false, m, j))
            },
            None => None,
        }
    } else {
        assert(!is_digit(b) && b != ('-' as u8));
        return None;
    }
}

pub proof fn lemma_sp_digits_suffix(s: Seq<u8>, acc: u64)
    ensures
        match sp_digits(s, acc) {
            Some((m, r)) => r.len() <= s.len(),
            None => true,
        },
    decreases s.len(),
{
    if s.len() > 0 && is_digit(s[0]) {
        let v: int = acc * 10 + digit_val(s[0]);
        if v <= u64::MAX {
            lemma_sp_digits_suffix(s.drop_first(), v as u64);
        }
    }
}

/// Parse `true` or `false` starting at `i`.
pub fn parse_bool(s: &Vec<u8>, i: usize) -> (r: Option<(bool, usize)>)
    requires
        i <= s@.len(),
    ensures
        match r {
            Some((b, j)) => i < j <= s@.len() && sp_bool(s@.skip(i as int)) == Some(
                (b, s@.skip(j as int)),
            ),
            None => sp_bool(s@.skip(i as int)) is None,
        },
{
    let ghost pre = s@.skip(i as int);
    if s.len() - i >= 4 && s[i] == ('t' as u8) && s[i + 1] == ('r' as u8) && s[i + 2] == (
    'u' as u8) && s[i + 3] == ('e' as u8) {
        proof {
            assert(pre.take(4) =~= lit_true());
            assert(pre.skip(4) =~= s@.skip(i + 4));
        }
        return Some((true, i + 4));
    }
    if s.len() - i >= 5 && s[i] == ('f' as u8) && s[i + 1] == ('a' as u8) && s[i + 2] == (
    'l' as u8) && s[i + 3] == ('s' as u8) && s[i + 4] == ('e' as u8) {
        proof {
            assert(pre.take(4)[0] == ('f' as u8));
            assert(lit_true()[0] == ('t' as u8));
            assert(pre.take(4) != lit_true());
            assert(pre.take(5) =~= lit_false());
            assert(pre.skip(5) =~= s@.skip(i + 5));
        }
        return Some((false, i + 5));
    }
    proof {
        if pre.len() >= 4 && pre.take(4) == lit_true() {
            assert(pre.take(4)[0] == s@[i as int]);
            assert(pre.take(4)[1] == s@[i + 1]);
            assert(pre.take(4)[2] == s@[i + 2]);
            assert(pre.take(4)[3] == s@[i + 3]);
            assert(false);
        }
        if pre.len() >= 5 && pre.take(5) == lit_false() {
            assert(pre.take(5)[0] == s@[i as int]);
            assert(pre.take(5)[1] == s@[i + 1]);
            assert(pre.take(5)[2] == s@[i + 2]);
            assert(pre.take(5)[3] == s@[i + 3]);
            assert(pre.take(5)[4] == s@[i + 4]);
            assert(false);
        }
    }
    None
}

/// Parse one JSON value starting at `i`.
pub fn parse_value(s: &Vec<u8>, i: usize) -> (r: Option<(JsonVal, usize)>)
    requires
        i <= s@.len(),
    ensures
        match r {
            Some((v, j)) => i < j <= s@.len() && sp_value(s@.skip(i as int)) == Some(
                (v@, s@.skip(j as int)),
            ),
            None => sp_value(s@.skip(i as int)) is None,
        },
{
    let ghost pre = s@.skip(i as int);
    if i >= s.len() {
        assert(pre.len() == 0);
        return None;
    }
    let b = s[i];
    assert(pre[0] == b);
    if b == ('"' as u8) {
        assert(pre.drop_first() =~= s@.skip(i + 1));
        match parse_str_body(s, i + 1) {
            Some((c, j)) => Some((JsonVal::Str(c), j)),
            None => None,
        }
    } else if b == ('t' as u8) || b == ('f' as u8) {
        match parse_bool(s, i) {
            Some((v, j)) => Some((JsonVal::Bool(v), j)),
            None => None,
        }
    } else if b == ('-' as u8) || (('0' as u8) <= b && b <= ('9' as u8)) {
        match parse_number(s, i) {
            Some((neg, m, j)) => Some((JsonVal::Num { neg, abs: m }, j)),
            None => None,
        }
    } else {
        assert(!is_digit(b));
        None
    }
}

/// The members as the contracts see them: each key and value by its view.
pub open spec fn pairs_view(ps: Seq<(Vec<u8>, JsonVal)>) -> Seq<(Seq<u8>, GVal)> {
    ps.map_values(|p: (Vec<u8>, JsonVal)| (p.0@, p.1@))
}

pub open spec fn prepend_members(
    p: Seq<(Seq<u8>, GVal)>,
    o: Option<(Seq<(Seq<u8>, GVal)>, Seq<u8>)>,
) -> Option<(Seq<(Seq<u8>, GVal)>, Seq<u8>)> {
    match o {
        Some((ps, r)) => Some((p + ps, r)),
        None => None,
    }
}

pub proof fn lemma_prepend_members_assoc(
    a: Seq<(Seq<u8>, GVal)>,
    b: Seq<(Seq<u8>, GVal)>,
    o: Option<(Seq<(Seq<u8>, GVal)>, Seq<u8>)>,
)
    ensures
        prepend_members(a, prepend_members(b, o)) == prepend_members(a + b, o),
{
    match o {
        Some((c, r)) => {
            assert(a + (b + c) =~= (a + b) + c);
        },
        None => {},
    }
}

/// Parse a comma-separated run of `"key":value` members starting at `i`.
pub fn parse_members(s: &Vec<u8>, i: usize, Ghost(fuel0): Ghost<nat>) -> (r: Option<
    (Vec<(Vec<u8>, JsonVal)>, usize),
>)
    requires
        i <= s@.len(),
        fuel0 >= s@.len() - i,
    ensures
        match r {
            Some((ps, j)) => i <= j <= s@.len() && sp_members(s@.skip(i as int), fuel0) == Some(
                (pairs_view(ps@), s@.skip(j as int)),
            ),
            None => sp_members(s@.skip(i as int), fuel0) is None,
        },
{
    let mut acc: Vec<(Vec<u8>, JsonVal)> = Vec::new();
    let mut p: usize = i;
    let ghost mut fuel = fuel0;
    proof {
        assert(pairs_view(acc@) =~= Seq::<(Seq<u8>, GVal)>::empty());
    }
    loop
        invariant
            i <= p <= s@.len(),
            fuel >= s@.len() - p,
            prepend_members(pairs_view(acc@), sp_members(s@.skip(p as int), fuel)) == sp_members(
                s@.skip(i as int),
                fuel0,
            ),
        decreases s@.len() - p,
    {
        let ghost pre = s@.skip(p as int);
        if p >= s.len() {
            assert(pre.len() == 0);
            assert(sp_members(pre, fuel) is None);
            return None;
        }
        let b = s[p];
        assert(pre[0] == b);
        assert(fuel > 0);
        if b != ('"' as u8) {
            return None;
        }
        assert(pre.drop_first() =~= s@.skip(p + 1));
        match parse_str_body(s, p + 1) {
            None => {
                return None;
            },
            Some((k, j1)) => {
                let ghost r1 = s@.skip(j1 as int);
                if j1 >= s.len() {
                    assert(r1.len() == 0);
                    return None;
                }
                if s[j1] != (':' as u8) {
                    assert(r1[0] != (':' as u8));
                    return None;
                }
                assert(r1[0] == (':' as u8));
                assert(r1.drop_first() =~= s@.skip(j1 + 1));
                match parse_value(s, j1 + 1) {
                    None => {
                        return None;
                    },
                    Some((v, j2)) => {
                        let ghost r2 = s@.skip(j2 as int);
                        let ghost kv = (k@, v@);
                        let ghost acc_before = pairs_view(acc@);
                        acc.push((k, v));
                        proof {
                            assert(pairs_view(acc@) =~= acc_before + seq![kv]);
                        }
                        if j2 < s.len() && s[j2] == (',' as u8) {
                            proof {
                                assert(r2[0] == (',' as u8));
                                assert(r2.drop_first() =~= s@.skip(j2 + 1));
                                assert(sp_members(pre, fuel) == prepend_members(
                                    seq![kv],
                                    sp_members(s@.skip(j2 + 1), (fuel - 1) as nat),
                                ));
                                lemma_prepend_members_assoc(
                                    acc_before,
                                    seq![kv],
                                    sp_members(s@.skip(j2 + 1), (fuel - 1) as nat),
                                );
                                fuel = (fuel - 1) as nat;
                            }
                            p = j2 + 1;
                        } else {
                            proof {
                                if j2 < s@.len() {
                                    assert(r2[0] == s@[j2 as int]);
                                }
                                assert(!(r2.len() > 0 && r2[0] == (',' as u8)));
                                assert(sp_members(pre, fuel) == Some((seq![kv], r2)));
                                assert(acc_before + seq![kv] =~= pairs_view(acc@));
                            }
                            return Some((acc, j2));
                        }
                    },
                }
            },
        }
    }
}

/// Parse a whole payload: one object covering `s` from `start` to its end.
pub fn parse_doc(s: &Vec<u8>, start: usize) -> (r: Option<Vec<(Vec<u8>, JsonVal)>>)
    requires
        start <= s@.len(),
    ensures
        match r {
            Some(ps) => sp_doc(s@.skip(start as int)) == Some(pairs_view(ps@)),
            None => sp_doc(s@.skip(start as int)) is None,
        },
{
    let ghost t = s@.skip(start as int);
    if start >= s.len() {
        assert(t.len() == 0);
        return None;
    }
    if s[start] != ('{' as u8) {
        assert(t[0] != ('{' as u8));
        return None;
    }
    assert(t[0] == ('{' as u8));
    assert(t.drop_first() =~= s@.skip(start + 1));
    let ghost t1 = s@.skip(start + 1);
    if start + 1 < s.len() && s[start + 1] == ('}' as u8) {
        assert(t1[0] == ('}' as u8));
        if start + 2 == s.len() {
            let empty: Vec<(Vec<u8>, JsonVal)> = Vec::new();
            proof {
                assert(t1.drop_first() =~= s@.skip(start + 2));
                assert(s@.skip(start + 2).len() == 0);
                assert(pairs_view(empty@) =~= Seq::<(Seq<u8>, GVal)>::empty());
            }
            return Some(empty);
        } else {
            assert(t1.drop_first() =~= s@.skip(start + 2));
            assert(s@.skip(start + 2).len() > 0);
            return None;
        }
    }
    proof {
        if t1.len() > 0 {
            assert(t1[0] == s@[start + 1]);
        }
        assert(!(t1.len() > 0 && t1[0] == ('}' as u8)));
    }
    match parse_members(s, start + 1, Ghost(t.len() as nat)) {
        None => None,
        Some((ps, j)) => {
            let ghost r = s@.skip(j as int);
            if j < s.len() && s[j] == ('}' as u8) {
                assert(r[0] == ('}' as u8));
                assert(r.drop_first() =~= s@.skip(j + 1));
                if j + 1 == s.len() {
                    assert(s@.skip(j + 1).len() == 0);
                    Some(ps)
                } else {
                    assert(s@.skip(j + 1).len() > 0);
                    None
                }
            } else {
                proof {
                    if j < s@.len() {
                        assert(r[0] == s@[j as int]);
                    }
                    assert(!(r.len() > 0 && r[0] == ('}' as u8)));
                }
                None
            }
        },
    }
}

/// Byte-string equality.
pub fn bytes_eq(a: &Vec<u8>, b: &Vec<u8>) -> (r: bool)
    ensures
        r == (a@ == b@),
{
    if a.len() != b.len() {
        proof {
            if a@ == b@ {
                assert(a@.len() == b@.len());
            }
        }
        return false;
    }
    let mut i: usize = 0;
    while i < a.len()
        invariant
            i <= a@.len(),
            a@.len() == b@.len(),
            forall|k: int| 0 <= k < i ==> a@[k] == b@[k],
        decreases a@.len() - i,
    {
        if a[i] != b[i] {
            return false;
        }
        i = i + 1;
    }
    proof {
        assert(a@ =~= b@);
    }
    true
}

/// A fresh copy of a byte string.
pub fn copy_bytes(a: &Vec<u8>) -> (r: Vec<u8>)
    ensures
        r@ == a@,
{
    let mut out: Vec<u8> = Vec::new();
    let mut i: usize = 0;
    while i < a.len()
        invariant
            i <= a@.len(),
            out@ == a@.take(i as int),
        decreases a@.len() - i,
    {
        out.push(a[i]);
        proof {
            assert(a@.take(i + 1) =~= a@.take(i as int).push(a@[i as int]));
        }
        i = i + 1;
    }
    proof {
        assert(a@.take(a@.len() as int) =~= a@);
    }
    out
}

/// The position of the first member named `key`, if any.
pub fn find_field(ps: &Vec<(Vec<u8>, JsonVal)>, key: &Vec<u8>) -> (r: Option<usize>)
    ensures
        match r {
            Some(idx) => idx < ps@.len() && lookup(pairs_view(ps@), key@) == Some(
                ps@[idx as int].1@,
            ),
            None => lookup(pairs_view(ps@), key@) is None,
        },
{
    let ghost all = pairs_view(ps@);
    proof {
        assert(all.skip(0) =~= all);
    }
    let mut i: usize = 0;
    while i < ps.len()
        invariant
            i <= ps@.len(),
            all == pairs_view(ps@),
            lookup(all.skip(i as int), key@) == lookup(all, key@),
        decreases ps@.len() - i,
    {
        let ghost suf = all.skip(i as int);
        assert(all[i as int] == (ps@[i as int].0@, ps@[i as int].1@));
        assert(suf[0] == all[i as int]);
        if bytes_eq(&ps[i].0, key) {
            assert(lookup(suf, key@) == Some(ps@[i as int].1@));
            return Some(i);
        }
        proof {
            assert(suf[0].0 != key@);
            assert(lookup(suf, key@) == lookup(suf.drop_first(), key@));
            assert(suf.drop_first() =~= all.skip(i + 1));
        }
        i = i + 1;
    }
    assert(all.skip(ps@.len() as int).len() == 0);
    None
}

} // verus!
