use vstd::prelude::*;
use crate::ident::{
    has_sign,
    all_digits, digit_val, digits_part, digits_value, first_occ, is_ascii_digit, is_negative,
    lemma_digits_value_nonneg, signed_value, sub_chars, find_char,
};

verus! {

/// A signed decimal number: `(-1)^neg * mantissa * 10^exp`. Metric values
/// are carried exactly in this form; unit conversions only move `exp`.
pub struct Decimal {
    pub neg: bool,
    pub mantissa: u128,
    pub exp: i32,
}

/// The mathematical content of a `Decimal`.
pub ghost struct DecVal {
    pub neg: bool,
    pub mant: int,
    pub exp: int,
}

impl View for Decimal {
    type V = DecVal;

    open spec fn view(&self) -> DecVal {
        DecVal { neg: self.neg, mant: self.mantissa as int, exp: self.exp as int }
    }
}

/// Index of the first exponent marker (`e` or `E`), or -1.
pub open spec fn first_exp(s: Seq<char>) -> int {
    let a = first_occ(s, 'e');
    let b = first_occ(s, 'E');
    if a < 0 {
        b
    } else if b < 0 {
        a
    } else if a <= b {
        a
    } else {
        b
    }
}

pub open spec fn mant_int_part(m: Seq<char>) -> Seq<char> {
    let d = first_occ(m, '.');
    if d < 0 {
        m
    } else {
        m.take(d)
    }
}

pub open spec fn mant_frac_part(m: Seq<char>) -> Seq<char> {
    let d = first_occ(m, '.');
    if d < 0 {
        Seq::empty()
    } else {
        m.skip(d + 1)
    }
}

pub open spec fn exp_valid(x: Seq<char>) -> bool {
    digits_part(x).len() > 0 && all_digits(digits_part(x))
}

/// What this library reads as a decimal number: an optional sign, digits
/// with an optional point, and an optional signed exponent — the grammar
/// of a floating-point literal, infinities and NaN left aside. The mantissa
/// must fit the mantissa type and the exponent the adopted range.
pub open spec fn dec_of_str(s: Seq<char>) -> Option<DecVal> {
    let b = digits_part(s);
    let e = first_exp(b);
    let m = if e < 0 {
        b
    } else {
        b.take(e)
    };
    let ip = mant_int_part(m);
    let fp = mant_frac_part(m);
    if !(all_digits(ip) && all_digits(fp)) {
        None
    } else if ip.len() == 0 && fp.len() == 0 {
        None
    } else if e >= 0 && !exp_valid(b.skip(e + 1)) {
        None
    } else {
        let mant = digits_value(ip + fp);
        let ev = if e < 0 {
            0
        } else {
            signed_value(b.skip(e + 1))
        };
        let ex = ev - fp.len();
        if mant >= 0x1_0000_0000_0000_0000_0000_0000_0000_0000 {
            None
        } else if ev > 2000000000 || ev < -2000000000 {
            None
        } else if fp.len() > 1000000000 {
            None
        } else if ex < -1000000000 || ex > 1000000000 {
            None
        } else {
            Some(DecVal { neg: is_negative(s), mant, exp: ex })
        }
    }
}

/// A parsed decimal: mantissa in range, exponent in the adopted range.
pub open spec fn dec_wf(d: DecVal) -> bool {
    &&& 0 <= d.mant < 0x1_0000_0000_0000_0000_0000_0000_0000_0000
    &&& -1000000000 <= d.exp <= 1000000000
}

pub proof fn lemma_dec_of_str_wf(s: Seq<char>)
    requires
        dec_of_str(s) is Some,
    ensures
        dec_wf(dec_of_str(s)->0),
{
    let b = digits_part(s);
    let e = first_exp(b);
    let m = if e < 0 {
        b
    } else {
        b.take(e)
    };
    lemma_digits_value_nonneg(mant_int_part(m) + mant_frac_part(m));
}

/// A digit appended multiplies the value by ten and adds itself; the value
/// of a digit prefix never exceeds the whole.
pub proof fn lemma_digits_value_take_mono(s: Seq<char>, k: int)
    requires
        all_digits(s),
        0 <= k <= s.len(),
    ensures
        digits_value(s.take(k)) <= digits_value(s),
    decreases s.len() - k,
{
    if k == s.len() {
        assert(s.take(k) =~= s);
    } else {
        let p = s.take(k);
        let q = s.take(k + 1);
        assert(q.drop_last() =~= p);
        assert(all_digits(p));
        lemma_digits_value_nonneg(p);
        assert(digits_value(q) == digits_value(p) * 10 + digit_val(s[k]));
        lemma_digits_value_take_mono(s, k + 1);
    }
}

/// Whether every character is an ASCII digit.
pub fn all_digits_exec(v: &Vec<char>) -> (r: bool)
    ensures
        r == all_digits(v@),
{
    let n = v.len();
    let mut i: usize = 0;
    while i < n
        invariant
            i <= n,
            n == v@.len(),
            forall|k: int| 0 <= k < i ==> is_ascii_digit(v@[k]),
        decreases n - i,
    {
        let c = v[i];
        if !('0' <= c && c <= '9') {
            assert(!is_ascii_digit(v@[i as int]));
            return false;
        }
        i += 1;
    }
    true
}

/// The value of a digit string, where it fits the mantissa type.
fn digits_to_u128(v: &Vec<char>) -> (r: Option<u128>)
    requires
        all_digits(v@),
    ensures
        r is Some ==> r->0 as int == digits_value(v@),
        r is None ==> digits_value(v@) >= 0x1_0000_0000_0000_0000_0000_0000_0000_0000,
{
    let n = v.len();
    let mut acc: u128 = 0;
    let mut i: usize = 0;
    while i < n
        invariant
            i <= n,
            n == v@.len(),
            all_digits(v@),
            acc as int == digits_value(v@.take(i as int)),
        decreases n - i,
    {
        let c = v[i];
        assert(is_ascii_digit(c));
        let d: u128 = (c as u32 as u128) - ('0' as u32 as u128);
        let ghost p = v@.take(i as int);
        let ghost q = v@.take(i + 1 as int);
        assert(q.drop_last() =~= p && q.last() == c);
        proof {
            lemma_digits_value_nonneg(p);
        }
        if acc > (u128::MAX - d) / 10 {
            proof {
                assert(digits_value(q) == digits_value(p) * 10 + digit_val(c));
                assert(digits_value(q) >= 0x1_0000_0000_0000_0000_0000_0000_0000_0000) by {
                    assert(acc as int * 10 + digit_val(c) > u128::MAX as int);
                }
                lemma_digits_value_take_mono(v@, i + 1);
            }
            return None;
        }
        acc = acc * 10 + d;
        i += 1;
    }
    assert(v@.take(n as int) =~= v@);
    Some(acc)
}

/// The value of a digit string, where it does not exceed the adopted
/// exponent bound.
fn digits_to_exp(v: &Vec<char>) -> (r: Option<u64>)
    requires
        all_digits(v@),
    ensures
        r is Some ==> r->0 as int == digits_value(v@) && digits_value(v@) <= 2000000000,
        r is None ==> digits_value(v@) > 2000000000,
{
    let n = v.len();
    let mut acc: u64 = 0;
    let mut i: usize = 0;
    while i < n
        invariant
            i <= n,
            n == v@.len(),
            all_digits(v@),
            acc <= 2000000000,
            acc as int == digits_value(v@.take(i as int)),
        decreases n - i,
    {
        let c = v[i];
        assert(is_ascii_digit(c));
        let d: u64 = (c as u32 as u64) - ('0' as u32 as u64);
        let ghost p = v@.take(i as int);
        let ghost q = v@.take(i + 1 as int);
        assert(q.drop_last() =~= p && q.last() == c);
        proof {
            lemma_digits_value_nonneg(p);
        }
        let t = acc * 10 + d;
        if t > 2000000000 {
            proof {
                assert(digits_value(q) > 2000000000);
                lemma_digits_value_take_mono(v@, i + 1);
            }
            return None;
        }
        acc = t;
        i += 1;
    }
    assert(v@.take(n as int) =~= v@);
    Some(acc)
}

/// Reads a signed exponent written after the exponent marker at `p`.
fn parse_exp_part(body: &Vec<char>, p: usize) -> (r: Option<(u64, bool)>)
    requires
        p < body@.len(),
    ensures
        r is Some <==> exp_valid(body@.skip(p + 1)) && digits_value(
            digits_part(body@.skip(p + 1)),
        ) <= 2000000000,
        r is Some ==> (r->0).0 as int == digits_value(digits_part(body@.skip(p + 1)))
            && (r->0).1 == is_negative(body@.skip(p + 1)),
{
    let ghost xs = body@.skip(p + 1 as int);
    let n = body.len();
    let x = sub_chars(body, p + 1, n);
    assert(x@ =~= xs);
    let xn = x.len();
    let mut xstart: usize = 0;
    let mut eneg = false;
    if xn > 0 && (x[0] == '+' || x[0] == '-') {
        eneg = x[0] == '-';
        xstart = 1;
    }
    let xd = sub_chars(&x, xstart, xn);
    proof {
        assert(xd@ =~= digits_part(xs));
        assert(eneg == is_negative(xs));
    }
    if xd.len() == 0 {
        return None;
    }
    if !all_digits_exec(&xd) {
        return None;
    }
    match digits_to_exp(&xd) {
        Some(u) => Some((u, eneg)),
        None => None,
    }
}

/// Reads a decimal number out of a character sequence.
#[verifier::rlimit(100)]
pub fn parse_decimal_chars(v: &Vec<char>) -> (r: Option<Decimal>)
    ensures
        r is Some <==> dec_of_str(v@) is Some,
        r is Some ==> r->0@ == dec_of_str(v@)->0,
{
    let ghost s = v@;
    let n = v.len();
    let mut start: usize = 0;
    let mut neg = false;
    if n > 0 && (v[0] == '+' || v[0] == '-') {
        neg = v[0] == '-';
        start = 1;
    }
    let body = sub_chars(v, start, n);
    let ghost b = body@;
    proof {
        assert(b =~= digits_part(s));
        assert(neg == is_negative(s));
    }
    // split off the exponent part
    let ea = find_char(&body, 'e');
    let eb = find_char(&body, 'E');
    let epos: Option<usize> = match (ea, eb) {
        (None, None) => None,
        (Some(a), None) => Some(a),
        (None, Some(bb)) => Some(bb),
        (Some(a), Some(bb)) => if a <= bb {
            Some(a)
        } else {
            Some(bb)
        },
    };
    let ghost e = first_exp(b);
    proof {
        match epos {
            Some(p) => assert(e == p as int),
            None => assert(e < 0),
        }
    }
    let m_to = match epos {
        Some(p) => p,
        None => body.len(),
    };
    let mvec = sub_chars(&body, 0, m_to);
    let ghost m = if e < 0 {
        b
    } else {
        b.take(e)
    };
    proof {
        assert(mvec@ =~= m);
    }
    // split the mantissa at the decimal point
    let (ip, fp): (Vec<char>, Vec<char>) = match find_char(&mvec, '.') {
        Some(d) => (sub_chars(&mvec, 0, d), sub_chars(&mvec, d + 1, mvec.len())),
        None => (mvec, Vec::new()),
    };
    proof {
        assert(ip@ =~= mant_int_part(m));
        assert(fp@ =~= mant_frac_part(m));
    }
    if !all_digits_exec(&ip) {
        return None;
    }
    if !all_digits_exec(&fp) {
        return None;
    }
    if ip.len() == 0 && fp.len() == 0 {
        return None;
    }
    // the whole digit string, point removed
    let ghost ip0 = ip@;
    let mut digits = ip;
    append_chars(&mut digits, &fp);
    assert(digits@ == ip0 + fp@);
    assert(all_digits(digits@));
    let mant = match digits_to_u128(&digits) {
        Some(x) => x,
        None => {
            return None;
        },
    };
    // the exponent
    let mut ev: u64 = 0;
    let mut eneg = false;
    match epos {
        Some(p) => {
            let ghost xs = b.skip(e + 1);
            match parse_exp_part(&body, p) {
                Some(pair) => {
                    ev = pair.0;
                    eneg = pair.1;
                },
                None => {
                    proof {
                        if exp_valid(xs) {
                            lemma_digits_value_nonneg(digits_part(xs));
                        }
                    }
                    return None;
                },
            }
        },
        None => {
        },
    }
    let ghost spec_ev = if e < 0 {
        0int
    } else {
        signed_value(b.skip(e + 1))
    };
    let ev_i64: i64 = if eneg {
        0i64 - (ev as i64)
    } else {
        ev as i64
    };
    assert(ev_i64 as int == spec_ev);
    if fp.len() > 1000000000 {
        return None;
    }
    let ex: i64 = ev_i64 - (fp.len() as i64);
    if ex < -1000000000 || ex > 1000000000 {
        return None;
    }
    Some(Decimal { neg, mantissa: mant, exp: ex as i32 })
}

pub open spec fn digit_char(d: int) -> char {
    if d == 0 {
        '0'
    } else if d == 1 {
        '1'
    } else if d == 2 {
        '2'
    } else if d == 3 {
        '3'
    } else if d == 4 {
        '4'
    } else if d == 5 {
        '5'
    } else if d == 6 {
        '6'
    } else if d == 7 {
        '7'
    } else if d == 8 {
        '8'
    } else {
        '9'
    }
}

/// The decimal digits of a nonnegative integer, most significant first.
pub open spec fn digits_of(n: int) -> Seq<char>
    decreases n,
{
    if n < 10 {
        seq![digit_char(n)]
    } else {
        digits_of(n / 10).push(digit_char(n % 10))
    }
}

pub open spec fn zeros(k: int) -> Seq<char> {
    Seq::new(k as nat, |i: int| '0')
}

/// The written form of a decimal: the mantissa's digits with the point (or
/// trailing zeros) placed by the exponent, a leading `-` on a negative
/// nonzero value.
pub open spec fn dec_chars(d: DecVal) -> Seq<char> {
    let ds = digits_of(d.mant);
    let body = if d.exp >= 0 {
        ds + zeros(d.exp)
    } else if ds.len() > -d.exp {
        ds.take(ds.len() - (-d.exp)) + seq!['.'] + ds.skip(ds.len() - (-d.exp))
    } else {
        seq!['0', '.'] + zeros(-d.exp - ds.len()) + ds
    };
    if d.neg && d.mant != 0 {
        seq!['-'] + body
    } else {
        body
    }
}

fn push_digit_char(out: &mut Vec<char>, d: u128)
    requires
        d <= 9,
    ensures
        final(out)@ == old(out)@.push(digit_char(d as int)),
{
    let c: char = if d == 0 {
        '0'
    } else if d == 1 {
        '1'
    } else if d == 2 {
        '2'
    } else if d == 3 {
        '3'
    } else if d == 4 {
        '4'
    } else if d == 5 {
        '5'
    } else if d == 6 {
        '6'
    } else if d == 7 {
        '7'
    } else if d == 8 {
        '8'
    } else {
        '9'
    };
    out.push(c);
}

fn push_digits(n: u128, out: &mut Vec<char>)
    ensures
        final(out)@ == old(out)@ + digits_of(n as int),
    decreases n,
{
    if n < 10 {
        push_digit_char(out, n);
        assert(old(out)@.push(digit_char(n as int)) =~= old(out)@ + digits_of(n as int));
    } else {
        push_digits(n / 10, out);
        push_digit_char(out, n % 10);
        assert(old(out)@ + digits_of(n as int / 10) + seq![digit_char(n as int % 10)] =~= old(
            out,
        )@ + digits_of(n as int));
    }
}

fn push_zeros(out: &mut Vec<char>, k: usize)
    ensures
        final(out)@ == old(out)@ + zeros(k as int),
{
    let mut i: usize = 0;
    while i < k
        invariant
            i <= k,
            out@ == old(out)@ + zeros(i as int),
        decreases k - i,
    {
        out.push('0');
        assert(old(out)@ + zeros(i + 1 as int) =~= (old(out)@ + zeros(i as int)).push('0'));
        i += 1;
    }
}

fn append_chars(dst: &mut Vec<char>, src: &Vec<char>)
    ensures
        final(dst)@ == old(dst)@ + src@,
{
    let n = src.len();
    let mut i: usize = 0;
    while i < n
        invariant
            i <= n,
            n == src@.len(),
            dst@ == old(dst)@ + src@.take(i as int),
        decreases n - i,
    {
        let c = src[i];
        dst.push(c);
        assert(old(dst)@ + src@.take(i + 1 as int) =~= (old(dst)@ + src@.take(i as int)).push(c));
        i += 1;
    }
    assert(old(dst)@ + src@.take(n as int) =~= old(dst)@ + src@);
}

/// Relies on String::from_iter over characters: the string holds exactly
/// the characters given, in order.
#[verifier::external_body]
pub fn chars_to_string(v: &Vec<char>) -> (r: String)
    ensures
        r@ == v@,
{
    v.iter().collect()
}

/// Writes the decimal out as characters.
pub fn dec_to_chars(d: &Decimal) -> (r: Vec<char>)
    ensures
        r@ == dec_chars(d@),
{
    let mut ds: Vec<char> = Vec::new();
    push_digits(d.mantissa, &mut ds);
    assert(ds@ == digits_of(d@.mant));
    let mut body: Vec<char>;
    if d.exp >= 0 {
        body = ds;
        push_zeros(&mut body, d.exp as usize);
    } else {
        let k64: i64 = 0i64 - (d.exp as i64);
        let k: usize = k64 as usize;
        assert(k as int == -d@.exp);
        if ds.len() > k {
            let cut = ds.len() - k;
            body = crate::ident::sub_chars(&ds, 0, cut);
            body.push('.');
            let tail = crate::ident::sub_chars(&ds, cut, ds.len());
            append_chars(&mut body, &tail);
            proof {
                let dsg = digits_of(d@.mant);
                assert(dsg.take(dsg.len() - (-d@.exp)) + seq!['.'] + dsg.skip(
                    dsg.len() - (-d@.exp),
                ) =~= dsg.subrange(0, cut as int).push('.') + dsg.subrange(
                    cut as int,
                    dsg.len() as int,
                ));
            }
        } else {
            body = Vec::new();
            body.push('0');
            body.push('.');
            push_zeros(&mut body, k - ds.len());
            append_chars(&mut body, &ds);
            proof {
                let dsg = digits_of(d@.mant);
                assert(seq!['0', '.'] + zeros(-d@.exp - dsg.len()) + dsg =~= Seq::empty().push(
                    '0',
                ).push('.') + zeros(k - ds@.len()) + dsg);
            }
        }
    }
    if d.neg && d.mantissa != 0 {
        let mut r: Vec<char> = Vec::new();
        r.push('-');
        append_chars(&mut r, &body);
        assert(seq!['-'] + dec_chars(d@).skip(1) =~= Seq::empty().push('-') + body@);
        assert(r@ =~= dec_chars(d@));
        r
    } else {
        body
    }
}

pub proof fn lemma_digit_char_val(m: int)
    requires
        0 <= m <= 9,
    ensures
        digit_val(digit_char(m)) == m,
        is_ascii_digit(digit_char(m)),
{
}

pub proof fn lemma_digits_of_digits(n: int)
    requires
        n >= 0,
    ensures
        all_digits(digits_of(n)),
        digits_of(n).len() >= 1,
        digits_value(digits_of(n)) == n,
    decreases n,
{
    lemma_digit_char_val(if n < 10 { n } else { n % 10 });
    if n < 10 {
        assert(digits_of(n) == seq![digit_char(n)]);
        assert(digits_of(n).drop_last() =~= Seq::<char>::empty());
        assert(digits_value(Seq::<char>::empty()) == 0);
        assert(seq![digit_char(n)].last() == digit_char(n));
        assert(digits_value(digits_of(n)) == digit_val(digit_char(n)));
    } else {
        lemma_digits_of_digits(n / 10);
        let s = digits_of(n / 10).push(digit_char(n % 10));
        assert(s.drop_last() =~= digits_of(n / 10));
        assert forall|i: int| 0 <= i < s.len() implies is_ascii_digit(s[i]) by {
            if i < s.len() - 1 {
                assert(s[i] == digits_of(n / 10)[i]);
            }
        }
    }
}

/// Leading zeros do not change a digit string's value.
pub proof fn lemma_zeros_prefix_value(k: int, s: Seq<char>)
    requires
        k >= 0,
    ensures
        digits_value(zeros(k) + s) == digits_value(s),
    decreases s.len(),
{
    if s.len() == 0 {
        assert(zeros(k) + s =~= zeros(k));
        lemma_zeros_value(k);
    } else {
        assert((zeros(k) + s).drop_last() =~= zeros(k) + s.drop_last());
        assert((zeros(k) + s).last() == s.last());
        lemma_zeros_prefix_value(k, s.drop_last());
    }
}

pub proof fn lemma_zeros_value(k: int)
    requires
        k >= 0,
    ensures
        digits_value(zeros(k)) == 0,
        all_digits(zeros(k)),
    decreases k,
{
    if k > 0 {
        assert(zeros(k).drop_last() =~= zeros(k - 1));
        assert(zeros(k).last() == '0');
        lemma_zeros_value(k - 1);
    }
}

/// A decimal written without a positive exponent — plain digits, or digits
/// around a point — reads back as itself. (A negative zero is written
/// without its sign, so its flag is not read back; it is left aside.)
#[verifier::rlimit(100)]
pub proof fn lemma_dec_chars_read_back(d: DecVal)
    requires
        dec_wf(d),
        d.exp <= 0,
        d.neg ==> d.mant > 0,
    ensures
        dec_of_str(dec_chars(d)) == Some(d),
{
    let ds = digits_of(d.mant);
    lemma_digits_of_digits(d.mant);
    let k = -d.exp;
    let body = if d.exp >= 0 {
        ds + zeros(d.exp)
    } else if ds.len() > k {
        ds.take(ds.len() - k) + seq!['.'] + ds.skip(ds.len() - k)
    } else {
        seq!['0', '.'] + zeros(k - ds.len()) + ds
    };
    let name = dec_chars(d);
    // the sign strips back off
    if d.neg && d.mant != 0 {
        assert(name == seq!['-'] + body);
        assert(name[0] == '-');
        assert(digits_part(name) =~= body);
        assert(is_negative(name));
    } else {
        assert(name == body);
        if d.exp == 0 {
            assert(body[0] == ds[0]);
            assert(is_ascii_digit(body[0]));
        } else if ds.len() > k {
            assert(body[0] == ds.take(ds.len() - k)[0]);
            assert(body[0] == ds[0]);
            assert(is_ascii_digit(body[0]));
        } else {
            assert(body[0] == '0');
        }
        assert(body[0] != '+' && body[0] != '-');
        assert(!has_sign(name) && !is_negative(name));
        assert(digits_part(name) == body);
    }
    // the body holds no exponent marker
    assert forall|i: int| 0 <= i < body.len() implies body[i] != 'e' && body[i] != 'E' by {
        lemma_body_chars(d, i);
    }
    crate::ident::lemma_first_occ_props(body, 'e');
    crate::ident::lemma_first_occ_props(body, 'E');
    if first_occ(body, 'e') != -1 {
        assert(body[first_occ(body, 'e')] == 'e');
    }
    if first_occ(body, 'E') != -1 {
        assert(body[first_occ(body, 'E')] == 'E');
    }
    assert(first_exp(body) < 0);
    // the mantissa splits back into its parts
    if d.exp == 0 {
        assert(body =~= ds);
        crate::ident::lemma_first_occ_props(ds, '.');
        if first_occ(ds, '.') != -1 {
            assert(is_ascii_digit(ds[first_occ(ds, '.')]));
        }
        assert(mant_int_part(body) == ds && mant_frac_part(body) == Seq::<char>::empty());
        assert(mant_int_part(body) + mant_frac_part(body) =~= ds);
        lemma_digits_value_nonneg(ds);
    } else if ds.len() > k {
        let cut = ds.len() - k;
        assert forall|i: int| 0 <= i < cut implies body[i] != '.' by {
            assert(body[i] == ds.take(cut)[i]);
            assert(is_ascii_digit(ds[i]));
        }
        assert(body[cut] == '.');
        crate::ident::lemma_first_occ_at(body, '.', cut);
        assert(mant_int_part(body) =~= ds.take(cut));
        assert(mant_frac_part(body) =~= ds.skip(cut));
        assert(mant_int_part(body) + mant_frac_part(body) =~= ds);
        assert(all_digits(mant_int_part(body)) && all_digits(mant_frac_part(body)));
        assert(mant_frac_part(body).len() == k);
    } else {
        assert(body[0] == '0' && body[1] == '.');
        crate::ident::lemma_first_occ_at(body, '.', 1);
        assert(mant_int_part(body) =~= seq!['0']);
        assert(mant_frac_part(body) =~= zeros(k - ds.len()) + ds);
        lemma_zeros_value(k - ds.len());
        assert(all_digits(mant_int_part(body)));
        assert(all_digits(mant_frac_part(body)));
        assert(mant_int_part(body) + mant_frac_part(body) =~= zeros(1 + k - ds.len()) + ds) by {
            assert(seq!['0'] + zeros(k - ds.len()) =~= zeros(1 + k - ds.len()));
        }
        lemma_zeros_prefix_value(1 + k - ds.len(), ds);
        assert(mant_frac_part(body).len() == k);
    }
}

proof fn lemma_body_chars(d: DecVal, i: int)
    requires
        dec_wf(d),
        d.exp <= 0,
        0 <= i < ({
            let ds = digits_of(d.mant);
            let k = -d.exp;
            if d.exp >= 0 {
                ds + zeros(d.exp)
            } else if ds.len() > k {
                ds.take(ds.len() - k) + seq!['.'] + ds.skip(ds.len() - k)
            } else {
                seq!['0', '.'] + zeros(k - ds.len()) + ds
            }
        }).len(),
    ensures
        ({
            let ds = digits_of(d.mant);
            let k = -d.exp;
            let body = if d.exp >= 0 {
                ds
            } else if ds.len() > k {
                ds.take(ds.len() - k) + seq!['.'] + ds.skip(ds.len() - k)
            } else {
                seq!['0', '.'] + zeros(k - ds.len()) + ds
            };
            is_ascii_digit(body[i]) || body[i] == '.'
        }),
{
    let ds = digits_of(d.mant);
    lemma_digits_of_digits(d.mant);
    let k = -d.exp;
    if d.exp >= 0 {
        let body = ds + zeros(d.exp);
        assert(body =~= ds);
    } else if ds.len() > k {
        let cut = ds.len() - k;
        let body = ds.take(cut) + seq!['.'] + ds.skip(cut);
        if i < cut {
            assert(body[i] == ds.take(cut)[i]);
        } else if i > cut {
            assert(body[i] == ds.skip(cut)[i - cut - 1]);
        }
    } else {
        let body = seq!['0', '.'] + zeros(k - ds.len()) + ds;
        lemma_zeros_value(k - ds.len());
        if 2 <= i < 2 + k - ds.len() {
            assert(body[i] == zeros(k - ds.len())[i - 2]);
        } else if i >= 2 + k - ds.len() {
            assert(body[i] == ds[i - 2 - (k - ds.len())]);
        }
    }
}

/// The same number with the exponent moved by `k`: multiplication or
/// division by a power of ten, carried out exactly.
pub open spec fn dec_scaled(d: DecVal, k: int) -> DecVal {
    DecVal { neg: d.neg, mant: d.mant, exp: d.exp + k }
}

/// Moves the exponent by `k` places.
pub fn scale_decimal(d: Decimal, k: i32) -> (r: Decimal)
    requires
        -9 <= k <= 9,
        -1000000000 <= d@.exp <= 1000000000,
    ensures
        r@ == dec_scaled(d@, k as int),
{
    Decimal { neg: d.neg, mantissa: d.mantissa, exp: d.exp + k }
}

} // verus!
