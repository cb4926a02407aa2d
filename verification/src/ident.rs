use vstd::prelude::*;
use vstd::string::StrSliceExecFns;

verus! {

/// Why a dataset directory name yields no ordering identifier.
#[derive(Clone, Copy, Debug, PartialEq, Eq, Structural)]
pub enum NameError {
    /// The name holds no `-` separator.
    InvalidNameFormat,
    /// The segment after the first `-` does not begin with a valid integer.
    NumberParseError,
}

pub open spec fn is_ascii_digit(c: char) -> bool {
    '0' <= c && c <= '9'
}

pub open spec fn digit_val(c: char) -> int {
    c as int - '0' as int
}

/// Value of a sequence of ASCII digits, most significant first.
pub open spec fn digits_value(s: Seq<char>) -> int
    decreases s.len(),
{
    if s.len() == 0 {
        0
    } else {
        digits_value(s.drop_last()) * 10 + digit_val(s.last())
    }
}

pub open spec fn all_digits(s: Seq<char>) -> bool {
    forall|i: int| 0 <= i < s.len() ==> is_ascii_digit(s[i])
}

/// Index of the first occurrence of `c` in `s`, or -1 if absent.
pub open spec fn first_occ(s: Seq<char>, c: char) -> int
    decreases s.len(),
{
    if s.len() == 0 {
        -1
    } else if s.first() == c {
        0
    } else {
        let r = first_occ(s.drop_first(), c);
        if r < 0 {
            -1
        } else {
            r + 1
        }
    }
}

pub proof fn lemma_first_occ_props(s: Seq<char>, c: char)
    ensures
        first_occ(s, c) == -1 ==> forall|k: int| 0 <= k < s.len() ==> s[k] != c,
        first_occ(s, c) != -1 ==> {
            &&& 0 <= first_occ(s, c) < s.len()
            &&& s[first_occ(s, c)] == c
            &&& forall|k: int| 0 <= k < first_occ(s, c) ==> s[k] != c
        },
    decreases s.len(),
{
    if s.len() == 0 {
    } else if s.first() == c {
    } else {
        let t = s.drop_first();
        lemma_first_occ_props(t, c);
        assert(forall|k: int| 0 <= k < t.len() ==> t[k] == s[k + 1]);
        let r = first_occ(t, c);
        if r == -1 {
            assert forall|k: int| 0 <= k < s.len() implies s[k] != c by {
                if k > 0 {
                    assert(s[k] == t[k - 1]);
                }
            }
        } else {
            assert(s[r + 1] == t[r]);
            assert forall|k: int| 0 <= k < r + 1 implies s[k] != c by {
                if k > 0 {
                    assert(s[k] == t[k - 1]);
                }
            }
        }
    }
}

pub proof fn lemma_digits_value_nonneg(s: Seq<char>)
    requires
        all_digits(s),
    ensures
        digits_value(s) >= 0,
    decreases s.len(),
{
    if s.len() > 0 {
        assert(all_digits(s.drop_last()));
        lemma_digits_value_nonneg(s.drop_last());
    }
}

pub open spec fn has_sign(s: Seq<char>) -> bool {
    s.len() > 0 && (s[0] == '+' || s[0] == '-')
}

pub open spec fn is_negative(s: Seq<char>) -> bool {
    s.len() > 0 && s[0] == '-'
}

pub open spec fn digits_part(s: Seq<char>) -> Seq<char> {
    if has_sign(s) {
        s.drop_first()
    } else {
        s
    }
}

pub open spec fn signed_value(s: Seq<char>) -> int {
    if is_negative(s) {
        -digits_value(digits_part(s))
    } else {
        digits_value(digits_part(s))
    }
}

/// What `i32::from_str` accepts: an optional sign, then one or more ASCII
/// digits, the signed value within the type's range.
pub open spec fn i32_of_str(s: Seq<char>) -> Option<int> {
    if digits_part(s).len() > 0 && all_digits(digits_part(s)) && -0x8000_0000 <= signed_value(s)
        && signed_value(s) <= 0x7fff_ffff {
        Some(signed_value(s))
    } else {
        None
    }
}

/// The characters of `s`, in order.
pub fn str_to_chars(s: &str) -> (v: Vec<char>)
    ensures
        v@ == s@,
{
    let n = s.unicode_len();
    let mut v: Vec<char> = Vec::new();
    let mut i: usize = 0;
    while i < n
        invariant
            i <= n,
            n == s@.len(),
            v@ == s@.take(i as int),
        decreases n - i,
    {
        let c = s.get_char(i);
        v.push(c);
        assert(s@.take(i + 1 as int) == s@.take(i as int).push(c));
        i += 1;
    }
    assert(s@.take(n as int) == s@);
    v
}

/// Parses the whole character sequence as an `i32`, as `i32::from_str` would.
pub fn parse_i32_chars(v: &Vec<char>) -> (r: Option<i32>)
    ensures
        r is Some <==> i32_of_str(v@) is Some,
        r is Some ==> r->0 as int == i32_of_str(v@)->0,
{
    let ghost s = v@;
    let n = v.len();
    let mut start: usize = 0;
    let mut neg = false;
    if n > 0 && (v[0] == '+' || v[0] == '-') {
        neg = v[0] == '-';
        start = 1;
    }
    let ghost ds = digits_part(s);
    assert(ds =~= s.subrange(start as int, n as int));
    if start == n {
        return None;
    }
    let lim: u64 = 0x8000_0000;
    let mut acc: u64 = 0;
    let mut i: usize = start;
    while i < n
        invariant
            start <= i <= n,
            start < n,
            n == s.len(),
            v@ == s,
            ds == s.subrange(start as int, n as int),
            ds == digits_part(s),
            neg == is_negative(s),
            all_digits(s.subrange(start as int, i as int)),
            acc <= lim + 1,
            lim == 0x8000_0000,
            digits_value(s.subrange(start as int, i as int)) <= lim ==> acc == digits_value(
                s.subrange(start as int, i as int),
            ),
            digits_value(s.subrange(start as int, i as int)) > lim ==> acc == lim + 1,
        decreases n - i,
    {
        let c = v[i];
        if !('0' <= c && c <= '9') {
            proof {
                assert(!is_ascii_digit(c));
                assert(ds[i - start] == c);
                assert(!all_digits(ds));
                assert(i32_of_str(s) is None);
            }
            return None;
        }
        let d: u64 = (c as u32 as u64) - ('0' as u32 as u64);
        let ghost p = s.subrange(start as int, i as int);
        let ghost p2 = s.subrange(start as int, i + 1 as int);
        assert(p2.drop_last() =~= p && p2.last() == c);
        assert(digits_value(p2) == digits_value(p) * 10 + digit_val(c));
        proof {
            lemma_digits_value_nonneg(p);
        }
        if acc <= lim {
            let t = acc * 10 + d;
            acc = if t > lim {
                lim + 1
            } else {
                t
            };
        }
        i += 1;
    }
    assert(s.subrange(start as int, n as int) =~= ds);
    proof {
        lemma_digits_value_nonneg(ds);
    }
    if neg {
        if acc > lim {
            return None;
        }
        let m: i64 = 0i64 - (acc as i64);
        Some(m as i32)
    } else {
        if acc >= lim {
            return None;
        }
        Some(acc as i32)
    }
}

/// The identifier, or the error, that a dataset directory name yields: the
/// segment after the first `-`, truncated at its first `_`, read as an
/// integer.
pub open spec fn ident_result(name: Seq<char>) -> Result<int, NameError> {
    let d = first_occ(name, '-');
    if d < 0 {
        Err(NameError::InvalidNameFormat)
    } else {
        let seg = name.subrange(d + 1, name.len() as int);
        let u = first_occ(seg, '_');
        let head = if u < 0 {
            seg
        } else {
            seg.subrange(0, u)
        };
        match i32_of_str(head) {
            Some(v) => Ok(v),
            None => Err(NameError::NumberParseError),
        }
    }
}

/// Position of the first `c` in `v`, if any.
pub fn find_char(v: &Vec<char>, c: char) -> (r: Option<usize>)
    ensures
        r is Some ==> first_occ(v@, c) == r->0 as int && r->0 < v@.len(),
        r is None ==> first_occ(v@, c) == -1,
{
    proof {
        lemma_first_occ_props(v@, c);
    }
    let mut i: usize = 0;
    while i < v.len()
        invariant
            i <= v@.len(),
            forall|k: int| 0 <= k < i ==> v@[k] != c,
        decreases v@.len() - i,
    {
        if v[i] == c {
            proof {
                lemma_first_occ_props(v@, c);
                if first_occ(v@, c) != i as int {
                    assert(false);
                }
            }
            return Some(i);
        }
        i += 1;
    }
    proof {
        lemma_first_occ_props(v@, c);
    }
    None
}

/// Copies `v[from..to]`.
pub fn sub_chars(v: &Vec<char>, from: usize, to: usize) -> (r: Vec<char>)
    requires
        from <= to <= v@.len(),
    ensures
        r@ == v@.subrange(from as int, to as int),
{
    let mut r: Vec<char> = Vec::new();
    let mut i: usize = from;
    while i < to
        invariant
            from <= i <= to <= v@.len(),
            r@ == v@.subrange(from as int, i as int),
        decreases to - i,
    {
        let c = v[i];
        r.push(c);
        assert(v@.subrange(from as int, i + 1 as int) =~= v@.subrange(from as int, i as int).push(
            c,
        ));
        i += 1;
    }
    r
}

/// Where a witness index is known, it is the first occurrence.
pub proof fn lemma_first_occ_at(s: Seq<char>, c: char, j: int)
    requires
        0 <= j < s.len(),
        s[j] == c,
        forall|k: int| 0 <= k < j ==> s[k] != c,
    ensures
        first_occ(s, c) == j,
{
    lemma_first_occ_props(s, c);
    let f = first_occ(s, c);
    if f == -1 {
        assert(s[j] != c);
    } else if f < j {
        assert(s[f] != c);
    } else if f > j {
        assert(s[j] != c);
    }
}

/// An ASCII digit is neither a separator nor a sign character.
pub proof fn lemma_digit_not_special(c: char)
    requires
        is_ascii_digit(c),
    ensures
        c != '-' && c != '_' && c != '+',
{
}

/// A name of the form `<label>-<digits>`, with `<label>` free of `-` and
/// `<digits>` one or more ASCII digits of value within `i32` range, yields
/// exactly the value of `<digits>`.
pub proof fn lemma_ident_plain_numeric(label: Seq<char>, digits: Seq<char>)
    requires
        forall|k: int| 0 <= k < label.len() ==> label[k] != '-',
        digits.len() > 0,
        all_digits(digits),
        digits_value(digits) <= 0x7fff_ffff,
    ensures
        ident_result(label + seq!['-'] + digits) == Ok::<int, NameError>(digits_value(digits)),
{
    let name = label + seq!['-'] + digits;
    let ll = label.len() as int;
    assert(name[ll] == '-');
    assert forall|k: int| 0 <= k < ll implies name[k] != '-' by {
        assert(name[k] == label[k]);
    }
    lemma_first_occ_at(name, '-', ll);
    let seg = name.subrange(ll + 1, name.len() as int);
    assert(seg =~= digits);
    lemma_first_occ_props(seg, '_');
    let u = first_occ(seg, '_');
    if u != -1 {
        lemma_digit_not_special(seg[u]);
    }
    assert(!has_sign(digits)) by {
        lemma_digit_not_special(digits[0]);
    }
    lemma_digits_value_nonneg(digits);
}

/// A name of the form `<label>-<digits>_<suffix>` yields the value of
/// `<digits>`, the suffix ignored.
pub proof fn lemma_ident_suffixed(label: Seq<char>, digits: Seq<char>, suffix: Seq<char>)
    requires
        forall|k: int| 0 <= k < label.len() ==> label[k] != '-',
        digits.len() > 0,
        all_digits(digits),
        digits_value(digits) <= 0x7fff_ffff,
    ensures
        ident_result(label + seq!['-'] + digits + seq!['_'] + suffix) == Ok::<int, NameError>(
            digits_value(digits),
        ),
{
    let name = label + seq!['-'] + digits + seq!['_'] + suffix;
    let ll = label.len() as int;
    let dl = digits.len() as int;
    assert(name[ll] == '-');
    assert forall|k: int| 0 <= k < ll implies name[k] != '-' by {
        assert(name[k] == label[k]);
    }
    lemma_first_occ_at(name, '-', ll);
    let seg = name.subrange(ll + 1, name.len() as int);
    assert(seg =~= digits + seq!['_'] + suffix);
    assert(seg[dl] == '_');
    assert forall|k: int| 0 <= k < dl implies seg[k] != '_' by {
        assert(seg[k] == digits[k]);
        lemma_digit_not_special(digits[k]);
    }
    lemma_first_occ_at(seg, '_', dl);
    assert(seg.subrange(0, dl) =~= digits);
    assert(!has_sign(digits)) by {
        lemma_digit_not_special(digits[0]);
    }
    lemma_digits_value_nonneg(digits);
}

/// A name without a `-` separator yields `InvalidNameFormat`.
pub proof fn lemma_ident_no_separator(name: Seq<char>)
    requires
        forall|k: int| 0 <= k < name.len() ==> name[k] != '-',
    ensures
        ident_result(name) == Err::<int, NameError>(NameError::InvalidNameFormat),
{
    lemma_first_occ_props(name, '-');
    let f = first_occ(name, '-');
    if f != -1 {
        assert(name[f] != '-');
    }
}

/// Extracts the numeric ordering identifier out of a dataset directory name
/// of the `<label>-<number>[_<suffix>]` convention.
pub fn extract_dataset_number(dataset_name: &str) -> (r: Result<i32, NameError>)
    ensures
        r is Ok <==> ident_result(dataset_name@) is Ok,
        r is Ok ==> r->Ok_0 as int == ident_result(dataset_name@)->Ok_0,
        r is Err ==> r->Err_0 == ident_result(dataset_name@)->Err_0,
{
    let chars = str_to_chars(dataset_name);
    let dash = match find_char(&chars, '-') {
        Some(d) => d,
        None => {
            return Err(NameError::InvalidNameFormat);
        },
    };
    let n = chars.len();
    let seg = sub_chars(&chars, dash + 1, n);
    let head = match find_char(&seg, '_') {
        Some(u) => sub_chars(&seg, 0, u),
        None => seg,
    };
    match parse_i32_chars(&head) {
        Some(v) => Ok(v),
        None => Err(NameError::NumberParseError),
    }
}

} // verus!
