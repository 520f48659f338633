//! Numbers as text: the integer syntax accepted by `str::parse` for
//! `usize`, `u16` and `i64`, decimal formatting of integers, and the syntax
//! of floating-point literals that `str::parse::<f64>` accepts.
use vstd::prelude::*;

use crate::text::{chars_of, digit_value, is_digit, is_digit_char, push_char, trim, trim_bounds};

verus! {

// ---------------------------------------------------------------------------
// Integer syntax
// ---------------------------------------------------------------------------

pub open spec fn all_digits(s: Seq<char>) -> bool {
    forall|i: int| 0 <= i < s.len() ==> is_digit(#[trigger] s[i])
}

/// The value of a string of decimal digits (most significant first).
pub open spec fn digits_value(s: Seq<char>) -> nat
    decreases s.len(),
{
    if s.len() == 0 {
        0
    } else {
        (digits_value(s.drop_last()) * 10 + digit_value(s.last())) as nat
    }
}

/// Value of `'+'? digit+`, the unsigned integer syntax.
pub open spec fn unsigned_value(t: Seq<char>) -> Option<nat> {
    let body = if t.len() > 0 && t[0] == '+' {
        t.drop_first()
    } else {
        t
    };
    if body.len() > 0 && all_digits(body) {
        Some(digits_value(body))
    } else {
        None
    }
}

/// Value of `('+' | '-')? digit+`, the signed integer syntax.
pub open spec fn signed_value(t: Seq<char>) -> Option<int> {
    if t.len() > 0 && t[0] == '-' {
        let body = t.drop_first();
        if body.len() > 0 && all_digits(body) {
            Some(-digits_value(body))
        } else {
            None
        }
    } else {
        match unsigned_value(t) {
            Some(v) => Some(v as int),
            None => None,
        }
    }
}

/// Whether `t` is the text of an unsigned integer no larger than `max`.
pub open spec fn unsigned_in_range(t: Seq<char>, max: int) -> bool {
    unsigned_value(t) is Some && unsigned_value(t).unwrap() <= max
}

/// Whether `t` is the text of a signed integer in `[min, max]`.
pub open spec fn signed_in_range(t: Seq<char>, min: int, max: int) -> bool {
    signed_value(t) is Some && min <= signed_value(t).unwrap() <= max
}

pub proof fn lemma_digits_value_prefix(s: Seq<char>, k: int)
    requires
        0 <= k <= s.len(),
        all_digits(s),
    ensures
        digits_value(s.take(k)) <= digits_value(s),
    decreases s.len(),
{
    if k < s.len() {
        assert(all_digits(s.drop_last())) by {
            assert forall|i: int| 0 <= i < s.drop_last().len() implies is_digit(
                #[trigger] s.drop_last()[i],
            ) by {
                assert(s.drop_last()[i] == s[i]);
            }
        }
        lemma_digits_value_prefix(s.drop_last(), k);
        assert(s.drop_last().take(k) =~= s.take(k));
    } else {
        assert(s.take(k) =~= s);
    }
}

/// The value of the digits `chars[from..to]`, when it fits in a `u64`.
fn digits_to_u64(chars: &Vec<char>, from: usize, to: usize) -> (r: Option<u64>)
    requires
        from <= to <= chars.len(),
        all_digits(chars@.subrange(from as int, to as int)),
    ensures
        r is Some <==> digits_value(chars@.subrange(from as int, to as int)) <= u64::MAX,
        r is Some ==> r.unwrap() == digits_value(chars@.subrange(from as int, to as int)),
{
    let ghost s = chars@.subrange(from as int, to as int);
    let mut v: u64 = 0;
    let mut i = from;
    assert(chars@.subrange(from as int, from as int) =~= Seq::<char>::empty());
    while i < to
        invariant
            from <= i <= to <= chars.len(),
            s == chars@.subrange(from as int, to as int),
            all_digits(s),
            v == digits_value(chars@.subrange(from as int, i as int)),
        decreases to - i,
    {
        let c = chars[i];
        assert(is_digit(s[i - from]));
        let d = (c as u32 - '0' as u32) as u64;
        let w: u128 = v as u128 * 10 + d as u128;
        let ghost next = chars@.subrange(from as int, i + 1);
        assert(next.drop_last() =~= chars@.subrange(from as int, i as int));
        assert(digits_value(next) == w);
        if w > u64::MAX as u128 {
            proof {
                assert(s.take(i + 1 - from) =~= next);
                lemma_digits_value_prefix(s, i + 1 - from);
            }
            return None;
        }
        v = w as u64;
        i += 1;
    }
    Some(v)
}

/// Whether `chars[from..to]` is a non-empty run of digits.
fn is_digit_run(chars: &Vec<char>, from: usize, to: usize) -> (b: bool)
    requires
        from <= to <= chars.len(),
    ensures
        b == (to > from && all_digits(chars@.subrange(from as int, to as int))),
{
    if from == to {
        return false;
    }
    let mut i = from;
    while i < to
        invariant
            from <= i <= to <= chars.len(),
            forall|k: int| from <= k < i ==> is_digit(chars@[k]),
        decreases to - i,
    {
        if !is_digit_char(chars[i]) {
            assert(!is_digit(chars@.subrange(from as int, to as int)[i - from]));
            return false;
        }
        i += 1;
    }
    assert forall|k: int| 0 <= k < to - from implies is_digit(
        #[trigger] chars@.subrange(from as int, to as int)[k],
    ) by {
        assert(chars@.subrange(from as int, to as int)[k] == chars@[from + k]);
    }
    true
}

/// The value of `chars[from..to]` read as an unsigned integer, when it fits in a `u64`.
fn unsigned_of_range(chars: &Vec<char>, from: usize, to: usize) -> (r: Option<u64>)
    requires
        from <= to <= chars.len(),
    ensures
        r is Some <==> unsigned_in_range(chars@.subrange(from as int, to as int), u64::MAX as int),
        r is Some ==> r.unwrap() == unsigned_value(chars@.subrange(from as int, to as int)).unwrap(),
{
    let ghost t = chars@.subrange(from as int, to as int);
    let start = if from < to && chars[from] == '+' {
        from + 1
    } else {
        from
    };
    assert(if t.len() > 0 && t[0] == '+' {
        t.drop_first()
    } else {
        t
    } =~= chars@.subrange(start as int, to as int));
    if is_digit_run(chars, start, to) {
        digits_to_u64(chars, start, to)
    } else {
        None
    }
}

/// The value of `chars[from..to]` read as a signed integer, when it is an `i64`.
fn signed_of_range(chars: &Vec<char>, from: usize, to: usize) -> (r: Option<i64>)
    requires
        from <= to <= chars.len(),
    ensures
        r is Some <==> signed_in_range(
            chars@.subrange(from as int, to as int),
            i64::MIN as int,
            i64::MAX as int,
        ),
        r is Some ==> r.unwrap() == signed_value(chars@.subrange(from as int, to as int)).unwrap(),
{
    let ghost t = chars@.subrange(from as int, to as int);
    if from < to && chars[from] == '-' {
        assert(t.drop_first() =~= chars@.subrange(from + 1, to as int));
        if !is_digit_run(chars, from + 1, to) {
            return None;
        }
        match digits_to_u64(chars, from + 1, to) {
            Some(m) => {
                if m <= 9223372036854775807u64 {
                    Some(-(m as i64))
                } else if m == 9223372036854775808u64 {
                    Some(i64::MIN)
                } else {
                    None
                }
            },
            None => None,
        }
    } else {
        match unsigned_of_range(chars, from, to) {
            Some(m) => {
                if m <= 9223372036854775807u64 {
                    Some(m as i64)
                } else {
                    None
                }
            },
            None => None,
        }
    }
}

/// The value of `trim(s)` read as an unsigned integer, when it fits in a `u64`.
pub fn parse_unsigned(s: &str) -> (r: Option<u64>)
    ensures
        r is Some <==> unsigned_in_range(trim(s@), u64::MAX as int),
        r is Some ==> r.unwrap() == unsigned_value(trim(s@)).unwrap(),
{
    let chars = chars_of(s);
    let (a, b) = trim_bounds(&chars, 0, chars.len());
    assert(chars@.subrange(0, chars@.len() as int) =~= chars@);
    unsigned_of_range(&chars, a, b)
}

/// The value of `s` (as it is, no whitespace allowed) read as an unsigned
/// integer, when it fits in a `u64`.
pub fn parse_unsigned_exact(s: &str) -> (r: Option<u64>)
    ensures
        r is Some <==> unsigned_in_range(s@, u64::MAX as int),
        r is Some ==> r.unwrap() == unsigned_value(s@).unwrap(),
{
    let chars = chars_of(s);
    assert(chars@.subrange(0, chars@.len() as int) =~= chars@);
    unsigned_of_range(&chars, 0, chars.len())
}

/// The value of `trim(s)` read as a signed integer, when it is an `i64`.
pub fn parse_signed(s: &str) -> (r: Option<i64>)
    ensures
        r is Some <==> signed_in_range(trim(s@), i64::MIN as int, i64::MAX as int),
        r is Some ==> r.unwrap() == signed_value(trim(s@)).unwrap(),
{
    let chars = chars_of(s);
    let (a, b) = trim_bounds(&chars, 0, chars.len());
    assert(chars@.subrange(0, chars@.len() as int) =~= chars@);
    signed_of_range(&chars, a, b)
}

// ---------------------------------------------------------------------------
// Integer formatting
// ---------------------------------------------------------------------------

pub open spec fn digit_char(d: nat) -> char {
    (d + '0' as nat) as char
}

/// Decimal text of a natural number, without leading zeros.
pub open spec fn nat_text(n: nat) -> Seq<char>
    decreases n,
{
    if n < 10 {
        seq![digit_char(n)]
    } else {
        nat_text(n / 10).push(digit_char(n % 10))
    }
}

/// Decimal text of an integer, with a leading `-` when negative (`{}`).
pub open spec fn int_text(i: int) -> Seq<char> {
    if i < 0 {
        seq!['-'] + nat_text((-i) as nat)
    } else {
        nat_text(i as nat)
    }
}

/// Appends the decimal text of `n`.
pub fn push_u64(s: &mut String, n: u64)
    ensures
        final(s)@ == old(s)@ + nat_text(n as nat),
    decreases n,
{
    if n >= 10 {
        push_u64(s, n / 10);
    }
    let d = (n % 10) as u8;
    let c = (48u8 + d) as char;
    proof {
        assert(c == digit_char((n % 10) as nat));
    }
    push_char(s, c);
    assert(nat_text(n as nat) == (if n < 10 { seq![digit_char(n as nat)] } else {
        nat_text((n / 10) as nat).push(digit_char((n % 10) as nat))
    }));
    proof {
        if n < 10 {
            assert(n % 10 == n);
        }
    }
    assert(s@ =~= old(s)@ + nat_text(n as nat));
}

/// Appends the decimal text of `x`.
pub fn push_i64(s: &mut String, x: i64)
    ensures
        final(s)@ == old(s)@ + int_text(x as int),
{
    if x < 0 {
        push_char(s, '-');
        let m: u64 = if x == i64::MIN {
            9223372036854775808u64
        } else {
            (-x) as u64
        };
        push_u64(s, m);
        assert(s@ =~= old(s)@ + int_text(x as int));
    } else {
        push_u64(s, x as u64);
    }
}

/// Appends the decimal text of `n`.
pub fn push_usize(s: &mut String, n: usize)
    ensures
        final(s)@ == old(s)@ + nat_text(n as nat),
{
    push_u64(s, n as u64);
}

// ---------------------------------------------------------------------------
// Floating-point literal syntax
// ---------------------------------------------------------------------------

/// Length of the run of digits at the start of `s`.
pub open spec fn digit_run_len(s: Seq<char>) -> nat
    decreases s.len(),
{
    if s.len() > 0 && is_digit(s[0]) {
        1 + digit_run_len(s.drop_first())
    } else {
        0
    }
}

/// ASCII lower case of a character.
pub open spec fn ascii_lower(c: char) -> char {
    if 'A' <= c && c <= 'Z' {
        ((c as int) + 32) as char
    } else {
        c
    }
}

/// Whether `s` equals `w` when both are lowercased.
pub open spec fn eq_ignore_case(s: Seq<char>, w: Seq<char>) -> bool {
    s.len() == w.len() && forall|i: int| 0 <= i < s.len() ==> ascii_lower(#[trigger] s[i]) == ascii_lower(w[i])
}

/// `('e' | 'E') ('+' | '-')? digit+`
pub open spec fn is_exponent(r: Seq<char>) -> bool {
    &&& r.len() > 0
    &&& (r[0] == 'e' || r[0] == 'E')
    &&& {
        let r3 = r.drop_first();
        let r4 = if r3.len() > 0 && (r3[0] == '+' || r3[0] == '-') {
            r3.drop_first()
        } else {
            r3
        };
        r4.len() > 0 && all_digits(r4)
    }
}

/// `(digit+ | digit+ '.' digit* | digit* '.' digit+) exponent?`
pub open spec fn is_decimal(b: Seq<char>) -> bool {
    let n1 = digit_run_len(b);
    let r1 = b.skip(n1 as int);
    if r1.len() > 0 && r1[0] == '.' {
        let r2 = r1.drop_first();
        let n2 = digit_run_len(r2);
        let r3 = r2.skip(n2 as int);
        n1 + n2 > 0 && (r3.len() == 0 || is_exponent(r3))
    } else {
        n1 > 0 && (r1.len() == 0 || is_exponent(r1))
    }
}

/// The syntax that `str::parse::<f64>` accepts (case-insensitively for
/// the words and the exponent mark): a sign, then `inf`, `infinity`,
/// `nan` or a decimal number.
pub open spec fn is_float_literal(t: Seq<char>) -> bool {
    let b = if t.len() > 0 && (t[0] == '+' || t[0] == '-') {
        t.drop_first()
    } else {
        t
    };
    ||| eq_ignore_case(b, seq!['i', 'n', 'f'])
    ||| eq_ignore_case(b, seq!['i', 'n', 'f', 'i', 'n', 'i', 't', 'y'])
    ||| eq_ignore_case(b, seq!['n', 'a', 'n'])
    ||| is_decimal(b)
}

pub proof fn lemma_digit_run_len(s: Seq<char>, k: int)
    requires
        0 <= k <= s.len(),
        forall|i: int| 0 <= i < k ==> is_digit(s[i]),
        k == s.len() || !is_digit(s[k]),
    ensures
        digit_run_len(s) == k,
    decreases k,
{
    if k > 0 {
        lemma_digit_run_len(s.drop_first(), k - 1);
    }
}

/// End of the run of digits that starts at `from` (bounded by `to`).
fn digit_run_end(chars: &Vec<char>, from: usize, to: usize) -> (p: usize)
    requires
        from <= to <= chars.len(),
    ensures
        from <= p <= to,
        p - from == digit_run_len(chars@.subrange(from as int, to as int)),
        all_digits(chars@.subrange(from as int, p as int)),
{
    let mut p = from;
    while p < to && is_digit_char(chars[p])
        invariant
            from <= p <= to <= chars.len(),
            forall|k: int| from <= k < p ==> is_digit(chars@[k]),
        decreases to - p,
    {
        p += 1;
    }
    proof {
        let t = chars@.subrange(from as int, to as int);
        assert forall|k: int| 0 <= k < p - from implies is_digit(t[k]) by {
            assert(t[k] == chars@[from + k]);
        }
        lemma_digit_run_len(t, p - from);
        assert forall|k: int| 0 <= k < p - from implies is_digit(
            #[trigger] chars@.subrange(from as int, p as int)[k],
        ) by {
            assert(chars@.subrange(from as int, p as int)[k] == chars@[from + k]);
        }
    }
    p
}

fn lower_char(c: char) -> (l: char)
    ensures
        l == ascii_lower(c),
{
    if 'A' <= c && c <= 'Z' {
        ((c as u8) + 32) as char
    } else {
        c
    }
}

/// Whether `chars[from..to]` equals `w` ignoring ASCII case.
fn range_eq_ignore_case(chars: &Vec<char>, from: usize, to: usize, w: &Vec<char>) -> (b: bool)
    requires
        from <= to <= chars.len(),
    ensures
        b == eq_ignore_case(chars@.subrange(from as int, to as int), w@),
{
    let ghost s = chars@.subrange(from as int, to as int);
    if to - from != w.len() {
        return false;
    }
    let mut i: usize = 0;
    while i < w.len()
        invariant
            from <= to <= chars.len(),
            s == chars@.subrange(from as int, to as int),
            to - from == w.len(),
            i <= w.len(),
            forall|k: int| 0 <= k < i ==> ascii_lower(#[trigger] s[k]) == ascii_lower(w@[k]),
        decreases w.len() - i,
    {
        if lower_char(chars[from + i]) != lower_char(w[i]) {
            assert(s[i as int] == chars@[from + i]);
            return false;
        }
        assert(s[i as int] == chars@[from + i]);
        i += 1;
    }
    true
}

/// Whether two strings are equal ignoring ASCII case (`eq_ignore_ascii_case`).
pub fn text_eq_ignore_case(a: &str, b: &str) -> (r: bool)
    ensures
        r == eq_ignore_case(a@, b@),
{
    let ac = chars_of(a);
    let bc = chars_of(b);
    assert(ac@.subrange(0, ac@.len() as int) =~= ac@);
    range_eq_ignore_case(&ac, 0, ac.len(), &bc)
}

/// Whether `chars[from..to]` is an exponent part.
fn is_exponent_range(chars: &Vec<char>, from: usize, to: usize) -> (b: bool)
    requires
        from <= to <= chars.len(),
    ensures
        b == is_exponent(chars@.subrange(from as int, to as int)),
{
    let ghost r = chars@.subrange(from as int, to as int);
    if from == to || !(chars[from] == 'e' || chars[from] == 'E') {
        return false;
    }
    let s3 = from + 1;
    assert(r.drop_first() =~= chars@.subrange(s3 as int, to as int));
    let s4 = if s3 < to && (chars[s3] == '+' || chars[s3] == '-') {
        s3 + 1
    } else {
        s3
    };
    proof {
        if s3 < to {
            assert(chars@.subrange(s3 as int, to as int).drop_first() =~= chars@.subrange(
                s3 + 1,
                to as int,
            ));
        }
    }
    is_digit_run(chars, s4, to)
}

/// Whether `chars[from..to]` is a decimal number.
fn is_decimal_range(chars: &Vec<char>, from: usize, to: usize) -> (b: bool)
    requires
        from <= to <= chars.len(),
    ensures
        b == is_decimal(chars@.subrange(from as int, to as int)),
{
    let ghost bs = chars@.subrange(from as int, to as int);
    let p1 = digit_run_end(chars, from, to);
    let ghost n1 = p1 - from;
    assert(bs.skip(n1) =~= chars@.subrange(p1 as int, to as int));
    if p1 < to && chars[p1] == '.' {
        let q = p1 + 1;
        assert(chars@.subrange(p1 as int, to as int).drop_first() =~= chars@.subrange(q as int, to as int));
        let p2 = digit_run_end(chars, q, to);
        assert(chars@.subrange(q as int, to as int).skip(p2 - q) =~= chars@.subrange(p2 as int, to as int));
        (p1 > from || p2 > q) && (p2 == to || is_exponent_range(chars, p2, to))
    } else {
        p1 > from && (p1 == to || is_exponent_range(chars, p1, to))
    }
}

/// Whether `chars[from..to]` is a floating-point literal.
fn is_float_literal_range(chars: &Vec<char>, from: usize, to: usize) -> (b: bool)
    requires
        from <= to <= chars.len(),
    ensures
        b == is_float_literal(chars@.subrange(from as int, to as int)),
{
    let ghost t = chars@.subrange(from as int, to as int);
    let start = if from < to && (chars[from] == '+' || chars[from] == '-') {
        from + 1
    } else {
        from
    };
    proof {
        if from < to {
            assert(t.drop_first() =~= chars@.subrange(from + 1, to as int));
        }
    }
    let inf = vec!['i', 'n', 'f'];
    let infinity = vec!['i', 'n', 'f', 'i', 'n', 'i', 't', 'y'];
    let nan = vec!['n', 'a', 'n'];
    assert(inf@ =~= seq!['i', 'n', 'f']);
    assert(infinity@ =~= seq!['i', 'n', 'f', 'i', 'n', 'i', 't', 'y']);
    assert(nan@ =~= seq!['n', 'a', 'n']);
    range_eq_ignore_case(chars, start, to, &inf) || range_eq_ignore_case(
        chars,
        start,
        to,
        &infinity,
    ) || range_eq_ignore_case(chars, start, to, &nan) || is_decimal_range(chars, start, to)
}

/// Whether `trim(s)` is a floating-point literal (so `str::parse::<f64>` accepts `s`).
pub fn is_float_text(s: &str) -> (b: bool)
    ensures
        b == is_float_literal(trim(s@)),
{
    let chars = chars_of(s);
    let (a, b) = trim_bounds(&chars, 0, chars.len());
    assert(chars@.subrange(0, chars@.len() as int) =~= chars@);
    is_float_literal_range(&chars, a, b)
}

// ---------------------------------------------------------------------------
// Reading back what was written
// ---------------------------------------------------------------------------

pub proof fn lemma_nat_text(n: nat)
    ensures
        nat_text(n).len() > 0,
        all_digits(nat_text(n)),
        digits_value(nat_text(n)) == n,
    decreases n,
{
    if n >= 10 {
        lemma_nat_text(n / 10);
        let t = nat_text(n / 10);
        let u = t.push(digit_char(n % 10));
        assert(u.drop_last() =~= t);
        assert(digit_value(digit_char(n % 10)) == n % 10);
        assert(digits_value(u) == digits_value(t) * 10 + n % 10);
        assert((n / 10) * 10 + n % 10 == n);
        assert forall|i: int| 0 <= i < u.len() implies is_digit(#[trigger] u[i]) by {
            if i < t.len() {
                assert(u[i] == t[i]);
            }
        }
    } else {
        let u = nat_text(n);
        assert(digit_value(digit_char(n)) == n);
        assert(u.drop_last() =~= Seq::<char>::empty());
        assert(digits_value(u.drop_last()) == 0);
        assert(u.last() == digit_char(n));
        assert(digits_value(u) == n);
        assert(is_digit(u[0]));
    }
}

/// The text of a natural number reads back as that number.
pub proof fn lemma_unsigned_value_nat_text(n: nat)
    ensures
        unsigned_value(nat_text(n)) == Some(n),
{
    lemma_nat_text(n);
    assert(is_digit(nat_text(n)[0]));
}

/// The text of an integer reads back as that integer.
pub proof fn lemma_signed_value_int_text(x: int)
    ensures
        signed_value(int_text(x)) == Some(x),
{
    if x < 0 {
        let n = (-x) as nat;
        lemma_nat_text(n);
        let t = int_text(x);
        assert(t.drop_first() =~= nat_text(n));
    } else {
        lemma_unsigned_value_nat_text(x as nat);
        lemma_nat_text(x as nat);
        assert(is_digit(nat_text(x as nat)[0]));
    }
}

/// A character that may appear in a number's text.
pub open spec fn number_char(c: char) -> bool {
    is_digit(c) || c == '+' || c == '-' || c == '.' || ('a' <= c && c <= 'z') || ('A' <= c
        && c <= 'Z')
}

pub open spec fn number_chars(t: Seq<char>) -> bool {
    forall|i: int| 0 <= i < t.len() ==> number_char(#[trigger] t[i])
}

pub proof fn lemma_int_text_chars(x: int)
    ensures
        int_text(x).len() > 0,
        number_chars(int_text(x)),
{
    if x < 0 {
        lemma_nat_text((-x) as nat);
        let t = int_text(x);
        assert forall|i: int| 0 <= i < t.len() implies number_char(#[trigger] t[i]) by {
            if i > 0 {
                assert(t[i] == nat_text((-x) as nat)[i - 1]);
            }
        }
    } else {
        lemma_nat_text(x as nat);
    }
}

pub proof fn lemma_digit_run_prefix(s: Seq<char>)
    ensures
        digit_run_len(s) <= s.len(),
        forall|i: int| 0 <= i < digit_run_len(s) ==> is_digit(#[trigger] s[i]),
    decreases s.len(),
{
    if s.len() > 0 && is_digit(s[0]) {
        lemma_digit_run_prefix(s.drop_first());
        assert forall|i: int| 0 <= i < digit_run_len(s) implies is_digit(#[trigger] s[i]) by {
            if i > 0 {
                assert(s[i] == s.drop_first()[i - 1]);
            }
        }
    }
}

proof fn lemma_exponent_chars(r: Seq<char>)
    requires
        is_exponent(r),
    ensures
        number_chars(r),
{
    let r3 = r.drop_first();
    assert forall|i: int| 0 <= i < r.len() implies number_char(#[trigger] r[i]) by {
        if i >= 2 {
            if r3.len() > 0 && (r3[0] == '+' || r3[0] == '-') {
                assert(r[i] == r3.drop_first()[i - 2]);
            } else {
                assert(r[i] == r3[i - 1]);
            }
        } else if i == 1 {
            if !(r3[0] == '+' || r3[0] == '-') {
                assert(r[i] == r3[0]);
            }
        }
    }
}

proof fn lemma_decimal_chars(b: Seq<char>)
    requires
        is_decimal(b),
    ensures
        b.len() > 0,
        number_chars(b),
{
    let n1 = digit_run_len(b);
    lemma_digit_run_prefix(b);
    let r1 = b.skip(n1 as int);
    if r1.len() > 0 && r1[0] == '.' {
        let r2 = r1.drop_first();
        let n2 = digit_run_len(r2);
        lemma_digit_run_prefix(r2);
        let r3 = r2.skip(n2 as int);
        if r3.len() > 0 {
            lemma_exponent_chars(r3);
        }
        assert forall|i: int| 0 <= i < b.len() implies number_char(#[trigger] b[i]) by {
            if i < n1 {
            } else if i == n1 {
                assert(b[i] == r1[0]);
            } else if i < n1 + 1 + n2 {
                assert(b[i] == r2[i - n1 - 1]);
            } else {
                assert(b[i] == r3[i - n1 - 1 - n2]);
            }
        }
    } else {
        if r1.len() > 0 {
            lemma_exponent_chars(r1);
        }
        assert forall|i: int| 0 <= i < b.len() implies number_char(#[trigger] b[i]) by {
            if i >= n1 {
                assert(b[i] == r1[i - n1]);
            }
        }
    }
}

proof fn lemma_word_chars(b: Seq<char>, w: Seq<char>)
    requires
        eq_ignore_case(b, w),
        forall|i: int| 0 <= i < w.len() ==> 'a' <= #[trigger] w[i] && w[i] <= 'z',
    ensures
        number_chars(b),
{
    assert forall|i: int| 0 <= i < b.len() implies number_char(#[trigger] b[i]) by {
        assert(ascii_lower(b[i]) == ascii_lower(w[i]));
        assert('a' <= w[i] && w[i] <= 'z');
    }
}

/// A floating-point literal is made of digits, signs, points and letters only.
pub proof fn lemma_float_literal_chars(t: Seq<char>)
    requires
        is_float_literal(t),
    ensures
        t.len() > 0,
        number_chars(t),
{
    let signed = t.len() > 0 && (t[0] == '+' || t[0] == '-');
    let b = if signed {
        t.drop_first()
    } else {
        t
    };
    let w1 = seq!['i', 'n', 'f'];
    let w2 = seq!['i', 'n', 'f', 'i', 'n', 'i', 't', 'y'];
    let w3 = seq!['n', 'a', 'n'];
    if eq_ignore_case(b, w1) {
        lemma_word_chars(b, w1);
    } else if eq_ignore_case(b, w2) {
        lemma_word_chars(b, w2);
    } else if eq_ignore_case(b, w3) {
        lemma_word_chars(b, w3);
    } else {
        lemma_decimal_chars(b);
    }
    assert forall|i: int| 0 <= i < t.len() implies number_char(#[trigger] t[i]) by {
        if signed && i > 0 {
            assert(t[i] == b[i - 1]);
        }
    }
}

} // verus!
