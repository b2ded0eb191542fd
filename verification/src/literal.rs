//! The textual number formats accepted on the command line.
//!
//! An echo delay is a whole number of samples, written as std's `usize`
//! parser accepts it: an optional `+` followed by decimal digits, whose value
//! fits in a `usize`. Gain factors and filter coefficients are written as
//! std's floating-point parser accepts them; its documented grammar is
//!
//! ```text
//! Float  ::= Sign? ( 'inf' | 'infinity' | 'nan' | Number )
//! Number ::= ( Digit+ | Digit+ '.' Digit* | Digit* '.' Digit+ ) Exp?
//! Exp    ::= 'e' Sign? Digit+
//! Sign   ::= [+-]
//! Digit  ::= [0-9]
//! ```
//!
//! where letters are matched without regard to ASCII case.
use vstd::prelude::*;

verus! {

pub open spec fn is_digit(c: char) -> bool {
    '0' <= c && c <= '9'
}

pub open spec fn is_sign(c: char) -> bool {
    c == '+' || c == '-'
}

/// Every character of `s` is a decimal digit (vacuously true of the empty text).
pub open spec fn all_digits(s: Seq<char>) -> bool {
    forall|i: int| 0 <= i < s.len() ==> is_digit(#[trigger] s[i])
}

pub open spec fn digit_value(c: char) -> nat {
    (c as int - '0' as int) as nat
}

/// The value of a string of decimal digits, most significant first.
pub open spec fn decimal_value(s: Seq<char>) -> nat
    decreases s.len(),
{
    if s.len() == 0 {
        0
    } else {
        decimal_value(s.drop_last()) * 10 + digit_value(s.last())
    }
}

/// The digits of an unsigned integer literal: the text without one leading `+`.
pub open spec fn unsigned_digits(s: Seq<char>) -> Seq<char> {
    if s.len() > 0 && s[0] == '+' {
        s.skip(1)
    } else {
        s
    }
}

/// The value that an unsigned integer literal denotes, or `None` where the
/// text is not one (empty, a lone `+`, or some character that is not a digit).
pub open spec fn unsigned_literal(s: Seq<char>) -> Option<nat> {
    let d = unsigned_digits(s);
    if d.len() > 0 && all_digits(d) {
        Some(decimal_value(d))
    } else {
        None
    }
}

/// The `usize` that the text denotes, or `None` where it denotes none
/// (not a literal, or a value beyond `usize::MAX`).
pub open spec fn usize_literal(s: Seq<char>) -> Option<usize> {
    match unsigned_literal(s) {
        Some(v) => if v <= usize::MAX {
            Some(v as usize)
        } else {
            None
        },
        None => None,
    }
}

/// `c` is the ASCII letter `lower` in either case (`lower` being a lower-case letter).
pub open spec fn same_letter(c: char, lower: char) -> bool {
    c == lower || c as int + 32 == lower as int
}

/// `s` spells `word` (lower-case letters) without regard to ASCII case.
pub open spec fn spells(s: Seq<char>, word: Seq<char>) -> bool {
    &&& s.len() == word.len()
    &&& forall|i: int| 0 <= i < s.len() ==> same_letter(#[trigger] s[i], word[i])
}

pub open spec fn word_inf() -> Seq<char> {
    seq!['i', 'n', 'f']
}

pub open spec fn word_infinity() -> Seq<char> {
    seq!['i', 'n', 'f', 'i', 'n', 'i', 't', 'y']
}

pub open spec fn word_nan() -> Seq<char> {
    seq!['n', 'a', 'n']
}

/// `Digit+ | Digit+ '.' Digit* | Digit* '.' Digit+`
pub open spec fn is_mantissa(s: Seq<char>) -> bool {
    ||| s.len() > 0 && all_digits(s)
    ||| exists|k: int|
        0 <= k < s.len() && #[trigger] s[k] == '.' && s.len() >= 2 && all_digits(s.take(k))
            && all_digits(s.skip(k + 1))
}

/// What follows the exponent marker: `Sign? Digit+`.
pub open spec fn is_exponent(s: Seq<char>) -> bool {
    let d = if s.len() > 0 && is_sign(s[0]) {
        s.skip(1)
    } else {
        s
    };
    d.len() > 0 && all_digits(d)
}

pub open spec fn is_exponent_marker(c: char) -> bool {
    same_letter(c, 'e')
}

/// `Number`: a mantissa, optionally followed by an exponent.
pub open spec fn is_decimal(s: Seq<char>) -> bool {
    ||| is_mantissa(s)
    ||| exists|k: int|
        0 <= k < s.len() && is_exponent_marker(#[trigger] s[k]) && is_mantissa(s.take(k))
            && is_exponent(s.skip(k + 1))
}

/// The text without one leading sign.
pub open spec fn unsigned_part(s: Seq<char>) -> Seq<char> {
    if s.len() > 0 && is_sign(s[0]) {
        s.skip(1)
    } else {
        s
    }
}

/// `s` is a floating-point literal: `Float` of the grammar above.
pub open spec fn is_float_literal(s: Seq<char>) -> bool {
    let body = unsigned_part(s);
    ||| is_decimal(body)
    ||| spells(body, word_inf())
    ||| spells(body, word_infinity())
    ||| spells(body, word_nan())
}

/// The characters of a text, one by one.
pub fn chars_of(s: &str) -> (r: Vec<char>)
    ensures
        r@ == s@,
{
    let n = s.unicode_len();
    let mut r: Vec<char> = Vec::new();
    let mut i: usize = 0;
    while i < n
        invariant
            n == s@.len(),
            i <= n,
            r@ == s@.take(i as int),
        decreases n - i,
    {
        r.push(s.get_char(i));
        i = i + 1;
        assert(r@ =~= s@.take(i as int));
    }
    assert(r@ =~= s@);
    r
}

fn is_digit_char(c: char) -> (b: bool)
    ensures
        b == is_digit(c),
{
    '0' <= c && c <= '9'
}

fn digits_from(cs: &Vec<char>, start: usize, end: usize) -> (b: bool)
    requires
        start <= end <= cs@.len(),
    ensures
        b == all_digits(cs@.subrange(start as int, end as int)),
{
    let mut i = start;
    while i < end
        invariant
            start <= i <= end <= cs@.len(),
            all_digits(cs@.subrange(start as int, i as int)),
        decreases end - i,
    {
        if !is_digit_char(cs[i]) {
            assert(cs@.subrange(start as int, end as int)[i - start] == cs@[i as int]);
            return false;
        }
        i = i + 1;
        assert forall|j: int| 0 <= j < i - start implies is_digit(
            #[trigger] cs@.subrange(start as int, i as int)[j],
        ) by {
            if j < i - 1 - start {
                assert(cs@.subrange(start as int, i - 1)[j] == cs@.subrange(
                    start as int,
                    i as int,
                )[j]);
            }
        }
    }
    true
}

proof fn lemma_decimal_value_push(s: Seq<char>, c: char)
    ensures
        decimal_value(s.push(c)) == decimal_value(s) * 10 + digit_value(c),
{
    assert(s.push(c).drop_last() =~= s);
}

/// A longer string of digits never has a smaller value.
proof fn lemma_decimal_value_prefix(s: Seq<char>, k: int)
    requires
        0 <= k <= s.len(),
    ensures
        decimal_value(s.take(k)) <= decimal_value(s),
    decreases s.len() - k,
{
    if k < s.len() {
        lemma_decimal_value_prefix(s, k + 1);
        assert(s.take(k + 1).drop_last() =~= s.take(k));
    } else {
        assert(s.take(k) =~= s);
    }
}

/// Parses an unsigned integer literal into a `usize`.
pub fn parse_usize(s: &str) -> (r: Option<usize>)
    ensures
        r == usize_literal(s@),
{
    let cs = chars_of(s);
    let n = cs.len();
    let start: usize = if n > 0 && cs[0] == '+' {
        1
    } else {
        0
    };
    let ghost d = unsigned_digits(s@);
    assert(d =~= cs@.subrange(start as int, n as int));
    if start == n {
        return None;
    }
    let mut acc: usize = 0;
    let mut i = start;
    while i < n
        invariant
            start <= i <= n == cs@.len(),
            start < n,
            d == unsigned_digits(s@),
            d == cs@.subrange(start as int, n as int),
            all_digits(d.take(i - start)),
            acc as nat == decimal_value(d.take(i - start)),
        decreases n - i,
    {
        let c = cs[i];
        assert(d[i - start] == c);
        if !is_digit_char(c) {
            return None;
        }
        let v = (c as u32 - '0' as u32) as usize;
        assert(d.take(i - start + 1) =~= d.take(i - start).push(c));
        proof {
            lemma_decimal_value_push(d.take(i - start), c);
        }
        match acc.checked_mul(10) {
            None => {
                proof {
                    lemma_decimal_value_prefix(d, i - start + 1);
                }
                return None;
            },
            Some(m) => match m.checked_add(v) {
                None => {
                    proof {
                        lemma_decimal_value_prefix(d, i - start + 1);
                    }
                    return None;
                },
                Some(next) => {
                    acc = next;
                },
            },
        }
        i = i + 1;
    }
    assert(d.take(n - start) =~= d);
    Some(acc)
}

fn letter_matches(c: char, lower: char) -> (b: bool)
    ensures
        b == same_letter(c, lower),
{
    c == lower || (c as u32) + 32 == (lower as u32)
}

/// Whether `cs[start..]` spells `word` without regard to ASCII case.
fn spells_from(cs: &Vec<char>, start: usize, word: &Vec<char>) -> (b: bool)
    requires
        start <= cs@.len(),
    ensures
        b == spells(cs@.subrange(start as int, cs@.len() as int), word@),
{
    let ghost t = cs@.subrange(start as int, cs@.len() as int);
    if cs.len() - start != word.len() {
        return false;
    }
    let mut i: usize = 0;
    while i < word.len()
        invariant
            t == cs@.subrange(start as int, cs@.len() as int),
            t.len() == word@.len(),
            start + word.len() == cs.len(),
            i <= word@.len(),
            forall|j: int| 0 <= j < i ==> same_letter(#[trigger] t[j], word@[j]),
        decreases word.len() - i,
    {
        assert(t[i as int] == cs@[start + i]);
        if !letter_matches(cs[start + i], word[i]) {
            return false;
        }
        i = i + 1;
    }
    true
}

/// The first index in `start..end` that holds a `.`, or `end`.
fn first_dot(cs: &Vec<char>, start: usize, end: usize) -> (r: usize)
    requires
        start <= end <= cs@.len(),
    ensures
        start <= r <= end,
        forall|j: int| start <= j < r ==> cs@[j] != '.',
        r < end ==> cs@[r as int] == '.',
{
    let mut i = start;
    while i < end
        invariant
            start <= i <= end <= cs@.len(),
            forall|j: int| start <= j < i ==> cs@[j] != '.',
        decreases end - i,
    {
        if cs[i] == '.' {
            return i;
        }
        i = i + 1;
    }
    end
}

/// The first index in `start..end` that holds an `e` or `E`, or `end`.
fn first_exponent_marker(cs: &Vec<char>, start: usize, end: usize) -> (r: usize)
    requires
        start <= end <= cs@.len(),
    ensures
        start <= r <= end,
        forall|j: int| start <= j < r ==> !is_exponent_marker(#[trigger] cs@[j]),
        r < end ==> is_exponent_marker(cs@[r as int]),
{
    let mut i = start;
    while i < end
        invariant
            start <= i <= end <= cs@.len(),
            forall|j: int| start <= j < i ==> !is_exponent_marker(#[trigger] cs@[j]),
        decreases end - i,
    {
        if letter_matches(cs[i], 'e') {
            return i;
        }
        i = i + 1;
    }
    end
}

/// A mantissa is decided at its first decimal point.
proof fn lemma_mantissa_at_point(t: Seq<char>, p: int)
    requires
        0 <= p <= t.len(),
        forall|j: int| 0 <= j < p ==> t[j] != '.',
        p < t.len() ==> t[p] == '.',
    ensures
        is_mantissa(t) == if p == t.len() {
            t.len() > 0 && all_digits(t)
        } else {
            t.len() >= 2 && all_digits(t.take(p)) && all_digits(t.skip(p + 1))
        },
{
    if p == t.len() {
        if exists|k: int|
            0 <= k < t.len() && #[trigger] t[k] == '.' && t.len() >= 2 && all_digits(t.take(k))
                && all_digits(t.skip(k + 1)) {
            let k = choose|k: int|
                0 <= k < t.len() && #[trigger] t[k] == '.' && t.len() >= 2 && all_digits(
                    t.take(k),
                ) && all_digits(t.skip(k + 1));
            assert(t[k] != '.');
        }
    } else {
        assert(!is_digit(t[p]));
        if exists|k: int|
            0 <= k < t.len() && #[trigger] t[k] == '.' && t.len() >= 2 && all_digits(t.take(k))
                && all_digits(t.skip(k + 1)) {
            let k = choose|k: int|
                0 <= k < t.len() && #[trigger] t[k] == '.' && t.len() >= 2 && all_digits(
                    t.take(k),
                ) && all_digits(t.skip(k + 1));
            if k > p {
                assert(t.take(k)[p] == t[p]);
            }
            assert(k == p);
        }
    }
}

/// No character of a mantissa is an exponent marker.
proof fn lemma_mantissa_has_no_marker(t: Seq<char>, i: int)
    requires
        is_mantissa(t),
        0 <= i < t.len(),
    ensures
        !is_exponent_marker(t[i]),
{
    if !(t.len() > 0 && all_digits(t)) {
        let k = choose|k: int|
            0 <= k < t.len() && #[trigger] t[k] == '.' && t.len() >= 2 && all_digits(t.take(k))
                && all_digits(t.skip(k + 1));
        if i < k {
            assert(t.take(k)[i] == t[i]);
        } else if i > k {
            assert(t.skip(k + 1)[i - k - 1] == t[i]);
        }
    }
}

/// A decimal number is decided at its first exponent marker.
proof fn lemma_decimal_at_marker(t: Seq<char>, q: int)
    requires
        0 <= q <= t.len(),
        forall|j: int| 0 <= j < q ==> !is_exponent_marker(#[trigger] t[j]),
        q < t.len() ==> is_exponent_marker(t[q]),
    ensures
        is_decimal(t) == if q == t.len() {
            is_mantissa(t)
        } else {
            is_mantissa(t.take(q)) && is_exponent(t.skip(q + 1))
        },
{
    if exists|k: int|
        0 <= k < t.len() && is_exponent_marker(#[trigger] t[k]) && is_mantissa(t.take(k))
            && is_exponent(t.skip(k + 1)) {
        let k = choose|k: int|
            0 <= k < t.len() && is_exponent_marker(#[trigger] t[k]) && is_mantissa(t.take(k))
                && is_exponent(t.skip(k + 1));
        if q < k {
            lemma_mantissa_has_no_marker(t.take(k), q);
            assert(t.take(k)[q] == t[q]);
        }
        assert(k == q);
    }
    if q < t.len() && is_mantissa(t) {
        lemma_mantissa_has_no_marker(t, q);
    }
}

fn mantissa_between(cs: &Vec<char>, start: usize, end: usize) -> (b: bool)
    requires
        start <= end <= cs@.len(),
    ensures
        b == is_mantissa(cs@.subrange(start as int, end as int)),
{
    let ghost t = cs@.subrange(start as int, end as int);
    let p = first_dot(cs, start, end);
    proof {
        lemma_mantissa_at_point(t, p - start);
    }
    if p == end {
        end > start && digits_from(cs, start, end)
    } else {
        assert(t.take(p - start) =~= cs@.subrange(start as int, p as int));
        assert(t.skip(p - start + 1) =~= cs@.subrange(p + 1, end as int));
        end - start >= 2 && digits_from(cs, start, p) && digits_from(cs, p + 1, end)
    }
}

fn exponent_between(cs: &Vec<char>, start: usize, end: usize) -> (b: bool)
    requires
        start <= end <= cs@.len(),
    ensures
        b == is_exponent(cs@.subrange(start as int, end as int)),
{
    let ghost t = cs@.subrange(start as int, end as int);
    if start < end && (cs[start] == '+' || cs[start] == '-') {
        assert(t.skip(1) =~= cs@.subrange(start + 1, end as int));
        end > start + 1 && digits_from(cs, start + 1, end)
    } else {
        end > start && digits_from(cs, start, end)
    }
}

/// Whether the characters form a floating-point literal.
pub fn float_literal_chars(cs: &Vec<char>) -> (b: bool)
    ensures
        b == is_float_literal(cs@),
{
    let n = cs.len();
    let start: usize = if n > 0 && (cs[0] == '+' || cs[0] == '-') {
        1
    } else {
        0
    };
    let ghost body = unsigned_part(cs@);
    assert(body =~= cs@.subrange(start as int, n as int));
    let inf = vec!['i', 'n', 'f'];
    let infinity = vec!['i', 'n', 'f', 'i', 'n', 'i', 't', 'y'];
    let nan = vec!['n', 'a', 'n'];
    assert(inf@ =~= word_inf());
    assert(infinity@ =~= word_infinity());
    assert(nan@ =~= word_nan());
    let special = spells_from(cs, start, &inf) || spells_from(cs, start, &infinity)
        || spells_from(cs, start, &nan);
    let q = first_exponent_marker(cs, start, n);
    proof {
        lemma_decimal_at_marker(body, q - start);
    }
    let decimal = if q == n {
        mantissa_between(cs, start, n)
    } else {
        assert(body.take(q - start) =~= cs@.subrange(start as int, q as int));
        assert(body.skip(q - start + 1) =~= cs@.subrange(q + 1, n as int));
        mantissa_between(cs, start, q) && exponent_between(cs, q + 1, n)
    };
    decimal || special
}

} // verus!
