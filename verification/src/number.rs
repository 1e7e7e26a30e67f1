//! Numeric literals.
//!
//! A literal is kept as the text that denotes it. The grammar below is the
//! grammar of decimal floating-point literals:
//!
//! ```text
//! Literal ::= Sign? ( 'inf' | 'infinity' | 'nan' | Decimal )
//! Decimal ::= ( Digit+ | Digit+ '.' Digit* | Digit* '.' Digit+ ) Exp?
//! Exp     ::= 'e' Sign? Digit+
//! Sign    ::= [+-]
//! Digit   ::= [0-9]
//! ```
//!
//! Letters are matched without regard to case.

use vstd::prelude::*;

verus! {

/// A decimal digit.
pub open spec fn is_digit(c: char) -> bool {
    '0' <= c <= '9'
}

/// A plus or a minus sign.
pub open spec fn is_sign(c: char) -> bool {
    c == '+' || c == '-'
}

/// Every character of `s` is a decimal digit. Holds of the empty text.
pub open spec fn all_digits(s: Seq<char>) -> bool {
    forall|i: int| 0 <= i < s.len() ==> is_digit(#[trigger] s[i])
}

/// `c` is a letter, given in lower and in upper case.
pub open spec fn is_letter(c: char, lower: char, upper: char) -> bool {
    c == lower || c == upper
}

/// `Digit+ | Digit+ '.' Digit* | Digit* '.' Digit+`
pub open spec fn is_mantissa(s: Seq<char>) -> bool {
    ||| s.len() > 0 && all_digits(s)
    ||| exists|dot: int| dot_splits(s, dot)
}

/// `'e' Sign? Digit+`
pub open spec fn is_exponent(s: Seq<char>) -> bool {
    &&& s.len() >= 2
    &&& is_letter(s[0], 'e', 'E')
    &&& if is_sign(s[1]) {
        s.len() > 2 && all_digits(s.skip(2))
    } else {
        all_digits(s.skip(1))
    }
}

/// A mantissa, then perhaps an exponent.
pub open spec fn is_decimal(s: Seq<char>) -> bool {
    exists|k: int|
        0 <= k <= s.len() && is_mantissa(#[trigger] s.take(k)) && (k == s.len() || is_exponent(
            s.skip(k),
        ))
}

/// `nan`, in any mix of cases.
pub open spec fn is_nan(s: Seq<char>) -> bool {
    &&& s.len() == 3
    &&& is_letter(s[0], 'n', 'N')
    &&& is_letter(s[1], 'a', 'A')
    &&& is_letter(s[2], 'n', 'N')
}

/// `inf`, in any mix of cases.
pub open spec fn is_inf(s: Seq<char>) -> bool {
    &&& s.len() == 3
    &&& is_letter(s[0], 'i', 'I')
    &&& is_letter(s[1], 'n', 'N')
    &&& is_letter(s[2], 'f', 'F')
}

/// `infinity`, in any mix of cases.
pub open spec fn is_infinity(s: Seq<char>) -> bool {
    &&& s.len() == 8
    &&& is_inf(s.take(3))
    &&& is_letter(s[3], 'i', 'I')
    &&& is_letter(s[4], 'n', 'N')
    &&& is_letter(s[5], 'i', 'I')
    &&& is_letter(s[6], 't', 'T')
    &&& is_letter(s[7], 'y', 'Y')
}

/// `inf`, `infinity` or `nan`, in any mix of cases.
pub open spec fn is_special(s: Seq<char>) -> bool {
    is_nan(s) || is_inf(s) || is_infinity(s)
}

/// The text that follows an optional sign.
pub open spec fn unsigned_part(s: Seq<char>) -> Seq<char> {
    if s.len() > 0 && is_sign(s[0]) {
        s.skip(1)
    } else {
        s
    }
}

/// `s` is a numeric literal.
pub open spec fn is_number_literal(s: Seq<char>) -> bool {
    is_special(unsigned_part(s)) || is_decimal(unsigned_part(s))
}

/// Where the digits that start at `from` end.
fn scan_digits(text: &str, len: usize, from: usize) -> (end: usize)
    requires
        len == text@.len(),
        from <= len,
    ensures
        from <= end <= len,
        forall|k: int| from <= k < end ==> is_digit(#[trigger] text@[k]),
        end == len || !is_digit(text@[end as int]),
{
    let mut i: usize = from;
    while i < len
        invariant
            len == text@.len(),
            from <= i <= len,
            forall|k: int| from <= k < i ==> is_digit(#[trigger] text@[k]),
        decreases len - i,
    {
        let c = text.get_char(i);
        if !('0' <= c && c <= '9') {
            return i;
        }
        i += 1;
    }
    i
}

/// The character at `i` is `lower` or `upper`.
fn letter_at(text: &str, i: usize, lower: char, upper: char) -> (b: bool)
    requires
        i < text@.len(),
    ensures
        b == is_letter(text@[i as int], lower, upper),
{
    let c = text.get_char(i);
    c == lower || c == upper
}

/// The text from `from` on is `inf`, `infinity` or `nan`.
fn special_at(text: &str, len: usize, from: usize) -> (b: bool)
    requires
        len == text@.len(),
        from <= len,
    ensures
        b == is_special(text@.skip(from as int)),
{
    let rest = len - from;
    if rest == 3 {
        (letter_at(text, from, 'n', 'N') && letter_at(text, from + 1, 'a', 'A') && letter_at(
            text,
            from + 2,
            'n',
            'N',
        )) || (letter_at(text, from, 'i', 'I') && letter_at(text, from + 1, 'n', 'N') && letter_at(
            text,
            from + 2,
            'f',
            'F',
        ))
    } else if rest == 8 {
        letter_at(text, from, 'i', 'I') && letter_at(text, from + 1, 'n', 'N') && letter_at(
            text,
            from + 2,
            'f',
            'F',
        ) && letter_at(text, from + 3, 'i', 'I') && letter_at(text, from + 4, 'n', 'N')
            && letter_at(text, from + 5, 'i', 'I') && letter_at(text, from + 6, 't', 'T')
            && letter_at(text, from + 7, 'y', 'Y')
    } else {
        false
    }
}

/// The text from `from` on is an exponent.
fn exponent_at(text: &str, len: usize, from: usize) -> (b: bool)
    requires
        len == text@.len(),
        from <= len,
    ensures
        b == is_exponent(text@.skip(from as int)),
{
    let ghost e = text@.skip(from as int);
    if len - from < 2 {
        return false;
    }
    if !letter_at(text, from, 'e', 'E') {
        return false;
    }
    let c = text.get_char(from + 1);
    let start = if c == '+' || c == '-' {
        from + 2
    } else {
        from + 1
    };
    let end = scan_digits(text, len, start);
    proof {
        let digits = text@.skip(start as int);
        assert(digits =~= e.skip(start - from));
        if end == len {
            assert(all_digits(digits));
        } else {
            assert(digits[end - start] == text@[end as int]);
        }
    }
    end == len && start < len
}

/// The digits of `t` before `dot` and after it, and the dot between them,
/// are all of `t`.
pub open spec fn dot_splits(t: Seq<char>, dot: int) -> bool {
    &&& 0 <= dot < t.len()
    &&& t.len() > 1
    &&& t[dot] == '.'
    &&& all_digits(t.take(dot))
    &&& all_digits(t.skip(dot + 1))
}

/// What a scan of `body` found: digits up to `a`; then, if `has_dot`, a
/// dot and digits up to `m`; no digit at `m`.
spec fn scanned(body: Seq<char>, a: int, has_dot: bool, m: int) -> bool {
    &&& 0 <= a <= m <= body.len()
    &&& forall|k: int| 0 <= k < a ==> is_digit(#[trigger] body[k])
    &&& a == body.len() || !is_digit(body[a])
    &&& has_dot <==> a < body.len() && body[a] == '.'
    &&& has_dot ==> a + 1 <= m && forall|k: int| a + 1 <= k < m ==> is_digit(#[trigger] body[k])
    &&& !has_dot ==> m == a
    &&& m == body.len() || !is_digit(body[m])
}

/// The number of digits that the scan found.
spec fn scanned_digits(a: int, has_dot: bool, m: int) -> int {
    if has_dot {
        m - 1
    } else {
        a
    }
}

/// A prefix of `body` that is all digits, with the end or an exponent
/// after it, is the prefix that the scan found.
proof fn lemma_split_without_dot(body: Seq<char>, a: int, has_dot: bool, m: int, k: int)
    requires
        scanned(body, a, has_dot, m),
        0 < k <= body.len(),
        all_digits(body.take(k)),
        k == body.len() || is_exponent(body.skip(k)),
    ensures
        k == m,
        !has_dot,
{
    let t = body.take(k);
    if k < body.len() {
        assert(body.skip(k)[0] == body[k]);
    }
    if a < k {
        assert(t[a] == body[a]);
    }
}

/// A prefix of `body` that is digits around a dot, with the end or an
/// exponent after it, is the prefix that the scan found.
proof fn lemma_split_with_dot(body: Seq<char>, a: int, has_dot: bool, m: int, k: int, dot: int)
    requires
        scanned(body, a, has_dot, m),
        0 <= k <= body.len(),
        dot_splits(body.take(k), dot),
        k == body.len() || is_exponent(body.skip(k)),
    ensures
        k == m,
        has_dot,
        dot == a,
        m >= 2,
{
    let t = body.take(k);
    if k < body.len() {
        assert(body.skip(k)[0] == body[k]);
    }
    assert(t[dot] == body[dot]);
    if a < dot {
        assert(t.take(dot)[a] == body[a]);
    }
    assert(dot == a);
    if m < k {
        assert(t.skip(a + 1)[m - a - 1] == body[m]);
    }
}

/// The prefix that the scan found is a mantissa if it holds a digit.
proof fn lemma_scanned_mantissa(body: Seq<char>, a: int, has_dot: bool, m: int)
    requires
        scanned(body, a, has_dot, m),
        scanned_digits(a, has_dot, m) >= 1,
    ensures
        is_mantissa(body.take(m)),
{
    let t = body.take(m);
    if has_dot {
        assert(t[a] == body[a]);
        assert forall|j: int| 0 <= j < t.take(a).len() implies is_digit(#[trigger] t.take(a)[j]) by {
            assert(t.take(a)[j] == body[j]);
        }
        assert forall|j: int| 0 <= j < t.skip(a + 1).len() implies is_digit(
            #[trigger] t.skip(a + 1)[j],
        ) by {
            assert(t.skip(a + 1)[j] == body[a + 1 + j]);
        }
        assert(dot_splits(t, a));
    } else {
        assert forall|j: int| 0 <= j < t.len() implies is_digit(#[trigger] t[j]) by {
            assert(t[j] == body[j]);
        }
    }
}

/// `body` is a decimal if and only if the scan found a digit and the end
/// or an exponent follows what it found.
proof fn lemma_decimal_by_scan(body: Seq<char>, a: int, has_dot: bool, m: int)
    requires
        scanned(body, a, has_dot, m),
    ensures
        is_decimal(body) <==> scanned_digits(a, has_dot, m) >= 1 && (m == body.len()
            || is_exponent(body.skip(m))),
{
    if is_decimal(body) {
        let k = choose|k: int|
            0 <= k <= body.len() && is_mantissa(#[trigger] body.take(k)) && (k == body.len()
                || is_exponent(body.skip(k)));
        let t = body.take(k);
        if k > 0 && all_digits(t) {
            lemma_split_without_dot(body, a, has_dot, m, k);
        } else {
            let dot = choose|dot: int| dot_splits(t, dot);
            lemma_split_with_dot(body, a, has_dot, m, k, dot);
        }
    }
    if scanned_digits(a, has_dot, m) >= 1 && (m == body.len() || is_exponent(body.skip(m))) {
        lemma_scanned_mantissa(body, a, has_dot, m);
    }
}

/// `text` is a numeric literal.
pub fn is_literal(text: &str) -> (b: bool)
    ensures
        b == is_number_literal(text@),
{
    let len = text.unicode_len();
    let mut from: usize = 0;
    if len > 0 {
        let c = text.get_char(0);
        if c == '+' || c == '-' {
            from = 1;
        }
    }
    let ghost body = unsigned_part(text@);
    assert(body =~= text@.skip(from as int));
    if special_at(text, len, from) {
        return true;
    }
    let whole_end = scan_digits(text, len, from);
    let has_dot = whole_end < len && text.get_char(whole_end) == '.';
    let end = if has_dot {
        scan_digits(text, len, whole_end + 1)
    } else {
        whole_end
    };
    let digits = if has_dot {
        end - from - 1
    } else {
        whole_end - from
    };
    let tail_ok = end == len || exponent_at(text, len, end);
    proof {
        let a = whole_end - from;
        let m = end - from;
        assert(body.skip(m) =~= text@.skip(end as int));
        assert forall|k: int| 0 <= k < a implies is_digit(#[trigger] body[k]) by {
            assert(body[k] == text@[from + k]);
        }
        if has_dot {
            assert forall|k: int| a + 1 <= k < m implies is_digit(#[trigger] body[k]) by {
                assert(body[k] == text@[from + k]);
            }
        }
        assert(scanned(body, a, has_dot, m));
        lemma_decimal_by_scan(body, a, has_dot, m);
    }
    digits >= 1 && tail_ok
}

/// A numeric literal: a text that `is_number_literal` accepts.
#[derive(Debug, PartialEq)]
pub struct Number {
    text: String,
}

impl View for Number {
    type V = Seq<char>;

    closed spec fn view(&self) -> Seq<char> {
        self.text@
    }
}

impl Number {
    #[verifier::type_invariant]
    closed spec fn well_formed(&self) -> bool {
        is_number_literal(self.text@)
    }

    /// The literal that `text` is, if it is one.
    pub fn parse(text: &str) -> (r: Option<Number>)
        ensures
            r is Some <==> is_number_literal(text@),
            r matches Some(n) ==> n@ == text@,
    {
        if is_literal(text) {
            Some(Number { text: text.to_owned() })
        } else {
            None
        }
    }

    /// The literal's text.
    pub fn as_str(&self) -> (s: &str)
        ensures
            s@ == self@,
            is_number_literal(s@),
    {
        proof {
            use_type_invariant(self);
        }
        self.text.as_str()
    }
}

impl Clone for Number {
    fn clone(&self) -> (r: Number)
        ensures
            r@ == self@,
    {
        proof {
            use_type_invariant(self);
        }
        Number { text: self.text.clone() }
    }
}

} // verus!
