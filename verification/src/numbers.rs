//! Numbers in text: unsigned decimal integers, and real numbers, which this
//! library holds as the decimal text they were written in.
use vstd::prelude::*;

use crate::text::{before_char, chars_before, string_from};

verus! {

/// An ASCII decimal digit.
pub open spec fn is_digit(c: char) -> bool {
    '0' <= c && c <= '9'
}

/// The value of a decimal digit.
pub open spec fn digit_value(c: char) -> int {
    c as int - 48
}

/// Every character of `s` is a decimal digit.
pub open spec fn all_digits(s: Seq<char>) -> bool {
    forall|i: int| 0 <= i < s.len() ==> is_digit(#[trigger] s[i])
}

/// The value of a string of decimal digits.
pub open spec fn digits_value(s: Seq<char>) -> int
    decreases s.len(),
{
    if s.len() == 0 {
        0
    } else {
        digits_value(s.drop_last()) * 10 + digit_value(s.last())
    }
}

/// `s` without one leading `+`.
pub open spec fn without_plus(s: Seq<char>) -> Seq<char> {
    if s.len() > 0 && s[0] == '+' {
        s.drop_first()
    } else {
        s
    }
}

/// What `str::parse::<usize>` gives for `s`: an optional `+`, then at least
/// one decimal digit, with a value that fits in a `usize`.
pub open spec fn usize_literal(s: Seq<char>) -> Option<usize> {
    let d = without_plus(s);
    if d.len() > 0 && all_digits(d) && digits_value(d) <= usize::MAX {
        Some(digits_value(d) as usize)
    } else {
        None
    }
}

proof fn lemma_digits_value_nonneg(s: Seq<char>)
    requires
        all_digits(s),
    ensures
        digits_value(s) >= 0,
    decreases s.len(),
{
    if s.len() > 0 {
        assert(all_digits(s.drop_last())) by {
            assert forall|i: int| 0 <= i < s.drop_last().len() implies is_digit(
                #[trigger] s.drop_last()[i],
            ) by {
                assert(s.drop_last()[i] == s[i]);
            }
        }
        assert(is_digit(s[s.len() - 1]));
        lemma_digits_value_nonneg(s.drop_last());
    }
}

/// The value of a digit string is at least the value of any of its prefixes.
proof fn lemma_digits_value_prefix(s: Seq<char>, k: int)
    requires
        all_digits(s),
        0 <= k <= s.len(),
    ensures
        digits_value(s.take(k)) <= digits_value(s),
    decreases s.len(),
{
    if k < s.len() {
        let p = s.drop_last();
        assert(all_digits(p)) by {
            assert forall|i: int| 0 <= i < p.len() implies is_digit(#[trigger] p[i]) by {
                assert(p[i] == s[i]);
            }
        }
        lemma_digits_value_prefix(p, k);
        assert(p.take(k) =~= s.take(k));
        lemma_digits_value_nonneg(p);
        assert(is_digit(s[s.len() - 1]));
    } else {
        assert(s.take(k) =~= s);
    }
}

/// Reads a `usize` written in decimal (`str::parse::<usize>`).
pub fn parse_usize_chars(s: &[char]) -> (r: Option<usize>)
    ensures
        r == usize_literal(s@),
{
    let start: usize = if s.len() > 0 && s[0] == '+' {
        1
    } else {
        0
    };
    let ghost d = without_plus(s@);
    assert(d =~= s@.skip(start as int));
    if start == s.len() {
        return None;
    }
    let mut v: usize = 0;
    let mut i = start;
    assert(d.take(0) =~= Seq::<char>::empty());
    while i < s.len()
        invariant
            start <= i <= s@.len(),
            d == without_plus(s@),
            d == s@.skip(start as int),
            all_digits(d.take(i - start)),
            v == digits_value(d.take(i - start)),
        decreases s@.len() - i,
    {
        let c = s[i];
        let ghost k = i - start;
        if !('0' <= c && c <= '9') {
            assert(d[k] == c);
            assert(!is_digit(d[k]));
            return None;
        }
        assert(d.take(k + 1).drop_last() =~= d.take(k));
        assert(d.take(k + 1).last() == c);
        let dv = (c as u32 - 48) as usize;
        assert(digits_value(d.take(k + 1)) == v * 10 + dv);
        assert(all_digits(d.take(k + 1))) by {
            assert forall|j: int| 0 <= j < k + 1 implies is_digit(#[trigger] d.take(k + 1)[j]) by {
                if j < k {
                    assert(d.take(k + 1)[j] == d.take(k)[j]);
                }
            }
        }
        match v.checked_mul(10) {
            Some(m) => match m.checked_add(dv) {
                Some(n) => {
                    v = n;
                },
                None => {
                    proof {
                        if all_digits(d) {
                            lemma_digits_value_prefix(d, k + 1);
                        }
                    }
                    return None;
                },
            },
            None => {
                proof {
                    lemma_digits_value_nonneg(d.take(k));
                    assert(v * 10 + dv > usize::MAX) by (nonlinear_arith)
                        requires
                            v * 10 > usize::MAX,
                            dv >= 0,
                    ;
                    if all_digits(d) {
                        lemma_digits_value_prefix(d, k + 1);
                    }
                }
                return None;
            },
        }
        i += 1;
    }
    assert(d.take(i - start) =~= d);
    Some(v)
}

/// The character of a decimal digit.
pub open spec fn digit_char(d: nat) -> char {
    ((d + 48) as u8) as char
}

/// The decimal digits of `n`, without leading zeros (what `Display` writes
/// for an unsigned integer).
pub open spec fn decimal_text(n: nat) -> Seq<char>
    decreases n,
{
    if n < 10 {
        seq![digit_char(n)]
    } else {
        decimal_text(n / 10).push(digit_char(n % 10))
    }
}

/// A single digit exactly below ten.
proof fn lemma_decimal_text_len(n: nat)
    ensures
        decimal_text(n).len() >= 1,
        (decimal_text(n).len() == 1) <==> n < 10,
    decreases n,
{
    if n >= 10 {
        lemma_decimal_text_len(n / 10);
    }
}

/// Different digits are different characters.
proof fn lemma_digit_char_injective(a: nat, b: nat)
    requires
        a < 10,
        b < 10,
        digit_char(a) == digit_char(b),
    ensures
        a == b,
{
    let x: u8 = (a + 48) as u8;
    let y: u8 = (b + 48) as u8;
    assert(x == a + 48);
    assert(y == b + 48);
    vstd::utf8::char_u32_cast(x as char, (x as char) as u32);
    assert((x as char) as u32 == x);
}

/// Different numbers are written differently.
pub proof fn lemma_decimal_text_injective(n: nat, m: nat)
    requires
        decimal_text(n) == decimal_text(m),
    ensures
        n == m,
    decreases n,
{
    lemma_decimal_text_len(n);
    lemma_decimal_text_len(m);
    if n < 10 {
        assert(m < 10);
        assert(decimal_text(n) == seq![digit_char(n)]);
        assert(decimal_text(m) == seq![digit_char(m)]);
        assert(decimal_text(n)[0] == decimal_text(m)[0]);
        assert(seq![digit_char(n)][0] == digit_char(n));
        assert(seq![digit_char(m)][0] == digit_char(m));
        lemma_digit_char_injective(n, m);
    } else {
        assert(m >= 10);
        let a = decimal_text(n);
        let b = decimal_text(m);
        assert(a.drop_last() == decimal_text(n / 10));
        assert(b.drop_last() == decimal_text(m / 10));
        lemma_decimal_text_injective(n / 10, m / 10);
        assert(a.last() == digit_char(n % 10));
        assert(b.last() == digit_char(m % 10));
        lemma_digit_char_injective(n % 10, m % 10);
    }
}

/// The decimal digits of `n`.
pub fn usize_text(n: usize) -> (r: Vec<char>)
    ensures
        r@ == decimal_text(n as nat),
    decreases n,
{
    if n < 10 {
        let c = ((n as u8) + 48) as char;
        let mut r: Vec<char> = Vec::new();
        r.push(c);
        assert(r@ =~= seq![digit_char(n as nat)]);
        r
    } else {
        let mut r = usize_text(n / 10);
        let c = (((n % 10) as u8) + 48) as char;
        r.push(c);
        r
    }
}

/// The decimal digits of a 64-bit count.
pub fn u64_text(n: u64) -> (r: Vec<char>)
    ensures
        r@ == decimal_text(n as nat),
    decreases n,
{
    if n < 10 {
        let c = ((n as u8) + 48) as char;
        let mut r: Vec<char> = Vec::new();
        r.push(c);
        assert(r@ =~= seq![digit_char(n as nat)]);
        r
    } else {
        let mut r = u64_text(n / 10);
        let c = (((n % 10) as u8) + 48) as char;
        r.push(c);
        r
    }
}

/// Every character of `s` is a decimal digit (exec form of `all_digits`).
pub fn only_digit_chars(s: &[char]) -> (r: bool)
    ensures
        r == all_digits(s@),
{
    let mut i: usize = 0;
    while i < s.len()
        invariant
            i <= s@.len(),
            forall|j: int| 0 <= j < i ==> is_digit(#[trigger] s@[j]),
        decreases s@.len() - i,
    {
        if !('0' <= s[i] && s[i] <= '9') {
            assert(!is_digit(s@[i as int]));
            return false;
        }
        i += 1;
    }
    true
}

/// ASCII upper case letters mapped to lower case.
pub open spec fn ascii_lower(c: char) -> char {
    if 'A' <= c && c <= 'Z' {
        ((c as u8) + 32) as char
    } else {
        c
    }
}

/// `s` without one leading sign.
pub open spec fn without_sign(s: Seq<char>) -> Seq<char> {
    if s.len() > 0 && (s[0] == '+' || s[0] == '-') {
        s.drop_first()
    } else {
        s
    }
}

/// `Digit+ | Digit+ '.' Digit* | Digit* '.' Digit+`: digits around at most
/// one point, and at least one digit.
pub open spec fn is_decimal_mantissa(m: Seq<char>) -> bool {
    let whole = before_char(m, '.');
    &&& all_digits(whole)
    &&& if whole.len() == m.len() {
        m.len() > 0
    } else {
        all_digits(m.skip(whole.len() + 1 as int)) && m.len() >= 2
    }
}

/// `'e' Sign? Digit+` (after lower-casing).
pub open spec fn is_decimal_exponent(x: Seq<char>) -> bool {
    &&& x.len() >= 2
    &&& x[0] == 'e'
    &&& without_sign(x.drop_first()).len() > 0
    &&& all_digits(without_sign(x.drop_first()))
}

/// `Number ::= Mantissa Exp?`, split at the first `e`.
pub open spec fn is_decimal_number(n: Seq<char>) -> bool {
    let m = before_char(n, 'e');
    is_decimal_mantissa(m) && (m.len() == n.len() || is_decimal_exponent(n.skip(m.len() as int)))
}

/// The strings that `str::parse::<f64>` accepts, by the grammar its
/// documentation gives: once lower-cased,
/// `Sign? ('inf' | 'infinity' | 'nan' | Number)`, with no surrounding
/// whitespace.
pub open spec fn f64_literal(s: Seq<char>) -> bool {
    let t = without_sign(s.map_values(|c: char| ascii_lower(c)));
    ||| t == seq!['i', 'n', 'f']
    ||| t == seq!['i', 'n', 'f', 'i', 'n', 'i', 't', 'y']
    ||| t == seq!['n', 'a', 'n']
    ||| is_decimal_number(t)
}

/// `before_char(s, c)` is the prefix of `s` up to (not including) the first `c`.
pub proof fn lemma_before_char(s: Seq<char>, c: char)
    ensures
        before_char(s, c).len() <= s.len(),
        before_char(s, c) == s.take(before_char(s, c).len() as int),
        before_char(s, c).len() < s.len() ==> s[before_char(s, c).len() as int] == c,
        forall|i: int| 0 <= i < before_char(s, c).len() ==> s[i] != c,
    decreases s.len(),
{
    if s.len() > 0 && s[0] != c {
        lemma_before_char(s.drop_first(), c);
        let r = before_char(s.drop_first(), c);
        assert(seq![s[0]] + r =~= s.take(r.len() + 1 as int));
        assert forall|i: int| 0 <= i < r.len() + 1 implies s[i] != c by {
            if i > 0 {
                assert(s[i] == s.drop_first()[i - 1]);
            }
        }
    } else if s.len() > 0 {
        assert(s.take(0) =~= Seq::<char>::empty());
    } else {
        assert(s.take(0) =~= s);
    }
}

/// `s` with ASCII letters in lower case.
pub fn lower_chars(s: &[char]) -> (r: Vec<char>)
    ensures
        r@ == s@.map_values(|c: char| ascii_lower(c)),
{
    let mut r: Vec<char> = Vec::new();
    let mut i: usize = 0;
    while i < s.len()
        invariant
            i <= s@.len(),
            r@ == s@.take(i as int).map_values(|c: char| ascii_lower(c)),
        decreases s@.len() - i,
    {
        let c = s[i];
        let l = if 'A' <= c && c <= 'Z' {
            ((c as u8) + 32) as char
        } else {
            c
        };
        r.push(l);
        assert(s@.take(i + 1).map_values(|c: char| ascii_lower(c)) =~= s@.take(i as int).map_values(
            |c: char| ascii_lower(c),
        ).push(l));
        i += 1;
    }
    assert(s@.take(s@.len() as int) =~= s@);
    r
}

fn is_mantissa_chars(m: &[char]) -> (r: bool)
    ensures
        r == is_decimal_mantissa(m@),
{
    let whole = chars_before(m, '.');
    proof {
        lemma_before_char(m@, '.');
    }
    if !only_digit_chars(whole.as_slice()) {
        return false;
    }
    if whole.len() == m.len() {
        m.len() > 0
    } else {
        let frac = crate::text::copy_range(m, whole.len() + 1, m.len());
        assert(frac@ =~= m@.skip(whole@.len() + 1 as int));
        only_digit_chars(frac.as_slice()) && m.len() >= 2
    }
}

fn is_exponent_chars(x: &[char]) -> (r: bool)
    ensures
        r == is_decimal_exponent(x@),
{
    if x.len() < 2 || x[0] != 'e' {
        return false;
    }
    let start: usize = if x[1] == '+' || x[1] == '-' {
        2
    } else {
        1
    };
    let digits = crate::text::copy_range(x, start, x.len());
    assert(digits@ =~= without_sign(x@.drop_first()));
    digits.len() > 0 && only_digit_chars(digits.as_slice())
}

fn is_number_chars(n: &[char]) -> (r: bool)
    ensures
        r == is_decimal_number(n@),
{
    let m = chars_before(n, 'e');
    proof {
        lemma_before_char(n@, 'e');
    }
    if !is_mantissa_chars(m.as_slice()) {
        return false;
    }
    if m.len() == n.len() {
        true
    } else {
        let x = crate::text::copy_range(n, m.len(), n.len());
        assert(x@ =~= n@.skip(m@.len() as int));
        is_exponent_chars(x.as_slice())
    }
}

/// Whether `s` is a real number as `str::parse::<f64>` accepts it.
pub fn is_f64_literal(s: &[char]) -> (r: bool)
    ensures
        r == f64_literal(s@),
{
    let lower = lower_chars(s);
    let start: usize = if lower.len() > 0 && (lower[0] == '+' || lower[0] == '-') {
        1
    } else {
        0
    };
    let t = crate::text::copy_range(lower.as_slice(), start, lower.len());
    assert(t@ =~= without_sign(s@.map_values(|c: char| ascii_lower(c))));
    proof {
        reveal_strlit("inf");
        reveal_strlit("infinity");
        reveal_strlit("nan");
        assert("inf"@ =~= seq!['i', 'n', 'f']);
        assert("infinity"@ =~= seq!['i', 'n', 'f', 'i', 'n', 'i', 't', 'y']);
        assert("nan"@ =~= seq!['n', 'a', 'n']);
    }
    crate::text::is_literal(t.as_slice(), "inf") || crate::text::is_literal(t.as_slice(), "infinity")
        || crate::text::is_literal(t.as_slice(), "nan") || is_number_chars(t.as_slice())
}

/// A real number, held as the decimal text it was written in; the text is
/// one that `str::parse::<f64>` accepts.
///
/// Two decimals are equal (`==`) when their texts are: `1` and `1.0`
/// differ, as do `0` and `-0`, and `nan` equals `nan`. So do the points,
/// meshes and configurations that hold them. Comparing the values they
/// denote is floating-point work, left to the caller.
#[derive(Debug, PartialEq)]
pub struct Decimal {
    text: String,
}

impl View for Decimal {
    type V = Seq<char>;

    closed spec fn view(&self) -> Seq<char> {
        self.text@
    }
}

impl Clone for Decimal {
    fn clone(&self) -> (r: Self)
        ensures
            r@ == self@,
    {
        self.copy()
    }
}

impl Decimal {
    #[verifier::type_invariant]
    spec fn is_literal(self) -> bool {
        f64_literal(self.text@)
    }

    /// The number written by `s`, if `s` is a real-number literal.
    pub fn parse(s: &[char]) -> (r: Option<Decimal>)
        ensures
            r is Some <==> f64_literal(s@),
            r matches Some(d) ==> d@ == s@,
    {
        if is_f64_literal(s) {
            Some(Decimal { text: string_from(s) })
        } else {
            None
        }
    }

    /// The number written by `s`, if `s` is a real-number literal.
    pub fn from_text(s: &str) -> (r: Option<Decimal>)
        ensures
            r is Some <==> f64_literal(s@),
            r matches Some(d) ==> d@ == s@,
    {
        let chars = crate::text::chars_of(s);
        Decimal::parse(chars.as_slice())
    }

    /// The number zero, written `0`.
    pub fn zero() -> (r: Decimal)
        ensures
            r@ == seq!['0'],
    {
        let s = string_from(&['0']);
        proof {
            assert(s@ =~= seq!['0']);
            assert(is_decimal_mantissa(seq!['0'])) by {
                lemma_before_char(seq!['0'], '.');
                assert(before_char(seq!['0'], '.').len() == 1);
            }
            assert(before_char(seq!['0'], 'e').len() == 1) by {
                lemma_before_char(seq!['0'], 'e');
            }
            assert(without_sign(seq!['0'].map_values(|c: char| ascii_lower(c))) =~= seq!['0']);
        }
        Decimal { text: s }
    }

    /// The number `1e-10`, written so.
    pub fn ten_to_minus_ten() -> (r: Decimal)
        ensures
            r@ == seq!['1', 'e', '-', '1', '0'],
    {
        let s = string_from(&['1', 'e', '-', '1', '0']);
        proof {
            let t = seq!['1', 'e', '-', '1', '0'];
            assert(s@ =~= t);
            assert(t.map_values(|c: char| ascii_lower(c)) =~= t);
            assert(without_sign(t) =~= t);
            lemma_before_char(t, 'e');
            assert(before_char(t, 'e') =~= seq!['1']) by {
                assert(t[0] != 'e');
                assert(t[1] == 'e');
                assert(before_char(t, 'e').len() == 1) by {
                    assert(before_char(t, 'e') == t.take(before_char(t, 'e').len() as int));
                    if before_char(t, 'e').len() > 1 {
                        assert(before_char(t, 'e')[1] == t[1]);
                    }
                }
            }
            lemma_before_char(seq!['1'], '.');
            assert(before_char(seq!['1'], '.').len() == 1);
            let x = t.skip(1);
            assert(x =~= seq!['e', '-', '1', '0']);
            assert(without_sign(x.drop_first()) =~= seq!['1', '0']);
            assert(all_digits(seq!['1', '0']));
            assert(is_decimal_number(t));
        }
        Decimal { text: s }
    }

    /// The decimal text.
    pub fn as_str(&self) -> (r: &str)
        ensures
            r@ == self@,
            f64_literal(r@),
    {
        proof {
            use_type_invariant(self);
        }
        self.text.as_str()
    }

    /// A copy of this number.
    pub fn copy(&self) -> (r: Decimal)
        ensures
            r@ == self@,
    {
        proof {
            use_type_invariant(self);
        }
        Decimal { text: self.text.clone() }
    }
}

} // verus!
