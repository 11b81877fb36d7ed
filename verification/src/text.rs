//! Character-level helpers: building strings, decimal numbers, ASCII digits
//! and the lexicographic order of strings.

use vstd::prelude::*;
use vstd::string::*;

verus! {

/// The character of a decimal digit `d < 10`.
pub open spec fn digit_char(d: nat) -> char {
    ((d + 48) as u32) as char
}

/// Whether `c` is one of the ASCII digits `'0'..='9'`.
pub open spec fn is_ascii_digit(c: char) -> bool {
    '0' <= c && c <= '9'
}

/// The value of an ASCII digit.
pub open spec fn digit_value(c: char) -> nat {
    ((c as u32) - 48) as nat
}

/// The decimal representation of `n`, without sign or leading zeros.
pub open spec fn decimal(n: nat) -> Seq<char>
    decreases n,
{
    if n < 10 {
        seq![digit_char(n)]
    } else {
        decimal(n / 10).push(digit_char(n % 10))
    }
}

/// Whether every character of `s` is an ASCII digit.
pub open spec fn all_digits(s: Seq<char>) -> bool {
    forall|i: int| 0 <= i < s.len() ==> is_ascii_digit(#[trigger] s[i])
}

/// The number that a string of ASCII digits denotes in base ten.
pub open spec fn digits_value(s: Seq<char>) -> nat
    decreases s.len(),
{
    if s.len() == 0 {
        0
    } else {
        digits_value(s.drop_last()) * 10 + digit_value(s.last())
    }
}

/// The ASCII digits of `s`, in order: every other character is dropped.
pub open spec fn ascii_digits_of(s: Seq<char>) -> Seq<char> {
    s.filter(|c: char| is_ascii_digit(c))
}

/// The `u64` that a string of ASCII digits denotes, if it is not empty and fits.
pub open spec fn parse_digits(s: Seq<char>) -> Option<u64> {
    if s.len() > 0 && all_digits(s) && digits_value(s) <= u64::MAX {
        Some(digits_value(s) as u64)
    } else {
        None
    }
}

/// `String::push`: appends one character at the end of the string.
#[verifier::external_body]
pub(crate) fn push_char(s: &mut String, c: char)
    ensures
        final(s)@ == old(s)@.push(c),
{
    s.push(c);
}

/// The characters of `s`, one by one.
pub fn chars_of(s: &str) -> (res: Vec<char>)
    ensures
        res@ == s@,
{
    let n = s.unicode_len();
    let mut res: Vec<char> = Vec::new();
    let mut i: usize = 0;
    while i < n
        invariant
            n == s@.len(),
            i <= n,
            res@ == s@.subrange(0, i as int),
        decreases n - i,
    {
        let c = s.get_char(i);
        res.push(c);
        i = i + 1;
        assert(res@ =~= s@.subrange(0, i as int));
    }
    assert(res@ =~= s@);
    res
}

/// The character of the decimal digit `d`.
pub fn digit_to_char(d: u64) -> (c: char)
    requires
        d < 10,
    ensures
        c == digit_char(d as nat),
{
    let b: u8 = (d as u8) + 48u8;
    b as char
}

/// `u64::to_string`: the decimal representation of `n`.
pub fn decimal_string(n: u64) -> (res: String)
    ensures
        res@ == decimal(n as nat),
    decreases n,
{
    if n < 10 {
        let mut s = String::new();
        push_char(&mut s, digit_to_char(n));
        assert(s@ =~= decimal(n as nat));
        s
    } else {
        let mut s = decimal_string(n / 10);
        push_char(&mut s, digit_to_char(n % 10));
        s
    }
}


/// The value of a string of ASCII digits: some when all its characters are
/// ASCII digits, there is at least one and the value fits in a `u64`. On such
/// strings it agrees with `str::parse::<u64>`, which also accepts a leading
/// `+` that this function refuses.
pub fn parse_u64_digits(s: &Vec<char>) -> (res: Option<u64>)
    ensures
        res == parse_digits(s@),
{
    let n = s.len();
    let mut value: u64 = 0;
    let mut overflow = false;
    let mut i: usize = 0;
    while i < n
        invariant
            n == s@.len(),
            i <= n,
            all_digits(s@.take(i as int)),
            !overflow ==> value == digits_value(s@.take(i as int)),
            overflow ==> digits_value(s@.take(i as int)) > u64::MAX,
        decreases n - i,
    {
        let c = s[i];
        if !('0' <= c && c <= '9') {
            proof {
                assert(!all_digits(s@)) by {
                    assert(!is_ascii_digit(s@[i as int]));
                }
            }
            return None;
        }
        let d: u64 = (c as u64) - 48;
        proof {
            assert(s@.take(i + 1).drop_last() =~= s@.take(i as int));
            assert(s@.take(i + 1).last() == c);
            assert(digits_value(s@.take(i + 1)) == digits_value(s@.take(i as int)) * 10 + d);
        }
        if !overflow {
            if value <= (u64::MAX - d) / 10 {
                value = value * 10 + d;
            } else {
                overflow = true;
            }
        }
        i = i + 1;
        proof {
            assert forall|j: int| 0 <= j < s@.take(i as int).len() implies is_ascii_digit(
                #[trigger] s@.take(i as int)[j],
            ) by {
                if j < i - 1 {
                    assert(s@.take(i as int)[j] == s@.take(i - 1)[j]);
                }
            }
        }
    }
    assert(s@.take(n as int) =~= s@);
    if overflow || n == 0 {
        None
    } else {
        Some(value)
    }
}

/// The ASCII digits of `s`, in order, as `chars().filter(|c| c.is_digit(10))` gives them.
pub fn ascii_digits(s: &str) -> (res: Vec<char>)
    ensures
        res@ == ascii_digits_of(s@),
{
    let chars = chars_of(s);
    let n = chars.len();
    let mut res: Vec<char> = Vec::new();
    let mut i: usize = 0;
    while i < n
        invariant
            n == chars@.len(),
            chars@ == s@,
            i <= n,
            res@ == ascii_digits_of(chars@.take(i as int)),
        decreases n - i,
    {
        let c = chars[i];
        proof {
            reveal_with_fuel(Seq::filter, 1);
            assert(chars@.take(i + 1).drop_last() =~= chars@.take(i as int));
        }
        if '0' <= c && c <= '9' {
            res.push(c);
        }
        i = i + 1;
    }
    assert(chars@.take(n as int) =~= chars@);
    res
}


/// Lexicographic order of character strings, each character compared by its
/// code point; a proper prefix comes first. On UTF-8 text this is the order
/// of `str`'s `Ord`, which compares bytes.
pub open spec fn lex_lt(a: Seq<char>, b: Seq<char>) -> bool
    decreases a.len(),
{
    if b.len() == 0 {
        false
    } else if a.len() == 0 {
        true
    } else if a[0] != b[0] {
        a[0] < b[0]
    } else {
        lex_lt(a.drop_first(), b.drop_first())
    }
}

/// `a` comes first or equals `b` in the lexicographic order.
pub open spec fn lex_le(a: Seq<char>, b: Seq<char>) -> bool {
    !lex_lt(b, a)
}

/// No string comes before itself.
pub proof fn lemma_lex_irreflexive(a: Seq<char>)
    ensures
        !lex_lt(a, a),
    decreases a.len(),
{
    if a.len() > 0 {
        lemma_lex_irreflexive(a.drop_first());
    }
}

/// Two strings are equal, or exactly one of them comes before the other.
pub proof fn lemma_lex_trichotomy(a: Seq<char>, b: Seq<char>)
    ensures
        !(lex_lt(a, b) && lex_lt(b, a)),
        a != b ==> (lex_lt(a, b) || lex_lt(b, a)),
        !lex_lt(a, a),
    decreases a.len(),
{
    lemma_lex_irreflexive(a);
    if a.len() > 0 && b.len() > 0 {
        lemma_lex_trichotomy(a.drop_first(), b.drop_first());
        if a[0] == b[0] && a != b {
            assert(a.drop_first() != b.drop_first()) by {
                if a.drop_first() == b.drop_first() {
                    assert forall|i: int| 0 <= i < a.len() implies a[i] == b[i] by {
                        if i > 0 {
                            assert(a[i] == a.drop_first()[i - 1]);
                            assert(b[i] == b.drop_first()[i - 1]);
                        }
                    }
                    assert(a =~= b);
                }
            }
        }
    } else if a.len() == 0 && b.len() == 0 {
        assert(a =~= b);
    }
}

/// The lexicographic order is transitive.
pub proof fn lemma_lex_transitive(a: Seq<char>, b: Seq<char>, c: Seq<char>)
    requires
        lex_lt(a, b),
        lex_lt(b, c),
    ensures
        lex_lt(a, c),
    decreases a.len(),
{
    if a.len() > 0 && b.len() > 0 && c.len() > 0 {
        if a[0] == b[0] && b[0] == c[0] {
            lemma_lex_transitive(a.drop_first(), b.drop_first(), c.drop_first());
        }
    }
}

/// Strings are ordered by their first differing character, compared by code
/// point; when one is a proper prefix of the other, the prefix comes first.
/// Here `a` and `b` agree on their first `k` characters.
pub proof fn lemma_lex_order_by_first_difference(a: Seq<char>, b: Seq<char>, k: int)
    requires
        0 <= k <= a.len(),
        k <= b.len(),
        a.take(k) == b.take(k),
    ensures
        k < a.len() && k < b.len() && a[k] != b[k] ==> (lex_lt(a, b) <==> a[k] < b[k]),
        k == a.len() && k < b.len() ==> lex_lt(a, b),
        k == b.len() ==> !lex_lt(a, b),
    decreases k,
{
    if k > 0 {
        assert(a[0] == a.take(k)[0]);
        assert(b[0] == b.take(k)[0]);
        let a1 = a.drop_first();
        let b1 = b.drop_first();
        assert(a1.take(k - 1) =~= b1.take(k - 1)) by {
            assert forall|i: int| 0 <= i < k - 1 implies #[trigger] a1.take(k - 1)[i] == b1.take(k - 1)[i] by {
                assert(a.take(k)[i + 1] == b.take(k)[i + 1]);
                assert(a1.take(k - 1)[i] == a[i + 1]);
                assert(b1.take(k - 1)[i] == b[i + 1]);
                assert(a.take(k)[i + 1] == a[i + 1]);
                assert(b.take(k)[i + 1] == b[i + 1]);
            }
        }
        lemma_lex_order_by_first_difference(a1, b1, k - 1);
        if k < a.len() {
            assert(a1[k - 1] == a[k]);
        }
        if k < b.len() {
            assert(b1[k - 1] == b[k]);
        }
    }
}

/// Two strings whose first characters differ are ordered by those characters'
/// code points: `"1"` comes before `"2"`, `"B"` before `"a"`.
pub proof fn lemma_lex_first_char(a: Seq<char>, b: Seq<char>)
    requires
        a.len() > 0,
        b.len() > 0,
        a[0] != b[0],
    ensures
        lex_lt(a, b) <==> a[0] < b[0],
{
    assert(a.take(0) =~= b.take(0));
    lemma_lex_order_by_first_difference(a, b, 0);
}

/// `lex_le` is transitive, and `lex_le` then `lex_lt` gives `lex_lt`.
pub proof fn lemma_lex_le_transitive(a: Seq<char>, b: Seq<char>, c: Seq<char>)
    ensures
        lex_le(a, b) && lex_le(b, c) ==> lex_le(a, c),
        lex_le(a, b) && lex_lt(b, c) ==> lex_lt(a, c),
        lex_lt(a, b) && lex_le(b, c) ==> lex_lt(a, c),
{
    lemma_lex_trichotomy(a, b);
    lemma_lex_trichotomy(b, c);
    lemma_lex_trichotomy(a, c);
    if lex_lt(a, b) && lex_lt(b, c) {
        lemma_lex_transitive(a, b, c);
    }
    if lex_lt(c, a) && lex_lt(a, b) {
        lemma_lex_transitive(c, a, b);
    }
    if lex_lt(b, c) && lex_lt(c, a) {
        lemma_lex_transitive(b, c, a);
    }
}

/// Whether `a` comes strictly before `b` in the lexicographic order.
pub fn chars_lt(a: &Vec<char>, b: &Vec<char>) -> (res: bool)
    ensures
        res == lex_lt(a@, b@),
{
    let mut i: usize = 0;
    assert(a@.skip(0) =~= a@);
    assert(b@.skip(0) =~= b@);
    while i < a.len() && i < b.len()
        invariant
            i <= a@.len(),
            i <= b@.len(),
            lex_lt(a@, b@) == lex_lt(a@.skip(i as int), b@.skip(i as int)),
        decreases a@.len() - i,
    {
        if a[i] != b[i] {
            let r = a[i] < b[i];
            return r;
        }
        assert(a@.skip(i as int).drop_first() =~= a@.skip(i + 1));
        assert(b@.skip(i as int).drop_first() =~= b@.skip(i + 1));
        i = i + 1;
    }
    i < b.len()
}


/// Reading the decimal representation of a number gives the number back.
pub proof fn lemma_decimal_roundtrip(n: nat)
    ensures
        decimal(n).len() > 0,
        all_digits(decimal(n)),
        digits_value(decimal(n)) == n,
    decreases n,
{
    let d = (n % 10) as nat;
    assert(digit_value(digit_char(d)) == d);
    if n >= 10 {
        lemma_decimal_roundtrip(n / 10);
        let s = decimal(n);
        assert(s.drop_last() =~= decimal(n / 10));
        assert(s.last() == digit_char(d));
        assert(n == (n / 10) * 10 + n % 10);
        assert(digits_value(s) == digits_value(decimal(n / 10)) * 10 + d);
        assert(digits_value(s) == n);
        assert forall|i: int| 0 <= i < s.len() implies is_ascii_digit(#[trigger] s[i]) by {
            if i < s.len() - 1 {
                assert(s[i] == decimal(n / 10)[i]);
            }
        }
    } else {
        let s = decimal(n);
        assert(s.drop_last() =~= Seq::<char>::empty());
        assert(s.last() == digit_char(d));
        assert(digits_value(s.drop_last()) == 0);
        assert(digits_value(s) == n);
    }
}

/// A number written in decimal reads back as the same number.
pub proof fn lemma_decimal_reads_back(n: u64)
    ensures
        parse_digits(decimal(n as nat)) == Some(n),
{
    lemma_decimal_roundtrip(n as nat);
}

} // verus!
