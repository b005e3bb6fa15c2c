//! Character and string helpers shared by the library: ASCII case folding,
//! equality of string slices, and building `String`s one character at a time.
use vstd::prelude::*;

verus! {

/// `String::push` appends one character to the end of the string
/// (std documentation: "Appends the given char to the end of this String").
pub assume_specification[ String::push ](s: &mut String, ch: char)
    ensures
        final(s)@ == old(s)@.push(ch),
;

/// ASCII lower-casing of a single character; other characters are unchanged.
pub open spec fn lower_char(c: char) -> char {
    if 'A' <= c && c <= 'Z' {
        ((c as u32) + 32) as char
    } else {
        c
    }
}

/// ASCII lower-casing of a whole character sequence.
pub open spec fn lower(s: Seq<char>) -> Seq<char> {
    s.map_values(|c: char| lower_char(c))
}

/// The sequence with every leading `'.'` removed.
pub open spec fn skip_leading_dots(s: Seq<char>) -> Seq<char>
    decreases s.len(),
{
    if s.len() > 0 && s[0] == '.' {
        skip_leading_dots(s.drop_first())
    } else {
        s
    }
}

/// ASCII lower-casing of one character.
pub fn ascii_lower_char(c: char) -> (r: char)
    ensures
        r == lower_char(c),
{
    if 'A' <= c && c <= 'Z' {
        let b: u8 = c as u8;
        assert(b as u32 == c as u32);
        let r = (b + 32) as char;
        r
    } else {
        c
    }
}


/// Character-wise equality of two string slices.
pub fn str_eq(a: &str, b: &str) -> (r: bool)
    ensures
        r == (a@ == b@),
{
    let n = a.unicode_len();
    if n != b.unicode_len() {
        return false;
    }
    let mut i: usize = 0;
    while i < n
        invariant
            n == a@.len(),
            n == b@.len(),
            i <= n,
            forall|j: int| 0 <= j < i ==> a@[j] == b@[j],
        decreases n - i,
    {
        if a.get_char(i) != b.get_char(i) {
            return false;
        }
        i = i + 1;
    }
    assert(a@ =~= b@);
    true
}

/// A new `String` holding the ASCII lower-cased characters of `s`.
pub fn to_ascii_lower(s: &str) -> (r: String)
    ensures
        r@ == lower(s@),
{
    let n = s.unicode_len();
    let mut out = String::new();
    let mut i: usize = 0;
    while i < n
        invariant
            n == s@.len(),
            i <= n,
            out@ =~= lower(s@.subrange(0, i as int)),
        decreases n - i,
    {
        let c = ascii_lower_char(s.get_char(i));
        out.push(c);
        assert(s@.subrange(0, i + 1) =~= s@.subrange(0, i as int).push(s@[i as int]));
        i = i + 1;
    }
    assert(s@.subrange(0, n as int) =~= s@);
    out
}

/// Number of leading `'.'` characters of a sequence.
pub open spec fn leading_dots(s: Seq<char>) -> nat
    decreases s.len(),
{
    if s.len() > 0 && s[0] == '.' {
        1 + leading_dots(s.drop_first())
    } else {
        0
    }
}

/// Skipping the leading dots is dropping that many characters.
pub proof fn lemma_skip_leading_dots(s: Seq<char>)
    ensures
        leading_dots(s) <= s.len(),
        skip_leading_dots(s) =~= s.subrange(leading_dots(s) as int, s.len() as int),
        forall|j: int| 0 <= j < leading_dots(s) ==> s[j] == '.',
        leading_dots(s) < s.len() ==> s[leading_dots(s) as int] != '.',
    decreases s.len(),
{
    if s.len() > 0 && s[0] == '.' {
        lemma_skip_leading_dots(s.drop_first());
        assert forall|j: int| 0 <= j < leading_dots(s) implies s[j] == '.' by {
            if j > 0 {
                assert(s[j] == s.drop_first()[j - 1]);
            }
        }
    }
}

/// `s` without its leading dots, lower-cased: the normal form in which file
/// extensions are compared.
pub fn normalize_extension(s: &str) -> (r: String)
    ensures
        r@ == lower(skip_leading_dots(s@)),
{
    let n = s.unicode_len();
    let mut k: usize = 0;
    proof { lemma_skip_leading_dots(s@); }
    while k < n && s.get_char(k) == '.'
        invariant
            n == s@.len(),
            k <= leading_dots(s@),
            leading_dots(s@) <= n,
            forall|j: int| 0 <= j < leading_dots(s@) ==> s@[j] == '.',
            leading_dots(s@) < n ==> s@[leading_dots(s@) as int] != '.',
        decreases n - k,
    {
        k = k + 1;
    }
    let rest = s.substring_char(k, n);
    to_ascii_lower(rest)
}

/// The decimal digits of `n`, most significant first, without leading zeros
/// (`"0"` for zero).
pub open spec fn decimal(n: nat) -> Seq<char>
    decreases n,
{
    if n < 10 {
        seq![(48 + n) as char]
    } else {
        decimal(n / 10).push((48 + n % 10) as char)
    }
}

proof fn lemma_decimal_step(n: nat)
    requires
        n >= 10,
    ensures
        decimal(n) == decimal(n / 10).push((48 + n % 10) as char),
{
}

/// The decimal text of `n`, as `format!("{}", n)` writes it.
pub fn decimal_text(n: u64) -> (r: String)
    ensures
        r@ == decimal(n as nat),
{
    // digits of n, least significant first
    let mut digits: Vec<char> = Vec::new();
    let mut m: u64 = n;
    digits.push(((48 + m % 10) as u8) as char);
    m = m / 10;
    let ghost mut done: nat = 1;
    // invariant: decimal(n) == decimal(m) ++ reverse(digits) when m > 0,
    //            decimal(n) == reverse(digits) when m == 0
    proof {
        if n >= 10 {
            lemma_decimal_step(n as nat);
        }
    }
    while m > 0
        invariant
            m <= n,
            digits@.len() >= 1,
            m > 0 ==> decimal(n as nat) == decimal(m as nat) + digits@.reverse(),
            m == 0 ==> decimal(n as nat) == digits@.reverse(),
        decreases m,
    {
        let ghost old_digits = digits@;
        let d = ((48 + m % 10) as u8) as char;
        proof {
            if m >= 10 {
                lemma_decimal_step(m as nat);
                assert(decimal(m as nat) == decimal((m / 10) as nat).push(d));
            } else {
                assert(decimal(m as nat) == seq![d]);
            }
        }
        digits.push(d);
        assert(digits@.reverse() =~= seq![d] + old_digits.reverse());
        proof {
            if m >= 10 {
                assert(decimal((m / 10) as nat) + digits@.reverse() =~= decimal((m / 10) as nat).push(d) + old_digits.reverse());
            } else {
                assert(digits@.reverse() =~= seq![d] + old_digits.reverse());
            }
        }
        m = m / 10;
    }
    let mut out = String::new();
    let mut k: usize = digits.len();
    while k > 0
        invariant
            k <= digits@.len(),
            out@ =~= digits@.reverse().subrange(0, (digits@.len() - k) as int),
        decreases k,
    {
        let c = digits[k - 1];
        out.push(c);
        k = k - 1;
    }
    assert(digits@.reverse().subrange(0, digits@.len() as int) =~= digits@.reverse());
    out
}

} // verus!
