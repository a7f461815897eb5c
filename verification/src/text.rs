//! Character-level helpers the query compiler is built from: ASCII case
//! folding, decimal parsing and printing, lexicographic comparison, and the
//! SQL-style pattern match used by the `like` operator bucket.

use vstd::prelude::*;
use vstd::string::StrSliceExecFns;

verus! {

// ---------------------------------------------------------------------------
// Three-way comparison
// ---------------------------------------------------------------------------

/// Outcome of a three-way comparison.
#[derive(Clone, Copy, PartialEq, Eq, Structural, Debug)]
pub enum Cmp {
    Less,
    Equal,
    Greater,
}

// ---------------------------------------------------------------------------
// Characters of a string
// ---------------------------------------------------------------------------

/// The characters of a string slice, as a vector.
pub fn str_chars(s: &str) -> (r: Vec<char>)
    ensures
        r@ == s@,
{
    let n = s.unicode_len();
    let mut r: Vec<char> = Vec::new();
    let mut i: usize = 0;
    while i < n
        invariant
            i <= n,
            n == s@.len(),
            r@ == s@.take(i as int),
        decreases n - i,
    {
        r.push(s.get_char(i));
        i = i + 1;
    }
    proof {
        assert(s@.take(n as int) =~= s@);
    }
    r
}

/// Relies on `String::push`: appends exactly the given character.
#[verifier::external_body]
fn push_char(s: &mut String, c: char)
    ensures
        final(s)@ == old(s)@.push(c),
{
    s.push(c);
}

/// A string holding exactly the given characters.
pub fn chars_string(v: &Vec<char>) -> (r: String)
    ensures
        r@ == v@,
{
    let mut r = String::new();
    let mut i: usize = 0;
    while i < v.len()
        invariant
            i <= v.len(),
            r@ == v@.take(i as int),
        decreases v.len() - i,
    {
        push_char(&mut r, v[i]);
        proof {
            assert(v@.take(i + 1 as int) =~= v@.take(i as int).push(v@[i as int]));
        }
        i = i + 1;
    }
    proof {
        assert(v@.take(v.len() as int) =~= v@);
    }
    r
}

/// The characters of `v` from `from` (inclusive) to `to` (exclusive).
pub fn subvec(v: &Vec<char>, from: usize, to: usize) -> (r: Vec<char>)
    requires
        from <= to <= v.len(),
    ensures
        r@ == v@.subrange(from as int, to as int),
{
    let mut r: Vec<char> = Vec::new();
    let mut i: usize = from;
    while i < to
        invariant
            from <= i <= to <= v.len(),
            r@ == v@.subrange(from as int, i as int),
        decreases to - i,
    {
        r.push(v[i]);
        proof {
            assert(v@.subrange(from as int, i + 1 as int) =~= v@.subrange(
                from as int,
                i as int,
            ).push(v@[i as int]));
        }
        i = i + 1;
    }
    r
}

/// Whether `v` holds exactly the characters of `s`.
pub fn chars_eq_str(v: &Vec<char>, s: &str) -> (r: bool)
    ensures
        r == (v@ == s@),
{
    let n = s.unicode_len();
    if v.len() != n {
        return false;
    }
    let mut i: usize = 0;
    while i < n
        invariant
            i <= n,
            n == s@.len(),
            v@.len() == n,
            forall|j: int| 0 <= j < i ==> v@[j] == s@[j],
        decreases n - i,
    {
        if v[i] != s.get_char(i) {
            return false;
        }
        i = i + 1;
    }
    proof {
        assert(v@ =~= s@);
    }
    true
}

// ---------------------------------------------------------------------------
// ASCII case folding
// ---------------------------------------------------------------------------

/// ASCII lower-casing of one character; other characters are untouched.
pub open spec fn lower_char(c: char) -> char {
    match c {
        'A' => 'a',
        'B' => 'b',
        'C' => 'c',
        'D' => 'd',
        'E' => 'e',
        'F' => 'f',
        'G' => 'g',
        'H' => 'h',
        'I' => 'i',
        'J' => 'j',
        'K' => 'k',
        'L' => 'l',
        'M' => 'm',
        'N' => 'n',
        'O' => 'o',
        'P' => 'p',
        'Q' => 'q',
        'R' => 'r',
        'S' => 's',
        'T' => 't',
        'U' => 'u',
        'V' => 'v',
        'W' => 'w',
        'X' => 'x',
        'Y' => 'y',
        'Z' => 'z',
        _ => c,
    }
}

/// ASCII lower-casing of a character sequence.
pub open spec fn lower(s: Seq<char>) -> Seq<char> {
    s.map_values(|c: char| lower_char(c))
}

/// ASCII lower-casing of one character.
pub fn lower_char_x(c: char) -> (r: char)
    ensures
        r == lower_char(c),
{
    match c {
        'A' => 'a',
        'B' => 'b',
        'C' => 'c',
        'D' => 'd',
        'E' => 'e',
        'F' => 'f',
        'G' => 'g',
        'H' => 'h',
        'I' => 'i',
        'J' => 'j',
        'K' => 'k',
        'L' => 'l',
        'M' => 'm',
        'N' => 'n',
        'O' => 'o',
        'P' => 'p',
        'Q' => 'q',
        'R' => 'r',
        'S' => 's',
        'T' => 't',
        'U' => 'u',
        'V' => 'v',
        'W' => 'w',
        'X' => 'x',
        'Y' => 'y',
        'Z' => 'z',
        _ => c,
    }
}

/// ASCII lower-casing of a character vector.
pub fn lower_chars(v: &Vec<char>) -> (r: Vec<char>)
    ensures
        r@ == lower(v@),
{
    let mut r: Vec<char> = Vec::new();
    let mut i: usize = 0;
    while i < v.len()
        invariant
            i <= v.len(),
            r@ == lower(v@.take(i as int)),
        decreases v.len() - i,
    {
        r.push(lower_char_x(v[i]));
        proof {
            assert(lower(v@.take(i + 1 as int)) =~= lower(v@.take(i as int)).push(
                lower_char(v@[i as int]),
            ));
        }
        i = i + 1;
    }
    proof {
        assert(v@.take(v.len() as int) =~= v@);
    }
    r
}

// ---------------------------------------------------------------------------
// Finding a separator
// ---------------------------------------------------------------------------

/// The index of the first occurrence of `c` in `s`, if any.
pub open spec fn find_char(s: Seq<char>, c: char) -> Option<int>
    decreases s.len(),
{
    if s.len() == 0 {
        None
    } else if s[0] == c {
        Some(0)
    } else {
        match find_char(s.drop_first(), c) {
            Some(i) => Some(i + 1),
            None => None,
        }
    }
}

/// What `find_char` returns: the first index holding `c`, or nothing when
/// `c` does not occur.
pub proof fn lemma_find_char(s: Seq<char>, c: char)
    ensures
        match find_char(s, c) {
            Some(i) => 0 <= i < s.len() && s[i] == c && forall|j: int| 0 <= j < i ==> s[j] != c,
            None => forall|j: int| 0 <= j < s.len() ==> s[j] != c,
        },
    decreases s.len(),
{
    if s.len() > 0 && s[0] != c {
        lemma_find_char(s.drop_first(), c);
        match find_char(s.drop_first(), c) {
            Some(i) => {
                assert forall|j: int| 0 <= j < i + 1 implies s[j] != c by {
                    if j > 0 {
                        assert(s.drop_first()[j - 1] != c);
                    }
                }
            },
            None => {
                assert forall|j: int| 0 <= j < s.len() implies s[j] != c by {
                    if j > 0 {
                        assert(s.drop_first()[j - 1] != c);
                    }
                }
            },
        }
    }
}

/// The index of the first occurrence of `c` in `v`, if any.
pub fn find_char_x(v: &Vec<char>, c: char) -> (r: Option<usize>)
    ensures
        match r {
            Some(i) => find_char(v@, c) == Some(i as int),
            None => find_char(v@, c) is None,
        },
{
    let mut i: usize = 0;
    while i < v.len()
        invariant
            i <= v.len(),
            forall|j: int| 0 <= j < i ==> v@[j] != c,
        decreases v.len() - i,
    {
        if v[i] == c {
            proof {
                lemma_find_char(v@, c);
            }
            return Some(i);
        }
        i = i + 1;
    }
    proof {
        lemma_find_char(v@, c);
    }
    None
}

// ---------------------------------------------------------------------------
// Decimal parsing
// ---------------------------------------------------------------------------

/// Whether `c` is an ASCII decimal digit.
pub open spec fn is_digit(c: char) -> bool {
    48 <= c as u32 && c as u32 <= 57
}

/// The numeric value of an ASCII digit.
pub open spec fn digit_val(c: char) -> int {
    c as u32 - 48
}

/// Whether every character of `s` is an ASCII decimal digit.
pub open spec fn all_digits(s: Seq<char>) -> bool {
    forall|i: int| 0 <= i < s.len() ==> is_digit(s[i])
}

/// The value of a digit sequence read in base ten.
pub open spec fn digits_val(s: Seq<char>) -> int
    decreases s.len(),
{
    if s.len() == 0 {
        0
    } else {
        digits_val(s.drop_last()) * 10 + digit_val(s.last())
    }
}

/// The digit part of a numeric token: everything after an optional single
/// leading sign.
pub open spec fn digits_part(s: Seq<char>) -> Seq<char> {
    if s.len() > 0 && (s[0] == '+' || s[0] == '-') {
        s.drop_first()
    } else {
        s
    }
}

/// The sign of a numeric token.
pub open spec fn sign_of(s: Seq<char>) -> int {
    if s.len() > 0 && s[0] == '-' {
        -1
    } else {
        1
    }
}

/// The 32-bit integer a token denotes: an optional sign, then one or more
/// decimal digits, rejected when the value falls outside the 32-bit range.
pub open spec fn parse_i32(s: Seq<char>) -> Option<int> {
    let digits = digits_part(s);
    if digits.len() == 0 || !all_digits(digits) {
        None
    } else {
        let v = sign_of(s) * digits_val(digits);
        if -0x8000_0000 <= v <= 0x7fff_ffff {
            Some(v)
        } else {
            None
        }
    }
}

/// Whether `c` is an ASCII decimal digit.
pub fn is_digit_x(c: char) -> (r: bool)
    ensures
        r == is_digit(c),
{
    let u = c as u32;
    48 <= u && u <= 57
}

/// Digit values never shrink when more digits arrive.
proof fn lemma_digits_val_nonneg(s: Seq<char>)
    requires
        all_digits(s),
    ensures
        digits_val(s) >= 0,
    decreases s.len(),
{
    if s.len() > 0 {
        assert(all_digits(s.drop_last())) by {
            assert(forall|i: int| 0 <= i < s.len() - 1 ==> is_digit(#[trigger] s.drop_last()[i]));
        }
        lemma_digits_val_nonneg(s.drop_last());
    }
}

/// The 32-bit integer a token denotes, if any.
pub fn parse_i32_x(v: &Vec<char>) -> (r: Option<i32>)
    ensures
        match r {
            Some(n) => parse_i32(v@) == Some(n as int),
            None => parse_i32(v@) is None,
        },
{
    let ghost s = v@;
    let mut i: usize = 0;
    let mut neg: bool = false;
    if v.len() > 0 && (v[0] == '+' || v[0] == '-') {
        neg = v[0] == '-';
        i = 1;
    }
    let ghost digits = digits_part(s);
    proof {
        assert(digits =~= s.skip(i as int));
    }
    if i >= v.len() {
        return None;
    }
    // `acc` tracks the digit value exactly while it stays within the 32-bit
    // magnitude bound, and saturates just above it otherwise.
    let mut acc: i64 = 0;
    while i < v.len()
        invariant
            digits == s.skip((if s.len() > 0 && (s[0] == '+' || s[0] == '-') {
                1int
            } else {
                0int
            })),
            digits.len() > 0,
            s.len() - digits.len() <= i <= s.len(),
            s == v@,
            all_digits(digits.take(i - (s.len() - digits.len()))),
            0 <= acc <= 0x8000_0001,
            digits_val(digits.take(i - (s.len() - digits.len()))) <= 0x8000_0000 ==> acc
                == digits_val(digits.take(i - (s.len() - digits.len()))),
            digits_val(digits.take(i - (s.len() - digits.len()))) > 0x8000_0000 ==> acc
                > 0x8000_0000,
        decreases v.len() - i,
    {
        let c = v[i];
        let ghost off = s.len() - digits.len();
        let ghost pre = digits.take(i - off);
        if !is_digit_x(c) {
            proof {
                assert(digits[i - off] == c);
                assert(!all_digits(digits));
            }
            return None;
        }
        let d = (c as u32) as i64;
        proof {
            assert(digits.take(i + 1 - off) =~= pre.push(c));
            assert(digits.take(i + 1 - off).drop_last() =~= pre);
            lemma_digits_val_nonneg(pre);
        }
        acc = acc * 10 + (d - 48);
        if acc > 0x8000_0000 {
            acc = 0x8000_0001;
        }
        i = i + 1;
    }
    proof {
        assert(digits.take(digits.len() as int) =~= digits);
        lemma_digits_val_nonneg(digits);
    }
    if neg {
        if acc > 0x8000_0000 {
            None
        } else {
            Some((-acc) as i32)
        }
    } else {
        if acc > 0x7fff_ffff {
            None
        } else {
            Some(acc as i32)
        }
    }
}

// ---------------------------------------------------------------------------
// Decimal printing
// ---------------------------------------------------------------------------

/// The digit character of a value in 0..=9.
pub open spec fn digit_char(d: int) -> char {
    if d == 0 {
        '0'
    } else if d == 1 {
        '1'
    } else if d == 2 {
        '2'
    } else if d == 3 {
        '3'
    } else if d == 4 {
        '4'
    } else if d == 5 {
        '5'
    } else if d == 6 {
        '6'
    } else if d == 7 {
        '7'
    } else if d == 8 {
        '8'
    } else {
        '9'
    }
}

/// The decimal digits of a non-negative value; empty for zero.
pub open spec fn dec_digits(n: int) -> Seq<char>
    decreases n,
{
    if n <= 0 {
        seq![]
    } else {
        dec_digits(n / 10).push(digit_char(n % 10))
    }
}

/// The decimal rendering of an integer.
pub open spec fn dec_str(n: int) -> Seq<char> {
    if n == 0 {
        seq!['0']
    } else if n < 0 {
        seq!['-'] + dec_digits(-n)
    } else {
        dec_digits(n)
    }
}

/// The digit character of a value in 0..=9.
fn digit_char_x(d: u64) -> (r: char)
    requires
        d < 10,
    ensures
        r == digit_char(d as int),
{
    match d {
        0 => '0',
        1 => '1',
        2 => '2',
        3 => '3',
        4 => '4',
        5 => '5',
        6 => '6',
        7 => '7',
        8 => '8',
        _ => '9',
    }
}

/// Appends the decimal digits of `n` to `out`.
fn push_dec(n: u64, out: &mut Vec<char>)
    ensures
        final(out)@ == old(out)@ + dec_digits(n as int),
    decreases n,
{
    if n == 0 {
        proof {
            assert(old(out)@ + dec_digits(0) =~= old(out)@);
        }
    } else {
        push_dec(n / 10, out);
        out.push(digit_char_x(n % 10));
    }
}

/// The decimal rendering of a 64-bit integer, as characters.
pub fn dec_chars_i64(n: i64) -> (r: Vec<char>)
    ensures
        r@ == dec_str(n as int),
{
    let mut out: Vec<char> = Vec::new();
    if n == 0 {
        out.push('0');
    } else if n < 0 {
        out.push('-');
        let m: u64 = (-(n + 1)) as u64;
        push_dec(m + 1, &mut out);
    } else {
        push_dec(n as u64, &mut out);
    }
    out
}

/// The decimal rendering of a 64-bit integer.
pub fn dec_string_i64(n: i64) -> (r: String)
    ensures
        r@ == dec_str(n as int),
{
    let v = dec_chars_i64(n);
    chars_string(&v)
}

/// Digit characters are digits and carry their value.
proof fn lemma_digit_char(d: int)
    requires
        0 <= d <= 9,
    ensures
        is_digit(digit_char(d)),
        digit_val(digit_char(d)) == d,
{
}

/// The digits of a non-negative value are all digits and read back as it.
proof fn lemma_dec_digits(n: int)
    requires
        n >= 0,
    ensures
        all_digits(dec_digits(n)),
        digits_val(dec_digits(n)) == n,
        n > 0 ==> dec_digits(n).len() > 0,
    decreases n,
{
    if n > 0 {
        lemma_dec_digits(n / 10);
        lemma_digit_char(n % 10);
        let s = dec_digits(n);
        assert(s == dec_digits(n / 10).push(digit_char(n % 10)));
        assert(s.drop_last() =~= dec_digits(n / 10));
        assert forall|i: int| 0 <= i < s.len() implies is_digit(s[i]) by {
            if i < s.len() - 1 {
                assert(s[i] == dec_digits(n / 10)[i]);
            }
        }
    }
}

/// Printing an integer and parsing it back returns the same integer.
pub proof fn lemma_parse_dec_roundtrip(n: int)
    requires
        -0x8000_0000 <= n <= 0x7fff_ffff,
    ensures
        parse_i32(dec_str(n)) == Some(n),
{
    if n == 0 {
        let s = dec_str(n);
        assert(s == seq!['0']);
        lemma_digit_char(0);
        assert(digits_part(s) =~= s);
        assert(all_digits(s));
        assert(digits_val(s) == digits_val(s.drop_last()) * 10 + digit_val(s.last()));
        assert(s.drop_last() =~= Seq::<char>::empty());
    } else if n > 0 {
        let s = dec_str(n);
        assert(s == dec_digits(n));
        lemma_dec_digits(n);
        assert(is_digit(s[0]));
        assert(s[0] != '+' && s[0] != '-');
        assert(digits_part(s) == s);
        assert(sign_of(s) == 1);
    } else {
        let s = dec_str(n);
        assert(s == seq!['-'] + dec_digits(-n));
        lemma_dec_digits(-n);
        assert(s[0] == '-');
        assert(digits_part(s) =~= dec_digits(-n));
        assert(sign_of(s) == -1);
    }
}

// ---------------------------------------------------------------------------
// Lexicographic comparison
// ---------------------------------------------------------------------------

/// Lexicographic three-way comparison of character sequences by code point.
pub open spec fn cmp_chars(a: Seq<char>, b: Seq<char>) -> Cmp
    decreases a.len(),
{
    if a.len() == 0 && b.len() == 0 {
        Cmp::Equal
    } else if a.len() == 0 {
        Cmp::Less
    } else if b.len() == 0 {
        Cmp::Greater
    } else if a[0] == b[0] {
        cmp_chars(a.drop_first(), b.drop_first())
    } else if (a[0] as u32) < (b[0] as u32) {
        Cmp::Less
    } else {
        Cmp::Greater
    }
}

/// `a` precedes or equals `b` lexicographically.
pub open spec fn chars_le(a: Seq<char>, b: Seq<char>) -> bool {
    cmp_chars(a, b) != Cmp::Greater
}

/// Comparing equal means being equal.
pub proof fn lemma_cmp_chars_equal(a: Seq<char>, b: Seq<char>)
    ensures
        (cmp_chars(a, b) == Cmp::Equal) == (a =~= b),
    decreases a.len(),
{
    if a.len() > 0 && b.len() > 0 && a[0] == b[0] {
        lemma_cmp_chars_equal(a.drop_first(), b.drop_first());
        if a.drop_first() =~= b.drop_first() {
            assert(a.len() == b.len());
            assert forall|j: int| 0 <= j < a.len() implies a[j] == b[j] by {
                if j > 0 {
                    assert(a.drop_first()[j - 1] == b.drop_first()[j - 1]);
                }
            }
            assert(a =~= b);
        } else {
            if a =~= b {
                assert(a.drop_first() =~= b.drop_first());
            }
        }
    }
}

/// Dropping an equal prefix keeps the comparison outcome.
proof fn lemma_cmp_chars_skip(a: Seq<char>, b: Seq<char>, i: int)
    requires
        0 <= i <= a.len(),
        i <= b.len(),
        forall|j: int| 0 <= j < i ==> a[j] == b[j],
    ensures
        cmp_chars(a, b) == cmp_chars(a.skip(i), b.skip(i)),
    decreases i,
{
    if i > 0 {
        assert(a.len() > 0 && b.len() > 0 && a[0] == b[0]);
        assert(cmp_chars(a, b) == cmp_chars(a.drop_first(), b.drop_first()));
        lemma_cmp_chars_skip(a.drop_first(), b.drop_first(), i - 1);
        assert(a.drop_first().skip(i - 1) =~= a.skip(i));
        assert(b.drop_first().skip(i - 1) =~= b.skip(i));
    } else {
        assert(a.skip(0) =~= a);
        assert(b.skip(0) =~= b);
    }
}

/// Lexicographic three-way comparison of character vectors.
pub fn cmp_chars_x(a: &Vec<char>, b: &Vec<char>) -> (r: Cmp)
    ensures
        r == cmp_chars(a@, b@),
{
    let mut i: usize = 0;
    loop
        invariant
            i <= a.len(),
            i <= b.len(),
            forall|j: int| 0 <= j < i ==> a@[j] == b@[j],
        decreases a.len() - i,
    {
        proof {
            lemma_cmp_chars_skip(a@, b@, i as int);
        }
        if i >= a.len() && i >= b.len() {
            proof {
                assert(a@.skip(i as int).len() == 0 && b@.skip(i as int).len() == 0);
            }
            return Cmp::Equal;
        }
        if i >= a.len() {
            return Cmp::Less;
        }
        if i >= b.len() {
            return Cmp::Greater;
        }
        let ca = a[i];
        let cb = b[i];
        proof {
            assert(a@.skip(i as int)[0] == ca && b@.skip(i as int)[0] == cb);
        }
        if ca == cb {
            i = i + 1;
        } else if (ca as u32) < (cb as u32) {
            return Cmp::Less;
        } else {
            return Cmp::Greater;
        }
    }
}

// ---------------------------------------------------------------------------
// SQL-style pattern matching
// ---------------------------------------------------------------------------

/// Whether text `t` matches pattern `p`, where `%` matches any run of
/// characters and `_` matches exactly one.  Matching is case-sensitive.
pub open spec fn like_match(p: Seq<char>, t: Seq<char>) -> bool
    decreases p.len() + t.len(),
{
    if p.len() == 0 {
        t.len() == 0
    } else if p[0] == '%' {
        like_match(p.drop_first(), t) || (t.len() > 0 && like_match(p, t.drop_first()))
    } else if t.len() > 0 && (p[0] == '_' || p[0] == t[0]) {
        like_match(p.drop_first(), t.drop_first())
    } else {
        false
    }
}

/// Whether the text from `t[ti..]` matches the pattern from `p[pi..]`.
fn like_match_at(p: &Vec<char>, pi: usize, t: &Vec<char>, ti: usize) -> (r: bool)
    requires
        pi <= p.len(),
        ti <= t.len(),
    ensures
        r == like_match(p@.skip(pi as int), t@.skip(ti as int)),
    decreases (p.len() - pi) + (t.len() - ti),
{
    let ghost ps = p@.skip(pi as int);
    let ghost ts = t@.skip(ti as int);
    if pi >= p.len() {
        return ti >= t.len();
    }
    let pc = p[pi];
    proof {
        assert(ps[0] == pc);
        assert(ps.drop_first() =~= p@.skip(pi + 1));
        if ti < t.len() {
            assert(ts[0] == t@[ti as int]);
            assert(ts.drop_first() =~= t@.skip(ti + 1));
        }
    }
    if pc == '%' {
        if like_match_at(p, pi + 1, t, ti) {
            return true;
        }
        if ti < t.len() {
            return like_match_at(p, pi, t, ti + 1);
        }
        return false;
    }
    if ti >= t.len() {
        return false;
    }
    let tc = t[ti];
    if pc == '_' || pc == tc {
        return like_match_at(p, pi + 1, t, ti + 1);
    }
    false
}

/// Whether text `t` matches pattern `p` in the SQL `LIKE` sense.
pub fn like_match_x(p: &Vec<char>, t: &Vec<char>) -> (r: bool)
    ensures
        r == like_match(p@, t@),
{
    proof {
        assert(p@.skip(0) =~= p@);
        assert(t@.skip(0) =~= t@);
    }
    like_match_at(p, 0, t, 0)
}

} // verus!
