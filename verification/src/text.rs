//! Character-level text handling shared by the protocol and file-format code:
//! whitespace trimming, substring search, integer parsing and formatting.
//!
//! Strings are modelled by their `Seq<char>` view.

use vstd::prelude::*;
use vstd::utf8::*;

verus! {

// ---------------------------------------------------------------------------
// Whitespace and trimming
// ---------------------------------------------------------------------------

/// The Unicode `White_Space` property, which is what `char::is_whitespace`
/// and `str::trim` go by.
pub open spec fn is_ws(c: char) -> bool {
    let u = c as u32;
    ||| 0x09 <= u <= 0x0D
    ||| u == 0x20
    ||| u == 0x85
    ||| u == 0xA0
    ||| u == 0x1680
    ||| 0x2000 <= u <= 0x200A
    ||| u == 0x2028
    ||| u == 0x2029
    ||| u == 0x202F
    ||| u == 0x205F
    ||| u == 0x3000
}

/// `s` with its leading whitespace removed.
pub open spec fn trim_start(s: Seq<char>) -> Seq<char>
    decreases s.len(),
{
    if s.len() > 0 && is_ws(s[0]) {
        trim_start(s.drop_first())
    } else {
        s
    }
}

/// `s` with its trailing whitespace removed.
pub open spec fn trim_end(s: Seq<char>) -> Seq<char>
    decreases s.len(),
{
    if s.len() > 0 && is_ws(s.last()) {
        trim_end(s.drop_last())
    } else {
        s
    }
}

/// `s` with whitespace removed at both ends (`str::trim`).
pub open spec fn trim(s: Seq<char>) -> Seq<char> {
    trim_end(trim_start(s))
}

/// Whether `c` is whitespace in the sense of [`is_ws`].
pub fn is_whitespace(c: char) -> (r: bool)
    ensures
        r == is_ws(c),
{
    let u: u32 = c as u32;
    (0x09 <= u && u <= 0x0D) || u == 0x20 || u == 0x85 || u == 0xA0 || u == 0x1680 || (0x2000
        <= u && u <= 0x200A) || u == 0x2028 || u == 0x2029 || u == 0x202F || u == 0x205F || u
        == 0x3000
}

/// Index of the first character of `trim_start(s.skip(from))` within `s`.
fn trim_start_index(s: &Vec<char>) -> (i: usize)
    ensures
        i <= s@.len(),
        trim_start(s@) == s@.skip(i as int),
{
    let mut i: usize = 0;
    assert(s@.skip(0) =~= s@);
    while i < s.len() && is_whitespace(s[i])
        invariant
            i <= s@.len(),
            trim_start(s@) == trim_start(s@.skip(i as int)),
        decreases s@.len() - i,
    {
        assert(s@.skip(i as int).drop_first() =~= s@.skip(i + 1));
        i = i + 1;
    }
    i
}

/// Characters of `s`, with whitespace removed at both ends.
pub fn trim_chars(s: &Vec<char>) -> (r: Vec<char>)
    ensures
        r@ == trim(s@),
{
    let start: usize = trim_start_index(s);
    let mut end: usize = s.len();
    let ghost t = s@.skip(start as int);
    assert(t.take(t.len() as int) =~= t);
    while end > start && is_whitespace(s[end - 1])
        invariant
            start <= end <= s@.len(),
            t == s@.skip(start as int),
            trim_end(t) == trim_end(t.take(end - start)),
        decreases end,
    {
        assert(t.take(end - start).drop_last() =~= t.take(end - 1 - start));
        end = end - 1;
    }
    let r: Vec<char> = slice_chars(s, start, end);
    assert(r@ =~= t.take(end - start));
    r
}

/// `s[start..end]` as a fresh vector.
pub fn slice_chars(s: &Vec<char>, start: usize, end: usize) -> (r: Vec<char>)
    requires
        start <= end <= s@.len(),
    ensures
        r@ == s@.subrange(start as int, end as int),
{
    let mut r: Vec<char> = Vec::new();
    let mut k: usize = start;
    while k < end
        invariant
            start <= k <= end <= s@.len(),
            r@ == s@.subrange(start as int, k as int),
        decreases end - k,
    {
        r.push(s[k]);
        assert(r@ =~= s@.subrange(start as int, k + 1));
        k = k + 1;
    }
    r
}

// ---------------------------------------------------------------------------
// Conversions between `str`, `String` and `Vec<char>`
// ---------------------------------------------------------------------------

/// The characters of `s`.
pub fn chars_of(s: &str) -> (v: Vec<char>)
    ensures
        v@ == s@,
{
    broadcast use vstd::string::axiom_spec_iter;

    let mut v: Vec<char> = Vec::new();
    for c in it: s.chars()
        invariant
            v@ == it.seq().take(it.index() as int),
            it.seq() == s@,
    {
        v.push(c);
    }
    v
}

/// The view of an optional string.
pub open spec fn opt_view(o: Option<String>) -> Option<Seq<char>> {
    match o {
        Some(s) => Some(s@),
        None => None,
    }
}

/// Appends one character to a `String` (`String::push`).
#[verifier::external_body]
fn push_char(s: &mut String, c: char)
    ensures
        final(s)@ == old(s)@.push(c),
{
    s.push(c);
}

/// A `String` holding the characters of `v`.
pub fn string_of(v: &Vec<char>) -> (s: String)
    ensures
        s@ == v@,
{
    let mut s: String = String::new();
    let mut k: usize = 0;
    while k < v.len()
        invariant
            k <= v@.len(),
            s@ == v@.take(k as int),
        decreases v@.len() - k,
    {
        push_char(&mut s, v[k]);
        assert(v@.take(k + 1) =~= v@.take(k as int).push(v@[k as int]));
        k = k + 1;
    }
    assert(v@.take(v@.len() as int) =~= v@);
    s
}

// ---------------------------------------------------------------------------
// Prefixes and substrings
// ---------------------------------------------------------------------------

/// `p` occurs in `s` starting at position `i`.
pub open spec fn occurs_at(s: Seq<char>, p: Seq<char>, i: int) -> bool {
    0 <= i && i + p.len() <= s.len() && s.subrange(i, i + p.len()) == p
}

/// `p` occurs somewhere in `s` (`str::contains`).
pub open spec fn contains(s: Seq<char>, p: Seq<char>) -> bool {
    exists|i: int| occurs_at(s, p, i)
}

/// `s` begins with `p` (`str::starts_with`).
pub open spec fn starts_with(s: Seq<char>, p: Seq<char>) -> bool {
    p.len() <= s.len() && s.take(p.len() as int) == p
}

/// Whether `p` occurs in `s` at position `i`.
pub fn occurs_at_exec(s: &Vec<char>, p: &Vec<char>, i: usize) -> (r: bool)
    ensures
        r == occurs_at(s@, p@, i as int),
{
    if i > s.len() || p.len() > s.len() - i {
        return false;
    }
    let mut k: usize = 0;
    while k < p.len()
        invariant
            i + p@.len() <= s.len(),
            k <= p@.len(),
            forall|j: int| 0 <= j < k ==> s@[i + j] == p@[j],
        decreases p@.len() - k,
    {
        if s[i + k] != p[k] {
            assert(s@.subrange(i as int, i + p@.len())[k as int] != p@[k as int]);
            return false;
        }
        k = k + 1;
    }
    assert(s@.subrange(i as int, i + p@.len()) =~= p@);
    true
}

/// Whether `p` occurs anywhere in `s`.
pub fn contains_exec(s: &Vec<char>, p: &Vec<char>) -> (r: bool)
    ensures
        r == contains(s@, p@),
{
    let mut i: usize = 0;
    while i <= s.len()
        invariant
            i <= s@.len() + 1,
            forall|j: int| 0 <= j < i ==> !occurs_at(s@, p@, j),
        decreases s@.len() + 1 - i,
    {
        if occurs_at_exec(s, p, i) {
            return true;
        }
        if i == s.len() {
            assert forall|j: int| !occurs_at(s@, p@, j) by {
                if 0 <= j && j < i {
                } else if j >= i + 1 {
                }
            }
            return false;
        }
        i = i + 1;
    }
    false
}

/// Whether `s` begins with `p`.
pub fn starts_with_exec(s: &Vec<char>, p: &Vec<char>) -> (r: bool)
    ensures
        r == starts_with(s@, p@),
{
    let r: bool = occurs_at_exec(s, p, 0);
    assert(r ==> s@.take(p@.len() as int) =~= s@.subrange(0, p@.len() as int));
    assert(starts_with(s@, p@) ==> s@.subrange(0, p@.len() as int) =~= s@.take(
        p@.len() as int,
    ));
    r
}

// ---------------------------------------------------------------------------
// Digits
// ---------------------------------------------------------------------------

/// The value of a digit character in base `radix` (`char::to_digit`).
pub open spec fn digit_value(c: char, radix: nat) -> Option<nat> {
    let u = c as u32;
    let v: int = if 0x30 <= u <= 0x39 {
        u - 0x30
    } else if 0x61 <= u <= 0x7A {
        u - 0x61 + 10
    } else if 0x41 <= u <= 0x5A {
        u - 0x41 + 10
    } else {
        99
    };
    if v < radix {
        Some(v as nat)
    } else {
        None
    }
}

/// The value of a non-empty run of digits in base `radix`, or `None` when a
/// character is not such a digit.
pub open spec fn digits_value(s: Seq<char>, radix: nat) -> Option<nat>
    decreases s.len(),
{
    if s.len() == 0 {
        Some(0)
    } else {
        match (digits_value(s.drop_last(), radix), digit_value(s.last(), radix)) {
            (Some(hi), Some(d)) => Some(hi * radix + d),
            _ => None,
        }
    }
}

/// What `u8::from_str_radix(s, radix)` gives, for an unsigned result with the
/// given maximum: an optional `+`, then one or more digits.
pub open spec fn parse_unsigned(s: Seq<char>, radix: nat, max: nat) -> Option<nat> {
    let digits = if s.len() > 0 && s[0] == '+' {
        s.drop_first()
    } else {
        s
    };
    if digits.len() == 0 {
        None
    } else {
        match digits_value(digits, radix) {
            Some(v) => if v <= max {
                Some(v)
            } else {
                None
            },
            None => None,
        }
    }
}

/// What `str::parse::<i32>` gives: an optional sign, then one or more decimal
/// digits, the value within `i32`.
pub open spec fn parse_i32(s: Seq<char>) -> Option<int> {
    let neg = s.len() > 0 && s[0] == '-';
    let digits = if s.len() > 0 && (s[0] == '+' || s[0] == '-') {
        s.drop_first()
    } else {
        s
    };
    if digits.len() == 0 {
        None
    } else {
        match digits_value(digits, 10) {
            Some(v) => {
                let x: int = if neg {
                    -v
                } else {
                    v as int
                };
                if i32::MIN <= x <= i32::MAX {
                    Some(x)
                } else {
                    None
                }
            },
            None => None,
        }
    }
}

/// The value of digit `c` in base `radix`.
pub fn digit_of(c: char, radix: u32) -> (r: Option<u32>)
    requires
        radix <= 36,
    ensures
        match r {
            Some(v) => digit_value(c, radix as nat) == Some(v as nat),
            None => digit_value(c, radix as nat) is None,
        },
{
    let u: u32 = c as u32;
    let v: u32 = if 0x30 <= u && u <= 0x39 {
        u - 0x30
    } else if 0x61 <= u && u <= 0x7A {
        u - 0x61 + 10
    } else if 0x41 <= u && u <= 0x5A {
        u - 0x41 + 10
    } else {
        99
    };
    if v < radix {
        Some(v)
    } else {
        None
    }
}

proof fn lemma_digits_value_grows(s: Seq<char>, radix: nat, k: int)
    requires
        radix >= 1,
        0 <= k <= s.len(),
        digits_value(s, radix) is Some,
    ensures
        digits_value(s.take(k), radix) is Some,
        digits_value(s.take(k), radix).unwrap() <= digits_value(s, radix).unwrap(),
    decreases s.len(),
{
    if k == s.len() {
        assert(s.take(k) =~= s);
    } else {
        let hi = digits_value(s.drop_last(), radix).unwrap();
        assert(s.drop_last().take(k) =~= s.take(k));
        lemma_digits_value_grows(s.drop_last(), radix, k);
        assert(hi <= hi * radix) by (nonlinear_arith)
            requires
                radix >= 1,
        ;
    }
}

/// Parses `digits` (already stripped of any sign) in base `radix`; `None`
/// when a character is not a digit or the value exceeds `max`.
fn parse_digits(digits: &Vec<char>, from: usize, radix: u32, max: u64) -> (r: Option<u64>)
    requires
        2 <= radix <= 36,
        from <= digits@.len(),
        max <= u32::MAX,
    ensures
        match r {
            Some(v) => digits_value(digits@.skip(from as int), radix as nat) == Some(v as nat)
                && v <= max,
            None => match digits_value(digits@.skip(from as int), radix as nat) {
                Some(v) => v > max,
                None => true,
            },
        },
{
    let ghost s = digits@.skip(from as int);
    let mut acc: u64 = 0;
    let mut k: usize = from;
    assert(s.take(0) =~= Seq::<char>::empty());
    while k < digits.len()
        invariant
            from <= k <= digits@.len(),
            s == digits@.skip(from as int),
            2 <= radix <= 36,
            max <= u32::MAX,
            acc <= max,
            digits_value(s.take(k - from), radix as nat) == Some(acc as nat),
        decreases digits@.len() - k,
    {
        let c: char = digits[k];
        assert(s.take(k + 1 - from).drop_last() =~= s.take(k - from));
        assert(s.take(k + 1 - from).last() == c);
        match digit_of(c, radix) {
            None => {
                proof {
                    if digits_value(s, radix as nat) is Some {
                        lemma_digits_value_grows(s, radix as nat, k + 1 - from);
                    }
                }
                return None;
            },
            Some(d) => {
                assert(acc * radix <= u32::MAX * 36) by (nonlinear_arith)
                    requires
                        acc <= u32::MAX,
                        radix <= 36,
                ;
                let next: u64 = acc * (radix as u64) + (d as u64);
                if next > max {
                    proof {
                        if digits_value(s, radix as nat) is Some {
                            lemma_digits_value_grows(s, radix as nat, k + 1 - from);
                        }
                    }
                    return None;
                }
                acc = next;
            },
        }
        k = k + 1;
    }
    assert(s.take(k - from) =~= s);
    Some(acc)
}

/// `u8::from_str_radix(s, 16)` on the characters `s`.
pub fn parse_hex_u8(s: &Vec<char>) -> (r: Option<u8>)
    ensures
        match r {
            Some(v) => parse_unsigned(s@, 16, 255) == Some(v as nat),
            None => parse_unsigned(s@, 16, 255) is None,
        },
{
    let from: usize = if s.len() > 0 && s[0] == '+' {
        1
    } else {
        0
    };
    assert(from == 1 ==> s@.skip(1) =~= s@.drop_first());
    assert(s@.skip(0) =~= s@);
    if from >= s.len() {
        return None;
    }
    match parse_digits(s, from, 16, 255) {
        Some(v) => Some(v as u8),
        None => None,
    }
}

/// `str::parse::<u32>` on the characters `s`.
pub fn parse_u32_chars(s: &Vec<char>) -> (r: Option<u32>)
    ensures
        match r {
            Some(v) => parse_unsigned(s@, 10, u32::MAX as nat) == Some(v as nat),
            None => parse_unsigned(s@, 10, u32::MAX as nat) is None,
        },
{
    let from: usize = if s.len() > 0 && s[0] == '+' {
        1
    } else {
        0
    };
    assert(from == 1 ==> s@.skip(1) =~= s@.drop_first());
    assert(s@.skip(0) =~= s@);
    if from >= s.len() {
        return None;
    }
    match parse_digits(s, from, 10, 0xFFFF_FFFF) {
        Some(v) => Some(v as u32),
        None => None,
    }
}

/// `str::parse::<i32>` on the characters `s`.
pub fn parse_i32_chars(s: &Vec<char>) -> (r: Option<i32>)
    ensures
        match r {
            Some(v) => parse_i32(s@) == Some(v as int),
            None => parse_i32(s@) is None,
        },
{
    let neg: bool = s.len() > 0 && s[0] == '-';
    let from: usize = if s.len() > 0 && (s[0] == '+' || s[0] == '-') {
        1
    } else {
        0
    };
    assert(from == 1 ==> s@.skip(1) =~= s@.drop_first());
    assert(s@.skip(0) =~= s@);
    if from >= s.len() {
        return None;
    }
    let max: u64 = if neg {
        0x8000_0000
    } else {
        0x7FFF_FFFF
    };
    match parse_digits(s, from, 10, max) {
        Some(v) => {
            if neg {
                Some((0 - (v as i64)) as i32)
            } else {
                Some(v as i32)
            }
        },
        None => None,
    }
}

// ---------------------------------------------------------------------------
// Formatting
// ---------------------------------------------------------------------------

/// The character of decimal digit `d`.
pub open spec fn digit_char(d: nat) -> char {
    ((d + 0x30) as u32) as char
}

/// Decimal representation of `n` without leading zeros (`format!("{}", n)`).
pub open spec fn decimal(n: nat) -> Seq<char>
    decreases n,
{
    if n < 10 {
        seq![digit_char(n)]
    } else {
        decimal(n / 10).push(digit_char(n % 10))
    }
}

/// Decimal representation of a signed integer, with `-` for negatives.
pub open spec fn signed_decimal(n: int) -> Seq<char> {
    if n < 0 {
        seq!['-'] + decimal((-n) as nat)
    } else {
        decimal(n as nat)
    }
}

/// Decimal digits of `n`.
pub fn decimal_chars(n: u64) -> (r: Vec<char>)
    ensures
        r@ == decimal(n as nat),
    decreases n,
{
    if n < 10 {
        let mut r: Vec<char> = Vec::new();
        r.push(char_of_digit(n as u32));
        assert(r@ =~= seq![digit_char(n as nat)]);
        r
    } else {
        let mut r: Vec<char> = decimal_chars(n / 10);
        r.push(char_of_digit((n % 10) as u32));
        r
    }
}

/// The character of decimal digit `d`.
pub fn char_of_digit(d: u32) -> (c: char)
    requires
        d < 10,
    ensures
        c == digit_char(d as nat),
{
    if d == 0 {
        '0'
    } else if d == 1 {
        '1'
    } else if d == 2 {
        '2'
    } else if d == 3 {
        '3'
    } else if d == 4 {
        '4'
    } else if d == 5 {
        '5'
    } else if d == 6 {
        '6'
    } else if d == 7 {
        '7'
    } else if d == 8 {
        '8'
    } else {
        '9'
    }
}

/// Decimal representation of `n`, with a leading `-` when negative.
pub fn signed_decimal_chars(n: i64) -> (r: Vec<char>)
    requires
        n > i64::MIN,
    ensures
        r@ == signed_decimal(n as int),
{
    if n < 0 {
        let mut r: Vec<char> = Vec::new();
        r.push('-');
        let mut d: Vec<char> = decimal_chars((0 - n) as u64);
        let ghost dv = d@;
        r.append(&mut d);
        assert(r@ =~= seq!['-'] + dv);
        r
    } else {
        decimal_chars(n as u64)
    }
}

/// Appends the characters of `src` to `dst`.
pub fn push_all(dst: &mut Vec<char>, src: &Vec<char>)
    ensures
        final(dst)@ == old(dst)@ + src@,
{
    let mut k: usize = 0;
    while k < src.len()
        invariant
            k <= src@.len(),
            dst@ == old(dst)@ + src@.take(k as int),
        decreases src@.len() - k,
    {
        dst.push(src[k]);
        assert(src@.take(k + 1) =~= src@.take(k as int).push(src@[k as int]));
        k = k + 1;
    }
    assert(src@.take(src@.len() as int) =~= src@);
}

/// Appends the characters of `s` to `dst`.
pub fn push_str(dst: &mut Vec<char>, s: &str)
    ensures
        final(dst)@ == old(dst)@ + s@,
{
    let v: Vec<char> = chars_of(s);
    push_all(dst, &v);
}

/// The upper-case hexadecimal digit of `d` (`{:X}`).
pub open spec fn hex_upper(d: nat) -> char {
    if d < 10 {
        digit_char(d)
    } else {
        ((d - 10 + 0x41) as u32) as char
    }
}

/// The lower-case hexadecimal digit of `d` (`{:x}`).
pub open spec fn hex_lower(d: nat) -> char {
    if d < 10 {
        digit_char(d)
    } else {
        ((d - 10 + 0x61) as u32) as char
    }
}

/// Two hexadecimal digits for byte `b` (`{:02X}` or `{:02x}`).
pub open spec fn hex_byte(b: u8, upper: bool) -> Seq<char> {
    if upper {
        seq![hex_upper((b / 16) as nat), hex_upper((b % 16) as nat)]
    } else {
        seq![hex_lower((b / 16) as nat), hex_lower((b % 16) as nat)]
    }
}

fn hex_digit_char(d: u8, upper: bool) -> (c: char)
    requires
        d < 16,
    ensures
        upper ==> c == hex_upper(d as nat),
        !upper ==> c == hex_lower(d as nat),
{
    if d < 10 {
        char_of_digit(d as u32)
    } else if upper {
        if d == 10 {
            'A'
        } else if d == 11 {
            'B'
        } else if d == 12 {
            'C'
        } else if d == 13 {
            'D'
        } else if d == 14 {
            'E'
        } else {
            'F'
        }
    } else {
        if d == 10 {
            'a'
        } else if d == 11 {
            'b'
        } else if d == 12 {
            'c'
        } else if d == 13 {
            'd'
        } else if d == 14 {
            'e'
        } else {
            'f'
        }
    }
}

/// Appends the two hexadecimal digits of `b` to `dst`.
pub fn push_hex_byte(dst: &mut Vec<char>, b: u8, upper: bool)
    ensures
        final(dst)@ == old(dst)@ + hex_byte(b, upper),
{
    let hi: char = hex_digit_char(b / 16, upper);
    let lo: char = hex_digit_char(b % 16, upper);
    dst.push(hi);
    dst.push(lo);
    assert(dst@ =~= old(dst)@ + hex_byte(b, upper));
}

} // verus!

verus! {

// ---------------------------------------------------------------------------
// Finding and splitting
// ---------------------------------------------------------------------------

/// The first position at or after `i` where `p` occurs in `s`.
pub open spec fn find_from(s: Seq<char>, p: Seq<char>, i: int) -> Option<int>
    decreases s.len() + 1 - i,
{
    if i < 0 || i > s.len() {
        None
    } else if occurs_at(s, p, i) {
        Some(i)
    } else {
        find_from(s, p, i + 1)
    }
}

/// A position found by [`find_from`] holds an occurrence at or after `i`.
pub proof fn lemma_find_from(s: Seq<char>, p: Seq<char>, i: int)
    ensures
        find_from(s, p, i) matches Some(j) ==> i <= j <= s.len() && occurs_at(s, p, j),
    decreases s.len() + 1 - i,
{
    if 0 <= i <= s.len() && !occurs_at(s, p, i) {
        lemma_find_from(s, p, i + 1);
    }
}

/// The first piece of `s` split at `p` (`s.split(p).next()`): everything
/// before the first occurrence of `p`, or all of `s`.
pub open spec fn before_first(s: Seq<char>, p: Seq<char>) -> Seq<char> {
    match find_from(s, p, 0) {
        Some(i) => s.take(i),
        None => s,
    }
}

/// The rest of `s` after the first occurrence of `p`, if `p` occurs.
pub open spec fn after_first(s: Seq<char>, p: Seq<char>) -> Option<Seq<char>> {
    match find_from(s, p, 0) {
        Some(i) => Some(s.skip(i + p.len())),
        None => None,
    }
}

/// The position of the first occurrence of `p` in `s`.
pub fn find_exec(s: &Vec<char>, p: &Vec<char>) -> (r: Option<usize>)
    ensures
        match (r, find_from(s@, p@, 0)) {
            (Some(i), Some(j)) => i == j && i <= s@.len() && occurs_at(s@, p@, i as int),
            (None, None) => true,
            _ => false,
        },
{
    proof {
        lemma_find_from(s@, p@, 0);
    }
    let mut i: usize = 0;
    while i <= s.len()
        invariant
            i <= s@.len() + 1,
            find_from(s@, p@, 0) == find_from(s@, p@, i as int),
        decreases s@.len() + 1 - i,
    {
        if occurs_at_exec(s, p, i) {
            return Some(i);
        }
        if i == s.len() {
            assert(find_from(s@, p@, i + 1) is None);
            return None;
        }
        i = i + 1;
    }
    None
}

/// `s.split(p).next()`, for a non-empty pattern.
pub fn before_first_exec(s: &Vec<char>, p: &Vec<char>) -> (r: Vec<char>)
    ensures
        r@ == before_first(s@, p@),
{
    match find_exec(s, p) {
        Some(i) => slice_chars(s, 0, i),
        None => slice_chars(s, 0, s.len()),
    }
}

/// `s.splitn(2, p)`: the part before the first `p` and, if `p` occurs, the
/// part after it.
pub fn split_once_exec(s: &Vec<char>, p: &Vec<char>) -> (r: (Vec<char>, Option<Vec<char>>))
    ensures
        r.0@ == before_first(s@, p@),
        match (r.1, after_first(s@, p@)) {
            (Some(a), Some(b)) => a@ == b,
            (None, None) => true,
            _ => false,
        },
{
    match find_exec(s, p) {
        Some(i) => {
            assert(find_from(s@, p@, 0) is Some);
            assert(occurs_at(s@, p@, i as int));
            let before: Vec<char> = slice_chars(s, 0, i);
            let n: usize = s.len();
            assert(i + p@.len() <= n);
            let after: Vec<char> = slice_chars(s, i + p.len(), n);
            proof {
                assert(after@ =~= s@.skip(i + p@.len()));
            }
            (before, Some(after))
        },
        None => (slice_chars(s, 0, s.len()), None),
    }
}

// ---------------------------------------------------------------------------
// Lines
// ---------------------------------------------------------------------------

/// `s` split at every `sep` (`s.split(sep)`: pieces may be empty).
pub open spec fn split_on(s: Seq<char>, sep: char) -> Seq<Seq<char>>
    decreases s.len(),
{
    if s.len() == 0 {
        seq![seq![]]
    } else {
        let r = split_on(s.drop_last(), sep);
        if s.last() == sep {
            r.push(seq![])
        } else {
            r.update(r.len() - 1, r.last().push(s.last()))
        }
    }
}

/// The trimmed pieces that are not empty.
pub open spec fn nonempty_trimmed(pieces: Seq<Seq<char>>) -> Seq<Seq<char>>
    decreases pieces.len(),
{
    if pieces.len() == 0 {
        seq![]
    } else {
        let r = nonempty_trimmed(pieces.drop_last());
        let t = trim(pieces.last());
        if t.len() > 0 {
            r.push(t)
        } else {
            r
        }
    }
}

/// The non-empty lines of `s`, each trimmed
/// (`s.lines().map(str::trim).filter(|l| !l.is_empty())`).
pub open spec fn trimmed_lines(s: Seq<char>) -> Seq<Seq<char>> {
    nonempty_trimmed(split_on(s, '\n'))
}

/// Splitting gives at least one piece.
pub proof fn lemma_split_on_nonempty(s: Seq<char>, sep: char)
    ensures
        split_on(s, sep).len() >= 1,
    decreases s.len(),
{
    if s.len() > 0 {
        lemma_split_on_nonempty(s.drop_last(), sep);
    }
}

/// `s` split at every `sep`.
pub fn split_on_exec(s: &Vec<char>, sep: char) -> (r: Vec<Vec<char>>)
    ensures
        char_views(r@) == split_on(s@, sep),
{
    let mut out: Vec<Vec<char>> = Vec::new();
    let mut cur: Vec<char> = Vec::new();
    let mut k: usize = 0;
    assert(s@.take(0) =~= Seq::<char>::empty());
    while k < s.len()
        invariant
            k <= s@.len(),
            split_on(s@.take(k as int), sep).len() >= 1,
            cur@ == split_on(s@.take(k as int), sep).last(),
            char_views(out@) == split_on(s@.take(k as int), sep).drop_last(),
        decreases s@.len() - k,
    {
        let c: char = s[k];
        let ghost prev = split_on(s@.take(k as int), sep);
        assert(s@.take(k + 1).drop_last() =~= s@.take(k as int));
        assert(s@.take(k + 1).last() == c);
        let ghost now = split_on(s@.take(k + 1), sep);
        if c == sep {
            let ghost before = char_views(out@);
            let piece: Vec<char> = cur;
            out.push(piece);
            cur = Vec::new();
            assert(char_views(out@) =~= before.push(prev.last()));
            assert(now.drop_last() =~= prev);
            assert(prev =~= prev.drop_last().push(prev.last()));
        } else {
            cur.push(c);
            assert(now.drop_last() =~= prev.drop_last());
        }
        k = k + 1;
        proof {
            lemma_split_on_nonempty(s@.take(k as int), sep);
        }
    }
    assert(s@.take(s@.len() as int) =~= s@);
    let ghost pieces = split_on(s@, sep);
    let ghost before = char_views(out@);
    out.push(cur);
    assert(char_views(out@) =~= before.push(pieces.last()));
    assert(pieces =~= pieces.drop_last().push(pieces.last()));
    out
}

/// The non-empty trimmed lines of `text`.
pub fn nonempty_trimmed_lines(text: &str) -> (r: Vec<String>)
    ensures
        r@.map_values(|l: String| l@) == trimmed_lines(text@),
{
    let s: Vec<char> = chars_of(text);
    let mut out: Vec<String> = Vec::new();
    let mut cur: Vec<char> = Vec::new();
    let mut k: usize = 0;
    assert(s@.take(0) =~= Seq::<char>::empty());
    while k < s.len()
        invariant
            k <= s@.len(),
            s@ == text@,
            split_on(s@.take(k as int), '\n').len() >= 1,
            cur@ == split_on(s@.take(k as int), '\n').last(),
            out@.map_values(|l: String| l@) == nonempty_trimmed(
                split_on(s@.take(k as int), '\n').drop_last(),
            ),
        decreases s@.len() - k,
    {
        let c: char = s[k];
        let ghost prev = split_on(s@.take(k as int), '\n');
        assert(s@.take(k + 1).drop_last() =~= s@.take(k as int));
        assert(s@.take(k + 1).last() == c);
        if c == '\n' {
            let t: Vec<char> = trim_chars(&cur);
            let ghost now = split_on(s@.take(k + 1), '\n');
            assert(now == prev.push(seq![]));
            assert(now.drop_last() =~= prev);
            assert(prev.drop_last() =~= now.drop_last().drop_last());
            if t.len() > 0 {
                out.push(string_of(&t));
                assert(out@.map_values(|l: String| l@) =~= nonempty_trimmed(
                    prev.drop_last(),
                ).push(t@));
            }
            cur = Vec::new();
        } else {
            cur.push(c);
            let ghost now = split_on(s@.take(k + 1), '\n');
            assert(now.drop_last() =~= prev.drop_last());
        }
        k = k + 1;
        proof {
            lemma_split_on_nonempty(s@.take(k as int), '\n');
        }
    }
    assert(s@.take(s@.len() as int) =~= s@);
    let t: Vec<char> = trim_chars(&cur);
    let ghost pieces = split_on(s@, '\n');
    assert(pieces.drop_last().push(pieces.last()) =~= pieces);
    if t.len() > 0 {
        out.push(string_of(&t));
        assert(out@.map_values(|l: String| l@) =~= nonempty_trimmed(pieces.drop_last()).push(
            t@,
        ));
    }
    out
}

/// The first non-empty trimmed line of `text`.
pub fn first_nonempty_trimmed_line(text: &str) -> (r: Option<String>)
    ensures
        match r {
            Some(l) => trimmed_lines(text@).len() > 0 && l@ == trimmed_lines(text@)[0],
            None => trimmed_lines(text@).len() == 0,
        },
{
    let mut lines: Vec<String> = nonempty_trimmed_lines(text);
    if lines.len() == 0 {
        None
    } else {
        let first: String = lines.remove(0);
        Some(first)
    }
}

} // verus!

verus! {

// ---------------------------------------------------------------------------
// Ordering of strings
// ---------------------------------------------------------------------------

/// Lexicographic order by code point. For UTF-8 strings this is the order of
/// `String`'s `Ord` (byte-wise comparison of the encodings).
pub open spec fn lex_lt(a: Seq<char>, b: Seq<char>) -> bool
    decreases a.len(),
{
    if a.len() == 0 {
        b.len() > 0
    } else if b.len() == 0 {
        false
    } else if (a[0] as u32) < (b[0] as u32) {
        true
    } else if a[0] == b[0] {
        lex_lt(a.drop_first(), b.drop_first())
    } else {
        false
    }
}

/// `lex_lt` is a strict total order.
pub proof fn lemma_lex_total(a: Seq<char>, b: Seq<char>)
    ensures
        a == b || lex_lt(a, b) || lex_lt(b, a),
        !(lex_lt(a, b) && lex_lt(b, a)),
        !lex_lt(a, a),
    decreases a.len(),
{
    lemma_lex_irreflexive(a);
    if a.len() > 0 && b.len() > 0 {
        lemma_lex_total(a.drop_first(), b.drop_first());
        if a[0] == b[0] && a.drop_first() == b.drop_first() {
            assert(a =~= seq![a[0]] + a.drop_first());
            assert(b =~= seq![b[0]] + b.drop_first());
        }
        vstd::utf8::char_u32_cast(a[0], a[0] as u32);
        vstd::utf8::char_u32_cast(b[0], b[0] as u32);
        lemma_lex_irreflexive(a);
    } else if a.len() > 0 {
    } else if b.len() > 0 {
    } else {
        assert(a =~= b);
    }
}

/// No string comes before itself.
pub proof fn lemma_lex_irreflexive(a: Seq<char>)
    ensures
        !lex_lt(a, a),
    decreases a.len(),
{
    if a.len() > 0 {
        lemma_lex_irreflexive(a.drop_first());
    }
}

/// `lex_lt` is transitive.
pub proof fn lemma_lex_transitive(a: Seq<char>, b: Seq<char>, c: Seq<char>)
    requires
        lex_lt(a, b),
        lex_lt(b, c),
    ensures
        lex_lt(a, c),
    decreases a.len(),
{
    if a.len() > 0 && b.len() > 0 && c.len() > 0 {
        if a[0] == b[0] && b[0] == c[0] {
            lemma_lex_transitive(a.drop_first(), b.drop_first(), c.drop_first());
        }
    }
}

/// The strings of `s` are in strictly increasing order.
pub open spec fn strictly_sorted(s: Seq<Seq<char>>) -> bool {
    forall|i: int, j: int| 0 <= i < j < s.len() ==> lex_lt(#[trigger] s[i], #[trigger] s[j])
}

/// Whether `a` comes before `b`.
pub fn lex_less(a: &Vec<char>, b: &Vec<char>) -> (r: bool)
    ensures
        r == lex_lt(a@, b@),
{
    let mut k: usize = 0;
    assert(a@.skip(0) =~= a@);
    assert(b@.skip(0) =~= b@);
    while k < a.len() && k < b.len() && a[k] == b[k]
        invariant
            k <= a@.len(),
            k <= b@.len(),
            lex_lt(a@, b@) == lex_lt(a@.skip(k as int), b@.skip(k as int)),
        decreases a@.len() - k,
    {
        assert(a@.skip(k as int).drop_first() =~= a@.skip(k + 1));
        assert(b@.skip(k as int).drop_first() =~= b@.skip(k + 1));
        k = k + 1;
    }
    if k == a.len() {
        k < b.len()
    } else if k == b.len() {
        false
    } else {
        (a[k] as u32) < (b[k] as u32)
    }
}

/// Whether `a` and `b` hold the same characters.
pub fn chars_equal(a: &Vec<char>, b: &Vec<char>) -> (r: bool)
    ensures
        r == (a@ == b@),
{
    if a.len() != b.len() {
        return false;
    }
    let mut k: usize = 0;
    while k < a.len()
        invariant
            k <= a@.len(),
            a@.len() == b@.len(),
            forall|j: int| 0 <= j < k ==> a@[j] == b@[j],
        decreases a@.len() - k,
    {
        if a[k] != b[k] {
            return false;
        }
        k = k + 1;
    }
    assert(a@ =~= b@);
    true
}

proof fn lemma_insert_sorted(s: Seq<Seq<char>>, j: int, x: Seq<char>)
    requires
        strictly_sorted(s),
        0 <= j <= s.len(),
        forall|i: int| 0 <= i < j ==> lex_lt(#[trigger] s[i], x),
        j < s.len() ==> lex_lt(x, s[j]),
    ensures
        strictly_sorted(s.insert(j, x)),
{
    let t = s.insert(j, x);
    assert forall|a: int, b: int| 0 <= a < b < t.len() implies lex_lt(
        #[trigger] t[a],
        #[trigger] t[b],
    ) by {
        if b < j {
        } else if b == j {
        } else if a < j {
            if j < s.len() {
                assert(lex_lt(x, s[j]));
                if b - 1 > j {
                    assert(lex_lt(s[j], s[b - 1]));
                    lemma_lex_transitive(x, s[j], s[b - 1]);
                }
                lemma_lex_transitive(s[a], x, s[b - 1]);
            }
        } else if a == j {
            if b - 1 > j {
                assert(lex_lt(s[j], s[b - 1]));
                lemma_lex_transitive(x, s[j], s[b - 1]);
            }
        } else {
            assert(lex_lt(s[a - 1], s[b - 1]));
        }
    }
}

/// The views of a vector of strings.
pub open spec fn string_views(v: Seq<String>) -> Seq<Seq<char>> {
    v.map_values(|s: String| s@)
}

/// The views of a vector of character vectors.
pub open spec fn char_views(v: Seq<Vec<char>>) -> Seq<Seq<char>> {
    v.map_values(|c: Vec<char>| c@)
}

/// `rows` sorted and with duplicates removed (`sort` then `dedup`): the result
/// is strictly increasing and holds exactly the strings of `rows`.
pub fn sorted_unique(rows: &Vec<String>) -> (r: Vec<String>)
    ensures
        strictly_sorted(string_views(r@)),
        forall|x: Seq<char>| #[trigger]
            string_views(r@).contains(x) <==> string_views(rows@).contains(x),
{
    let ghost input = string_views(rows@);
    let mut acc: Vec<Vec<char>> = Vec::new();
    let mut k: usize = 0;
    while k < rows.len()
        invariant
            k <= rows@.len(),
            input == string_views(rows@),
            strictly_sorted(char_views(acc@)),
            forall|x: Seq<char>| #[trigger]
                char_views(acc@).contains(x) <==> input.take(k as int).contains(
                    x,
                ),
        decreases rows@.len() - k,
    {
        let x: Vec<char> = chars_of(rows[k].as_str());
        let ghost views = char_views(acc@);
        let mut j: usize = 0;
        while j < acc.len() && lex_less(&acc[j], &x)
            invariant
                j <= acc@.len(),
                views == char_views(acc@),
                forall|i: int| 0 <= i < j ==> lex_lt(#[trigger] views[i], x@),
            decreases acc@.len() - j,
        {
            j = j + 1;
        }
        let ghost prev = input.take(k as int);
        let ghost next = input.take(k + 1);
        assert(next =~= prev.push(x@));
        if j < acc.len() && chars_equal(&acc[j], &x) {
            assert(views[j as int] == x@);
            assert forall|y: Seq<char>| #[trigger]
                views.contains(y) <==> next.contains(y) by {
                if y == x@ {
                    assert(views.contains(views[j as int]));
                }
                if prev.contains(y) {
                    let w = choose|w: int| 0 <= w < k && prev[w] == y;
                    assert(next[w] == y);
                }
                if next.contains(y) && y != x@ {
                    let w = choose|w: int| 0 <= w < k + 1 && next[w] == y;
                    assert(prev[w] == y);
                }
            }
        } else {
            proof {
                if j < acc.len() {
                    lemma_lex_total(x@, views[j as int]);
                }
                lemma_insert_sorted(views, j as int, x@);
            }
            assert(forall|y: Seq<char>|
                #![trigger views.contains(y)]
                #![trigger prev.contains(y)]
                views.contains(y) <==> prev.contains(y));
            acc.insert(j, x);
            let ghost now = char_views(acc@);
            assert(now =~= views.insert(j as int, x@));
            assert forall|y: Seq<char>| #[trigger]
                now.contains(y) <==> next.contains(y) by {
                if now.contains(y) {
                    let w = choose|w: int| 0 <= w < now.len() && now[w] == y;
                    if w < j {
                        assert(views[w] == y);
                        assert(views.contains(y));
                    } else if w > j {
                        assert(views[w - 1] == y);
                        assert(views.contains(y));
                    }
                    if y != x@ {
                        let w2 = choose|w2: int| 0 <= w2 < k && prev[w2] == y;
                        assert(next[w2] == y);
                    } else {
                        assert(next[k as int] == y);
                    }
                }
                if next.contains(y) {
                    let w = choose|w: int| 0 <= w < k + 1 && next[w] == y;
                    if w < k {
                        assert(prev[w] == y);
                        assert(prev.contains(y));
                        let v = choose|v: int| 0 <= v < views.len() && views[v] == y;
                        if v < j {
                            assert(now[v] == y);
                        } else {
                            assert(now[v + 1] == y);
                        }
                    } else {
                        assert(now[j as int] == y);
                    }
                }
            }
        }
        k = k + 1;
    }
    assert(input.take(rows@.len() as int) =~= input);
    let mut out: Vec<String> = Vec::new();
    let mut i: usize = 0;
    let ghost views = char_views(acc@);
    while i < acc.len()
        invariant
            i <= acc@.len(),
            views == char_views(acc@),
            string_views(out@) == views.take(i as int),
        decreases acc@.len() - i,
    {
        let ghost before = string_views(out@);
        let item: String = string_of(&acc[i]);
        out.push(item);
        assert(string_views(out@) =~= before.push(views[i as int]));
        assert(views.take(i + 1) =~= views.take(i as int).push(views[i as int]));
        i = i + 1;
    }
    assert(views.take(acc@.len() as int) =~= views);
    out
}

// ---------------------------------------------------------------------------
// Decoding
// ---------------------------------------------------------------------------

/// The text of a byte string with each invalid sequence replaced by
/// U+FFFD (`String::from_utf8_lossy`).
pub uninterp spec fn lossy_utf8(b: Seq<u8>) -> Seq<char>;

/// `String::from_utf8_lossy`, owned.
#[verifier::external_body]
pub(crate) fn utf8_lossy(b: &[u8]) -> (s: String)
    ensures
        s@ == lossy_utf8(b@),
        valid_utf8(b@) ==> s@ == decode_utf8(b@),
{
    String::from_utf8_lossy(b).into_owned()
}

/// The captured standard output of a system query, when the query ran and
/// succeeded.
pub open spec fn captured(stdout: Option<Vec<u8>>) -> Option<Seq<u8>> {
    match stdout {
        Some(b) => Some(b@),
        None => None,
    }
}

} // verus!
