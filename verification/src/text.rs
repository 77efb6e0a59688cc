//! Text as sequences of characters: white space, tokens, decimal numbers
//! and the algebraic names of squares.

use vstd::prelude::*;
use vstd::string::StrSliceExecFns;
use crate::attack::valid_square;
use crate::square::{Sq, file, rank};

verus! {

/// `String::push` appends one character.
pub assume_specification[ String::push ](s: &mut String, ch: char)
    ensures
        final(s)@ == old(s)@.push(ch),
;

/// White space: the characters with the Unicode property White_Space.
pub open spec fn is_space(c: char) -> bool {
    let u = c as u32;
    (0x09 <= u <= 0x0D) || u == 0x20 || u == 0x85 || u == 0xA0 || u == 0x1680 || (0x2000 <= u
        <= 0x200A) || u == 0x2028 || u == 0x2029 || u == 0x202F || u == 0x205F || u == 0x3000
}

pub fn is_whitespace(c: char) -> (b: bool)
    ensures
        b == is_space(c),
{
    let u = c as u32;
    (0x09 <= u && u <= 0x0D) || u == 0x20 || u == 0x85 || u == 0xA0 || u == 0x1680 || (0x2000 <= u
        && u <= 0x200A) || u == 0x2028 || u == 0x2029 || u == 0x202F || u == 0x205F || u == 0x3000
}

/// The characters of a string.
pub fn chars_of(s: &str) -> (v: Vec<char>)
    ensures
        v@ == s@,
{
    let n = s.unicode_len();
    let mut v: Vec<char> = Vec::new();
    let mut i: usize = 0;
    while i < n
        invariant
            i <= n,
            n == s@.len(),
            v@ == s@.take(i as int),
        decreases n - i,
    {
        v.push(s.get_char(i));
        i += 1;
        assert(s@.take(i as int) =~= s@.take(i - 1).push(s@[i - 1]));
    }
    assert(s@.take(n as int) =~= s@);
    v
}

/// The string of a sequence of characters.
pub fn string_of(v: &Vec<char>) -> (s: String)
    ensures
        s@ == v@,
{
    let mut s = String::new();
    let mut i: usize = 0;
    while i < v.len()
        invariant
            i <= v@.len(),
            s@ == v@.take(i as int),
        decreases v@.len() - i,
    {
        s.push(v[i]);
        i += 1;
        assert(v@.take(i as int) =~= v@.take(i - 1).push(v@[i - 1]));
    }
    assert(v@.take(v@.len() as int) =~= v@);
    s
}

/// The tokens that end among the first `n` characters of `s`, and the
/// characters of the token that has begun and not ended: a token is a
/// longest run of characters that are not white space.
pub open spec fn scan_tokens(s: Seq<char>, n: int) -> (Seq<Seq<char>>, Seq<char>)
    decreases n,
{
    if n <= 0 {
        (Seq::empty(), Seq::empty())
    } else {
        let (done, cur) = scan_tokens(s, n - 1);
        if is_space(s[n - 1]) {
            if cur.len() > 0 {
                (done.push(cur), Seq::empty())
            } else {
                (done, cur)
            }
        } else {
            (done, cur.push(s[n - 1]))
        }
    }
}

/// The tokens of `s`: its longest runs of characters that are not white
/// space, in order.
pub open spec fn tokens(s: Seq<char>) -> Seq<Seq<char>> {
    let (done, cur) = scan_tokens(s, s.len() as int);
    if cur.len() > 0 {
        done.push(cur)
    } else {
        done
    }
}

/// The character sequences of a list of texts.
pub open spec fn texts(v: Seq<Vec<char>>) -> Seq<Seq<char>> {
    v.map_values(|t: Vec<char>| t@)
}

/// Splits a text at white space.
pub fn split_whitespace(s: &Vec<char>) -> (out: Vec<Vec<char>>)
    ensures
        texts(out@) == tokens(s@),
{
    let mut out: Vec<Vec<char>> = Vec::new();
    let mut cur: Vec<char> = Vec::new();
    let mut i: usize = 0;
    assert(texts(out@) =~= Seq::<Seq<char>>::empty());
    while i < s.len()
        invariant
            i <= s@.len(),
            (texts(out@), cur@) == scan_tokens(s@, i as int),
        decreases s@.len() - i,
    {
        let c = s[i];
        let ghost before = texts(out@);
        if is_whitespace(c) {
            if cur.len() > 0 {
                let ghost token = cur@;
                out.push(cur);
                cur = Vec::new();
                assert(texts(out@) =~= before.push(token));
            }
        } else {
            cur.push(c);
        }
        i += 1;
    }
    let ghost before = texts(out@);
    if cur.len() > 0 {
        let ghost token = cur@;
        out.push(cur);
        assert(texts(out@) =~= before.push(token));
    }
    out
}

/// The text without the white space at its start.
pub open spec fn trim_start(s: Seq<char>) -> Seq<char>
    decreases s.len(),
{
    if s.len() > 0 && is_space(s[0]) {
        trim_start(s.drop_first())
    } else {
        s
    }
}

/// The text without the white space at its end.
pub open spec fn trim_end(s: Seq<char>) -> Seq<char>
    decreases s.len(),
{
    if s.len() > 0 && is_space(s.last()) {
        trim_end(s.drop_last())
    } else {
        s
    }
}

/// The text without the white space at its start and at its end.
pub open spec fn trimmed(s: Seq<char>) -> Seq<char> {
    trim_end(trim_start(s))
}

/// The text without the white space at its start and at its end.
pub fn trim(s: &Vec<char>) -> (out: Vec<char>)
    ensures
        out@ == trimmed(s@),
{
    let n = s.len();
    let mut a: usize = 0;
    assert(s@.skip(0) =~= s@);
    while a < n && is_whitespace(s[a])
        invariant
            a <= n,
            n == s@.len(),
            trim_start(s@) == trim_start(s@.skip(a as int)),
        decreases n - a,
    {
        assert(s@.skip(a as int).drop_first() =~= s@.skip(a + 1));
        a += 1;
    }
    assert(s@.skip(0) =~= s@);
    assert(trim_start(s@) == s@.skip(a as int)) by {
        if a < n {
            assert(s@.skip(a as int)[0] == s@[a as int]);
        }
    }
    let mut b: usize = n;
    while b > a && is_whitespace(s[b - 1])
        invariant
            a <= b <= n,
            n == s@.len(),
            trim_end(s@.skip(a as int)) == trim_end(s@.subrange(a as int, b as int)),
        decreases b,
    {
        assert(s@.subrange(a as int, b as int).drop_last() =~= s@.subrange(a as int, b - 1));
        assert(s@.subrange(a as int, b as int).last() == s@[b - 1]);
        b -= 1;
    }
    assert(s@.subrange(a as int, n as int) =~= s@.skip(a as int));
    assert(trim_end(s@.subrange(a as int, b as int)) == s@.subrange(a as int, b as int)) by {
        if b > a {
            assert(s@.subrange(a as int, b as int).last() == s@[b - 1]);
        }
    }
    let mut out: Vec<char> = Vec::new();
    let mut i: usize = a;
    while i < b
        invariant
            a <= i <= b <= n,
            n == s@.len(),
            out@ == s@.subrange(a as int, i as int),
        decreases b - i,
    {
        out.push(s[i]);
        i += 1;
        assert(s@.subrange(a as int, i as int) =~= s@.subrange(a as int, i - 1).push(s@[i - 1]));
    }
    out
}

/// The value of a decimal digit; none for any other character.
pub open spec fn digit_value(c: char) -> Option<int> {
    if '0' <= c <= '9' {
        Some(c as u32 - '0' as u32)
    } else {
        None
    }
}

/// The value of a decimal digit.
pub fn digit_of(c: char) -> (d: Option<u32>)
    ensures
        match d {
            Some(v) => digit_value(c) == Some(v as int) && v <= 9,
            None => digit_value(c) is None,
        },
{
    let u = c as u32;
    if 0x30 <= u && u <= 0x39 {
        Some(u - 0x30)
    } else {
        None
    }
}

/// Whether every character is a decimal digit.
pub open spec fn all_digits(s: Seq<char>) -> bool {
    forall|i: int| 0 <= i < s.len() ==> digit_value(#[trigger] s[i]) is Some
}

/// The number that the digits of `s` spell.
pub open spec fn decimal_value(s: Seq<char>) -> int
    decreases s.len(),
{
    if s.len() == 0 {
        0
    } else {
        10 * decimal_value(s.drop_last()) + digit_value(s.last()).unwrap()
    }
}

/// The number that a text spells, as `u32`: an optional plus sign and at
/// least one digit, of a value that fits; nothing else is a number.
pub open spec fn parse_u32_spec(s: Seq<char>) -> Option<u32> {
    let digits = if s.len() > 0 && s[0] == '+' {
        s.drop_first()
    } else {
        s
    };
    if digits.len() > 0 && all_digits(digits) && decimal_value(digits) <= u32::MAX {
        Some(decimal_value(digits) as u32)
    } else {
        None
    }
}

/// A number only grows when digits are appended.
proof fn lemma_decimal_grows(s: Seq<char>, n: int)
    requires
        all_digits(s),
        0 <= n <= s.len(),
    ensures
        0 <= decimal_value(s.take(n)) <= decimal_value(s),
    decreases s.len() - n,
{
    if n < s.len() {
        assert(s.take(n + 1).drop_last() =~= s.take(n));
        assert(s.take(n + 1).last() == s[n]);
        lemma_decimal_nonneg(s.take(n));
        lemma_decimal_grows(s, n + 1);
    } else {
        assert(s.take(n) =~= s);
        lemma_decimal_nonneg(s);
    }
}

proof fn lemma_decimal_nonneg(s: Seq<char>)
    requires
        all_digits(s),
    ensures
        0 <= decimal_value(s),
    decreases s.len(),
{
    if s.len() > 0 {
        lemma_decimal_nonneg(s.drop_last());
    }
}

/// Reads a number as `u32`.
pub fn parse_u32(s: &Vec<char>) -> (r: Option<u32>)
    ensures
        r == parse_u32_spec(s@),
{
    let n = s.len();
    let start: usize = if n > 0 && s[0] == '+' {
        1
    } else {
        0
    };
    if start >= n {
        return None;
    }
    let ghost digits = s@.skip(start as int);
    assert(digits =~= (if s@.len() > 0 && s@[0] == '+' {
        s@.drop_first()
    } else {
        s@
    }));
    let mut value: u32 = 0;
    let mut i: usize = start;
    while i < n
        invariant
            start <= i <= n,
            start < n,
            n == s@.len(),
            digits == s@.skip(start as int),
            digits == (if s@.len() > 0 && s@[0] == '+' {
                s@.drop_first()
            } else {
                s@
            }),
            all_digits(digits.take(i - start)),
            value == decimal_value(digits.take(i - start)),
        decreases n - i,
    {
        let ghost k = i - start;
        proof {
            assert(digits.take(k + 1).drop_last() =~= digits.take(k));
            assert(digits.take(k + 1).last() == digits[k]);
            assert(digits[k] == s@[i as int]);
        }
        match digit_of(s[i]) {
            None => {
                proof {
                    assert(digit_value(digits[k]) is None);
                }
                return None;
            },
            Some(d) => {
                proof {
                    assert forall|j: int| 0 <= j < k + 1 implies digit_value(
                        #[trigger] digits.take(k + 1)[j],
                    ) is Some by {
                        if j < k {
                            assert(digits.take(k)[j] == digits.take(k + 1)[j]);
                        }
                    }
                }
                assert(decimal_value(digits.take(k + 1)) == 10 * value + d);
                if value > 429496729 || (value == 429496729 && d > 5) {
                    proof {
                        if all_digits(digits) {
                            lemma_decimal_grows(digits, k + 1);
                        }
                    }
                    return None;
                }
                value = value * 10 + d;
            },
        }
        i += 1;
    }
    proof {
        assert(digits.take(n - start) =~= digits);
    }
    Some(value)
}

/// The digits of a number, most significant first.
pub open spec fn decimal_digits(n: nat) -> Seq<char>
    decreases n,
{
    if n < 10 {
        seq![(('0' as u32 + n) as u32) as char]
    } else {
        decimal_digits(n / 10).push((('0' as u32 + n % 10) as u32) as char)
    }
}

/// The character of a digit.
fn digit_char(d: u32) -> (c: char)
    requires
        d <= 9,
    ensures
        c == (('0' as u32 + d) as u32) as char,
{
    if d == 0 {
        '0'
    } else if d == 1 {
        '1'
    } else if d == 2 {
        '2'
    } else if d == 3 {
        '3'
    } else if d == 4 {
        '4'
    } else if d == 5 {
        '5'
    } else if d == 6 {
        '6'
    } else if d == 7 {
        '7'
    } else if d == 8 {
        '8'
    } else {
        '9'
    }
}

/// Appends the decimal form of a number.
pub fn push_decimal(out: &mut Vec<char>, n: u32)
    ensures
        final(out)@ == old(out)@ + decimal_digits(n as nat),
    decreases n,
{
    if n < 10 {
        out.push(digit_char(n));
        assert(out@ =~= old(out)@ + decimal_digits(n as nat));
    } else {
        push_decimal(out, n / 10);
        out.push(digit_char(n % 10));
        assert(out@ =~= old(out)@ + decimal_digits(n as nat));
    }
}

/// The letter of a file, `a` to `h`.
pub open spec fn file_letter(f: int) -> char {
    (('a' as u32 + f) as u32) as char
}

/// The digit of a rank, `1` to `8`.
pub open spec fn rank_digit(r: int) -> char {
    (('1' as u32 + r) as u32) as char
}

/// The algebraic name of a slot: file letter and rank digit for a real
/// square, two question marks for any other slot.
pub open spec fn square_name(s: Sq) -> Seq<char> {
    if valid_square(s as int) {
        seq![file_letter(s as int % 16), rank_digit(s as int / 16)]
    } else {
        seq!['?', '?']
    }
}

fn file_char(f: usize) -> (c: char)
    requires
        f < 8,
    ensures
        c == file_letter(f as int),
{
    if f == 0 {
        'a'
    } else if f == 1 {
        'b'
    } else if f == 2 {
        'c'
    } else if f == 3 {
        'd'
    } else if f == 4 {
        'e'
    } else if f == 5 {
        'f'
    } else if f == 6 {
        'g'
    } else {
        'h'
    }
}

fn rank_char(r: usize) -> (c: char)
    requires
        r < 8,
    ensures
        c == rank_digit(r as int),
{
    if r == 0 {
        '1'
    } else if r == 1 {
        '2'
    } else if r == 2 {
        '3'
    } else if r == 3 {
        '4'
    } else if r == 4 {
        '5'
    } else if r == 5 {
        '6'
    } else if r == 6 {
        '7'
    } else {
        '8'
    }
}

/// Appends the algebraic name of a slot.
pub fn push_square_name(out: &mut Vec<char>, s: Sq)
    ensures
        final(out)@ == old(out)@ + square_name(s),
{
    let r = rank(s);
    let f = file(s);
    if r > 7 || f > 7 {
        out.push('?');
        out.push('?');
        assert(out@ =~= old(out)@ + square_name(s));
    } else {
        out.push(file_char(f));
        out.push(rank_char(r));
        assert(out@ =~= old(out)@ + square_name(s));
    }
}

/// The algebraic name of a slot, such as `e2`; `??` for a slot off the
/// board.
pub fn sq_to_alg(s: Sq) -> (name: String)
    ensures
        name@ == square_name(s),
{
    let mut v: Vec<char> = Vec::new();
    push_square_name(&mut v, s);
    assert(v@ =~= square_name(s));
    string_of(&v)
}

/// The file that a letter names, in either case.
pub open spec fn file_of_letter(c: char) -> Option<int> {
    if 'a' <= c <= 'h' {
        Some(c as u32 - 'a' as u32)
    } else if 'A' <= c <= 'H' {
        Some(c as u32 - 'A' as u32)
    } else {
        None
    }
}

/// The rank that a digit names.
pub open spec fn rank_of_digit(c: char) -> Option<int> {
    if '1' <= c <= '8' {
        Some(c as u32 - '1' as u32)
    } else {
        None
    }
}

/// The square that a text names: a file letter in either case, then a
/// rank digit, after white space and before anything.
pub open spec fn named_square(s: Seq<char>) -> Option<Sq> {
    let t = trimmed(s);
    if t.len() >= 2 && file_of_letter(t[0]) is Some && rank_of_digit(t[1]) is Some {
        Some((16 * rank_of_digit(t[1]).unwrap() + file_of_letter(t[0]).unwrap()) as usize)
    } else {
        None
    }
}

fn letter_file(c: char) -> (r: Option<usize>)
    ensures
        match r {
            Some(f) => file_of_letter(c) == Some(f as int) && f < 8,
            None => file_of_letter(c) is None,
        },
{
    let u = c as u32;
    if 0x61 <= u && u <= 0x68 {
        Some((u - 0x61) as usize)
    } else if 0x41 <= u && u <= 0x48 {
        Some((u - 0x41) as usize)
    } else {
        None
    }
}

fn digit_rank(c: char) -> (r: Option<usize>)
    ensures
        match r {
            Some(k) => rank_of_digit(c) == Some(k as int) && k < 8,
            None => rank_of_digit(c) is None,
        },
{
    let u = c as u32;
    if 0x31 <= u && u <= 0x38 {
        Some((u - 0x31) as usize)
    } else {
        None
    }
}

/// The square that a sequence of characters names.
pub fn square_of_chars(s: &Vec<char>) -> (r: Option<Sq>)
    ensures
        r == named_square(s@),
        r matches Some(q) ==> valid_square(q as int),
{
    let t = trim(s);
    if t.len() < 2 {
        return None;
    }
    match letter_file(t[0]) {
        None => None,
        Some(f) => match digit_rank(t[1]) {
            None => None,
            Some(r) => Some(16 * r + f),
        },
    }
}

/// The square that a text such as `e2` names.
pub fn alg_to_sq(s: &str) -> (r: Option<Sq>)
    ensures
        r == named_square(s@),
        r matches Some(q) ==> valid_square(q as int),
{
    let v = chars_of(s);
    square_of_chars(&v)
}

/// The name of a square names the square.
pub proof fn law_square_name_round_trip(s: Sq)
    requires
        valid_square(s as int),
    ensures
        named_square(square_name(s)) == Some(s),
{
    let n = square_name(s);
    assert(!is_space(n[0]));
    assert(!is_space(n[1]));
    assert(n.last() == n[1]);
    assert(trim_start(n) == n);
    assert(trim_end(n) == n);
}

} // verus!
