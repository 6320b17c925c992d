//! Lexical layer of the wire codec: JSON text for numbers, strings and
//! booleans, and a skipper for values the protocol ignores.
//!
//! Each shape has a spec encoder producing the canonical text, a spec parser,
//! executable twins proved equal to them, and a lemma that parsing the
//! canonical text yields the value back: the ground the message-level
//! round-trip proof stands on.

use vstd::prelude::*;

verus! {

// ---------------------------------------------------------------------------
// Characters and digits
// ---------------------------------------------------------------------------

/// The decimal digit character for `d` (meaningful for `d < 10`).
pub open spec fn digit_char(d: nat) -> char {
    if d == 0 {
        '0'
    } else if d == 1 {
        '1'
    } else if d == 2 {
        '2'
    } else if d == 3 {
        '3'
    } else if d == 4 {
        '4'
    } else if d == 5 {
        '5'
    } else if d == 6 {
        '6'
    } else if d == 7 {
        '7'
    } else if d == 8 {
        '8'
    } else {
        '9'
    }
}

/// The value of a decimal digit character, `None` for any other character.
pub open spec fn digit_of(c: char) -> Option<nat> {
    if c == '0' {
        Some(0 as nat)
    } else if c == '1' {
        Some(1 as nat)
    } else if c == '2' {
        Some(2 as nat)
    } else if c == '3' {
        Some(3 as nat)
    } else if c == '4' {
        Some(4 as nat)
    } else if c == '5' {
        Some(5 as nat)
    } else if c == '6' {
        Some(6 as nat)
    } else if c == '7' {
        Some(7 as nat)
    } else if c == '8' {
        Some(8 as nat)
    } else if c == '9' {
        Some(9 as nat)
    } else {
        None
    }
}

pub open spec fn is_digit(c: char) -> bool {
    digit_of(c) is Some
}

fn digit_char_exec(d: u8) -> (c: char)
    requires
        d < 10,
    ensures
        c == digit_char(d as nat),
{
    match d {
        0 => '0',
        1 => '1',
        2 => '2',
        3 => '3',
        4 => '4',
        5 => '5',
        6 => '6',
        7 => '7',
        8 => '8',
        _ => '9',
    }
}

fn digit_of_exec(c: char) -> (r: Option<u8>)
    ensures
        r matches Some(d) ==> digit_of(c) == Some(d as nat),
        r is None ==> digit_of(c) is None,
{
    match c {
        '0' => Some(0),
        '1' => Some(1),
        '2' => Some(2),
        '3' => Some(3),
        '4' => Some(4),
        '5' => Some(5),
        '6' => Some(6),
        '7' => Some(7),
        '8' => Some(8),
        '9' => Some(9),
        _ => None,
    }
}

/// The lowercase hex digit character for `d` (meaningful for `d < 16`).
pub open spec fn hex_char(d: nat) -> char {
    if d == 0 {
        '0'
    } else if d == 1 {
        '1'
    } else if d == 2 {
        '2'
    } else if d == 3 {
        '3'
    } else if d == 4 {
        '4'
    } else if d == 5 {
        '5'
    } else if d == 6 {
        '6'
    } else if d == 7 {
        '7'
    } else if d == 8 {
        '8'
    } else if d == 9 {
        '9'
    } else if d == 10 {
        'a'
    } else if d == 11 {
        'b'
    } else if d == 12 {
        'c'
    } else if d == 13 {
        'd'
    } else if d == 14 {
        'e'
    } else {
        'f'
    }
}

/// The value of a lowercase hex digit character, `None` otherwise.
pub open spec fn hex_val(c: char) -> Option<nat> {
    if c == '0' {
        Some(0 as nat)
    } else if c == '1' {
        Some(1 as nat)
    } else if c == '2' {
        Some(2 as nat)
    } else if c == '3' {
        Some(3 as nat)
    } else if c == '4' {
        Some(4 as nat)
    } else if c == '5' {
        Some(5 as nat)
    } else if c == '6' {
        Some(6 as nat)
    } else if c == '7' {
        Some(7 as nat)
    } else if c == '8' {
        Some(8 as nat)
    } else if c == '9' {
        Some(9 as nat)
    } else if c == 'a' {
        Some(10 as nat)
    } else if c == 'b' {
        Some(11 as nat)
    } else if c == 'c' {
        Some(12 as nat)
    } else if c == 'd' {
        Some(13 as nat)
    } else if c == 'e' {
        Some(14 as nat)
    } else if c == 'f' {
        Some(15 as nat)
    } else {
        None
    }
}

/// The character with code point `n` (meaningful for `n < 32`).
pub open spec fn low_char(n: nat) -> char {
    if n == 0 {
        '\u{0}'
    } else if n == 1 {
        '\u{1}'
    } else if n == 2 {
        '\u{2}'
    } else if n == 3 {
        '\u{3}'
    } else if n == 4 {
        '\u{4}'
    } else if n == 5 {
        '\u{5}'
    } else if n == 6 {
        '\u{6}'
    } else if n == 7 {
        '\u{7}'
    } else if n == 8 {
        '\u{8}'
    } else if n == 9 {
        '\u{9}'
    } else if n == 10 {
        '\u{a}'
    } else if n == 11 {
        '\u{b}'
    } else if n == 12 {
        '\u{c}'
    } else if n == 13 {
        '\u{d}'
    } else if n == 14 {
        '\u{e}'
    } else if n == 15 {
        '\u{f}'
    } else if n == 16 {
        '\u{10}'
    } else if n == 17 {
        '\u{11}'
    } else if n == 18 {
        '\u{12}'
    } else if n == 19 {
        '\u{13}'
    } else if n == 20 {
        '\u{14}'
    } else if n == 21 {
        '\u{15}'
    } else if n == 22 {
        '\u{16}'
    } else if n == 23 {
        '\u{17}'
    } else if n == 24 {
        '\u{18}'
    } else if n == 25 {
        '\u{19}'
    } else if n == 26 {
        '\u{1a}'
    } else if n == 27 {
        '\u{1b}'
    } else if n == 28 {
        '\u{1c}'
    } else if n == 29 {
        '\u{1d}'
    } else if n == 30 {
        '\u{1e}'
    } else {
        '\u{1f}'
    }
}

fn hex_char_exec(d: u8) -> (c: char)
    requires
        d < 16,
    ensures
        c == hex_char(d as nat),
{
    match d {
        0 => '0',
        1 => '1',
        2 => '2',
        3 => '3',
        4 => '4',
        5 => '5',
        6 => '6',
        7 => '7',
        8 => '8',
        9 => '9',
        10 => 'a',
        11 => 'b',
        12 => 'c',
        13 => 'd',
        14 => 'e',
        _ => 'f',
    }
}

fn hex_val_exec(c: char) -> (r: Option<u8>)
    ensures
        r matches Some(d) ==> hex_val(c) == Some(d as nat),
        r is None ==> hex_val(c) is None,
{
    match c {
        '0' => Some(0),
        '1' => Some(1),
        '2' => Some(2),
        '3' => Some(3),
        '4' => Some(4),
        '5' => Some(5),
        '6' => Some(6),
        '7' => Some(7),
        '8' => Some(8),
        '9' => Some(9),
        'a' => Some(10),
        'b' => Some(11),
        'c' => Some(12),
        'd' => Some(13),
        'e' => Some(14),
        'f' => Some(15),
        _ => None,
    }
}

fn low_char_exec(n: u8) -> (c: char)
    requires
        n < 32,
    ensures
        c == low_char(n as nat),
{
    match n {
        0 => '\u{0}',
        1 => '\u{1}',
        2 => '\u{2}',
        3 => '\u{3}',
        4 => '\u{4}',
        5 => '\u{5}',
        6 => '\u{6}',
        7 => '\u{7}',
        8 => '\u{8}',
        9 => '\u{9}',
        10 => '\u{a}',
        11 => '\u{b}',
        12 => '\u{c}',
        13 => '\u{d}',
        14 => '\u{e}',
        15 => '\u{f}',
        16 => '\u{10}',
        17 => '\u{11}',
        18 => '\u{12}',
        19 => '\u{13}',
        20 => '\u{14}',
        21 => '\u{15}',
        22 => '\u{16}',
        23 => '\u{17}',
        24 => '\u{18}',
        25 => '\u{19}',
        26 => '\u{1a}',
        27 => '\u{1b}',
        28 => '\u{1c}',
        29 => '\u{1d}',
        30 => '\u{1e}',
        _ => '\u{1f}',
    }
}

/// Reading back the hex digit of `d` yields `d`.
proof fn lemma_hex_inverse(d: nat)
    requires
        d < 16,
    ensures
        hex_val(hex_char(d)) == Some(d),
{
}

/// Reading back the code point of a control character yields the
/// character.
proof fn lemma_low_char_inverse(c: char)
    requires
        (c as u32) < 32,
    ensures
        low_char((c as u32) as nat) == c,
{
}

// ---------------------------------------------------------------------------
// `has_at`: a text contains a given fragment at a given position
// ---------------------------------------------------------------------------

/// The text `s` carries exactly the fragment `t` starting at position `i`.
pub open spec fn has_at(s: Seq<char>, i: int, t: Seq<char>) -> bool {
    0 <= i && i + t.len() <= s.len() && s.subrange(i, i + t.len()) == t
}

pub proof fn lemma_has_at_index(s: Seq<char>, i: int, t: Seq<char>)
    requires
        has_at(s, i, t),
    ensures
        forall|k: int| 0 <= k < t.len() ==> s[i + k] == #[trigger] t[k],
{
    assert forall|k: int| 0 <= k < t.len() implies s[i + k] == #[trigger] t[k] by {
        assert(t[k] == s.subrange(i, i + t.len() as int)[k]);
    }
}

pub proof fn lemma_has_at_split(s: Seq<char>, i: int, a: Seq<char>, b: Seq<char>)
    requires
        has_at(s, i, a + b),
    ensures
        has_at(s, i, a),
        has_at(s, i + a.len(), b),
{
    let ab = a + b;
    assert(s.subrange(i, i + a.len() as int) =~= a) by {
        assert forall|k: int| 0 <= k < a.len() implies s.subrange(i, i + a.len() as int)[k]
            == a[k] by {
            assert(ab[k] == s.subrange(i, i + ab.len() as int)[k]);
        }
    }
    assert(s.subrange(i + a.len(), i + a.len() + b.len() as int) =~= b) by {
        assert forall|k: int| 0 <= k < b.len() implies s.subrange(
            i + a.len(),
            i + a.len() + b.len() as int,
        )[k] == b[k] by {
            assert(ab[a.len() + k] == s.subrange(i, i + ab.len() as int)[a.len() + k]);
        }
    }
}

// ---------------------------------------------------------------------------
// Numbers: canonical decimal text of an unsigned value
// ---------------------------------------------------------------------------

/// Canonical decimal digits of `n`, most significant first.
pub open spec fn enc_usize(n: nat) -> Seq<char>
    decreases n,
{
    if n < 10 {
        seq![digit_char(n)]
    } else {
        enc_usize(n / 10) + seq![digit_char(n % 10)]
    }
}

pub proof fn lemma_enc_usize_digits(n: nat)
    ensures
        enc_usize(n).len() >= 1,
        forall|k: int| 0 <= k < enc_usize(n).len() ==> is_digit(#[trigger] enc_usize(n)[k]),
    decreases n,
{
    if n >= 10 {
        lemma_enc_usize_digits(n / 10);
    }
}

/// First position at or after `i` that does not hold a digit.
pub open spec fn digit_run_end(s: Seq<char>, i: int) -> int
    decreases s.len() - i,
{
    if 0 <= i < s.len() && is_digit(s[i]) {
        digit_run_end(s, i + 1)
    } else {
        i
    }
}

pub proof fn lemma_digit_run_end_bounds(s: Seq<char>, i: int)
    requires
        0 <= i <= s.len(),
    ensures
        i <= digit_run_end(s, i) <= s.len(),
    decreases s.len() - i,
{
    if i < s.len() && is_digit(s[i]) {
        lemma_digit_run_end_bounds(s, i + 1);
    }
}

/// The value of the digit text `s[i..j)`, read most significant first.
pub open spec fn val_of_digits(s: Seq<char>, i: int, j: int) -> nat
    decreases j - i,
{
    if i >= j {
        0
    } else {
        val_of_digits(s, i, j - 1) * 10 + digit_of(s[j - 1]).unwrap_or(0)
    }
}

pub proof fn lemma_val_of_digits_monotone(s: Seq<char>, i: int, k: int, j: int)
    requires
        i <= k <= j,
    ensures
        val_of_digits(s, i, k) <= val_of_digits(s, i, j),
    decreases j - k,
{
    if k < j {
        lemma_val_of_digits_monotone(s, i, k, j - 1);
        assert(val_of_digits(s, i, j - 1) <= val_of_digits(s, i, j - 1) * 10 + digit_of(
            s[j - 1],
        ).unwrap_or(0)) by {
            assert(val_of_digits(s, i, j - 1) * 10 >= val_of_digits(s, i, j - 1)) by (
            nonlinear_arith);
        }
    }
}

/// Parses a nonnegative decimal number: at least one digit, greedily, and
/// the value must fit in `usize`.
pub open spec fn parse_usize(s: Seq<char>, i: int) -> Option<(usize, int)> {
    if 0 <= i < s.len() && is_digit(s[i]) {
        let j = digit_run_end(s, i);
        let v = val_of_digits(s, i, j);
        if v <= usize::MAX {
            Some((v as usize, j))
        } else {
            None
        }
    } else {
        None
    }
}

pub broadcast proof fn lemma_parse_usize_bounds(s: Seq<char>, i: int)
    requires
        0 <= i <= s.len(),
        #[trigger] parse_usize(s, i) is Some,
    ensures
        i < parse_usize(s, i).unwrap().1 <= s.len(),
{
    lemma_digit_run_end_bounds(s, i + 1);
}

/// Parsing the canonical digits of `n` back, when what follows is not a
/// digit, yields `n` and stops right after the digits.
pub proof fn lemma_parse_usize_enc(s: Seq<char>, i: int, n: usize)
    requires
        has_at(s, i, enc_usize(n as nat)),
        i + enc_usize(n as nat).len() == s.len() || !is_digit(s[i + enc_usize(n as nat).len()]),
    ensures
        parse_usize(s, i) == Some((n, i + enc_usize(n as nat).len())),
{
    let t = enc_usize(n as nat);
    lemma_enc_usize_digits(n as nat);
    lemma_has_at_index(s, i, t);
    assert forall|k: int| i <= k < i + t.len() implies is_digit(#[trigger] s[k]) by {
        assert(is_digit(t[k - i]));
        assert(s[i + (k - i)] == t[k - i]);
    }
    lemma_digit_run_only(s, i, i + t.len());
    lemma_val_of_enc(s, i, n as nat);
    lemma_val_of_digits_monotone(s, i, i, i + t.len());
}

/// Helper: a digit run bounded on the right by a non-digit ends exactly there.
proof fn lemma_digit_run_only(s: Seq<char>, i: int, j: int)
    requires
        0 <= i <= j <= s.len(),
        forall|k: int| i <= k < j ==> is_digit(#[trigger] s[k]),
        j == s.len() || !is_digit(s[j]),
    ensures
        digit_run_end(s, i) == j,
    decreases j - i,
{
    if i < j {
        assert(is_digit(s[i]));
        lemma_digit_run_only(s, i + 1, j);
    }
}

/// Helper: the value of the canonical digits of `n` is `n`.
proof fn lemma_val_of_enc(s: Seq<char>, i: int, n: nat)
    requires
        has_at(s, i, enc_usize(n)),
    ensures
        val_of_digits(s, i, i + enc_usize(n).len()) == n,
    decreases n,
{
    let t = enc_usize(n);
    lemma_has_at_index(s, i, t);
    if n < 10 {
        assert(t[0] == digit_char(n));
        assert(s[i + 0] == t[0]);
        assert(val_of_digits(s, i, i + 1) == val_of_digits(s, i, i) * 10 + digit_of(
            s[i],
        ).unwrap_or(0));
    } else {
        let hi = enc_usize(n / 10);
        assert(t == hi + seq![digit_char(n % 10)]);
        lemma_has_at_split(s, i, hi, seq![digit_char(n % 10)]);
        lemma_val_of_enc(s, i, n / 10);
        lemma_has_at_index(s, i + hi.len(), seq![digit_char(n % 10)]);
        assert(seq![digit_char(n % 10)][0] == digit_char(n % 10));
        assert(s[i + hi.len() + 0] == seq![digit_char(n % 10)][0]);
        assert(val_of_digits(s, i, i + t.len()) == val_of_digits(s, i, i + t.len() - 1) * 10
            + digit_of(s[i + t.len() - 1]).unwrap_or(0));
        assert(n / 10 * 10 + n % 10 == n) by (nonlinear_arith);
    }
}

/// Appends the canonical decimal digits of `n`.
pub fn push_usize(out: &mut Vec<char>, n: usize)
    ensures
        final(out)@ == old(out)@ + enc_usize(n as nat),
    decreases n,
{
    if n < 10 {
        out.push(digit_char_exec(n as u8));
    } else {
        push_usize(out, n / 10);
        out.push(digit_char_exec((n % 10) as u8));
        assert(final(out)@ =~= old(out)@ + enc_usize(n as nat));
    }
}

/// Reads a decimal number, mirroring `parse_usize`.
pub fn parse_usize_exec(s: &Vec<char>, i: usize) -> (r: Option<(usize, usize)>)
    requires
        i <= s@.len(),
    ensures
        r matches Some(p) ==> parse_usize(s@, i as int) == Some((p.0, p.1 as int)) && i < p.1
            <= s@.len(),
        r is None ==> parse_usize(s@, i as int) is None,
{
    if i >= s.len() || digit_of_exec(s[i]).is_none() {
        return None;
    }
    let ghost g_end = digit_run_end(s@, i as int);
    proof {
        lemma_digit_run_end_bounds(s@, i as int);
    }
    let mut j: usize = i;
    while j < s.len() && digit_of_exec(s[j]).is_some()
        invariant
            i <= j <= s@.len(),
            digit_run_end(s@, j as int) == g_end,
            forall|k: int| i <= k < j ==> is_digit(#[trigger] s@[k]),
        decreases s@.len() - j,
    {
        j = j + 1;
    }
    assert(g_end == j as int);
    let mut acc: u128 = 0;
    let mut k: usize = i;
    while k < j
        invariant
            i <= k <= j <= s@.len(),
            i < s@.len(),
            is_digit(s@[i as int]),
            digit_run_end(s@, i as int) == j as int,
            forall|kk: int| i <= kk < j ==> is_digit(#[trigger] s@[kk]),
            acc == val_of_digits(s@, i as int, k as int),
            acc <= usize::MAX,
        decreases j - k,
    {
        let d = digit_of_exec(s[k]).unwrap();
        acc = acc * 10 + (d as u128);
        k = k + 1;
        assert(acc == val_of_digits(s@, i as int, k as int));
        if acc > (usize::MAX as u128) {
            proof {
                lemma_val_of_digits_monotone(s@, i as int, k as int, j as int);
                assert(val_of_digits(s@, i as int, j as int) > usize::MAX);
            }
            return None;
        }
    }
    Some((acc as usize, j))
}

// ---------------------------------------------------------------------------
// Strings: quoted, with the protocol's escape set
// ---------------------------------------------------------------------------

/// The canonical JSON spelling of one string character.
pub open spec fn esc_char(c: char) -> Seq<char> {
    if c == '"' {
        seq!['\\', '"']
    } else if c == '\\' {
        seq!['\\', '\\']
    } else if c == '\n' {
        seq!['\\', 'n']
    } else if c == '\r' {
        seq!['\\', 'r']
    } else if c == '\t' {
        seq!['\\', 't']
    } else if (c as u32) < 32 {
        seq![
            '\\',
            'u',
            '0',
            '0',
            hex_char(((c as u32) / 16) as nat),
            hex_char(((c as u32) % 16) as nat),
        ]
    } else {
        seq![c]
    }
}

/// The canonical body of a JSON string (without the quotes).
pub open spec fn enc_str_body(s: Seq<char>) -> Seq<char>
    decreases s.len(),
{
    if s.len() == 0 {
        Seq::empty()
    } else {
        esc_char(s[0]) + enc_str_body(s.skip(1))
    }
}

pub proof fn lemma_enc_str_body_single(c: char)
    ensures
        enc_str_body(seq![c]) == esc_char(c),
{
    reveal_with_fuel(enc_str_body, 2);
    let s1 = seq![c];
    assert(s1[0] == c);
    assert(s1.skip(1) =~= Seq::<char>::empty());
    assert(enc_str_body(s1) == esc_char(c) + enc_str_body(s1.skip(1)));
    assert(esc_char(c) + Seq::<char>::empty() =~= esc_char(c));
}

pub proof fn lemma_enc_str_body_concat(a: Seq<char>, b: Seq<char>)
    ensures
        enc_str_body(a + b) == enc_str_body(a) + enc_str_body(b),
    decreases a.len(),
{
    if a.len() == 0 {
        assert(a + b =~= b);
        assert(enc_str_body(a) + enc_str_body(b) =~= enc_str_body(b));
    } else {
        lemma_enc_str_body_concat(a.skip(1), b);
        assert((a + b).skip(1) =~= a.skip(1) + b);
        assert(esc_char(a[0]) + (enc_str_body(a.skip(1)) + enc_str_body(b)) =~= (esc_char(a[0])
            + enc_str_body(a.skip(1))) + enc_str_body(b));
    }
}

/// The full canonical JSON string for `s`.
pub open spec fn enc_string(s: Seq<char>) -> Seq<char> {
    seq!['"'] + enc_str_body(s) + seq!['"']
}

/// Parses the remainder of a string body after the opening quote, with `acc`
/// holding what was read so far.
pub open spec fn parse_str_rest(s: Seq<char>, i: int, acc: Seq<char>) -> Option<(Seq<char>, int)>
    decreases s.len() - i,
{
    if i < 0 || i >= s.len() {
        None
    } else if s[i] == '"' {
        Some((acc, i + 1))
    } else if s[i] == '\\' {
        if i + 1 < s.len() {
            let e = s[i + 1];
            if e == '"' {
                parse_str_rest(s, i + 2, acc.push('"'))
            } else if e == '\\' {
                parse_str_rest(s, i + 2, acc.push('\\'))
            } else if e == '/' {
                parse_str_rest(s, i + 2, acc.push('/'))
            } else if e == 'n' {
                parse_str_rest(s, i + 2, acc.push('\n'))
            } else if e == 'r' {
                parse_str_rest(s, i + 2, acc.push('\r'))
            } else if e == 't' {
                parse_str_rest(s, i + 2, acc.push('\t'))
            } else if e == 'u' {
                if i + 5 < s.len() && s[i + 2] == '0' && s[i + 3] == '0' {
                    match (hex_val(s[i + 4]), hex_val(s[i + 5])) {
                        (Some(h1), Some(h2)) => if h1 < 2 {
                            parse_str_rest(s, i + 6, acc.push(low_char(16 * h1 + h2)))
                        } else {
                            None
                        },
                        _ => None,
                    }
                } else {
                    None
                }
            } else {
                None
            }
        } else {
            None
        }
    } else if (s[i] as u32) < 32 {
        None
    } else {
        parse_str_rest(s, i + 1, acc.push(s[i]))
    }
}

/// Parses a quoted JSON string starting at `i`.
pub open spec fn parse_string(s: Seq<char>, i: int) -> Option<(Seq<char>, int)> {
    if 0 <= i < s.len() && s[i] == '"' {
        parse_str_rest(s, i + 1, Seq::empty())
    } else {
        None
    }
}

pub proof fn lemma_parse_str_rest_bounds(s: Seq<char>, i: int, acc: Seq<char>)
    requires
        0 <= i <= s.len(),
        parse_str_rest(s, i, acc) is Some,
    ensures
        i < parse_str_rest(s, i, acc).unwrap().1 <= s.len(),
    decreases s.len() - i,
{
    if i < s.len() {
        if s[i] == '"' {
        } else if s[i] == '\\' {
            if i + 1 < s.len() {
                let e = s[i + 1];
                if e == '"' {
                    lemma_parse_str_rest_bounds(s, i + 2, acc.push('"'));
                } else if e == '\\' {
                    lemma_parse_str_rest_bounds(s, i + 2, acc.push('\\'));
                } else if e == '/' {
                    lemma_parse_str_rest_bounds(s, i + 2, acc.push('/'));
                } else if e == 'n' {
                    lemma_parse_str_rest_bounds(s, i + 2, acc.push('\n'));
                } else if e == 'r' {
                    lemma_parse_str_rest_bounds(s, i + 2, acc.push('\r'));
                } else if e == 't' {
                    lemma_parse_str_rest_bounds(s, i + 2, acc.push('\t'));
                } else if e == 'u' {
                    if i + 5 < s.len() && s[i + 2] == '0' && s[i + 3] == '0' {
                        match (hex_val(s[i + 4]), hex_val(s[i + 5])) {
                            (Some(h1), Some(h2)) => if h1 < 2 {
                                lemma_parse_str_rest_bounds(
                                    s,
                                    i + 6,
                                    acc.push(low_char(16 * h1 + h2)),
                                );
                            } else {
                            },
                            _ => {},
                        }
                    }
                }
            }
        } else if (s[i] as u32) >= 32 {
            lemma_parse_str_rest_bounds(s, i + 1, acc.push(s[i]));
        }
    }
}

pub broadcast proof fn lemma_parse_string_bounds(s: Seq<char>, i: int)
    requires
        0 <= i <= s.len(),
        #[trigger] parse_string(s, i) is Some,
    ensures
        i < parse_string(s, i).unwrap().1 <= s.len(),
{
    lemma_parse_str_rest_bounds(s, i + 1, Seq::empty());
}

proof fn lemma_parse_str_rest_enc(s: Seq<char>, i: int, t: Seq<char>, acc: Seq<char>)
    requires
        has_at(s, i, enc_str_body(t) + seq!['"']),
    ensures
        parse_str_rest(s, i, acc) == Some(
            (acc + t, i + enc_str_body(t).len() + 1),
        ),
    decreases t.len(),
{
    if t.len() == 0 {
        lemma_has_at_index(s, i, enc_str_body(t) + seq!['"']);
        assert(enc_str_body(t).len() == 0);
        assert((enc_str_body(t) + seq!['"'])[0] == '"');
        assert(s[i + 0] == (enc_str_body(t) + seq!['"'])[0]);
        assert(acc + t =~= acc);
    } else {
        let c = t[0];
        let rest = t.skip(1);
        assert(t =~= seq![c] + rest);
        lemma_enc_str_body_concat(seq![c], rest);
        lemma_enc_str_body_single(c);
        assert(enc_str_body(t) + seq!['"'] =~= esc_char(c) + (enc_str_body(rest) + seq!['"']));
        lemma_has_at_split(s, i, esc_char(c), enc_str_body(rest) + seq!['"']);
        lemma_has_at_index(s, i, esc_char(c));
        let i2 = i + esc_char(c).len();
        if c == '"' || c == '\\' || c == '\n' || c == '\r' || c == '\t' {
            assert(esc_char(c).len() == 2);
            assert(s[i + 0] == esc_char(c)[0]);
            assert(s[i + 1] == esc_char(c)[1]);
            assert(s[i] == '\\');
            lemma_parse_str_rest_enc(s, i2, rest, acc.push(c));
        } else if (c as u32) < 32 {
            let n = (c as u32) as nat;
            assert(esc_char(c).len() == 6);
            assert(s[i + 0] == esc_char(c)[0]);
            assert(s[i + 1] == esc_char(c)[1]);
            assert(s[i + 2] == esc_char(c)[2]);
            assert(s[i + 3] == esc_char(c)[3]);
            assert(s[i + 4] == esc_char(c)[4]);
            assert(s[i + 5] == esc_char(c)[5]);
            lemma_hex_inverse(n / 16);
            lemma_hex_inverse(n % 16);
            assert(16 * (n / 16) + n % 16 == n);
            lemma_low_char_inverse(c);
            lemma_parse_str_rest_enc(s, i2, rest, acc.push(c));
        } else {
            assert(esc_char(c).len() == 1);
            assert(s[i + 0] == esc_char(c)[0]);
            assert(s[i] == c);
            lemma_parse_str_rest_enc(s, i2, rest, acc.push(c));
        }
        assert(acc.push(c) + rest =~= acc + t);
    }
}

/// Parsing the canonical string text for `t` yields `t` back.
pub proof fn lemma_parse_string_enc(s: Seq<char>, i: int, t: Seq<char>)
    requires
        has_at(s, i, enc_string(t)),
    ensures
        parse_string(s, i) == Some((t, i + enc_string(t).len())),
{
    assert(enc_string(t) =~= seq!['"'] + (enc_str_body(t) + seq!['"']));
    lemma_has_at_split(s, i, seq!['"'], enc_str_body(t) + seq!['"']);
    lemma_has_at_index(s, i, seq!['"']);
    assert(s[i + 0] == seq!['"'][0]);
    lemma_parse_str_rest_enc(s, i + 1, t, Seq::empty());
    assert(Seq::<char>::empty() + t =~= t);
}

/// Appends the characters of `s` as they are.
pub fn push_chars(out: &mut Vec<char>, s: &str)
    ensures
        final(out)@ == old(out)@ + s@,
{
    let n = s.unicode_len();
    let mut k: usize = 0;
    while k < n
        invariant
            n == s@.len(),
            0 <= k <= n,
            out@ == old(out)@ + s@.take(k as int),
        decreases n - k,
    {
        let c = s.get_char(k);
        out.push(c);
        proof {
            assert(s@.take(k + 1) =~= s@.take(k as int) + seq![s@[k as int]]);
            assert(out@ =~= old(out)@ + s@.take(k + 1));
        }
        k = k + 1;
    }
    proof {
        assert(s@.take(s@.len() as int) =~= s@);
    }
}

/// Appends the canonical JSON string for `s` (quotes and escapes included).
pub fn push_string(out: &mut Vec<char>, s: &str)
    ensures
        final(out)@ == old(out)@ + enc_string(s@),
    decreases s@.len(),
{
    out.push('"');
    let n = s.unicode_len();
    let mut k: usize = 0;
    while k < n
        invariant
            n == s@.len(),
            0 <= k <= n,
            out@ == old(out)@ + seq!['"'] + enc_str_body(s@.take(k as int)),
        decreases n - k,
    {
        let c = s.get_char(k);
        match c {
            '"' => {
                out.push('\\');
                out.push('"');
            },
            '\\' => {
                out.push('\\');
                out.push('\\');
            },
            '\n' => {
                out.push('\\');
                out.push('n');
            },
            '\r' => {
                out.push('\\');
                out.push('r');
            },
            '\t' => {
                out.push('\\');
                out.push('t');
            },
            _ => {
                if (c as u32) < 32 {
                    out.push('\\');
                    out.push('u');
                    out.push('0');
                    out.push('0');
                    out.push(hex_char_exec(((c as u32) / 16) as u8));
                    out.push(hex_char_exec(((c as u32) % 16) as u8));
                } else {
                    out.push(c);
                }
            },
        }
        proof {
            let prev = s@.take(k as int);
            let now = s@.take(k + 1);
            assert(now =~= prev + seq![c]);
            lemma_enc_str_body_concat(prev, seq![c]);
            lemma_enc_str_body_single(c);
            assert(out@ =~= old(out)@ + seq!['"'] + enc_str_body(now));
        }
        k = k + 1;
    }
    out.push('"');
    proof {
        assert(s@.take(s@.len() as int) =~= s@);
        assert(out@ =~= old(out)@ + enc_string(s@));
    }
}

/// Reads a quoted string, mirroring `parse_string`.
pub fn parse_string_exec(s: &Vec<char>, i: usize) -> (r: Option<(Vec<char>, usize)>)
    requires
        i <= s@.len(),
    ensures
        r matches Some(p) ==> parse_string(s@, i as int) == Some((p.0@, p.1 as int)) && i < p.1
            <= s@.len(),
        r is None ==> parse_string(s@, i as int) is None,
{
    if i >= s.len() || s[i] != '"' {
        return None;
    }
    let mut acc: Vec<char> = Vec::new();
    let mut j: usize = i + 1;
    loop
        invariant
            i + 1 <= j <= s@.len(),
            i < s@.len(),
            s@[i as int] == '"',
            parse_str_rest(s@, j as int, acc@) == parse_str_rest(
                s@,
                i as int + 1,
                Seq::<char>::empty(),
            ),
        decreases s@.len() - j,
    {
        if j >= s.len() {
            return None;
        }
        let c = s[j];
        if c == '"' {
            proof {
                lemma_parse_str_rest_bounds(s@, i as int + 1, Seq::empty());
            }
            return Some((acc, j + 1));
        } else if c == '\\' {
            if j + 1 >= s.len() {
                return None;
            }
            let e = s[j + 1];
            if e == 'u' {
                if s.len() >= 6 && j <= s.len() - 6 && s[j + 2] == '0' && s[j + 3] == '0' {
                    let h1 = hex_val_exec(s[j + 4]);
                    let h2 = hex_val_exec(s[j + 5]);
                    match (h1, h2) {
                        (Some(h1), Some(h2)) => {
                            if h1 < 2 {
                                acc.push(low_char_exec(16 * h1 + h2));
                                j = j + 6;
                            } else {
                                return None;
                            }
                        },
                        _ => {
                            return None;
                        },
                    }
                } else {
                    return None;
                }
            } else {
                let u = match e {
                    '"' => Some('"'),
                    '\\' => Some('\\'),
                    '/' => Some('/'),
                    'n' => Some('\n'),
                    'r' => Some('\r'),
                    't' => Some('\t'),
                    _ => None,
                };
                match u {
                    Some(uc) => {
                        acc.push(uc);
                        j = j + 2;
                    },
                    None => {
                        return None;
                    },
                }
            }
        } else if (c as u32) < 32 {
            return None;
        } else {
            acc.push(c);
            j = j + 1;
        }
    }
}

// ---------------------------------------------------------------------------
// Booleans
// ---------------------------------------------------------------------------

pub open spec fn enc_bool(b: bool) -> Seq<char> {
    if b {
        seq!['t', 'r', 'u', 'e']
    } else {
        seq!['f', 'a', 'l', 's', 'e']
    }
}

pub open spec fn parse_bool(s: Seq<char>, i: int) -> Option<(bool, int)> {
    if 0 <= i && i + 4 <= s.len() && s.subrange(i, i + 4) == enc_bool(true) {
        Some((true, i + 4))
    } else if 0 <= i && i + 5 <= s.len() && s.subrange(i, i + 5) == enc_bool(false) {
        Some((false, i + 5))
    } else {
        None
    }
}

pub proof fn lemma_parse_bool_enc(s: Seq<char>, i: int, b: bool)
    requires
        has_at(s, i, enc_bool(b)),
    ensures
        parse_bool(s, i) == Some((b, i + enc_bool(b).len())),
{
    if !b {
        lemma_has_at_index(s, i, enc_bool(false));
        if 0 <= i && i + 4 <= s.len() && s.subrange(i, i + 4) == enc_bool(true) {
            assert(s.subrange(i, i + 4)[0] == s[i]);
            assert(false);
        }
    }
}

pub fn push_bool(out: &mut Vec<char>, b: bool)
    ensures
        final(out)@ == old(out)@ + enc_bool(b),
{
    if b {
        out.push('t');
        out.push('r');
        out.push('u');
        out.push('e');
    } else {
        out.push('f');
        out.push('a');
        out.push('l');
        out.push('s');
        out.push('e');
    }
    assert(final(out)@ =~= old(out)@ + enc_bool(b));
}

pub fn parse_bool_exec(s: &Vec<char>, i: usize) -> (r: Option<(bool, usize)>)
    requires
        i <= s@.len(),
    ensures
        r matches Some(p) ==> parse_bool(s@, i as int) == Some((p.0, p.1 as int)) && i < p.1
            <= s@.len(),
        r is None ==> parse_bool(s@, i as int) is None,
{
    if s.len() >= 4 && i <= s.len() - 4 && s[i] == 't' && s[i + 1] == 'r' && s[i + 2] == 'u' && s[i
        + 3] == 'e' {
        proof {
            assert(s@.subrange(i as int, i as int + 4) =~= enc_bool(true));
        }
        Some((true, i + 4))
    } else if s.len() >= 5 && i <= s.len() - 5 && s[i] == 'f' && s[i + 1] == 'a' && s[i + 2] == 'l'
        && s[i + 3] == 's' && s[i + 4] == 'e' {
        proof {
            assert(s@.subrange(i as int, i as int + 5) =~= enc_bool(false));
            if i as int + 4 <= s@.len() && s@.subrange(i as int, i as int + 4) == enc_bool(true) {
                assert(s@.subrange(i as int, i as int + 4)[0] == s@[i as int]);
            }
        }
        Some((false, i + 5))
    } else {
        proof {
            if parse_bool(s@, i as int) is Some {
                if i as int + 4 <= s@.len() && s@.subrange(i as int, i as int + 4) == enc_bool(
                    true,
                ) {
                    assert(s@.subrange(i as int, i as int + 4)[0] == s@[i as int]);
                    assert(s@.subrange(i as int, i as int + 4)[1] == s@[i as int + 1]);
                    assert(s@.subrange(i as int, i as int + 4)[2] == s@[i as int + 2]);
                    assert(s@.subrange(i as int, i as int + 4)[3] == s@[i as int + 3]);
                } else {
                    assert(i as int + 5 <= s@.len() && s@.subrange(i as int, i as int + 5)
                        == enc_bool(false));
                    assert(s@.subrange(i as int, i as int + 5)[0] == s@[i as int]);
                    assert(s@.subrange(i as int, i as int + 5)[1] == s@[i as int + 1]);
                    assert(s@.subrange(i as int, i as int + 5)[2] == s@[i as int + 2]);
                    assert(s@.subrange(i as int, i as int + 5)[3] == s@[i as int + 3]);
                    assert(s@.subrange(i as int, i as int + 5)[4] == s@[i as int + 4]);
                }
            }
        }
        None
    }
}


} // verus!
