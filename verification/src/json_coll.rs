//! Composite JSON shapes of the wire protocol: arrays of numbers and
//! strings, two-element number pairs, and objects keyed by strings, with a
//! lenient skipper for values the protocol ignores.
//!
//! Structured like the lexical layer: spec encoder, spec parser, executable
//! twins, and a lemma per shape that parsing the canonical text restores the
//! value.

use vstd::prelude::*;

use crate::json::digit_run_end;
use crate::json::enc_bool;
use crate::json::enc_string;
use crate::json::enc_usize;
use crate::json::has_at;
use crate::json::is_digit;
use crate::json::lemma_has_at_index;
use crate::json::lemma_has_at_split;
use crate::json::lemma_parse_string_enc;
use crate::json::lemma_parse_usize_enc;
use crate::json::parse_bool;
use crate::json::parse_string;
use crate::json::parse_string_exec;
use crate::json::parse_usize;
use crate::json::parse_usize_exec;
use crate::json::push_string;
use crate::json::push_usize;

verus! {

broadcast use crate::json::lemma_parse_usize_bounds, crate::json::lemma_parse_string_bounds;

// ---------------------------------------------------------------------------
// Arrays of numbers
// ---------------------------------------------------------------------------

/// Second and later items of a number array, each preceded by a comma.
pub open spec fn enc_arr_usize_rest(v: Seq<usize>) -> Seq<char>
    decreases v.len(),
{
    if v.len() == 0 {
        Seq::empty()
    } else {
        seq![','] + enc_usize(v[0] as nat) + enc_arr_usize_rest(v.skip(1))
    }
}

/// Canonical text of a JSON array of numbers.
pub open spec fn enc_arr_usize(v: Seq<usize>) -> Seq<char> {
    if v.len() == 0 {
        seq!['[', ']']
    } else {
        seq!['['] + enc_usize(v[0] as nat) + enc_arr_usize_rest(v.skip(1)) + seq![']']
    }
}

/// Items after the first, with `acc` holding what was read so far.
pub open spec fn parse_arr_usize_rest(s: Seq<char>, i: int, acc: Seq<usize>) -> Option<
    (Seq<usize>, int),
>
    decreases s.len() - i,
{
    if i < 0 || i >= s.len() {
        None
    } else if s[i] == ']' {
        Some((acc, i + 1))
    } else if s[i] == ',' {
        match parse_usize(s, i + 1) {
            Some((n, j)) => if i + 1 < j <= s.len() {
                parse_arr_usize_rest(s, j, acc.push(n))
            } else {
                None
            },
            None => None,
        }
    } else {
        None
    }
}

/// Parses a JSON array of numbers starting at `i`.
pub open spec fn parse_arr_usize(s: Seq<char>, i: int) -> Option<(Seq<usize>, int)> {
    if 0 <= i < s.len() && s[i] == '[' {
        if i + 1 < s.len() && s[i + 1] == ']' {
            Some((Seq::empty(), i + 2))
        } else {
            match parse_usize(s, i + 1) {
                Some((n, j)) => if i + 1 < j <= s.len() {
                    parse_arr_usize_rest(s, j, seq![n])
                } else {
                    None
                },
                None => None,
            }
        }
    } else {
        None
    }
}

proof fn lemma_parse_arr_usize_rest_enc(s: Seq<char>, i: int, v: Seq<usize>, acc: Seq<usize>)
    requires
        has_at(s, i, enc_arr_usize_rest(v) + seq![']']),
    ensures
        parse_arr_usize_rest(s, i, acc) == Some(
            (acc + v, i + enc_arr_usize_rest(v).len() + 1),
        ),
    decreases v.len(),
{
    if v.len() == 0 {
        lemma_has_at_index(s, i, enc_arr_usize_rest(v) + seq![']']);
        assert((enc_arr_usize_rest(v) + seq![']'])[0] == ']');
        assert(s[i + 0] == (enc_arr_usize_rest(v) + seq![']'])[0]);
        assert(acc + v =~= acc);
    } else {
        let n = v[0];
        let rest = v.skip(1);
        let tail = enc_arr_usize_rest(rest) + seq![']'];
        assert(enc_arr_usize_rest(v) + seq![']'] =~= seq![','] + (enc_usize(n as nat) + tail));
        lemma_has_at_split(s, i, seq![','], enc_usize(n as nat) + tail);
        lemma_has_at_index(s, i, seq![',']);
        assert(s[i + 0] == seq![','][0]);
        lemma_has_at_split(s, i + 1, enc_usize(n as nat), tail);
        let j = i + 1 + enc_usize(n as nat).len();
        assert(tail.len() > 0);
        lemma_has_at_index(s, j, tail);
        assert(s[j + 0] == tail[0]);
        assert(tail[0] == ']' || tail[0] == ',') by {
            if rest.len() == 0 {
                assert(tail[0] == ']');
            } else {
                assert(tail[0] == (seq![','] + enc_usize(rest[0] as nat) + enc_arr_usize_rest(
                    rest.skip(1),
                ))[0]);
            }
        }
        lemma_parse_usize_enc(s, i + 1, n);
        lemma_parse_arr_usize_rest_enc(s, j, rest, acc.push(n));
        assert(acc.push(n) + rest =~= acc + v);
    }
}

/// Parsing the canonical array text restores the sequence.
pub proof fn lemma_parse_arr_usize_enc(s: Seq<char>, i: int, v: Seq<usize>)
    requires
        has_at(s, i, enc_arr_usize(v)),
    ensures
        parse_arr_usize(s, i) == Some((v, i + enc_arr_usize(v).len())),
{
    if v.len() == 0 {
        lemma_has_at_index(s, i, enc_arr_usize(v));
        assert(s[i + 0] == enc_arr_usize(v)[0]);
        assert(s[i + 1] == enc_arr_usize(v)[1]);
        assert(Seq::<usize>::empty() =~= v);
    } else {
        let n = v[0];
        let rest = v.skip(1);
        let tail = enc_arr_usize_rest(rest) + seq![']'];
        assert(enc_arr_usize(v) =~= seq!['['] + (enc_usize(n as nat) + tail));
        lemma_has_at_split(s, i, seq!['['], enc_usize(n as nat) + tail);
        lemma_has_at_index(s, i, seq!['[']);
        assert(s[i + 0] == seq!['['][0]);
        lemma_has_at_split(s, i + 1, enc_usize(n as nat), tail);
        let j = i + 1 + enc_usize(n as nat).len();
        lemma_has_at_index(s, j, tail);
        assert(s[j + 0] == tail[0]);
        assert(tail[0] == ']' || tail[0] == ',') by {
            if rest.len() == 0 {
                assert(tail[0] == ']');
            } else {
                assert(tail[0] == (seq![','] + enc_usize(rest[0] as nat) + enc_arr_usize_rest(
                    rest.skip(1),
                ))[0]);
            }
        }
        lemma_parse_usize_enc(s, i + 1, n);
        assert(s[i + 1] != ']');
        lemma_parse_arr_usize_rest_enc(s, j, rest, seq![n]);
        assert(seq![n] + rest =~= v);
    }
}

/// Appends the canonical array text for `v`.
pub fn push_arr_usize(out: &mut Vec<char>, v: &Vec<usize>)
    ensures
        final(out)@ == old(out)@ + enc_arr_usize(v@),
{
    out.push('[');
    if v.len() > 0 {
        push_usize(out, v[0]);
        push_arr_usize_rest(out, v, 1);
    }
    out.push(']');
    proof {
        if v@.len() == 0 {
            assert(final(out)@ =~= old(out)@ + enc_arr_usize(v@));
        } else {
            assert(v@.skip(1) =~= v@.subrange(1, v@.len() as int));
            assert(final(out)@ =~= old(out)@ + enc_arr_usize(v@));
        }
    }
}

fn push_arr_usize_rest(out: &mut Vec<char>, v: &Vec<usize>, from: usize)
    requires
        1 <= from <= v@.len(),
    ensures
        final(out)@ == old(out)@ + enc_arr_usize_rest(v@.skip(from as int)),
    decreases v@.len() - from,
{
    if from < v.len() {
        out.push(',');
        push_usize(out, v[from]);
        push_arr_usize_rest(out, v, from + 1);
        proof {
            let tail = v@.skip(from as int);
            assert(tail[0] == v@[from as int]);
            assert(tail.skip(1) =~= v@.skip(from as int + 1));
            assert(final(out)@ =~= old(out)@ + enc_arr_usize_rest(tail));
        }
    } else {
        proof {
            assert(v@.skip(from as int) =~= Seq::<usize>::empty());
            assert(final(out)@ =~= old(out)@ + enc_arr_usize_rest(v@.skip(from as int)));
        }
    }
}

fn parse_arr_usize_rest_exec(s: &Vec<char>, i: usize, acc: Vec<usize>) -> (r: Option<
    (Vec<usize>, usize),
>)
    requires
        i <= s@.len(),
    ensures
        r matches Some(p) ==> parse_arr_usize_rest(s@, i as int, acc@) == Some((p.0@, p.1 as int))
            && i < p.1 <= s@.len(),
        r is None ==> parse_arr_usize_rest(s@, i as int, acc@) is None,
    decreases s@.len() - i,
{
    if i >= s.len() {
        return None;
    }
    if s[i] == ']' {
        return Some((acc, i + 1));
    }
    if s[i] != ',' {
        return None;
    }
    match parse_usize_exec(s, i + 1) {
        None => None,
        Some((n, j)) => {
            let mut acc2 = acc;
            acc2.push(n);
            parse_arr_usize_rest_exec(s, j, acc2)
        },
    }
}

/// Reads a JSON array of numbers, mirroring `parse_arr_usize`.
pub fn parse_arr_usize_exec(s: &Vec<char>, i: usize) -> (r: Option<(Vec<usize>, usize)>)
    requires
        i <= s@.len(),
    ensures
        r matches Some(p) ==> parse_arr_usize(s@, i as int) == Some((p.0@, p.1 as int)) && i < p.1
            <= s@.len(),
        r is None ==> parse_arr_usize(s@, i as int) is None,
{
    if i >= s.len() || s[i] != '[' {
        return None;
    }
    if i + 1 < s.len() && s[i + 1] == ']' {
        let empty: Vec<usize> = Vec::new();
        return Some((empty, i + 2));
    }
    match parse_usize_exec(s, i + 1) {
        None => None,
        Some((n, j)) => {
            let mut acc: Vec<usize> = Vec::new();
            acc.push(n);
            proof {
                assert(acc@ =~= seq![n]);
            }
            parse_arr_usize_rest_exec(s, j, acc)
        },
    }
}

// ---------------------------------------------------------------------------
// Arrays of strings
// ---------------------------------------------------------------------------

pub open spec fn enc_arr_string_rest(v: Seq<Seq<char>>) -> Seq<char>
    decreases v.len(),
{
    if v.len() == 0 {
        Seq::empty()
    } else {
        seq![','] + enc_string(v[0]) + enc_arr_string_rest(v.skip(1))
    }
}

/// Canonical text of a JSON array of strings.
pub open spec fn enc_arr_string(v: Seq<Seq<char>>) -> Seq<char> {
    if v.len() == 0 {
        seq!['[', ']']
    } else {
        seq!['['] + enc_string(v[0]) + enc_arr_string_rest(v.skip(1)) + seq![']']
    }
}

pub open spec fn parse_arr_string_rest(s: Seq<char>, i: int, acc: Seq<Seq<char>>) -> Option<
    (Seq<Seq<char>>, int),
>
    decreases s.len() - i,
{
    if i < 0 || i >= s.len() {
        None
    } else if s[i] == ']' {
        Some((acc, i + 1))
    } else if s[i] == ',' {
        match parse_string(s, i + 1) {
            Some((t, j)) => if i + 1 < j <= s.len() {
                parse_arr_string_rest(s, j, acc.push(t))
            } else {
                None
            },
            None => None,
        }
    } else {
        None
    }
}

/// Parses a JSON array of strings starting at `i`.
pub open spec fn parse_arr_string(s: Seq<char>, i: int) -> Option<(Seq<Seq<char>>, int)> {
    if 0 <= i < s.len() && s[i] == '[' {
        if i + 1 < s.len() && s[i + 1] == ']' {
            Some((Seq::empty(), i + 2))
        } else {
            match parse_string(s, i + 1) {
                Some((t, j)) => if i + 1 < j <= s.len() {
                    parse_arr_string_rest(s, j, seq![t])
                } else {
                    None
                },
                None => None,
            }
        }
    } else {
        None
    }
}

proof fn lemma_parse_arr_string_rest_enc(
    s: Seq<char>,
    i: int,
    v: Seq<Seq<char>>,
    acc: Seq<Seq<char>>,
)
    requires
        has_at(s, i, enc_arr_string_rest(v) + seq![']']),
    ensures
        parse_arr_string_rest(s, i, acc) == Some(
            (acc + v, i + enc_arr_string_rest(v).len() + 1),
        ),
    decreases v.len(),
{
    if v.len() == 0 {
        lemma_has_at_index(s, i, enc_arr_string_rest(v) + seq![']']);
        assert((enc_arr_string_rest(v) + seq![']'])[0] == ']');
        assert(s[i + 0] == (enc_arr_string_rest(v) + seq![']'])[0]);
        assert(acc + v =~= acc);
    } else {
        let t = v[0];
        let rest = v.skip(1);
        let tail = enc_arr_string_rest(rest) + seq![']'];
        assert(enc_arr_string_rest(v) + seq![']'] =~= seq![','] + (enc_string(t) + tail));
        lemma_has_at_split(s, i, seq![','], enc_string(t) + tail);
        lemma_has_at_index(s, i, seq![',']);
        assert(s[i + 0] == seq![','][0]);
        lemma_has_at_split(s, i + 1, enc_string(t), tail);
        let j = i + 1 + enc_string(t).len();
        lemma_parse_string_enc(s, i + 1, t);
        lemma_parse_arr_string_rest_enc(s, j, rest, acc.push(t));
        assert(acc.push(t) + rest =~= acc + v);
    }
}

/// Parsing the canonical array text restores the strings.
pub proof fn lemma_parse_arr_string_enc(s: Seq<char>, i: int, v: Seq<Seq<char>>)
    requires
        has_at(s, i, enc_arr_string(v)),
    ensures
        parse_arr_string(s, i) == Some((v, i + enc_arr_string(v).len())),
{
    if v.len() == 0 {
        lemma_has_at_index(s, i, enc_arr_string(v));
        assert(s[i + 0] == enc_arr_string(v)[0]);
        assert(s[i + 1] == enc_arr_string(v)[1]);
        assert(Seq::<Seq<char>>::empty() =~= v);
    } else {
        let t = v[0];
        let rest = v.skip(1);
        let tail = enc_arr_string_rest(rest) + seq![']'];
        assert(enc_arr_string(v) =~= seq!['['] + (enc_string(t) + tail));
        lemma_has_at_split(s, i, seq!['['], enc_string(t) + tail);
        lemma_has_at_index(s, i, seq!['[']);
        assert(s[i + 0] == seq!['['][0]);
        lemma_has_at_split(s, i + 1, enc_string(t), tail);
        let j = i + 1 + enc_string(t).len();
        lemma_parse_string_enc(s, i + 1, t);
        assert(s[i + 1] == '"');
        lemma_parse_arr_string_rest_enc(s, j, rest, seq![t]);
        assert(seq![t] + rest =~= v);
    }
}

/// Appends the canonical array text for the strings of `v`.
pub fn push_arr_string(out: &mut Vec<char>, v: &Vec<String>)
    ensures
        final(out)@ == old(out)@ + enc_arr_string(v.deep_view()),
{
    out.push('[');
    if v.len() > 0 {
        push_string(out, v[0].as_str());
        push_arr_string_rest(out, v, 1);
    }
    out.push(']');
    proof {
        let dv = v.deep_view();
        assert(dv.len() == v@.len());
        if dv.len() == 0 {
            assert(final(out)@ =~= old(out)@ + enc_arr_string(dv));
        } else {
            assert(dv[0] == v@[0]@);
            assert(final(out)@ =~= old(out)@ + enc_arr_string(dv));
        }
    }
}

fn push_arr_string_rest(out: &mut Vec<char>, v: &Vec<String>, from: usize)
    requires
        1 <= from <= v@.len(),
    ensures
        final(out)@ == old(out)@ + enc_arr_string_rest(v.deep_view().skip(from as int)),
    decreases v@.len() - from,
{
    let ghost dv = v.deep_view();
    proof {
        assert(dv.len() == v@.len());
    }
    if from < v.len() {
        out.push(',');
        push_string(out, v[from].as_str());
        push_arr_string_rest(out, v, from + 1);
        proof {
            let tail = dv.skip(from as int);
            assert(tail[0] == dv[from as int]);
            assert(dv[from as int] == v@[from as int]@);
            assert(tail.skip(1) =~= dv.skip(from as int + 1));
            assert(final(out)@ =~= old(out)@ + enc_arr_string_rest(tail));
        }
    } else {
        proof {
            assert(dv.skip(from as int) =~= Seq::<Seq<char>>::empty());
            assert(final(out)@ =~= old(out)@ + enc_arr_string_rest(dv.skip(from as int)));
        }
    }
}

fn parse_arr_string_rest_exec(s: &Vec<char>, i: usize, acc: Vec<Vec<char>>) -> (r: Option<
    (Vec<Vec<char>>, usize),
>)
    requires
        i <= s@.len(),
    ensures
        r matches Some(p) ==> parse_arr_string_rest(s@, i as int, acc.deep_view()) == Some(
            (p.0.deep_view(), p.1 as int),
        ) && i < p.1 <= s@.len(),
        r is None ==> parse_arr_string_rest(s@, i as int, acc.deep_view()) is None,
    decreases s@.len() - i,
{
    if i >= s.len() {
        return None;
    }
    if s[i] == ']' {
        return Some((acc, i + 1));
    }
    if s[i] != ',' {
        return None;
    }
    match parse_string_exec(s, i + 1) {
        None => None,
        Some((t, j)) => {
            let mut acc2 = acc;
            let ghost acc2_before = acc2.deep_view();
            acc2.push(t);
            proof {
                assert(acc2.deep_view() =~~= acc2_before.push(t@));
            }
            parse_arr_string_rest_exec(s, j, acc2)
        },
    }
}

/// Reads a JSON array of strings, mirroring `parse_arr_string`.
pub fn parse_arr_string_exec(s: &Vec<char>, i: usize) -> (r: Option<(Vec<Vec<char>>, usize)>)
    requires
        i <= s@.len(),
    ensures
        r matches Some(p) ==> parse_arr_string(s@, i as int) == Some((p.0.deep_view(), p.1 as int))
            && i < p.1 <= s@.len(),
        r is None ==> parse_arr_string(s@, i as int) is None,
{
    if i >= s.len() || s[i] != '[' {
        return None;
    }
    if i + 1 < s.len() && s[i + 1] == ']' {
        let empty: Vec<Vec<char>> = Vec::new();
        proof {
            assert(empty.deep_view() =~= Seq::<Seq<char>>::empty());
        }
        return Some((empty, i + 2));
    }
    match parse_string_exec(s, i + 1) {
        None => None,
        Some((t, j)) => {
            let mut acc: Vec<Vec<char>> = Vec::new();
            let ghost tv = t@;
            acc.push(t);
            proof {
                assert(acc.deep_view() =~~= seq![tv]);
            }
            parse_arr_string_rest_exec(s, j, acc)
        },
    }
}

// ---------------------------------------------------------------------------
// Two-element number pairs ([offset, value] entries of a poll reply)
// ---------------------------------------------------------------------------

/// Canonical text of a two-element JSON array of numbers.
pub open spec fn enc_pair(p: (usize, usize)) -> Seq<char> {
    seq!['['] + enc_usize(p.0 as nat) + seq![','] + enc_usize(p.1 as nat) + seq![']']
}

/// Parses a two-element JSON array of numbers.
pub open spec fn parse_pair(s: Seq<char>, i: int) -> Option<((usize, usize), int)> {
    if 0 <= i < s.len() && s[i] == '[' {
        match parse_usize(s, i + 1) {
            Some((a, j)) => if i + 1 < j < s.len() && s[j] == ',' {
                match parse_usize(s, j + 1) {
                    Some((b, k)) => if j + 1 < k < s.len() && s[k] == ']' {
                        Some(((a, b), k + 1))
                    } else {
                        None
                    },
                    None => None,
                }
            } else {
                None
            },
            None => None,
        }
    } else {
        None
    }
}

/// Parsing the canonical pair text restores the pair.
pub proof fn lemma_parse_pair_enc(s: Seq<char>, i: int, p: (usize, usize))
    requires
        has_at(s, i, enc_pair(p)),
    ensures
        parse_pair(s, i) == Some((p, i + enc_pair(p).len())),
{
    let ea = enc_usize(p.0 as nat);
    let eb = enc_usize(p.1 as nat);
    assert(enc_pair(p) =~= seq!['['] + (ea + (seq![','] + (eb + seq![']']))));
    lemma_has_at_split(s, i, seq!['['], ea + (seq![','] + (eb + seq![']'])));
    lemma_has_at_index(s, i, seq!['[']);
    assert(s[i + 0] == seq!['['][0]);
    lemma_has_at_split(s, i + 1, ea, seq![','] + (eb + seq![']']));
    let j = i + 1 + ea.len();
    lemma_has_at_split(s, j, seq![','], eb + seq![']']);
    lemma_has_at_index(s, j, seq![',']);
    assert(s[j + 0] == seq![','][0]);
    lemma_has_at_split(s, j + 1, eb, seq![']']);
    let k = j + 1 + eb.len();
    lemma_has_at_index(s, k, seq![']']);
    assert(s[k + 0] == seq![']'][0]);
    lemma_parse_usize_enc(s, i + 1, p.0);
    lemma_parse_usize_enc(s, j + 1, p.1);
}

/// Appends the canonical pair text for `p`.
pub fn push_pair(out: &mut Vec<char>, p: (usize, usize))
    ensures
        final(out)@ == old(out)@ + enc_pair(p),
{
    out.push('[');
    push_usize(out, p.0);
    out.push(',');
    push_usize(out, p.1);
    out.push(']');
    assert(final(out)@ =~= old(out)@ + enc_pair(p));
}

/// Reads a two-element number array, mirroring `parse_pair`.
pub fn parse_pair_exec(s: &Vec<char>, i: usize) -> (r: Option<((usize, usize), usize)>)
    requires
        i <= s@.len(),
    ensures
        r matches Some(q) ==> parse_pair(s@, i as int) == Some((q.0, q.1 as int)) && i < q.1
            <= s@.len(),
        r is None ==> parse_pair(s@, i as int) is None,
{
    if i >= s.len() || s[i] != '[' {
        return None;
    }
    match parse_usize_exec(s, i + 1) {
        None => None,
        Some((a, j)) => {
            if j >= s.len() || s[j] != ',' {
                return None;
            }
            match parse_usize_exec(s, j + 1) {
                None => None,
                Some((b, k)) => {
                    if k >= s.len() || s[k] != ']' {
                        return None;
                    }
                    Some(((a, b), k + 1))
                },
            }
        },
    }
}

// ---------------------------------------------------------------------------
// Arrays of pairs
// ---------------------------------------------------------------------------

pub open spec fn enc_arr_pairs_rest(v: Seq<(usize, usize)>) -> Seq<char>
    decreases v.len(),
{
    if v.len() == 0 {
        Seq::empty()
    } else {
        seq![','] + enc_pair(v[0]) + enc_arr_pairs_rest(v.skip(1))
    }
}

/// Canonical text of a JSON array of two-element number pairs.
pub open spec fn enc_arr_pairs(v: Seq<(usize, usize)>) -> Seq<char> {
    if v.len() == 0 {
        seq!['[', ']']
    } else {
        seq!['['] + enc_pair(v[0]) + enc_arr_pairs_rest(v.skip(1)) + seq![']']
    }
}

pub open spec fn parse_arr_pairs_rest(s: Seq<char>, i: int, acc: Seq<(usize, usize)>) -> Option<
    (Seq<(usize, usize)>, int),
>
    decreases s.len() - i,
{
    if i < 0 || i >= s.len() {
        None
    } else if s[i] == ']' {
        Some((acc, i + 1))
    } else if s[i] == ',' {
        match parse_pair(s, i + 1) {
            Some((p, j)) => if i + 1 < j <= s.len() {
                parse_arr_pairs_rest(s, j, acc.push(p))
            } else {
                None
            },
            None => None,
        }
    } else {
        None
    }
}

/// Parses a JSON array of two-element number pairs starting at `i`.
pub open spec fn parse_arr_pairs(s: Seq<char>, i: int) -> Option<(Seq<(usize, usize)>, int)> {
    if 0 <= i < s.len() && s[i] == '[' {
        if i + 1 < s.len() && s[i + 1] == ']' {
            Some((Seq::empty(), i + 2))
        } else {
            match parse_pair(s, i + 1) {
                Some((p, j)) => if i + 1 < j <= s.len() {
                    parse_arr_pairs_rest(s, j, seq![p])
                } else {
                    None
                },
                None => None,
            }
        }
    } else {
        None
    }
}

proof fn lemma_parse_arr_pairs_rest_enc(
    s: Seq<char>,
    i: int,
    v: Seq<(usize, usize)>,
    acc: Seq<(usize, usize)>,
)
    requires
        has_at(s, i, enc_arr_pairs_rest(v) + seq![']']),
    ensures
        parse_arr_pairs_rest(s, i, acc) == Some(
            (acc + v, i + enc_arr_pairs_rest(v).len() + 1),
        ),
    decreases v.len(),
{
    if v.len() == 0 {
        lemma_has_at_index(s, i, enc_arr_pairs_rest(v) + seq![']']);
        assert((enc_arr_pairs_rest(v) + seq![']'])[0] == ']');
        assert(s[i + 0] == (enc_arr_pairs_rest(v) + seq![']'])[0]);
        assert(acc + v =~= acc);
    } else {
        let p = v[0];
        let rest = v.skip(1);
        let tail = enc_arr_pairs_rest(rest) + seq![']'];
        assert(enc_arr_pairs_rest(v) + seq![']'] =~= seq![','] + (enc_pair(p) + tail));
        lemma_has_at_split(s, i, seq![','], enc_pair(p) + tail);
        lemma_has_at_index(s, i, seq![',']);
        assert(s[i + 0] == seq![','][0]);
        lemma_has_at_split(s, i + 1, enc_pair(p), tail);
        let j = i + 1 + enc_pair(p).len();
        lemma_parse_pair_enc(s, i + 1, p);
        lemma_parse_arr_pairs_rest_enc(s, j, rest, acc.push(p));
        assert(acc.push(p) + rest =~= acc + v);
    }
}

/// Parsing the canonical array text restores the pairs.
pub proof fn lemma_parse_arr_pairs_enc(s: Seq<char>, i: int, v: Seq<(usize, usize)>)
    requires
        has_at(s, i, enc_arr_pairs(v)),
    ensures
        parse_arr_pairs(s, i) == Some((v, i + enc_arr_pairs(v).len())),
{
    if v.len() == 0 {
        lemma_has_at_index(s, i, enc_arr_pairs(v));
        assert(s[i + 0] == enc_arr_pairs(v)[0]);
        assert(s[i + 1] == enc_arr_pairs(v)[1]);
        assert(Seq::<(usize, usize)>::empty() =~= v);
    } else {
        let p = v[0];
        let rest = v.skip(1);
        let tail = enc_arr_pairs_rest(rest) + seq![']'];
        assert(enc_arr_pairs(v) =~= seq!['['] + (enc_pair(p) + tail));
        lemma_has_at_split(s, i, seq!['['], enc_pair(p) + tail);
        lemma_has_at_index(s, i, seq!['[']);
        assert(s[i + 0] == seq!['['][0]);
        lemma_has_at_split(s, i + 1, enc_pair(p), tail);
        let j = i + 1 + enc_pair(p).len();
        lemma_parse_pair_enc(s, i + 1, p);
        assert(has_at(s, i + 1, enc_pair(p)));
        lemma_has_at_index(s, i + 1, enc_pair(p));
        assert(s[i + 1 + 0] == enc_pair(p)[0]);
        assert(s[i + 1] != ']');
        lemma_parse_arr_pairs_rest_enc(s, j, rest, seq![p]);
        assert(seq![p] + rest =~= v);
    }
}

/// Appends the canonical array text for the pairs of `v`.
pub fn push_arr_pairs(out: &mut Vec<char>, v: &Vec<(usize, usize)>)
    ensures
        final(out)@ == old(out)@ + enc_arr_pairs(v@),
{
    out.push('[');
    if v.len() > 0 {
        push_pair(out, v[0]);
        push_arr_pairs_rest(out, v, 1);
    }
    out.push(']');
    proof {
        if v@.len() == 0 {
            assert(final(out)@ =~= old(out)@ + enc_arr_pairs(v@));
        } else {
            assert(final(out)@ =~= old(out)@ + enc_arr_pairs(v@));
        }
    }
}

fn push_arr_pairs_rest(out: &mut Vec<char>, v: &Vec<(usize, usize)>, from: usize)
    requires
        1 <= from <= v@.len(),
    ensures
        final(out)@ == old(out)@ + enc_arr_pairs_rest(v@.skip(from as int)),
    decreases v@.len() - from,
{
    if from < v.len() {
        out.push(',');
        push_pair(out, v[from]);
        push_arr_pairs_rest(out, v, from + 1);
        proof {
            let tail = v@.skip(from as int);
            assert(tail[0] == v@[from as int]);
            assert(tail.skip(1) =~= v@.skip(from as int + 1));
            assert(final(out)@ =~= old(out)@ + enc_arr_pairs_rest(tail));
        }
    } else {
        proof {
            assert(v@.skip(from as int) =~= Seq::<(usize, usize)>::empty());
            assert(final(out)@ =~= old(out)@ + enc_arr_pairs_rest(v@.skip(from as int)));
        }
    }
}

fn parse_arr_pairs_rest_exec(s: &Vec<char>, i: usize, acc: Vec<(usize, usize)>) -> (r: Option<
    (Vec<(usize, usize)>, usize),
>)
    requires
        i <= s@.len(),
    ensures
        r matches Some(p) ==> parse_arr_pairs_rest(s@, i as int, acc@) == Some((p.0@, p.1 as int))
            && i < p.1 <= s@.len(),
        r is None ==> parse_arr_pairs_rest(s@, i as int, acc@) is None,
    decreases s@.len() - i,
{
    if i >= s.len() {
        return None;
    }
    if s[i] == ']' {
        return Some((acc, i + 1));
    }
    if s[i] != ',' {
        return None;
    }
    match parse_pair_exec(s, i + 1) {
        None => None,
        Some((p, j)) => {
            let mut acc2 = acc;
            acc2.push(p);
            parse_arr_pairs_rest_exec(s, j, acc2)
        },
    }
}

/// Reads a JSON array of pairs, mirroring `parse_arr_pairs`.
pub fn parse_arr_pairs_exec(s: &Vec<char>, i: usize) -> (r: Option<(Vec<(usize, usize)>, usize)>)
    requires
        i <= s@.len(),
    ensures
        r matches Some(p) ==> parse_arr_pairs(s@, i as int) == Some((p.0@, p.1 as int)) && i < p.1
            <= s@.len(),
        r is None ==> parse_arr_pairs(s@, i as int) is None,
{
    if i >= s.len() || s[i] != '[' {
        return None;
    }
    if i + 1 < s.len() && s[i + 1] == ']' {
        let empty: Vec<(usize, usize)> = Vec::new();
        return Some((empty, i + 2));
    }
    match parse_pair_exec(s, i + 1) {
        None => None,
        Some((p, j)) => {
            let mut acc: Vec<(usize, usize)> = Vec::new();
            acc.push(p);
            proof {
                assert(acc@ =~= seq![p]);
            }
            parse_arr_pairs_rest_exec(s, j, acc)
        },
    }
}

// ---------------------------------------------------------------------------
// Objects with string keys and number values (offset maps)
// ---------------------------------------------------------------------------

pub open spec fn enc_obj_usize_member(p: (Seq<char>, usize)) -> Seq<char> {
    enc_string(p.0) + seq![':'] + enc_usize(p.1 as nat)
}

pub open spec fn enc_obj_usize_rest(v: Seq<(Seq<char>, usize)>) -> Seq<char>
    decreases v.len(),
{
    if v.len() == 0 {
        Seq::empty()
    } else {
        seq![','] + enc_obj_usize_member(v[0]) + enc_obj_usize_rest(v.skip(1))
    }
}

/// Canonical text of a JSON object mapping strings to numbers, members in
/// sequence order.
pub open spec fn enc_obj_usize(v: Seq<(Seq<char>, usize)>) -> Seq<char> {
    if v.len() == 0 {
        seq!['{', '}']
    } else {
        seq!['{'] + enc_obj_usize_member(v[0]) + enc_obj_usize_rest(v.skip(1)) + seq!['}']
    }
}

/// Parses one `"key":number` member.
pub open spec fn parse_obj_usize_member(s: Seq<char>, i: int) -> Option<((Seq<char>, usize), int)> {
    match parse_string(s, i) {
        Some((t, j)) => if i < j < s.len() && s[j] == ':' {
            match parse_usize(s, j + 1) {
                Some((n, m)) => if j + 1 < m <= s.len() {
                    Some(((t, n), m))
                } else {
                    None
                },
                None => None,
            }
        } else {
            None
        },
        None => None,
    }
}

pub open spec fn parse_obj_usize_rest(s: Seq<char>, i: int, acc: Seq<(Seq<char>, usize)>) -> Option<
    (Seq<(Seq<char>, usize)>, int),
>
    decreases s.len() - i,
{
    if i < 0 || i >= s.len() {
        None
    } else if s[i] == '}' {
        Some((acc, i + 1))
    } else if s[i] == ',' {
        match parse_obj_usize_member(s, i + 1) {
            Some((p, j)) => if i + 1 < j <= s.len() {
                parse_obj_usize_rest(s, j, acc.push(p))
            } else {
                None
            },
            None => None,
        }
    } else {
        None
    }
}

/// Parses a JSON object of string keys and number values starting at `i`.
pub open spec fn parse_obj_usize(s: Seq<char>, i: int) -> Option<(Seq<(Seq<char>, usize)>, int)> {
    if 0 <= i < s.len() && s[i] == '{' {
        if i + 1 < s.len() && s[i + 1] == '}' {
            Some((Seq::empty(), i + 2))
        } else {
            match parse_obj_usize_member(s, i + 1) {
                Some((p, j)) => if i + 1 < j <= s.len() {
                    parse_obj_usize_rest(s, j, seq![p])
                } else {
                    None
                },
                None => None,
            }
        }
    } else {
        None
    }
}

proof fn lemma_parse_obj_usize_member_enc(s: Seq<char>, i: int, p: (Seq<char>, usize))
    requires
        has_at(s, i, enc_obj_usize_member(p)),
        i + enc_obj_usize_member(p).len() == s.len() || !is_digit(
            s[i + enc_obj_usize_member(p).len()],
        ),
    ensures
        parse_obj_usize_member(s, i) == Some((p, i + enc_obj_usize_member(p).len())),
{
    let ek = enc_string(p.0);
    let ev = enc_usize(p.1 as nat);
    assert(enc_obj_usize_member(p) =~= ek + (seq![':'] + ev));
    lemma_has_at_split(s, i, ek, seq![':'] + ev);
    lemma_parse_string_enc(s, i, p.0);
    let j = i + ek.len();
    lemma_has_at_split(s, j, seq![':'], ev);
    lemma_has_at_index(s, j, seq![':']);
    assert(s[j + 0] == seq![':'][0]);
    lemma_parse_usize_enc(s, j + 1, p.1);
}

proof fn lemma_parse_obj_usize_rest_enc(
    s: Seq<char>,
    i: int,
    v: Seq<(Seq<char>, usize)>,
    acc: Seq<(Seq<char>, usize)>,
)
    requires
        has_at(s, i, enc_obj_usize_rest(v) + seq!['}']),
    ensures
        parse_obj_usize_rest(s, i, acc) == Some(
            (acc + v, i + enc_obj_usize_rest(v).len() + 1),
        ),
    decreases v.len(),
{
    if v.len() == 0 {
        lemma_has_at_index(s, i, enc_obj_usize_rest(v) + seq!['}']);
        assert((enc_obj_usize_rest(v) + seq!['}'])[0] == '}');
        assert(s[i + 0] == (enc_obj_usize_rest(v) + seq!['}'])[0]);
        assert(acc + v =~= acc);
    } else {
        let p = v[0];
        let rest = v.skip(1);
        let tail = enc_obj_usize_rest(rest) + seq!['}'];
        assert(enc_obj_usize_rest(v) + seq!['}'] =~= seq![','] + (enc_obj_usize_member(p) + tail));
        lemma_has_at_split(s, i, seq![','], enc_obj_usize_member(p) + tail);
        lemma_has_at_index(s, i, seq![',']);
        assert(s[i + 0] == seq![','][0]);
        lemma_has_at_split(s, i + 1, enc_obj_usize_member(p), tail);
        let j = i + 1 + enc_obj_usize_member(p).len();
        lemma_has_at_index(s, j, tail);
        assert(s[j + 0] == tail[0]);
        assert(tail[0] == '}' || tail[0] == ',') by {
            if rest.len() == 0 {
                assert(tail[0] == '}');
            } else {
                assert(tail[0] == (seq![','] + enc_obj_usize_member(rest[0])
                    + enc_obj_usize_rest(rest.skip(1)))[0]);
            }
        }
        lemma_parse_obj_usize_member_enc(s, i + 1, p);
        lemma_parse_obj_usize_rest_enc(s, j, rest, acc.push(p));
        assert(acc.push(p) + rest =~= acc + v);
    }
}

/// Parsing the canonical object text restores the members in order.
pub proof fn lemma_parse_obj_usize_enc(s: Seq<char>, i: int, v: Seq<(Seq<char>, usize)>)
    requires
        has_at(s, i, enc_obj_usize(v)),
    ensures
        parse_obj_usize(s, i) == Some((v, i + enc_obj_usize(v).len())),
{
    if v.len() == 0 {
        lemma_has_at_index(s, i, enc_obj_usize(v));
        assert(s[i + 0] == enc_obj_usize(v)[0]);
        assert(s[i + 1] == enc_obj_usize(v)[1]);
        assert(Seq::<(Seq<char>, usize)>::empty() =~= v);
    } else {
        let p = v[0];
        let rest = v.skip(1);
        let tail = enc_obj_usize_rest(rest) + seq!['}'];
        assert(enc_obj_usize(v) =~= seq!['{'] + (enc_obj_usize_member(p) + tail));
        lemma_has_at_split(s, i, seq!['{'], enc_obj_usize_member(p) + tail);
        lemma_has_at_index(s, i, seq!['{']);
        assert(s[i + 0] == seq!['{'][0]);
        lemma_has_at_split(s, i + 1, enc_obj_usize_member(p), tail);
        let j = i + 1 + enc_obj_usize_member(p).len();
        lemma_has_at_index(s, j, tail);
        assert(s[j + 0] == tail[0]);
        assert(tail[0] == '}' || tail[0] == ',') by {
            if rest.len() == 0 {
                assert(tail[0] == '}');
            } else {
                assert(tail[0] == (seq![','] + enc_obj_usize_member(rest[0])
                    + enc_obj_usize_rest(rest.skip(1)))[0]);
            }
        }
        lemma_parse_obj_usize_member_enc(s, i + 1, p);
        assert(enc_obj_usize_member(p)[0] == '"') by {
            assert(enc_obj_usize_member(p) == enc_string(p.0) + seq![':'] + enc_usize(
                p.1 as nat,
            ));
        }
        lemma_has_at_index(s, i + 1, enc_obj_usize_member(p));
        assert(s[i + 1 + 0] == enc_obj_usize_member(p)[0]);
        assert(s[i + 1] != '}');
        lemma_parse_obj_usize_rest_enc(s, j, rest, seq![p]);
        assert(seq![p] + rest =~= v);
    }
}

/// Appends the canonical object text for the members of `v`.
pub fn push_obj_usize(out: &mut Vec<char>, v: &Vec<(String, usize)>)
    ensures
        final(out)@ == old(out)@ + enc_obj_usize(v.deep_view()),
{
    let ghost dv = v.deep_view();
    proof {
        assert(dv.len() == v@.len());
    }
    out.push('{');
    if v.len() > 0 {
        push_string(out, v[0].0.as_str());
        out.push(':');
        push_usize(out, v[0].1);
        proof {
            assert(dv[0] == (v@[0].0@, v@[0].1));
            assert(out@ =~= old(out)@ + seq!['{'] + enc_obj_usize_member(dv[0]));
        }
        push_obj_usize_rest(out, v, 1);
    }
    out.push('}');
    proof {
        if dv.len() == 0 {
            assert(final(out)@ =~= old(out)@ + enc_obj_usize(dv));
        } else {
            assert(final(out)@ =~= old(out)@ + enc_obj_usize(dv));
        }
    }
}

fn push_obj_usize_rest(out: &mut Vec<char>, v: &Vec<(String, usize)>, from: usize)
    requires
        1 <= from <= v@.len(),
    ensures
        final(out)@ == old(out)@ + enc_obj_usize_rest(v.deep_view().skip(from as int)),
    decreases v@.len() - from,
{
    let ghost dv = v.deep_view();
    proof {
        assert(dv.len() == v@.len());
    }
    if from < v.len() {
        out.push(',');
        push_string(out, v[from].0.as_str());
        out.push(':');
        push_usize(out, v[from].1);
        push_obj_usize_rest(out, v, from + 1);
        proof {
            let tail = dv.skip(from as int);
            assert(tail[0] == dv[from as int]);
            assert(dv[from as int] == (v@[from as int].0@, v@[from as int].1));
            assert(tail.skip(1) =~= dv.skip(from as int + 1));
            assert(final(out)@ =~= old(out)@ + enc_obj_usize_rest(tail));
        }
    } else {
        proof {
            assert(dv.skip(from as int) =~= Seq::<(Seq<char>, usize)>::empty());
            assert(final(out)@ =~= old(out)@ + enc_obj_usize_rest(dv.skip(from as int)));
        }
    }
}

fn parse_obj_usize_member_exec(s: &Vec<char>, i: usize) -> (r: Option<((Vec<char>, usize), usize)>)
    requires
        i <= s@.len(),
    ensures
        r matches Some(p) ==> parse_obj_usize_member(s@, i as int) == Some(
            ((p.0.0@, p.0.1), p.1 as int),
        ) && i < p.1 <= s@.len(),
        r is None ==> parse_obj_usize_member(s@, i as int) is None,
{
    match parse_string_exec(s, i) {
        None => None,
        Some((t, j)) => {
            if j >= s.len() || s[j] != ':' {
                return None;
            }
            match parse_usize_exec(s, j + 1) {
                None => None,
                Some((n, m)) => Some(((t, n), m)),
            }
        },
    }
}

fn parse_obj_usize_rest_exec(s: &Vec<char>, i: usize, acc: Vec<(Vec<char>, usize)>) -> (r: Option<
    (Vec<(Vec<char>, usize)>, usize),
>)
    requires
        i <= s@.len(),
    ensures
        r matches Some(p) ==> parse_obj_usize_rest(s@, i as int, acc.deep_view()) == Some(
            (p.0.deep_view(), p.1 as int),
        ) && i < p.1 <= s@.len(),
        r is None ==> parse_obj_usize_rest(s@, i as int, acc.deep_view()) is None,
    decreases s@.len() - i,
{
    if i >= s.len() {
        return None;
    }
    if s[i] == '}' {
        return Some((acc, i + 1));
    }
    if s[i] != ',' {
        return None;
    }
    match parse_obj_usize_member_exec(s, i + 1) {
        None => None,
        Some((p, j)) => {
            let mut acc2 = acc;
            let ghost acc2_before = acc2.deep_view();
            let ghost pv = (p.0@, p.1);
            acc2.push(p);
            proof {
                assert(acc2.deep_view() =~~= acc2_before.push(pv));
            }
            parse_obj_usize_rest_exec(s, j, acc2)
        },
    }
}

/// Reads a JSON object of string keys and numbers, mirroring
/// `parse_obj_usize`.
pub fn parse_obj_usize_exec(s: &Vec<char>, i: usize) -> (r: Option<
    (Vec<(Vec<char>, usize)>, usize),
>)
    requires
        i <= s@.len(),
    ensures
        r matches Some(p) ==> parse_obj_usize(s@, i as int) == Some((p.0.deep_view(), p.1 as int))
            && i < p.1 <= s@.len(),
        r is None ==> parse_obj_usize(s@, i as int) is None,
{
    if i >= s.len() || s[i] != '{' {
        return None;
    }
    if i + 1 < s.len() && s[i + 1] == '}' {
        let empty: Vec<(Vec<char>, usize)> = Vec::new();
        proof {
            assert(empty.deep_view() =~= Seq::<(Seq<char>, usize)>::empty());
        }
        return Some((empty, i + 2));
    }
    match parse_obj_usize_member_exec(s, i + 1) {
        None => None,
        Some((p, j)) => {
            let mut acc: Vec<(Vec<char>, usize)> = Vec::new();
            let ghost pv = (p.0@, p.1);
            acc.push(p);
            proof {
                assert(acc.deep_view() =~~= seq![pv]);
            }
            parse_obj_usize_rest_exec(s, j, acc)
        },
    }
}

// ---------------------------------------------------------------------------
// Objects with string keys and string-array values (topology maps)
// ---------------------------------------------------------------------------

pub open spec fn enc_obj_arr_string_member(p: (Seq<char>, Seq<Seq<char>>)) -> Seq<char> {
    enc_string(p.0) + seq![':'] + enc_arr_string(p.1)
}

pub open spec fn enc_obj_arr_string_rest(v: Seq<(Seq<char>, Seq<Seq<char>>)>) -> Seq<char>
    decreases v.len(),
{
    if v.len() == 0 {
        Seq::empty()
    } else {
        seq![','] + enc_obj_arr_string_member(v[0]) + enc_obj_arr_string_rest(v.skip(1))
    }
}

/// Canonical text of a JSON object mapping strings to string arrays.
pub open spec fn enc_obj_arr_string(v: Seq<(Seq<char>, Seq<Seq<char>>)>) -> Seq<char> {
    if v.len() == 0 {
        seq!['{', '}']
    } else {
        seq!['{'] + enc_obj_arr_string_member(v[0]) + enc_obj_arr_string_rest(v.skip(1))
            + seq!['}']
    }
}

pub open spec fn parse_obj_arr_string_member(s: Seq<char>, i: int) -> Option<
    ((Seq<char>, Seq<Seq<char>>), int),
> {
    match parse_string(s, i) {
        Some((t, j)) => if i < j < s.len() && s[j] == ':' {
            match parse_arr_string(s, j + 1) {
                Some((a, m)) => if j + 1 < m <= s.len() {
                    Some(((t, a), m))
                } else {
                    None
                },
                None => None,
            }
        } else {
            None
        },
        None => None,
    }
}

pub open spec fn parse_obj_arr_string_rest(
    s: Seq<char>,
    i: int,
    acc: Seq<(Seq<char>, Seq<Seq<char>>)>,
) -> Option<(Seq<(Seq<char>, Seq<Seq<char>>)>, int)>
    decreases s.len() - i,
{
    if i < 0 || i >= s.len() {
        None
    } else if s[i] == '}' {
        Some((acc, i + 1))
    } else if s[i] == ',' {
        match parse_obj_arr_string_member(s, i + 1) {
            Some((p, j)) => if i + 1 < j <= s.len() {
                parse_obj_arr_string_rest(s, j, acc.push(p))
            } else {
                None
            },
            None => None,
        }
    } else {
        None
    }
}

/// Parses a JSON object of string keys and string-array values.
pub open spec fn parse_obj_arr_string(s: Seq<char>, i: int) -> Option<
    (Seq<(Seq<char>, Seq<Seq<char>>)>, int),
> {
    if 0 <= i < s.len() && s[i] == '{' {
        if i + 1 < s.len() && s[i + 1] == '}' {
            Some((Seq::empty(), i + 2))
        } else {
            match parse_obj_arr_string_member(s, i + 1) {
                Some((p, j)) => if i + 1 < j <= s.len() {
                    parse_obj_arr_string_rest(s, j, seq![p])
                } else {
                    None
                },
                None => None,
            }
        }
    } else {
        None
    }
}

proof fn lemma_parse_obj_arr_string_member_enc(s: Seq<char>, i: int, p: (Seq<char>, Seq<Seq<char>>))
    requires
        has_at(s, i, enc_obj_arr_string_member(p)),
    ensures
        parse_obj_arr_string_member(s, i) == Some((p, i + enc_obj_arr_string_member(p).len())),
{
    let ek = enc_string(p.0);
    let ev = enc_arr_string(p.1);
    assert(enc_obj_arr_string_member(p) =~= ek + (seq![':'] + ev));
    lemma_has_at_split(s, i, ek, seq![':'] + ev);
    lemma_parse_string_enc(s, i, p.0);
    let j = i + ek.len();
    lemma_has_at_split(s, j, seq![':'], ev);
    lemma_has_at_index(s, j, seq![':']);
    assert(s[j + 0] == seq![':'][0]);
    lemma_parse_arr_string_enc(s, j + 1, p.1);
}

proof fn lemma_parse_obj_arr_string_rest_enc(
    s: Seq<char>,
    i: int,
    v: Seq<(Seq<char>, Seq<Seq<char>>)>,
    acc: Seq<(Seq<char>, Seq<Seq<char>>)>,
)
    requires
        has_at(s, i, enc_obj_arr_string_rest(v) + seq!['}']),
    ensures
        parse_obj_arr_string_rest(s, i, acc) == Some(
            (acc + v, i + enc_obj_arr_string_rest(v).len() + 1),
        ),
    decreases v.len(),
{
    if v.len() == 0 {
        lemma_has_at_index(s, i, enc_obj_arr_string_rest(v) + seq!['}']);
        assert((enc_obj_arr_string_rest(v) + seq!['}'])[0] == '}');
        assert(s[i + 0] == (enc_obj_arr_string_rest(v) + seq!['}'])[0]);
        assert(acc + v =~= acc);
    } else {
        let p = v[0];
        let rest = v.skip(1);
        let tail = enc_obj_arr_string_rest(rest) + seq!['}'];
        assert(enc_obj_arr_string_rest(v) + seq!['}'] =~= seq![','] + (enc_obj_arr_string_member(p)
            + tail));
        lemma_has_at_split(s, i, seq![','], enc_obj_arr_string_member(p) + tail);
        lemma_has_at_index(s, i, seq![',']);
        assert(s[i + 0] == seq![','][0]);
        lemma_has_at_split(s, i + 1, enc_obj_arr_string_member(p), tail);
        let j = i + 1 + enc_obj_arr_string_member(p).len();
        lemma_has_at_index(s, j, tail);
        assert(s[j + 0] == tail[0]);
        assert(tail[0] == '}' || tail[0] == ',') by {
            if rest.len() == 0 {
                assert(tail[0] == '}');
            } else {
                assert(tail[0] == (seq![','] + enc_obj_arr_string_member(rest[0])
                    + enc_obj_arr_string_rest(rest.skip(1)))[0]);
            }
        }
        lemma_parse_obj_arr_string_member_enc(s, i + 1, p);
        lemma_parse_obj_arr_string_rest_enc(s, j, rest, acc.push(p));
        assert(acc.push(p) + rest =~= acc + v);
    }
}

/// Parsing the canonical object text restores the members in order.
pub proof fn lemma_parse_obj_arr_string_enc(s: Seq<char>, i: int, v: Seq<(Seq<char>, Seq<Seq<char>>)>)
    requires
        has_at(s, i, enc_obj_arr_string(v)),
    ensures
        parse_obj_arr_string(s, i) == Some((v, i + enc_obj_arr_string(v).len())),
{
    if v.len() == 0 {
        lemma_has_at_index(s, i, enc_obj_arr_string(v));
        assert(s[i + 0] == enc_obj_arr_string(v)[0]);
        assert(s[i + 1] == enc_obj_arr_string(v)[1]);
        assert(Seq::<(Seq<char>, Seq<Seq<char>>)>::empty() =~= v);
    } else {
        let p = v[0];
        let rest = v.skip(1);
        let tail = enc_obj_arr_string_rest(rest) + seq!['}'];
        assert(enc_obj_arr_string(v) =~= seq!['{'] + (enc_obj_arr_string_member(p) + tail));
        lemma_has_at_split(s, i, seq!['{'], enc_obj_arr_string_member(p) + tail);
        lemma_has_at_index(s, i, seq!['{']);
        assert(s[i + 0] == seq!['{'][0]);
        lemma_has_at_split(s, i + 1, enc_obj_arr_string_member(p), tail);
        let j = i + 1 + enc_obj_arr_string_member(p).len();
        lemma_parse_obj_arr_string_member_enc(s, i + 1, p);
        assert(enc_obj_arr_string_member(p)[0] == '"') by {
            assert(enc_obj_arr_string_member(p) == enc_string(p.0) + seq![':'] + enc_arr_string(
                p.1,
            ));
        }
        lemma_has_at_index(s, i + 1, enc_obj_arr_string_member(p));
        assert(s[i + 1 + 0] == enc_obj_arr_string_member(p)[0]);
        assert(s[i + 1] != '}');
        lemma_parse_obj_arr_string_rest_enc(s, j, rest, seq![p]);
        assert(seq![p] + rest =~= v);
    }
}

/// Appends the canonical object text for the members of `v`.
pub fn push_obj_arr_string(out: &mut Vec<char>, v: &Vec<(String, Vec<String>)>)
    ensures
        final(out)@ == old(out)@ + enc_obj_arr_string(v.deep_view()),
{
    let ghost dv = v.deep_view();
    proof {
        assert(dv.len() == v@.len());
    }
    out.push('{');
    if v.len() > 0 {
        push_string(out, v[0].0.as_str());
        out.push(':');
        push_arr_string(out, &v[0].1);
        proof {
            assert(dv[0] == (v@[0].0@, v@[0].1.deep_view()));
            assert(out@ =~= old(out)@ + seq!['{'] + enc_obj_arr_string_member(dv[0]));
        }
        push_obj_arr_string_rest(out, v, 1);
    }
    out.push('}');
    proof {
        if dv.len() == 0 {
            assert(final(out)@ =~= old(out)@ + enc_obj_arr_string(dv));
        } else {
            assert(final(out)@ =~= old(out)@ + enc_obj_arr_string(dv));
        }
    }
}

fn push_obj_arr_string_rest(out: &mut Vec<char>, v: &Vec<(String, Vec<String>)>, from: usize)
    requires
        1 <= from <= v@.len(),
    ensures
        final(out)@ == old(out)@ + enc_obj_arr_string_rest(v.deep_view().skip(from as int)),
    decreases v@.len() - from,
{
    let ghost dv = v.deep_view();
    proof {
        assert(dv.len() == v@.len());
    }
    if from < v.len() {
        out.push(',');
        push_string(out, v[from].0.as_str());
        out.push(':');
        push_arr_string(out, &v[from].1);
        push_obj_arr_string_rest(out, v, from + 1);
        proof {
            let tail = dv.skip(from as int);
            assert(tail[0] == dv[from as int]);
            assert(dv[from as int] == (v@[from as int].0@, v@[from as int].1.deep_view()));
            assert(tail.skip(1) =~= dv.skip(from as int + 1));
            assert(final(out)@ =~= old(out)@ + enc_obj_arr_string_rest(tail));
        }
    } else {
        proof {
            assert(dv.skip(from as int) =~= Seq::<(Seq<char>, Seq<Seq<char>>)>::empty());
            assert(final(out)@ =~= old(out)@ + enc_obj_arr_string_rest(dv.skip(from as int)));
        }
    }
}

fn parse_obj_arr_string_member_exec(s: &Vec<char>, i: usize) -> (r: Option<
    ((Vec<char>, Vec<Vec<char>>), usize),
>)
    requires
        i <= s@.len(),
    ensures
        r matches Some(p) ==> parse_obj_arr_string_member(s@, i as int) == Some(
            ((p.0.0@, p.0.1.deep_view()), p.1 as int),
        ) && i < p.1 <= s@.len(),
        r is None ==> parse_obj_arr_string_member(s@, i as int) is None,
{
    match parse_string_exec(s, i) {
        None => None,
        Some((t, j)) => {
            if j >= s.len() || s[j] != ':' {
                return None;
            }
            match parse_arr_string_exec(s, j + 1) {
                None => None,
                Some((a, m)) => Some(((t, a), m)),
            }
        },
    }
}

fn parse_obj_arr_string_rest_exec(
    s: &Vec<char>,
    i: usize,
    acc: Vec<(Vec<char>, Vec<Vec<char>>)>,
) -> (r: Option<(Vec<(Vec<char>, Vec<Vec<char>>)>, usize)>)
    requires
        i <= s@.len(),
    ensures
        r matches Some(p) ==> parse_obj_arr_string_rest(s@, i as int, acc.deep_view()) == Some(
            (p.0.deep_view(), p.1 as int),
        ) && i < p.1 <= s@.len(),
        r is None ==> parse_obj_arr_string_rest(s@, i as int, acc.deep_view()) is None,
    decreases s@.len() - i,
{
    if i >= s.len() {
        return None;
    }
    if s[i] == '}' {
        return Some((acc, i + 1));
    }
    if s[i] != ',' {
        return None;
    }
    match parse_obj_arr_string_member_exec(s, i + 1) {
        None => None,
        Some((p, j)) => {
            let mut acc2 = acc;
            let ghost acc2_before = acc2.deep_view();
            let ghost pv = (p.0@, p.1.deep_view());
            acc2.push(p);
            proof {
                assert(acc2.deep_view() =~~= acc2_before.push(pv));
            }
            parse_obj_arr_string_rest_exec(s, j, acc2)
        },
    }
}

/// Reads a JSON object of string keys and string arrays, mirroring
/// `parse_obj_arr_string`.
pub fn parse_obj_arr_string_exec(s: &Vec<char>, i: usize) -> (r: Option<
    (Vec<(Vec<char>, Vec<Vec<char>>)>, usize),
>)
    requires
        i <= s@.len(),
    ensures
        r matches Some(p) ==> parse_obj_arr_string(s@, i as int) == Some(
            (p.0.deep_view(), p.1 as int),
        ) && i < p.1 <= s@.len(),
        r is None ==> parse_obj_arr_string(s@, i as int) is None,
{
    if i >= s.len() || s[i] != '{' {
        return None;
    }
    if i + 1 < s.len() && s[i + 1] == '}' {
        let empty: Vec<(Vec<char>, Vec<Vec<char>>)> = Vec::new();
        proof {
            assert(empty.deep_view() =~= Seq::<(Seq<char>, Seq<Seq<char>>)>::empty());
        }
        return Some((empty, i + 2));
    }
    match parse_obj_arr_string_member_exec(s, i + 1) {
        None => None,
        Some((p, j)) => {
            let mut acc: Vec<(Vec<char>, Vec<Vec<char>>)> = Vec::new();
            let ghost pv = (p.0@, p.1.deep_view());
            acc.push(p);
            proof {
                assert(acc.deep_view() =~~= seq![pv]);
            }
            parse_obj_arr_string_rest_exec(s, j, acc)
        },
    }
}

// ---------------------------------------------------------------------------
// Objects with string keys and pair-array values (poll replies)
// ---------------------------------------------------------------------------

pub open spec fn enc_obj_arr_pairs_member(p: (Seq<char>, Seq<(usize, usize)>)) -> Seq<char> {
    enc_string(p.0) + seq![':'] + enc_arr_pairs(p.1)
}

pub open spec fn enc_obj_arr_pairs_rest(v: Seq<(Seq<char>, Seq<(usize, usize)>)>) -> Seq<char>
    decreases v.len(),
{
    if v.len() == 0 {
        Seq::empty()
    } else {
        seq![','] + enc_obj_arr_pairs_member(v[0]) + enc_obj_arr_pairs_rest(v.skip(1))
    }
}

/// Canonical text of a JSON object mapping strings to pair arrays.
pub open spec fn enc_obj_arr_pairs(v: Seq<(Seq<char>, Seq<(usize, usize)>)>) -> Seq<char> {
    if v.len() == 0 {
        seq!['{', '}']
    } else {
        seq!['{'] + enc_obj_arr_pairs_member(v[0]) + enc_obj_arr_pairs_rest(v.skip(1)) + seq!['}']
    }
}

pub open spec fn parse_obj_arr_pairs_member(s: Seq<char>, i: int) -> Option<
    ((Seq<char>, Seq<(usize, usize)>), int),
> {
    match parse_string(s, i) {
        Some((t, j)) => if i < j < s.len() && s[j] == ':' {
            match parse_arr_pairs(s, j + 1) {
                Some((a, m)) => if j + 1 < m <= s.len() {
                    Some(((t, a), m))
                } else {
                    None
                },
                None => None,
            }
        } else {
            None
        },
        None => None,
    }
}

pub open spec fn parse_obj_arr_pairs_rest(
    s: Seq<char>,
    i: int,
    acc: Seq<(Seq<char>, Seq<(usize, usize)>)>,
) -> Option<(Seq<(Seq<char>, Seq<(usize, usize)>)>, int)>
    decreases s.len() - i,
{
    if i < 0 || i >= s.len() {
        None
    } else if s[i] == '}' {
        Some((acc, i + 1))
    } else if s[i] == ',' {
        match parse_obj_arr_pairs_member(s, i + 1) {
            Some((p, j)) => if i + 1 < j <= s.len() {
                parse_obj_arr_pairs_rest(s, j, acc.push(p))
            } else {
                None
            },
            None => None,
        }
    } else {
        None
    }
}

/// Parses a JSON object of string keys and pair-array values.
pub open spec fn parse_obj_arr_pairs(s: Seq<char>, i: int) -> Option<
    (Seq<(Seq<char>, Seq<(usize, usize)>)>, int),
> {
    if 0 <= i < s.len() && s[i] == '{' {
        if i + 1 < s.len() && s[i + 1] == '}' {
            Some((Seq::empty(), i + 2))
        } else {
            match parse_obj_arr_pairs_member(s, i + 1) {
                Some((p, j)) => if i + 1 < j <= s.len() {
                    parse_obj_arr_pairs_rest(s, j, seq![p])
                } else {
                    None
                },
                None => None,
            }
        }
    } else {
        None
    }
}

proof fn lemma_parse_obj_arr_pairs_member_enc(
    s: Seq<char>,
    i: int,
    p: (Seq<char>, Seq<(usize, usize)>),
)
    requires
        has_at(s, i, enc_obj_arr_pairs_member(p)),
    ensures
        parse_obj_arr_pairs_member(s, i) == Some((p, i + enc_obj_arr_pairs_member(p).len())),
{
    let ek = enc_string(p.0);
    let ev = enc_arr_pairs(p.1);
    assert(enc_obj_arr_pairs_member(p) =~= ek + (seq![':'] + ev));
    lemma_has_at_split(s, i, ek, seq![':'] + ev);
    lemma_parse_string_enc(s, i, p.0);
    let j = i + ek.len();
    lemma_has_at_split(s, j, seq![':'], ev);
    lemma_has_at_index(s, j, seq![':']);
    assert(s[j + 0] == seq![':'][0]);
    lemma_parse_arr_pairs_enc(s, j + 1, p.1);
}

proof fn lemma_parse_obj_arr_pairs_rest_enc(
    s: Seq<char>,
    i: int,
    v: Seq<(Seq<char>, Seq<(usize, usize)>)>,
    acc: Seq<(Seq<char>, Seq<(usize, usize)>)>,
)
    requires
        has_at(s, i, enc_obj_arr_pairs_rest(v) + seq!['}']),
    ensures
        parse_obj_arr_pairs_rest(s, i, acc) == Some(
            (acc + v, i + enc_obj_arr_pairs_rest(v).len() + 1),
        ),
    decreases v.len(),
{
    if v.len() == 0 {
        lemma_has_at_index(s, i, enc_obj_arr_pairs_rest(v) + seq!['}']);
        assert((enc_obj_arr_pairs_rest(v) + seq!['}'])[0] == '}');
        assert(s[i + 0] == (enc_obj_arr_pairs_rest(v) + seq!['}'])[0]);
        assert(acc + v =~= acc);
    } else {
        let p = v[0];
        let rest = v.skip(1);
        let tail = enc_obj_arr_pairs_rest(rest) + seq!['}'];
        assert(enc_obj_arr_pairs_rest(v) + seq!['}'] =~= seq![','] + (enc_obj_arr_pairs_member(p)
            + tail));
        lemma_has_at_split(s, i, seq![','], enc_obj_arr_pairs_member(p) + tail);
        lemma_has_at_index(s, i, seq![',']);
        assert(s[i + 0] == seq![','][0]);
        lemma_has_at_split(s, i + 1, enc_obj_arr_pairs_member(p), tail);
        let j = i + 1 + enc_obj_arr_pairs_member(p).len();
        lemma_has_at_index(s, j, tail);
        assert(s[j + 0] == tail[0]);
        assert(tail[0] == '}' || tail[0] == ',') by {
            if rest.len() == 0 {
                assert(tail[0] == '}');
            } else {
                assert(tail[0] == (seq![','] + enc_obj_arr_pairs_member(rest[0])
                    + enc_obj_arr_pairs_rest(rest.skip(1)))[0]);
            }
        }
        lemma_parse_obj_arr_pairs_member_enc(s, i + 1, p);
        lemma_parse_obj_arr_pairs_rest_enc(s, j, rest, acc.push(p));
        assert(acc.push(p) + rest =~= acc + v);
    }
}

/// Parsing the canonical object text restores the members in order.
pub proof fn lemma_parse_obj_arr_pairs_enc(
    s: Seq<char>,
    i: int,
    v: Seq<(Seq<char>, Seq<(usize, usize)>)>,
)
    requires
        has_at(s, i, enc_obj_arr_pairs(v)),
    ensures
        parse_obj_arr_pairs(s, i) == Some((v, i + enc_obj_arr_pairs(v).len())),
{
    if v.len() == 0 {
        lemma_has_at_index(s, i, enc_obj_arr_pairs(v));
        assert(s[i + 0] == enc_obj_arr_pairs(v)[0]);
        assert(s[i + 1] == enc_obj_arr_pairs(v)[1]);
        assert(Seq::<(Seq<char>, Seq<(usize, usize)>)>::empty() =~= v);
    } else {
        let p = v[0];
        let rest = v.skip(1);
        let tail = enc_obj_arr_pairs_rest(rest) + seq!['}'];
        assert(enc_obj_arr_pairs(v) =~= seq!['{'] + (enc_obj_arr_pairs_member(p) + tail));
        lemma_has_at_split(s, i, seq!['{'], enc_obj_arr_pairs_member(p) + tail);
        lemma_has_at_index(s, i, seq!['{']);
        assert(s[i + 0] == seq!['{'][0]);
        lemma_has_at_split(s, i + 1, enc_obj_arr_pairs_member(p), tail);
        let j = i + 1 + enc_obj_arr_pairs_member(p).len();
        lemma_parse_obj_arr_pairs_member_enc(s, i + 1, p);
        assert(enc_obj_arr_pairs_member(p)[0] == '"') by {
            assert(enc_obj_arr_pairs_member(p) == enc_string(p.0) + seq![':'] + enc_arr_pairs(
                p.1,
            ));
        }
        lemma_has_at_index(s, i + 1, enc_obj_arr_pairs_member(p));
        assert(s[i + 1 + 0] == enc_obj_arr_pairs_member(p)[0]);
        assert(s[i + 1] != '}');
        lemma_parse_obj_arr_pairs_rest_enc(s, j, rest, seq![p]);
        assert(seq![p] + rest =~= v);
    }
}

/// Appends the canonical object text for the members of `v`.
pub fn push_obj_arr_pairs(out: &mut Vec<char>, v: &Vec<(String, Vec<(usize, usize)>)>)
    ensures
        final(out)@ == old(out)@ + enc_obj_arr_pairs(v.deep_view()),
{
    let ghost dv = v.deep_view();
    proof {
        assert(dv.len() == v@.len());
    }
    out.push('{');
    if v.len() > 0 {
        push_string(out, v[0].0.as_str());
        out.push(':');
        push_arr_pairs(out, &v[0].1);
        proof {
            assert(dv[0] == (v@[0].0@, v@[0].1.deep_view()));
            assert(v@[0].1.deep_view() =~~= v@[0].1@);
            assert(out@ =~= old(out)@ + seq!['{'] + enc_obj_arr_pairs_member(dv[0]));
        }
        push_obj_arr_pairs_rest(out, v, 1);
    }
    out.push('}');
    proof {
        if dv.len() == 0 {
            assert(final(out)@ =~= old(out)@ + enc_obj_arr_pairs(dv));
        } else {
            assert(final(out)@ =~= old(out)@ + enc_obj_arr_pairs(dv));
        }
    }
}

fn push_obj_arr_pairs_rest(out: &mut Vec<char>, v: &Vec<(String, Vec<(usize, usize)>)>, from: usize)
    requires
        1 <= from <= v@.len(),
    ensures
        final(out)@ == old(out)@ + enc_obj_arr_pairs_rest(v.deep_view().skip(from as int)),
    decreases v@.len() - from,
{
    let ghost dv = v.deep_view();
    proof {
        assert(dv.len() == v@.len());
    }
    if from < v.len() {
        out.push(',');
        push_string(out, v[from].0.as_str());
        out.push(':');
        push_arr_pairs(out, &v[from].1);
        push_obj_arr_pairs_rest(out, v, from + 1);
        proof {
            let tail = dv.skip(from as int);
            assert(tail[0] == dv[from as int]);
            assert(dv[from as int] == (v@[from as int].0@, v@[from as int].1.deep_view()));
            assert(v@[from as int].1.deep_view() =~~= v@[from as int].1@);
            assert(tail.skip(1) =~= dv.skip(from as int + 1));
            assert(final(out)@ =~= old(out)@ + enc_obj_arr_pairs_rest(tail));
        }
    } else {
        proof {
            assert(dv.skip(from as int) =~= Seq::<(Seq<char>, Seq<(usize, usize)>)>::empty());
            assert(final(out)@ =~= old(out)@ + enc_obj_arr_pairs_rest(dv.skip(from as int)));
        }
    }
}

fn parse_obj_arr_pairs_member_exec(s: &Vec<char>, i: usize) -> (r: Option<
    ((Vec<char>, Vec<(usize, usize)>), usize),
>)
    requires
        i <= s@.len(),
    ensures
        r matches Some(p) ==> parse_obj_arr_pairs_member(s@, i as int) == Some(
            ((p.0.0@, p.0.1@), p.1 as int),
        ) && i < p.1 <= s@.len(),
        r is None ==> parse_obj_arr_pairs_member(s@, i as int) is None,
{
    match parse_string_exec(s, i) {
        None => None,
        Some((t, j)) => {
            if j >= s.len() || s[j] != ':' {
                return None;
            }
            match parse_arr_pairs_exec(s, j + 1) {
                None => None,
                Some((a, m)) => Some(((t, a), m)),
            }
        },
    }
}

fn parse_obj_arr_pairs_rest_exec(
    s: &Vec<char>,
    i: usize,
    acc: Vec<(Vec<char>, Vec<(usize, usize)>)>,
) -> (r: Option<(Vec<(Vec<char>, Vec<(usize, usize)>)>, usize)>)
    requires
        i <= s@.len(),
    ensures
        r matches Some(p) ==> parse_obj_arr_pairs_rest(s@, i as int, acc.deep_view()) == Some(
            (p.0.deep_view(), p.1 as int),
        ) && i < p.1 <= s@.len(),
        r is None ==> parse_obj_arr_pairs_rest(s@, i as int, acc.deep_view()) is None,
    decreases s@.len() - i,
{
    if i >= s.len() {
        return None;
    }
    if s[i] == '}' {
        return Some((acc, i + 1));
    }
    if s[i] != ',' {
        return None;
    }
    match parse_obj_arr_pairs_member_exec(s, i + 1) {
        None => None,
        Some((p, j)) => {
            let mut acc2 = acc;
            let ghost acc2_before = acc2.deep_view();
            let ghost pv = (p.0@, p.1@);
            acc2.push(p);
            proof {
                assert(acc2.deep_view() =~~= acc2_before.push(pv));
            }
            parse_obj_arr_pairs_rest_exec(s, j, acc2)
        },
    }
}

/// Reads a JSON object of string keys and pair arrays, mirroring
/// `parse_obj_arr_pairs`.
pub fn parse_obj_arr_pairs_exec(s: &Vec<char>, i: usize) -> (r: Option<
    (Vec<(Vec<char>, Vec<(usize, usize)>)>, usize),
>)
    requires
        i <= s@.len(),
    ensures
        r matches Some(p) ==> parse_obj_arr_pairs(s@, i as int) == Some(
            (p.0.deep_view(), p.1 as int),
        ) && i < p.1 <= s@.len(),
        r is None ==> parse_obj_arr_pairs(s@, i as int) is None,
{
    if i >= s.len() || s[i] != '{' {
        return None;
    }
    if i + 1 < s.len() && s[i + 1] == '}' {
        let empty: Vec<(Vec<char>, Vec<(usize, usize)>)> = Vec::new();
        proof {
            assert(empty.deep_view() =~= Seq::<(Seq<char>, Seq<(usize, usize)>)>::empty());
        }
        return Some((empty, i + 2));
    }
    match parse_obj_arr_pairs_member_exec(s, i + 1) {
        None => None,
        Some((p, j)) => {
            let mut acc: Vec<(Vec<char>, Vec<(usize, usize)>)> = Vec::new();
            let ghost pv = (p.0@, p.1@);
            acc.push(p);
            proof {
                assert(acc.deep_view() =~~= seq![pv]);
            }
            parse_obj_arr_pairs_rest_exec(s, j, acc)
        },
    }
}

// ---------------------------------------------------------------------------
// Skipping an arbitrary value (for fields the protocol ignores)
// ---------------------------------------------------------------------------

/// Skips one JSON value, leniently: strings, numbers, booleans, `null`, and
/// nested arrays and objects; returns the position after the value.
pub open spec fn skip_value(s: Seq<char>, i: int) -> Option<int>
    decreases s.len() - i, 0int,
{
    if i < 0 || i >= s.len() {
        None
    } else if s[i] == '"' {
        match parse_string(s, i) {
            Some((t, j)) => Some(j),
            None => None,
        }
    } else if is_digit(s[i]) {
        Some(digit_run_end(s, i))
    } else if s[i] == 't' || s[i] == 'f' {
        match parse_bool(s, i) {
            Some((b, j)) => Some(j),
            None => None,
        }
    } else if s[i] == 'n' {
        if i + 4 <= s.len() && s.subrange(i, i + 4) == seq!['n', 'u', 'l', 'l'] {
            Some(i + 4)
        } else {
            None
        }
    } else if s[i] == '[' {
        skip_arr_rest(s, i + 1)
    } else if s[i] == '{' {
        skip_obj_rest(s, i + 1)
    } else {
        None
    }
}

/// Skips array elements after `[`, up to and including the closing `]`.
pub open spec fn skip_arr_rest(s: Seq<char>, i: int) -> Option<int>
    decreases s.len() - i, 1int,
{
    if i < 0 || i >= s.len() {
        None
    } else if s[i] == ']' {
        Some(i + 1)
    } else {
        match skip_value(s, i) {
            Some(j) => if i < j < s.len() {
                if s[j] == ',' {
                    skip_arr_rest(s, j + 1)
                } else if s[j] == ']' {
                    Some(j + 1)
                } else {
                    None
                }
            } else {
                None
            },
            None => None,
        }
    }
}

/// Skips object members after `{`, up to and including the closing `}`.
pub open spec fn skip_obj_rest(s: Seq<char>, i: int) -> Option<int>
    decreases s.len() - i, 1int,
{
    if i < 0 || i >= s.len() {
        None
    } else if s[i] == '}' {
        Some(i + 1)
    } else {
        match parse_string(s, i) {
            Some((t, j)) => if i < j < s.len() && s[j] == ':' {
                match skip_value(s, j + 1) {
                    Some(m) => if j + 1 <= m && m < s.len() {
                        if s[m] == ',' {
                            skip_obj_rest(s, m + 1)
                        } else if s[m] == '}' {
                            Some(m + 1)
                        } else {
                            None
                        }
                    } else {
                        None
                    },
                    None => None,
                }
            } else {
                None
            },
            None => None,
        }
    }
}

proof fn lemma_skip_value_bounds(s: Seq<char>, i: int)
    requires
        0 <= i <= s.len(),
        skip_value(s, i) is Some,
    ensures
        i < skip_value(s, i).unwrap() <= s.len(),
    decreases s.len() - i, 0int,
{
    if i < s.len() {
        if s[i] == '"' {
            crate::json::lemma_parse_string_bounds(s, i);
        } else if is_digit(s[i]) {
            crate::json::lemma_digit_run_end_bounds(s, i + 1);
        } else if s[i] == '[' {
            lemma_skip_arr_rest_bounds(s, i + 1);
        } else if s[i] == '{' {
            lemma_skip_obj_rest_bounds(s, i + 1);
        }
    }
}

proof fn lemma_skip_arr_rest_bounds(s: Seq<char>, i: int)
    requires
        0 <= i <= s.len(),
        skip_arr_rest(s, i) is Some,
    ensures
        i < skip_arr_rest(s, i).unwrap() <= s.len(),
    decreases s.len() - i, 1int,
{
    if i < s.len() && s[i] != ']' {
        lemma_skip_value_bounds(s, i);
        let j = skip_value(s, i).unwrap();
        if i < j < s.len() && s[j] == ',' {
            lemma_skip_arr_rest_bounds(s, j + 1);
        }
    }
}

proof fn lemma_skip_obj_rest_bounds(s: Seq<char>, i: int)
    requires
        0 <= i <= s.len(),
        skip_obj_rest(s, i) is Some,
    ensures
        i < skip_obj_rest(s, i).unwrap() <= s.len(),
    decreases s.len() - i, 1int,
{
    if i < s.len() && s[i] != '}' {
        let (t, j) = parse_string(s, i).unwrap();
        if i < j < s.len() && s[j] == ':' {
            lemma_skip_value_bounds(s, j + 1);
            let m = skip_value(s, j + 1).unwrap();
            if j + 1 <= m && m < s.len() && s[m] == ',' {
                lemma_skip_obj_rest_bounds(s, m + 1);
            }
        }
    }
}

/// Skips one JSON value, mirroring `skip_value`.
pub fn skip_value_exec(s: &Vec<char>, i: usize) -> (r: Option<usize>)
    requires
        i <= s@.len(),
    ensures
        r matches Some(j) ==> skip_value(s@, i as int) == Some(j as int) && i < j <= s@.len(),
        r is None ==> skip_value(s@, i as int) is None,
    decreases s@.len() - i, 0int,
{
    if i >= s.len() {
        return None;
    }
    let c = s[i];
    if c == '"' {
        match parse_string_exec(s, i) {
            Some((t, j)) => Some(j),
            None => None,
        }
    } else if digit_of_exec_is_some(s, i) {
        let mut j: usize = i;
        let ghost g_end = digit_run_end(s@, i as int);
        proof {
            crate::json::lemma_digit_run_end_bounds(s@, i as int);
        }
        while j < s.len() && digit_of_exec_is_some(s, j)
            invariant
                i <= j <= s@.len(),
                digit_run_end(s@, j as int) == g_end,
            decreases s@.len() - j,
        {
            j = j + 1;
        }
        assert(g_end == j as int);
        Some(j)
    } else if c == 't' || c == 'f' {
        match crate::json::parse_bool_exec(s, i) {
            Some((b, j)) => Some(j),
            None => None,
        }
    } else if c == 'n' {
        if s.len() >= 4 && i <= s.len() - 4 && s[i + 1] == 'u' && s[i + 2] == 'l' && s[i + 3]
            == 'l' {
            proof {
                assert(s@.subrange(i as int, i as int + 4) =~= seq!['n', 'u', 'l', 'l']);
            }
            Some(i + 4)
        } else {
            proof {
                if i as int + 4 <= s@.len() && s@.subrange(i as int, i as int + 4) == seq![
                    'n',
                    'u',
                    'l',
                    'l',
                ] {
                    assert(s@.subrange(i as int, i as int + 4)[1] == s@[i as int + 1]);
                    assert(s@.subrange(i as int, i as int + 4)[2] == s@[i as int + 2]);
                    assert(s@.subrange(i as int, i as int + 4)[3] == s@[i as int + 3]);
                }
            }
            None
        }
    } else if c == '[' {
        skip_arr_rest_exec(s, i + 1)
    } else if c == '{' {
        skip_obj_rest_exec(s, i + 1)
    } else {
        None
    }
}

/// True when the character at `k` is a decimal digit.
fn digit_of_exec_is_some(s: &Vec<char>, k: usize) -> (r: bool)
    requires
        k < s@.len(),
    ensures
        r == is_digit(s@[k as int]),
{
    let c = s[k];
    match c {
        '0' | '1' | '2' | '3' | '4' | '5' | '6' | '7' | '8' | '9' => true,
        _ => false,
    }
}

fn skip_arr_rest_exec(s: &Vec<char>, i: usize) -> (r: Option<usize>)
    requires
        i <= s@.len(),
    ensures
        r matches Some(j) ==> skip_arr_rest(s@, i as int) == Some(j as int) && i < j <= s@.len(),
        r is None ==> skip_arr_rest(s@, i as int) is None,
    decreases s@.len() - i, 1int,
{
    if i >= s.len() {
        return None;
    }
    if s[i] == ']' {
        return Some(i + 1);
    }
    match skip_value_exec(s, i) {
        None => None,
        Some(j) => {
            if j >= s.len() {
                return None;
            }
            if s[j] == ',' {
                skip_arr_rest_exec(s, j + 1)
            } else if s[j] == ']' {
                Some(j + 1)
            } else {
                None
            }
        },
    }
}

fn skip_obj_rest_exec(s: &Vec<char>, i: usize) -> (r: Option<usize>)
    requires
        i <= s@.len(),
    ensures
        r matches Some(j) ==> skip_obj_rest(s@, i as int) == Some(j as int) && i < j <= s@.len(),
        r is None ==> skip_obj_rest(s@, i as int) is None,
    decreases s@.len() - i, 1int,
{
    if i >= s.len() {
        return None;
    }
    if s[i] == '}' {
        return Some(i + 1);
    }
    match parse_string_exec(s, i) {
        None => None,
        Some((t, j)) => {
            if j >= s.len() || s[j] != ':' {
                return None;
            }
            match skip_value_exec(s, j + 1) {
                None => None,
                Some(m) => {
                    if m >= s.len() {
                        return None;
                    }
                    if s[m] == ',' {
                        skip_obj_rest_exec(s, m + 1)
                    } else if s[m] == '}' {
                        Some(m + 1)
                    } else {
                        None
                    }
                },
            }
        },
    }
}

} // verus!
