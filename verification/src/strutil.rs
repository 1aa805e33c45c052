//! Verified text helpers: substring search, token replacement, number
//! rendering, trimming.

use vstd::prelude::*;

use crate::value::str_eq;

verus! {

/// `pat` occurs in `s` at position `i`.
pub open spec fn occurs_at(s: Seq<char>, pat: Seq<char>, i: int) -> bool {
    0 <= i && i + pat.len() <= s.len() && s.subrange(i, i + pat.len() as int) == pat
}

/// Position of the first occurrence of `pat` in `s` at or after `from`.
pub open spec fn spec_find(s: Seq<char>, pat: Seq<char>, from: int) -> Option<int>
    decreases s.len() - from,
{
    if from < 0 || from + pat.len() > s.len() {
        None
    } else if pat.len() == 0 {
        Some(from)
    } else if occurs_at(s, pat, from) {
        Some(from)
    } else {
        spec_find(s, pat, from + 1)
    }
}

pub proof fn lemma_find_bounds(s: Seq<char>, pat: Seq<char>, from: int)
    requires
        0 <= from,
    ensures
        match spec_find(s, pat, from) {
            Some(i) => from <= i && occurs_at(s, pat, i) && (forall|j: int|
                from <= j < i ==> !occurs_at(s, pat, j)),
            None => forall|j: int| from <= j ==> !occurs_at(s, pat, j),
        },
    decreases s.len() - from,
{
    if from + pat.len() > s.len() {
    } else if pat.len() == 0 {
        assert(s.subrange(from, from + pat.len() as int) =~= pat);
    } else if !occurs_at(s, pat, from) {
        lemma_find_bounds(s, pat, from + 1);
    }
}

/// Searching inside a suffix finds the same occurrences, shifted.
pub proof fn lemma_find_shift(s: Seq<char>, pat: Seq<char>, d: int, k: int)
    requires
        0 <= d <= s.len(),
        0 <= k,
    ensures
        spec_find(s, pat, d + k) == match spec_find(s.subrange(d, s.len() as int), pat, k) {
            None => None::<int>,
            Some(j) => Some(d + j),
        },
    decreases s.len() - (d + k),
{
    let sub = s.subrange(d, s.len() as int);
    if k + pat.len() <= sub.len() {
        assert(sub.subrange(k, k + pat.len() as int) =~= s.subrange(
            d + k,
            d + k + pat.len() as int,
        ));
        if pat.len() > 0 && !occurs_at(s, pat, d + k) {
            lemma_find_shift(s, pat, d, k + 1);
        }
    }
}

/// `s` with every occurrence of `pat` replaced by `to`, scanning left to
/// right and never rescanning spliced-in text.
pub open spec fn spec_replace(s: Seq<char>, pat: Seq<char>, to: Seq<char>) -> Seq<char>
    decreases s.len(),
    when pat.len() >= 1
    via spec_replace_decreases
{
    match spec_find(s, pat, 0) {
        None => s,
        Some(i) => s.subrange(0, i) + to + spec_replace(
            s.subrange(i + pat.len() as int, s.len() as int),
            pat,
            to,
        ),
    }
}

#[via_fn]
proof fn spec_replace_decreases(s: Seq<char>, pat: Seq<char>, to: Seq<char>) {
    lemma_find_bounds(s, pat, 0);
}

/// Whether `pat` occurs at position `i` of `s`.
pub fn match_at(s: &str, pat: &str, i: usize) -> (r: bool)
    requires
        i + pat@.len() <= s@.len(),
        s@.len() <= usize::MAX,
    ensures
        r == occurs_at(s@, pat@, i as int),
{
    let plen = pat.unicode_len();
    let mut j: usize = 0;
    #[verifier::loop_isolation(false)]
    while j < plen
        invariant
            j <= plen,
            forall|t: int| 0 <= t < j ==> s@[i + t] == pat@[t],
        decreases plen - j,
    {
        if s.get_char(i + j) != pat.get_char(j) {
            proof {
                assert(s@.subrange(i as int, i + pat@.len() as int)[j as int] == s@[i + j]);
            }
            return false;
        }
        j = j + 1;
    }
    proof {
        assert(s@.subrange(i as int, i + pat@.len() as int) =~= pat@);
    }
    true
}

/// First occurrence of `pat` in `s` at or after `from`.
pub fn find_str(s: &str, pat: &str, from: usize) -> (r: Option<usize>)
    ensures
        match r {
            Some(i) => spec_find(s@, pat@, from as int) == Some(i as int),
            None => spec_find(s@, pat@, from as int) is None,
        },
{
    let slen = s.unicode_len();
    let plen = pat.unicode_len();
    if from > slen || plen > slen - from {
        proof {
            lemma_find_bounds(s@, pat@, from as int);
            if spec_find(s@, pat@, from as int) is Some {
            }
        }
        return None;
    }
    if plen == 0 {
        return Some(from);
    }
    let mut i: usize = from;
    #[verifier::loop_isolation(false)]
    while i <= slen - plen
        invariant
            from <= i <= slen,
            plen <= slen,
            spec_find(s@, pat@, from as int) == spec_find(s@, pat@, i as int),
        decreases slen - i,
    {
        if match_at(s, pat, i) {
            return Some(i);
        }
        i = i + 1;
    }
    None
}

/// `s` with every occurrence of `pat` replaced by `to`.
pub fn replace_all(s: &str, pat: &str, to: &str) -> (r: String)
    requires
        pat@.len() >= 1,
    ensures
        r@ == spec_replace(s@, pat@, to@),
{
    let slen = s.unicode_len();
    let plen = pat.unicode_len();
    let mut out = String::new();
    let mut p: usize = 0;
    proof {
        assert(s@.subrange(0, slen as int) =~= s@);
        assert(out@ + spec_replace(s@, pat@, to@) =~= spec_replace(s@, pat@, to@));
    }
    #[verifier::loop_isolation(false)]
    loop
        invariant
            p <= slen,
            spec_replace(s@, pat@, to@) == out@ + spec_replace(
                s@.subrange(p as int, slen as int),
                pat@,
                to@,
            ),
        decreases slen - p,
    {
        let found = find_str(s, pat, p);
        proof {
            lemma_find_shift(s@, pat@, p as int, 0);
            lemma_find_bounds(s@, pat@, p as int);
        }
        let ghost suffix = s@.subrange(p as int, slen as int);
        match found {
            None => {
                proof {
                    assert(spec_replace(suffix, pat@, to@) == suffix);
                }
                out.append(s.substring_char(p, slen));
                return out;
            },
            Some(i) => {
                proof {
                    assert(spec_find(suffix, pat@, 0) == Some(i - p));
                    assert(suffix.subrange(0, i - p) =~= s@.subrange(p as int, i as int));
                    assert(suffix.subrange(
                        i - p + pat@.len() as int,
                        suffix.len() as int,
                    ) =~= s@.subrange(i + pat@.len() as int, slen as int));
                }
                out.append(s.substring_char(p, i));
                out.append(to);
                p = i + plen;
            },
        }
    }
}

/// The character of a single decimal digit.
pub open spec fn spec_digit(d: int) -> char {
    if d == 0 {
        '0'
    } else if d == 1 {
        '1'
    } else if d == 2 {
        '2'
    } else if d == 3 {
        '3'
    } else if d == 4 {
        '4'
    } else if d == 5 {
        '5'
    } else if d == 6 {
        '6'
    } else if d == 7 {
        '7'
    } else if d == 8 {
        '8'
    } else {
        '9'
    }
}

/// Decimal digits of a natural number, most significant first.
pub open spec fn spec_nat_str(n: nat) -> Seq<char>
    decreases n,
{
    if n < 10 {
        seq![spec_digit(n as int)]
    } else {
        spec_nat_str(n / 10).push(spec_digit((n % 10) as int))
    }
}

/// Decimal text of an integer, with a leading minus sign when negative.
pub open spec fn spec_int_str(i: int) -> Seq<char> {
    if i < 0 {
        seq!['-'] + spec_nat_str((-i) as nat)
    } else {
        spec_nat_str(i as nat)
    }
}

fn push_digit(out: &mut String, d: u64)
    requires
        d < 10,
    ensures
        final(out)@ == old(out)@.push(spec_digit(d as int)),
{
    if d == 0 {
        proof {
            reveal_strlit("0");
        }
        out.append("0");
        proof {
            assert(final(out)@ =~= old(out)@.push('0'));
        }
    } else if d == 1 {
        proof {
            reveal_strlit("1");
        }
        out.append("1");
        proof {
            assert(final(out)@ =~= old(out)@.push('1'));
        }
    } else if d == 2 {
        proof {
            reveal_strlit("2");
        }
        out.append("2");
        proof {
            assert(final(out)@ =~= old(out)@.push('2'));
        }
    } else if d == 3 {
        proof {
            reveal_strlit("3");
        }
        out.append("3");
        proof {
            assert(final(out)@ =~= old(out)@.push('3'));
        }
    } else if d == 4 {
        proof {
            reveal_strlit("4");
        }
        out.append("4");
        proof {
            assert(final(out)@ =~= old(out)@.push('4'));
        }
    } else if d == 5 {
        proof {
            reveal_strlit("5");
        }
        out.append("5");
        proof {
            assert(final(out)@ =~= old(out)@.push('5'));
        }
    } else if d == 6 {
        proof {
            reveal_strlit("6");
        }
        out.append("6");
        proof {
            assert(final(out)@ =~= old(out)@.push('6'));
        }
    } else if d == 7 {
        proof {
            reveal_strlit("7");
        }
        out.append("7");
        proof {
            assert(final(out)@ =~= old(out)@.push('7'));
        }
    } else if d == 8 {
        proof {
            reveal_strlit("8");
        }
        out.append("8");
        proof {
            assert(final(out)@ =~= old(out)@.push('8'));
        }
    } else {
        proof {
            reveal_strlit("9");
        }
        out.append("9");
        proof {
            assert(final(out)@ =~= old(out)@.push('9'));
        }
    }
}

fn push_nat_str(out: &mut String, n: u64)
    ensures
        final(out)@ == old(out)@ + spec_nat_str(n as nat),
    decreases n,
{
    if n < 10 {
        push_digit(out, n);
        proof {
            assert(final(out)@ =~= old(out)@ + spec_nat_str(n as nat));
        }
    } else {
        push_nat_str(out, n / 10);
        push_digit(out, n % 10);
        proof {
            assert(final(out)@ =~= old(out)@ + spec_nat_str(n as nat));
        }
    }
}

/// Decimal text of an unsigned number.
pub fn u64_str(n: u64) -> (r: String)
    ensures
        r@ == spec_nat_str(n as nat),
{
    let mut out = String::new();
    push_nat_str(&mut out, n);
    proof {
        assert(out@ =~= spec_nat_str(n as nat));
    }
    out
}

/// Decimal text of a signed number.
pub fn i64_str(i: i64) -> (r: String)
    ensures
        r@ == spec_int_str(i as int),
{
    if i >= 0 {
        u64_str(i as u64)
    } else {
        let u: u64 = if i == i64::MIN {
            9223372036854775808
        } else {
            (-i) as u64
        };
        proof {
            reveal_strlit("-");
        }
        let mut out = String::new();
        out.append("-");
        push_nat_str(&mut out, u);
        proof {
            assert(out@ =~= spec_int_str(i as int));
        }
        out
    }
}

/// Whitespace as trimming understands it.
pub open spec fn is_ws(c: char) -> bool {
    c == ' ' || c == '\t' || c == '\n' || c == '\r'
}

/// `s` without leading whitespace.
pub open spec fn spec_trim_start(s: Seq<char>) -> Seq<char>
    decreases s.len(),
{
    if s.len() > 0 && is_ws(s[0]) {
        spec_trim_start(s.drop_first())
    } else {
        s
    }
}

/// `s` without trailing whitespace.
pub open spec fn spec_trim_end(s: Seq<char>) -> Seq<char>
    decreases s.len(),
{
    if s.len() > 0 && is_ws(s[s.len() - 1]) {
        spec_trim_end(s.drop_last())
    } else {
        s
    }
}

/// `s` without leading and trailing whitespace.
pub open spec fn spec_trim(s: Seq<char>) -> Seq<char> {
    spec_trim_end(spec_trim_start(s))
}

fn ws_char(c: char) -> (r: bool)
    ensures
        r == is_ws(c),
{
    c == ' ' || c == '\t' || c == '\n' || c == '\r'
}

/// Copy of `s` without leading and trailing whitespace.
pub fn trim_ws(s: &str) -> (r: String)
    ensures
        r@ == spec_trim(s@),
{
    let slen = s.unicode_len();
    let mut a: usize = 0;
    proof {
        assert(s@.subrange(0, slen as int) =~= s@);
    }
    #[verifier::loop_isolation(false)]
    while a < slen && ws_char(s.get_char(a))
        invariant
            a <= slen,
            spec_trim_start(s@) == spec_trim_start(s@.subrange(a as int, slen as int)),
        decreases slen - a,
    {
        proof {
            assert(s@.subrange(a as int, slen as int).drop_first() =~= s@.subrange(
                a + 1,
                slen as int,
            ));
        }
        a = a + 1;
    }
    proof {
        assert(spec_trim_start(s@) == s@.subrange(a as int, slen as int));
    }
    let mut b: usize = slen;
    #[verifier::loop_isolation(false)]
    while b > a && ws_char(s.get_char(b - 1))
        invariant
            a <= b <= slen,
            spec_trim_end(s@.subrange(a as int, slen as int)) == spec_trim_end(
                s@.subrange(a as int, b as int),
            ),
        decreases b,
    {
        proof {
            assert(s@.subrange(a as int, b as int).drop_last() =~= s@.subrange(
                a as int,
                b - 1,
            ));
        }
        b = b - 1;
    }
    proof {
        assert(spec_trim_end(s@.subrange(a as int, b as int)) == s@.subrange(a as int, b as int));
    }
    s.substring_char(a, b).to_owned()
}

/// Whether `p` is a prefix of `s`.
pub fn starts_with(s: &str, p: &str) -> (r: bool)
    ensures
        r == occurs_at(s@, p@, 0),
{
    let slen = s.unicode_len();
    let plen = p.unicode_len();
    if plen > slen {
        return false;
    }
    match_at(s, p, 0)
}

/// Whether `p` is a suffix of `s`.
pub fn ends_with(s: &str, p: &str) -> (r: bool)
    ensures
        r == occurs_at(s@, p@, s@.len() - p@.len()),
{
    let slen = s.unicode_len();
    let plen = p.unicode_len();
    if plen > slen {
        return false;
    }
    match_at(s, p, slen - plen)
}

/// Pieces of `s` between occurrences of the separator `sep`.
pub open spec fn spec_split(s: Seq<char>, sep: char) -> Seq<Seq<char>>
    decreases s.len(),
    via spec_split_decreases
{
    match spec_find(s, seq![sep], 0) {
        None => seq![s],
        Some(i) => seq![s.subrange(0, i)] + spec_split(s.subrange(i + 1, s.len() as int), sep),
    }
}

#[via_fn]
proof fn spec_split_decreases(s: Seq<char>, sep: char) {
    lemma_find_bounds(s, seq![sep], 0);
}

/// Models of a sequence of strings, element by element.
pub open spec fn strs_model(ss: Seq<String>) -> Seq<Seq<char>> {
    Seq::new(ss.len(), |i: int| ss[i]@)
}

/// Splits `s` at every occurrence of the one-character separator `sep`.
pub fn split_str(s: &str, sep: &str) -> (r: Vec<String>)
    requires
        sep@.len() == 1,
    ensures
        strs_model(r@) == spec_split(s@, sep@[0]),
{
    let slen = s.unicode_len();
    let mut out: Vec<String> = Vec::new();
    let mut p: usize = 0;
    proof {
        assert(s@.subrange(0, slen as int) =~= s@);
    }
    #[verifier::loop_isolation(false)]
    loop
        invariant
            p <= slen,
            spec_split(s@, sep@[0]) == strs_model(out@) + spec_split(
                s@.subrange(p as int, slen as int),
                sep@[0],
            ),
        decreases slen - p,
    {
        let found = find_str(s, sep, p);
        proof {
            lemma_find_shift(s@, sep@, p as int, 0);
            lemma_find_bounds(s@, sep@, p as int);
            assert(sep@ =~= seq![sep@[0]]);
        }
        let ghost suffix = s@.subrange(p as int, slen as int);
        match found {
            None => {
                let ghost out0 = out@;
                out.push(s.substring_char(p, slen).to_owned());
                proof {
                    assert(spec_split(suffix, sep@[0]) == seq![suffix]);
                    assert(strs_model(out@) =~= strs_model(out0).push(suffix));
                    assert(strs_model(out0).push(suffix) =~= strs_model(out0) + seq![suffix]);
                }
                break;
            },
            Some(i) => {
                let ghost out0 = out@;
                out.push(s.substring_char(p, i).to_owned());
                proof {
                    assert(spec_find(suffix, seq![sep@[0]], 0) == Some(i - p));
                    assert(suffix.subrange(0, i - p) =~= s@.subrange(p as int, i as int));
                    assert(suffix.subrange(i - p + 1, suffix.len() as int) =~= s@.subrange(
                        i + 1,
                        slen as int,
                    ));
                    assert(strs_model(out@) =~= strs_model(out0).push(s@.subrange(
                        p as int,
                        i as int,
                    )));
                    assert(strs_model(out0) + (seq![s@.subrange(p as int, i as int)] + spec_split(
                        s@.subrange(i + 1, slen as int),
                        sep@[0],
                    )) =~= strs_model(out@) + spec_split(s@.subrange(i + 1, slen as int), sep@[0]));
                }
                p = i + 1;
            },
        }
    }
    out
}

/// Binding tokens of a template text, scanned left to right: each pair is
/// (inner expression, whole token) for a token `#{expr}` or `${expr}`.
/// A token opened but never closed ends the scan.
pub open spec fn spec_scan(s: Seq<char>, from: int) -> Seq<(Seq<char>, Seq<char>)>
    decreases s.len() - from,
    via spec_scan_decreases
{
    if from < 0 || from + 2 > s.len() {
        Seq::empty()
    } else if (s[from] == '#' || s[from] == '$') && s[from + 1] == '{' {
        match spec_find(s, seq!['}'], from + 2) {
            None => Seq::empty(),
            Some(j) => seq![(s.subrange(from + 2, j), s.subrange(from, j + 1))] + spec_scan(
                s,
                j + 1,
            ),
        }
    } else {
        spec_scan(s, from + 1)
    }
}

#[via_fn]
proof fn spec_scan_decreases(s: Seq<char>, from: int) {
    if !(from < 0 || from + 2 > s.len()) {
        lemma_find_bounds(s, seq!['}'], from + 2);
    }
}

/// Models of a sequence of string pairs, element by element.
pub open spec fn pairs_model(ps: Seq<(String, String)>) -> Seq<(Seq<char>, Seq<char>)> {
    Seq::new(ps.len(), |i: int| (ps[i].0@, ps[i].1@))
}

/// The binding tokens of a template text, in order of first appearance.
pub fn scan_tokens(s: &str) -> (r: Vec<(String, String)>)
    ensures
        pairs_model(r@) == spec_scan(s@, 0),
{
    let slen = s.unicode_len();
    let mut out: Vec<(String, String)> = Vec::new();
    let mut i: usize = 0;
    #[verifier::loop_isolation(false)]
    loop
        invariant
            i <= slen + 1,
            spec_scan(s@, 0) == pairs_model(out@) + spec_scan(s@, i as int),
        decreases slen + 2 - i,
    {
        if slen < 2 || i > slen - 2 {
            proof {
                assert(pairs_model(out@) + spec_scan(s@, i as int) =~= pairs_model(out@));
            }
            return out;
        }
        let c = s.get_char(i);
        if (c == '#' || c == '$') && s.get_char(i + 1) == '{' {
            proof {
                reveal_strlit("}");
                assert("}"@ =~= seq!['}']);
            }
            match find_str(s, "}", i + 2) {
                None => {
                    proof {
                        assert(pairs_model(out@) + spec_scan(s@, i as int) =~= pairs_model(out@));
                    }
                    return out;
                },
                Some(j) => {
                    proof {
                        lemma_find_bounds(s@, seq!['}'], i + 2);
                    }
                    let ghost out0 = out@;
                    let key = s.substring_char(i + 2, j).to_owned();
                    let tok = s.substring_char(i, j + 1).to_owned();
                    out.push((key, tok));
                    proof {
                        assert(pairs_model(out@) =~= pairs_model(out0).push(
                            (s@.subrange(i + 2, j as int), s@.subrange(i as int, j + 1)),
                        ));
                        assert(pairs_model(out0) + (seq![
                            (s@.subrange(i + 2, j as int), s@.subrange(i as int, j + 1)),
                        ] + spec_scan(s@, j + 1)) =~= pairs_model(out@) + spec_scan(s@, j + 1));
                    }
                    i = j + 1;
                },
            }
        } else {
            i = i + 1;
        }
    }
}

/// `ps` with every pair whose token already appeared earlier taken out:
/// first occurrences win, order is kept.
pub open spec fn spec_dedup(ps: Seq<(Seq<char>, Seq<char>)>) -> Seq<(Seq<char>, Seq<char>)>
    decreases ps.len(),
{
    if ps.len() == 0 {
        ps
    } else {
        let rest = spec_dedup(ps.drop_last());
        if exists|k: int| 0 <= k < ps.len() - 1 && ps[k].1 == ps.last().1 {
            rest
        } else {
            rest.push(ps.last())
        }
    }
}

/// Some pair of `ps` carries the token `t`.
pub open spec fn has_token(ps: Seq<(Seq<char>, Seq<char>)>, t: Seq<char>) -> bool {
    exists|k: int| 0 <= k < ps.len() && #[trigger] ps[k].1 == t
}

/// Deduplication keeps exactly the tokens that were present.
pub proof fn lemma_dedup_tokens(ps: Seq<(Seq<char>, Seq<char>)>)
    ensures
        forall|t: Seq<char>| #[trigger] has_token(spec_dedup(ps), t) == has_token(ps, t),
    decreases ps.len(),
{
    if ps.len() > 0 {
        lemma_dedup_tokens(ps.drop_last());
        assert(forall|k: int|
            0 <= k < ps.len() - 1 ==> ps[k] == ps.drop_last()[k]);
        let rest = spec_dedup(ps.drop_last());
        assert forall|t: Seq<char>| #[trigger] has_token(spec_dedup(ps), t) == has_token(ps, t) by {
            if exists|k: int| 0 <= k < ps.len() - 1 && #[trigger] ps[k].1 == ps.last().1 {
                assert(spec_dedup(ps) == rest);
                if has_token(ps, t) {
                    let k = choose|k: int| 0 <= k < ps.len() && #[trigger] ps[k].1 == t;
                    if k == ps.len() - 1 {
                        let k2 = choose|k2: int|
                            0 <= k2 < ps.len() - 1 && #[trigger] ps[k2].1 == ps.last().1;
                        assert(ps.drop_last()[k2].1 == t);
                        assert(has_token(ps.drop_last(), t));
                    } else {
                        assert(ps.drop_last()[k].1 == t);
                        assert(has_token(ps.drop_last(), t));
                    }
                }
                if has_token(rest, t) {
                    let k = choose|k: int| 0 <= k < rest.len() && #[trigger] rest[k].1 == t;
                    assert(has_token(ps.drop_last(), t));
                    let j = choose|j: int|
                        0 <= j < ps.drop_last().len() && #[trigger] ps.drop_last()[j].1 == t;
                    assert(ps[j].1 == t);
                }
            } else {
                assert(spec_dedup(ps) == rest.push(ps.last()));
                if has_token(ps, t) {
                    let k = choose|k: int| 0 <= k < ps.len() && #[trigger] ps[k].1 == t;
                    if k == ps.len() - 1 {
                        assert(spec_dedup(ps).last().1 == t);
                        assert(has_token(spec_dedup(ps), t));
                    } else {
                        assert(ps.drop_last()[k].1 == t);
                        assert(has_token(ps.drop_last(), t));
                        assert(has_token(spec_dedup(ps.drop_last()), t) == has_token(
                            ps.drop_last(),
                            t,
                        ));
                        assert(has_token(rest, t));
                        let j = choose|j: int| 0 <= j < rest.len() && #[trigger] rest[j].1 == t;
                        assert(rest.push(ps.last())[j] == rest[j]);
                        assert(spec_dedup(ps)[j].1 == t);
                        assert(has_token(spec_dedup(ps), t));
                    }
                }
                if has_token(spec_dedup(ps), t) {
                    let k = choose|k: int|
                        0 <= k < spec_dedup(ps).len() && #[trigger] spec_dedup(ps)[k].1 == t;
                    if k == spec_dedup(ps).len() - 1 {
                        assert(ps.last().1 == t);
                        assert(has_token(ps, t));
                    } else {
                        assert(rest[k].1 == t);
                        assert(has_token(rest, t));
                        let j = choose|j: int|
                            0 <= j < ps.drop_last().len() && #[trigger] ps.drop_last()[j].1 == t;
                        assert(ps[j].1 == t);
                        assert(has_token(ps, t));
                    }
                }
            }
        }
    }
}

/// `pairs` with duplicated tokens taken out, first occurrences kept in order.
pub fn dedup_tokens(pairs: Vec<(String, String)>) -> (r: Vec<(String, String)>)
    ensures
        pairs_model(r@) == spec_dedup(pairs_model(pairs@)),
{
    let mut out: Vec<(String, String)> = Vec::new();
    let mut i: usize = 0;
    let ghost pm = pairs_model(pairs@);
    #[verifier::loop_isolation(false)]
    while i < pairs.len()
        invariant
            i <= pairs.len(),
            pairs_model(out@) == spec_dedup(pm.subrange(0, i as int)),
        decreases pairs.len() - i,
    {
        let ghost pre = pm.subrange(0, i as int);
        let ghost pre1 = pm.subrange(0, i + 1 as int);
        proof {
            assert(pre1.drop_last() =~= pre);
            lemma_dedup_tokens(pre);
            assert(pre1.last() == pm[i as int]);
        }
        let mut seen = false;
        let mut k: usize = 0;
        #[verifier::loop_isolation(false)]
        while k < out.len()
            invariant
                k <= out.len(),
                seen <==> exists|t: int| 0 <= t < k && (#[trigger] out@[t]).1@ == pairs@[i as int].1@,
            decreases out.len() - k,
        {
            if !seen && str_eq(out[k].1.as_str(), pairs[i].1.as_str()) {
                seen = true;
            }
            k = k + 1;
        }
        proof {
            if seen {
                let t = choose|t: int|
                    0 <= t < out@.len() && (#[trigger] out@[t]).1@ == pairs@[i as int].1@;
                assert(pairs_model(out@)[t].1 == pre1.last().1);
                assert(has_token(pairs_model(out@), pre1.last().1));
            } else {
                if has_token(pairs_model(out@), pre1.last().1) {
                    let t = choose|t: int|
                        0 <= t < pairs_model(out@).len() && #[trigger] pairs_model(out@)[t].1
                            == pre1.last().1;
                    assert(out@[t].1@ == pairs@[i as int].1@);
                }
            }
            assert(seen == has_token(pairs_model(out@), pre1.last().1));
            assert(seen == has_token(pre, pre1.last().1));
            assert(forall|t: int| 0 <= t < i ==> pre1[t] == pre[t]);
            if seen {
                let t = choose|t: int| 0 <= t < pre.len() && #[trigger] pre[t].1 == pre1.last().1;
                assert(0 <= t < pre1.len() - 1 && pre1[t].1 == pre1.last().1);
            } else {
                if exists|k: int| 0 <= k < pre1.len() - 1 && #[trigger] pre1[k].1 == pre1.last().1 {
                    let k = choose|k: int|
                        0 <= k < pre1.len() - 1 && #[trigger] pre1[k].1 == pre1.last().1;
                    assert(pre[k].1 == pre1.last().1);
                    assert(has_token(pre, pre1.last().1));
                }
            }
        }
        if !seen {
            let kv = (pairs[i].0.clone(), pairs[i].1.clone());
            out.push(kv);
            proof {
                assert(pairs_model(out@) =~= spec_dedup(pre1));
            }
        } else {
            proof {
                assert(pairs_model(out@) =~= spec_dedup(pre1));
            }
        }
        i = i + 1;
    }
    proof {
        assert(pm.subrange(0, pm.len() as int) =~= pm);
    }
    out
}

/// Every token the scanner yields includes its sigil and braces.
pub proof fn lemma_scan_token_len(s: Seq<char>, from: int)
    ensures
        forall|k: int|
            0 <= k < spec_scan(s, from).len() ==> (#[trigger] spec_scan(s, from)[k]).1.len() >= 3,
    decreases s.len() - from,
{
    if from < 0 || from + 2 > s.len() {
    } else if (s[from] == '#' || s[from] == '$') && s[from + 1] == '{' {
        match spec_find(s, seq!['}'], from + 2) {
            None => {},
            Some(j) => {
                lemma_find_bounds(s, seq!['}'], from + 2);
                lemma_scan_token_len(s, j + 1);
                let head = seq![(s.subrange(from + 2, j), s.subrange(from, j + 1))];
                let rest = spec_scan(s, j + 1);
                assert(spec_scan(s, from) == head + rest);
                assert forall|k: int|
                    0 <= k < spec_scan(s, from).len() implies (#[trigger] spec_scan(
                    s,
                    from,
                )[k]).1.len() >= 3 by {
                    if k == 0 {
                        assert(spec_scan(s, from)[0].1 == s.subrange(from, j + 1));
                    } else {
                        assert(spec_scan(s, from)[k] == rest[k - 1]);
                    }
                }
            },
        }
    } else {
        lemma_scan_token_len(s, from + 1);
        assert(spec_scan(s, from) == spec_scan(s, from + 1));
        assert forall|k: int|
            0 <= k < spec_scan(s, from).len() implies (#[trigger] spec_scan(s, from)[k]).1.len()
            >= 3 by {
            assert(spec_scan(s, from)[k] == spec_scan(s, from + 1)[k]);
        }
    }
}

/// Every pair deduplication keeps was present in the input.
pub proof fn lemma_dedup_elems(ps: Seq<(Seq<char>, Seq<char>)>)
    ensures
        forall|k: int|
            0 <= k < spec_dedup(ps).len() ==> exists|j: int|
                0 <= j < ps.len() && ps[j] == #[trigger] spec_dedup(ps)[k],
    decreases ps.len(),
{
    if ps.len() > 0 {
        lemma_dedup_elems(ps.drop_last());
        let rest = spec_dedup(ps.drop_last());
        assert forall|k: int|
            0 <= k < spec_dedup(ps).len() implies exists|j: int|
            0 <= j < ps.len() && ps[j] == #[trigger] spec_dedup(ps)[k] by {
            if k < rest.len() {
                assert(spec_dedup(ps)[k] == rest[k]);
                let j = choose|j: int|
                    0 <= j < ps.drop_last().len() && ps.drop_last()[j] == #[trigger] rest[k];
                assert(ps[j] == spec_dedup(ps)[k]);
            } else {
                assert(spec_dedup(ps)[k] == ps.last());
                assert(ps[ps.len() - 1] == spec_dedup(ps)[k]);
            }
        }
    }
}

} // verus!
