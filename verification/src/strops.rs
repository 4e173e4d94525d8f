//! Verified sequence algorithms on characters: UTF-8 byte lengths, substring
//! search, occurrence counting and non-overlapping replacement.
use vstd::prelude::*;

verus! {

/// The number of bytes of the UTF-8 encoding of one character.
pub open spec fn char_width(c: char) -> int {
    if (c as u32) < 0x80 {
        1
    } else if (c as u32) < 0x800 {
        2
    } else if (c as u32) < 0x10000 {
        3
    } else {
        4
    }
}

/// The number of bytes of the UTF-8 encoding of a character sequence.
pub open spec fn byte_len(s: Seq<char>) -> int
    decreases s.len(),
{
    if s.len() == 0 {
        0
    } else {
        char_width(s[0]) + byte_len(s.drop_first())
    }
}

pub proof fn lemma_byte_len_snoc(s: Seq<char>, c: char)
    ensures
        byte_len(s.push(c)) == byte_len(s) + char_width(c),
    decreases s.len(),
{
    if s.len() == 0 {
        assert(s.push(c)[0] == c);
        assert(s.push(c).drop_first() =~= Seq::<char>::empty());
        assert(byte_len(s.push(c).drop_first()) == 0);
        assert(byte_len(s.push(c)) == char_width(c));
    } else {
        assert(s.push(c)[0] == s[0]);
        assert(s.push(c).drop_first() =~= s.drop_first().push(c));
        lemma_byte_len_snoc(s.drop_first(), c);
        assert(byte_len(s.push(c)) == char_width(s[0]) + byte_len(s.drop_first().push(c)));
    }
}

pub proof fn lemma_byte_len_bounds(s: Seq<char>)
    ensures
        s.len() <= byte_len(s) <= 4 * s.len(),
    decreases s.len(),
{
    if s.len() > 0 {
        lemma_byte_len_bounds(s.drop_first());
    }
}

/// The byte length of the characters, as `str::len` would report it for the
/// string they form.
pub fn byte_len_of(v: &Vec<char>) -> (r: u128)
    ensures
        r == byte_len(v@),
        r <= 4 * v@.len(),
{
    let mut acc: u128 = 0;
    let mut i: usize = 0;
    while i < v.len()
        invariant
            i <= v.len(),
            acc == byte_len(v@.take(i as int)),
            acc <= 4 * (i as u128),
        decreases v.len() - i,
    {
        let c = v[i];
        let u: u32 = c as u32;
        let w: u128 = if u < 0x80 {
            1
        } else if u < 0x800 {
            2
        } else if u < 0x10000 {
            3
        } else {
            4
        };
        proof {
            lemma_byte_len_snoc(v@.take(i as int), v@[i as int]);
            assert(v@.take(i as int).push(v@[i as int]) =~= v@.take(i as int + 1));
        }
        acc = acc + w;
        i += 1;
    }
    proof {
        assert(v@.take(v@.len() as int) =~= v@);
    }
    acc
}

/// True when `pat` occurs in `s` starting at position `i`.
pub open spec fn match_at(s: Seq<char>, pat: Seq<char>, i: int) -> bool {
    0 <= i && i + pat.len() <= s.len() && s.subrange(i, i + pat.len()) == pat
}

/// The least position at or after `from` where `pat` occurs in `s`.
pub open spec fn spec_find(s: Seq<char>, pat: Seq<char>, from: int) -> Option<int>
    decreases s.len() - from,
{
    if from < 0 || from + pat.len() > s.len() {
        None
    } else if pat.len() == 0 {
        Some(from)
    } else if s.subrange(from, from + pat.len()) == pat {
        Some(from)
    } else {
        spec_find(s, pat, from + 1)
    }
}

pub proof fn lemma_find_bounds(s: Seq<char>, pat: Seq<char>, from: int)
    ensures
        spec_find(s, pat, from) matches Some(i) ==> from <= i && match_at(s, pat, i),
    decreases s.len() - from,
{
    if !(from < 0 || from + pat.len() > s.len()) {
        if pat.len() == 0 {
            assert(s.subrange(from, from + pat.len()) =~= pat);
        } else if s.subrange(from, from + pat.len()) != pat {
            lemma_find_bounds(s, pat, from + 1);
        }
    }
}

/// True when `pat` occurs somewhere in `s`.
pub open spec fn contains_seq(s: Seq<char>, pat: Seq<char>) -> bool {
    spec_find(s, pat, 0) is Some
}

/// Compare `pat` against `s` at position `i`.
pub fn eq_at(v: &Vec<char>, pat: &Vec<char>, i: usize) -> (r: bool)
    requires
        i + pat@.len() <= v@.len(),
    ensures
        r == (v@.subrange(i as int, i as int + pat@.len() as int) == pat@),
{
    let n = v.len();
    let mut j: usize = 0;
    while j < pat.len()
        invariant
            j <= pat@.len(),
            i + pat@.len() <= v@.len(),
            n == v@.len(),
            forall|k: int| 0 <= k < j ==> v@[i + k] == pat@[k],
        decreases pat.len() - j,
    {
        if v[i + j] != pat[j] {
            proof {
                let sub = v@.subrange(i as int, i as int + pat@.len() as int);
                assert(sub[j as int] != pat@[j as int]);
            }
            return false;
        }
        j += 1;
    }
    proof {
        assert(v@.subrange(i as int, i as int + pat@.len() as int) =~= pat@);
    }
    true
}

/// The least position at or after `from` where `pat` occurs in `v`.
pub fn find_from(v: &Vec<char>, pat: &Vec<char>, from: usize) -> (r: Option<usize>)
    ensures
        match r {
            Some(i) => spec_find(v@, pat@, from as int) == Some(i as int),
            None => spec_find(v@, pat@, from as int) is None,
        },
{
    if pat.len() == 0 {
        if from <= v.len() {
            return Some(from);
        } else {
            return None;
        }
    }
    if pat.len() > v.len() || from > v.len() - pat.len() {
        return None;
    }
    let n = v.len();
    let last = n - pat.len();
    let mut i: usize = from;
    while i <= last
        invariant
            from <= i <= last + 1,
            pat@.len() >= 1,
            n == v@.len(),
            last == v@.len() - pat@.len(),
            spec_find(v@, pat@, from as int) == spec_find(v@, pat@, i as int),
        decreases last + 1 - i,
    {
        if eq_at(v, pat, i) {
            return Some(i);
        }
        i += 1;
    }
    None
}

/// True when `pat` is a prefix of `s`.
pub open spec fn is_prefix(s: Seq<char>, pat: Seq<char>) -> bool {
    pat.len() <= s.len() && s.subrange(0, pat.len() as int) == pat
}

/// True when `pat` is a suffix of `s`.
pub open spec fn is_suffix(s: Seq<char>, pat: Seq<char>) -> bool {
    pat.len() <= s.len() && s.subrange(s.len() - pat.len(), s.len() as int) == pat
}

pub fn starts_with(v: &Vec<char>, pat: &Vec<char>) -> (r: bool)
    ensures
        r == is_prefix(v@, pat@),
{
    if pat.len() > v.len() {
        return false;
    }
    eq_at(v, pat, 0)
}

pub fn ends_with(v: &Vec<char>, pat: &Vec<char>) -> (r: bool)
    ensures
        r == is_suffix(v@, pat@),
{
    if pat.len() > v.len() {
        return false;
    }
    eq_at(v, pat, v.len() - pat.len())
}

pub fn contains(v: &Vec<char>, pat: &Vec<char>) -> (r: bool)
    ensures
        r == contains_seq(v@, pat@),
{
    match find_from(v, pat, 0) {
        Some(_) => true,
        None => false,
    }
}

/// The result of replacing, at or after `from`, every non-overlapping
/// occurrence of `pat` in `s` by `rep`, leftmost first.
pub open spec fn spec_replace_from(s: Seq<char>, pat: Seq<char>, rep: Seq<char>, from: int) -> Seq<
    char,
>
    decreases s.len() - from,
    when pat.len() >= 1 && 0 <= from <= s.len()
    via spec_replace_from_decreases
{
    if pat.len() == 0 || from < 0 || from > s.len() {
        Seq::empty()
    } else {
        match spec_find(s, pat, from) {
            Some(i) => s.subrange(from, i) + rep + spec_replace_from(s, pat, rep, i + pat.len()),
            None => s.subrange(from, s.len() as int),
        }
    }
}

#[via_fn]
proof fn spec_replace_from_decreases(s: Seq<char>, pat: Seq<char>, rep: Seq<char>, from: int) {
    lemma_find_bounds(s, pat, from);
}

/// The result of replacing every non-overlapping occurrence of `pat` in `s`
/// by `rep`; `s` unchanged when `pat` is empty.
pub open spec fn spec_replace(s: Seq<char>, pat: Seq<char>, rep: Seq<char>) -> Seq<char> {
    if pat.len() == 0 {
        s
    } else {
        spec_replace_from(s, pat, rep, 0)
    }
}

/// The number of non-overlapping occurrences of `pat` in `s` at or after
/// `from`, leftmost first.
pub open spec fn spec_count_from(s: Seq<char>, pat: Seq<char>, from: int) -> int
    decreases s.len() - from,
    when pat.len() >= 1 && 0 <= from <= s.len()
    via spec_count_from_decreases
{
    if pat.len() == 0 || from < 0 || from > s.len() {
        0
    } else {
        match spec_find(s, pat, from) {
            Some(i) => 1 + spec_count_from(s, pat, i + pat.len()),
            None => 0,
        }
    }
}

#[via_fn]
proof fn spec_count_from_decreases(s: Seq<char>, pat: Seq<char>, from: int) {
    lemma_find_bounds(s, pat, from);
}

/// The number of non-overlapping occurrences of `pat` in `s`, counted as
/// `str::matches` does: one occurrence at every position between characters
/// when `pat` is empty.
pub open spec fn spec_count(s: Seq<char>, pat: Seq<char>) -> int {
    if pat.len() == 0 {
        s.len() as int + 1
    } else {
        spec_count_from(s, pat, 0)
    }
}

pub proof fn lemma_count_from_nonneg(s: Seq<char>, pat: Seq<char>, from: int)
    requires
        pat.len() >= 1,
        0 <= from <= s.len(),
    ensures
        spec_count_from(s, pat, from) >= 0,
    decreases s.len() - from,
{
    match spec_find(s, pat, from) {
        Some(i) => {
            lemma_find_bounds(s, pat, from);
            lemma_count_from_nonneg(s, pat, i + pat.len());
        },
        None => {},
    }
}

/// The word with position `n` replaced by `c`.
pub fn update_at(v: &Vec<char>, n: usize, c: char) -> (r: Vec<char>)
    requires
        n < v@.len(),
    ensures
        r@ == v@.update(n as int, c),
{
    let mut out: Vec<char> = Vec::new();
    let mut i: usize = 0;
    while i < v.len()
        invariant
            i <= v@.len(),
            n < v@.len(),
            out@.len() == i,
            forall|k: int| 0 <= k < i ==> out@[k] == v@.update(n as int, c)[k],
        decreases v.len() - i,
    {
        if i == n {
            out.push(c);
        } else {
            out.push(v[i]);
        }
        i += 1;
    }
    proof {
        assert(out@ =~= v@.update(n as int, c));
    }
    out
}

/// Character-wise equality of two words.
pub fn vec_eq(a: &Vec<char>, b: &Vec<char>) -> (r: bool)
    ensures
        r == (a@ == b@),
{
    if a.len() != b.len() {
        return false;
    }
    let r = eq_at(a, b, 0);
    proof {
        assert(a@.subrange(0, b@.len() as int) =~= a@);
    }
    r
}

/// Append the characters `v[a..b]` to `out`.
pub fn extend_range(out: &mut Vec<char>, v: &Vec<char>, a: usize, b: usize)
    requires
        a <= b <= v@.len(),
    ensures
        final(out)@ == old(out)@ + v@.subrange(a as int, b as int),
{
    let mut i: usize = a;
    while i < b
        invariant
            a <= i <= b <= v@.len(),
            out@ == old(out)@ + v@.subrange(a as int, i as int),
        decreases b - i,
    {
        out.push(v[i]);
        proof {
            assert(v@.subrange(a as int, i as int).push(v@[i as int]) =~= v@.subrange(
                a as int,
                i as int + 1,
            ));
        }
        i += 1;
    }
}

/// Append all of `v` to `out`.
pub fn extend_all(out: &mut Vec<char>, v: &Vec<char>)
    ensures
        final(out)@ == old(out)@ + v@,
{
    extend_range(out, v, 0, v.len());
    proof {
        assert(v@.subrange(0, v@.len() as int) =~= v@);
    }
}

/// Replace every non-overlapping occurrence of `pat` in `v` by `rep`,
/// leftmost first; `v` unchanged when `pat` is empty.
pub fn replace_all(v: &Vec<char>, pat: &Vec<char>, rep: &Vec<char>) -> (r: Vec<char>)
    ensures
        r@ == spec_replace(v@, pat@, rep@),
{
    let mut out: Vec<char> = Vec::new();
    if pat.len() == 0 {
        extend_all(&mut out, v);
        return out;
    }
    let n = v.len();
    let mut c: usize = 0;
    loop
        invariant
            pat@.len() >= 1,
            c <= v@.len(),
            n == v@.len(),
            spec_replace_from(v@, pat@, rep@, 0) == out@ + spec_replace_from(
                v@,
                pat@,
                rep@,
                c as int,
            ),
        decreases v@.len() - c,
    {
        match find_from(v, pat, c) {
            Some(i) => {
                proof {
                    lemma_find_bounds(v@, pat@, c as int);
                }
                extend_range(&mut out, v, c, i);
                extend_all(&mut out, rep);
                c = i + pat.len();
            },
            None => {
                extend_range(&mut out, v, c, v.len());
                return out;
            },
        }
    }
}

/// True when `v` holds at least `n` non-overlapping occurrences of `pat`.
pub fn count_at_least(v: &Vec<char>, pat: &Vec<char>, n: usize) -> (r: bool)
    ensures
        r == (spec_count(v@, pat@) >= n),
{
    if pat.len() == 0 {
        return n == 0 || v.len() >= n - 1;
    }
    if n == 0 {
        proof {
            lemma_count_from_nonneg(v@, pat@, 0);
        }
        return true;
    }
    let m = v.len();
    let mut count: usize = 0;
    let mut c: usize = 0;
    loop
        invariant
            pat@.len() >= 1,
            c <= v@.len(),
            m == v@.len(),
            count < n,
            spec_count_from(v@, pat@, 0) == count + spec_count_from(v@, pat@, c as int),
        decreases v@.len() - c,
    {
        match find_from(v, pat, c) {
            Some(i) => {
                proof {
                    lemma_find_bounds(v@, pat@, c as int);
                    lemma_count_from_nonneg(v@, pat@, i + pat@.len() as int);
                }
                count = count + 1;
                c = i + pat.len();
                if count == n {
                    return true;
                }
            },
            None => {
                return false;
            },
        }
    }
}

} // verus!
