//! The rule intermediate representation: a typed form of every command of the
//! rule dialect, and the evaluator that applies rules to words.
use vstd::prelude::*;
use vstd::string::*;

use crate::chars::chars_of;
use crate::chars::string_of;
use crate::fold::lowercase_char_str;
use crate::fold::lowercase_str;
use crate::fold::toggle_char;
use crate::fold::uppercase_char_str;
use crate::fold::uppercase_str;
use crate::semantics::opt_view;
use crate::semantics::spec_keep;
use crate::semantics::spec_rule;
use crate::semantics::spec_run_all;
use crate::semantics::spec_transform;
use crate::strops::byte_len_of;
use crate::strops::contains;
use crate::strops::count_at_least;
use crate::strops::ends_with;
use crate::strops::extend_all;
use crate::strops::extend_range;
use crate::strops::replace_all;
use crate::strops::starts_with;
use crate::strops::update_at;
use crate::strops::vec_eq;

verus! {

/// One compiled command of a rule line.
#[derive(Debug, Clone, PartialEq, PartialOrd, Eq, Ord, Hash)]
pub enum Rule {
    /// Passthrough: the word is kept unchanged.
    NoOp,
    /// Rewrite the word; a transformation always succeeds.
    Transform(TransformRule),
    /// Keep the word unchanged or discard it.
    Reject(RejectRule),
    /// Terminal marker; treated as identity during evaluation.
    End,
}

/// A transformation command: rewrites its input and always succeeds.
///
/// Positions and lengths of the indexed commands (`ToggleCase(Some(n))`,
/// `Delete`, `Extract`, ...) count Unicode scalar values. The length tests of
/// the reject commands and the stored-string lengths used by `Overwrite` and
/// `NotEqualAt` count bytes of the UTF-8 encoding; for ASCII text the two
/// agree.
#[derive(Debug, Clone, PartialEq, PartialOrd, Eq, Ord, Hash)]
pub enum TransformRule {
    /// Lowercase the entire input string.
    Lowercase,
    /// Uppercase the entire input string.
    Uppercase,
    /// Uppercase the first character, lowercase the rest.
    Capitalize,
    /// Lowercase the first character, uppercase the rest.
    InvertCapitalize,
    /// Toggle the case at the given position, or of every character when the
    /// position is absent.
    ToggleCase(Option<usize>),
    /// Reverse the character order.
    Reverse,
    /// Repeat the whole word so that `1 + n` copies stand in a row, two
    /// copies when `n` is absent.
    Duplicate(Option<usize>),
    /// The word followed by its reverse.
    Reflect,
    /// Cyclic rotation by one character.
    Rotate(Rotation),
    /// Concatenate the stored string at the end.
    Append(String),
    /// Concatenate the stored string at the start.
    Prepend(String),
    /// Remove the character at the given position.
    Delete(usize),
    /// Keep the substring that starts at the first index and has the second
    /// index as length.
    Extract(usize, usize),
    /// Remove the substring that starts at the first index and has the second
    /// index as length.
    Omit(usize, usize),
    /// Insert the stored string before the given position.
    Insert(usize, String),
    /// Replace the characters from the given position on with the stored
    /// string.
    Overwrite(usize, String),
    /// Drop the first character, drop the last, or keep a prefix.
    Truncate(Truncate),
    /// Replace every non-overlapping occurrence of the first stored string
    /// with the second.
    Replace(String, String),
    /// Remove every occurrence of the stored string.
    Purge(String),
    /// Prepend `n` copies of the first character.
    DuplicateFirst(usize),
    /// Append `n` copies of the last character.
    DuplicateLast(usize),
    /// Double every character in place.
    DuplicateAll,
    /// Swap the first two characters.
    SwapFront,
    /// Swap the last two characters.
    SwapBack,
    /// Swap the characters at the two given positions.
    Swap(usize, usize),
    /// Shift the low byte of each character left by `n mod 8` bits.
    BitwiseShiftLeft(usize),
    /// Shift the low byte of each character right by `n mod 8` bits.
    BitwiseShiftRight(usize),
    /// Add `n` to the low byte of each character, wrapping modulo 256.
    AsciiIncrement(usize),
    /// Subtract `n` from the low byte of each character, wrapping modulo 256.
    AsciiDecrement(usize),
    /// Replace the character at the given position with its right neighbour.
    ReplaceWithNext(usize),
    /// Replace the character at the given position with its left neighbour.
    ReplaceWithPrev(usize),
    /// Prepend a copy of the first `n` characters.
    DuplicateFirstBlock(usize),
    /// Append a copy of the last `n` characters.
    DuplicateLastBlock(usize),
}

/// The direction of a truncation.
#[derive(Debug, Clone, PartialEq, PartialOrd, Eq, Ord, Hash)]
pub enum Truncate {
    Left,
    Right,
    To(usize),
}

/// The direction of a rotation.
#[derive(Debug, Copy, Clone, PartialEq, PartialOrd, Eq, Ord, Hash)]
pub enum Rotation {
    Left,
    Right,
}

/// A rejection command. Each variant stores the condition under which the
/// word is KEPT; the word is discarded when the stored condition fails.
#[derive(Debug, Clone, PartialEq, PartialOrd, Eq, Ord, Hash)]
pub enum RejectRule {
    /// Keep words of byte length at least `n`.
    ShorterThan(usize),
    /// Keep words of byte length at most `n`.
    LongerThan(usize),
    /// Keep words of byte length exactly `n`.
    NotEqualTo(usize),
    /// Keep words that do not contain the stored string.
    Contains(String),
    /// Keep words that contain the stored string.
    NotContains(String),
    /// Keep words that start with the stored string.
    NotStartsWith(String),
    /// Keep words that end with the stored string.
    NotEndsWith(String),
    /// Keep words whose substring at the given position equals the stored
    /// string.
    NotEqualAt(usize, String),
    /// Keep words that contain at least `n` non-overlapping occurrences of
    /// the stored string.
    ContainsLessThan(usize, String),
}

/// The mathematical form of a [`Rule`]: string payloads as character
/// sequences. Contracts and laws speak of this form; it is the view of the
/// executable type.
pub enum RuleV {
    NoOp,
    Transform(TransformRuleV),
    Reject(RejectRuleV),
    End,
}

/// The mathematical form of a [`TransformRule`].
pub enum TransformRuleV {
    Lowercase,
    Uppercase,
    Capitalize,
    InvertCapitalize,
    ToggleCase(Option<usize>),
    Reverse,
    Duplicate(Option<usize>),
    Reflect,
    Rotate(Rotation),
    Append(Seq<char>),
    Prepend(Seq<char>),
    Delete(usize),
    Extract(usize, usize),
    Omit(usize, usize),
    Insert(usize, Seq<char>),
    Overwrite(usize, Seq<char>),
    Truncate(Truncate),
    Replace(Seq<char>, Seq<char>),
    Purge(Seq<char>),
    DuplicateFirst(usize),
    DuplicateLast(usize),
    DuplicateAll,
    SwapFront,
    SwapBack,
    Swap(usize, usize),
    BitwiseShiftLeft(usize),
    BitwiseShiftRight(usize),
    AsciiIncrement(usize),
    AsciiDecrement(usize),
    ReplaceWithNext(usize),
    ReplaceWithPrev(usize),
    DuplicateFirstBlock(usize),
    DuplicateLastBlock(usize),
}

/// The mathematical form of a [`RejectRule`].
pub enum RejectRuleV {
    ShorterThan(usize),
    LongerThan(usize),
    NotEqualTo(usize),
    Contains(Seq<char>),
    NotContains(Seq<char>),
    NotStartsWith(Seq<char>),
    NotEndsWith(Seq<char>),
    NotEqualAt(usize, Seq<char>),
    ContainsLessThan(usize, Seq<char>),
}

impl View for TransformRule {
    type V = TransformRuleV;

    open spec fn view(&self) -> TransformRuleV {
        match self {
            TransformRule::Lowercase => TransformRuleV::Lowercase,
            TransformRule::Uppercase => TransformRuleV::Uppercase,
            TransformRule::Capitalize => TransformRuleV::Capitalize,
            TransformRule::InvertCapitalize => TransformRuleV::InvertCapitalize,
            TransformRule::ToggleCase(n) => TransformRuleV::ToggleCase(*n),
            TransformRule::Reverse => TransformRuleV::Reverse,
            TransformRule::Duplicate(n) => TransformRuleV::Duplicate(*n),
            TransformRule::Reflect => TransformRuleV::Reflect,
            TransformRule::Rotate(d) => TransformRuleV::Rotate(*d),
            TransformRule::Append(t) => TransformRuleV::Append(t@),
            TransformRule::Prepend(t) => TransformRuleV::Prepend(t@),
            TransformRule::Delete(n) => TransformRuleV::Delete(*n),
            TransformRule::Extract(a, b) => TransformRuleV::Extract(*a, *b),
            TransformRule::Omit(a, b) => TransformRuleV::Omit(*a, *b),
            TransformRule::Insert(n, t) => TransformRuleV::Insert(*n, t@),
            TransformRule::Overwrite(n, t) => TransformRuleV::Overwrite(*n, t@),
            TransformRule::Truncate(d) => TransformRuleV::Truncate(*d),
            TransformRule::Replace(a, b) => TransformRuleV::Replace(a@, b@),
            TransformRule::Purge(t) => TransformRuleV::Purge(t@),
            TransformRule::DuplicateFirst(n) => TransformRuleV::DuplicateFirst(*n),
            TransformRule::DuplicateLast(n) => TransformRuleV::DuplicateLast(*n),
            TransformRule::DuplicateAll => TransformRuleV::DuplicateAll,
            TransformRule::SwapFront => TransformRuleV::SwapFront,
            TransformRule::SwapBack => TransformRuleV::SwapBack,
            TransformRule::Swap(a, b) => TransformRuleV::Swap(*a, *b),
            TransformRule::BitwiseShiftLeft(n) => TransformRuleV::BitwiseShiftLeft(*n),
            TransformRule::BitwiseShiftRight(n) => TransformRuleV::BitwiseShiftRight(*n),
            TransformRule::AsciiIncrement(n) => TransformRuleV::AsciiIncrement(*n),
            TransformRule::AsciiDecrement(n) => TransformRuleV::AsciiDecrement(*n),
            TransformRule::ReplaceWithNext(n) => TransformRuleV::ReplaceWithNext(*n),
            TransformRule::ReplaceWithPrev(n) => TransformRuleV::ReplaceWithPrev(*n),
            TransformRule::DuplicateFirstBlock(n) => TransformRuleV::DuplicateFirstBlock(*n),
            TransformRule::DuplicateLastBlock(n) => TransformRuleV::DuplicateLastBlock(*n),
        }
    }
}

impl View for RejectRule {
    type V = RejectRuleV;

    open spec fn view(&self) -> RejectRuleV {
        match self {
            RejectRule::ShorterThan(n) => RejectRuleV::ShorterThan(*n),
            RejectRule::LongerThan(n) => RejectRuleV::LongerThan(*n),
            RejectRule::NotEqualTo(n) => RejectRuleV::NotEqualTo(*n),
            RejectRule::Contains(t) => RejectRuleV::Contains(t@),
            RejectRule::NotContains(t) => RejectRuleV::NotContains(t@),
            RejectRule::NotStartsWith(t) => RejectRuleV::NotStartsWith(t@),
            RejectRule::NotEndsWith(t) => RejectRuleV::NotEndsWith(t@),
            RejectRule::NotEqualAt(n, t) => RejectRuleV::NotEqualAt(*n, t@),
            RejectRule::ContainsLessThan(n, t) => RejectRuleV::ContainsLessThan(*n, t@),
        }
    }
}

impl View for Rule {
    type V = RuleV;

    open spec fn view(&self) -> RuleV {
        match self {
            Rule::NoOp => RuleV::NoOp,
            Rule::Transform(t) => RuleV::Transform(t@),
            Rule::Reject(j) => RuleV::Reject(j@),
            Rule::End => RuleV::End,
        }
    }
}

impl DeepView for Rule {
    type V = RuleV;

    open spec fn deep_view(&self) -> RuleV {
        self@
    }
}

fn capitalize(input: String) -> (r: String)
    ensures
        r@ == crate::semantics::spec_capitalize(input@),
{
    let s = input.as_str();
    let n = s.unicode_len();
    if n == 0 {
        return input;
    }
    let first = s.get_char(0);
    let up = uppercase_char_str(first);
    let rest = s.substring_char(1, n);
    let lo = lowercase_str(rest);
    proof {
        assert(input@.subrange(1, input@.len() as int) =~= input@.drop_first());
    }
    up.concat(lo.as_str())
}

fn invert_capitalize(input: String) -> (r: String)
    ensures
        r@ == crate::semantics::spec_invert_capitalize(input@),
{
    let s = input.as_str();
    let n = s.unicode_len();
    if n == 0 {
        return input;
    }
    let first = s.get_char(0);
    let lo = lowercase_char_str(first);
    let rest = s.substring_char(1, n);
    let up = uppercase_str(rest);
    proof {
        assert(input@.subrange(1, input@.len() as int) =~= input@.drop_first());
    }
    lo.concat(up.as_str())
}

fn toggle_all(input: String) -> (r: String)
    ensures
        r@ == crate::semantics::spec_toggle_all(input@),
{
    let v = chars_of(input.as_str());
    let mut out: Vec<char> = Vec::new();
    let mut i: usize = 0;
    while i < v.len()
        invariant
            v@ == input@,
            i <= v@.len(),
            out@.len() == i,
            forall|k: int|
                0 <= k < i ==> out@[k] == crate::fold::spec_toggle_char(#[trigger] v@[k]),
        decreases v.len() - i,
    {
        out.push(toggle_char(v[i]));
        i += 1;
    }
    proof {
        assert(out@ =~= crate::semantics::spec_toggle_all(input@));
    }
    string_of(&out)
}

fn toggle_at(input: String, n: usize) -> (r: String)
    ensures
        r@ == crate::semantics::spec_toggle_at(input@, n as int),
{
    let v = chars_of(input.as_str());
    if n >= v.len() {
        return input;
    }
    let t = toggle_char(v[n]);
    let out = update_at(&v, n, t);
    string_of(&out)
}

fn reverse_chars(input: String) -> (r: String)
    ensures
        r@ == input@.reverse(),
{
    let v = chars_of(input.as_str());
    let mut out: Vec<char> = Vec::new();
    let mut i: usize = 0;
    while i < v.len()
        invariant
            v@ == input@,
            i <= v@.len(),
            out@.len() == i,
            forall|k: int| 0 <= k < i ==> out@[k] == v@[v@.len() - 1 - k],
        decreases v.len() - i,
    {
        out.push(v[v.len() - 1 - i]);
        i += 1;
    }
    proof {
        assert(out@ =~= input@.reverse());
    }
    string_of(&out)
}

fn duplicate(input: String, n: &Option<usize>) -> (r: String)
    ensures
        r@ == crate::semantics::spec_repeat(input@, crate::semantics::spec_dup_count(*n)),
{
    let v = chars_of(input.as_str());
    let mut out: Vec<char> = Vec::new();
    extend_all(&mut out, &v);
    proof {
        assert(crate::semantics::spec_repeat(input@, 0) =~= Seq::<char>::empty());
        assert(out@ =~= crate::semantics::spec_repeat(input@, 1));
    }
    match n {
        None => {
            extend_all(&mut out, &v);
        },
        Some(k) => {
            let mut j: usize = 0;
            while j < *k
                invariant
                    v@ == input@,
                    j <= *k,
                    out@ == crate::semantics::spec_repeat(input@, 1 + j as int),
                decreases *k - j,
            {
                extend_all(&mut out, &v);
                j += 1;
            }
        },
    }
    string_of(&out)
}

fn reflect(input: String) -> (r: String)
    ensures
        r@ == input@ + input@.reverse(),
{
    let v = chars_of(input.as_str());
    let mut out: Vec<char> = Vec::new();
    extend_all(&mut out, &v);
    let mut i: usize = 0;
    while i < v.len()
        invariant
            v@ == input@,
            i <= v@.len(),
            out@.len() == v@.len() + i,
            forall|k: int| 0 <= k < v@.len() ==> #[trigger] out@[k] == v@[k],
            forall|k: int|
                v@.len() <= k < v@.len() + i ==> #[trigger] out@[k] == v@[2 * v@.len() - 1 - k],
        decreases v.len() - i,
    {
        out.push(v[v.len() - 1 - i]);
        i += 1;
    }
    proof {
        assert(out@ =~= input@ + input@.reverse());
    }
    string_of(&out)
}

fn rotate(input: String, d: Rotation) -> (r: String)
    ensures
        r@ == crate::semantics::spec_rotate(input@, d),
{
    let v = chars_of(input.as_str());
    let len = v.len();
    if len == 0 {
        return input;
    }
    let mut out: Vec<char> = Vec::new();
    match d {
        Rotation::Left => {
            extend_range(&mut out, &v, 1, len);
            out.push(v[0]);
            proof {
                assert(out@ =~= input@.drop_first().push(input@[0]));
            }
        },
        Rotation::Right => {
            out.push(v[len - 1]);
            extend_range(&mut out, &v, 0, len - 1);
            proof {
                assert(out@ =~= seq![input@[input@.len() - 1]] + input@.drop_last());
            }
        },
    }
    string_of(&out)
}

fn delete_at(input: String, n: usize) -> (r: String)
    ensures
        r@ == crate::semantics::spec_delete(input@, n as int),
{
    let v = chars_of(input.as_str());
    let len = v.len();
    let a = if n >= len {
        len
    } else {
        n
    };
    let b = if n >= len {
        len
    } else {
        n + 1
    };
    let mut out: Vec<char> = Vec::new();
    extend_range(&mut out, &v, 0, a);
    extend_range(&mut out, &v, b, len);
    string_of(&out)
}

fn extract(input: String, a: usize, b: usize) -> (r: String)
    ensures
        r@ == crate::semantics::spec_extract(input@, a as int, b as int),
{
    let v = chars_of(input.as_str());
    let len = v.len();
    let lo = if a >= len {
        len
    } else {
        a
    };
    let hi = if a >= len {
        len
    } else if b > len - a {
        len
    } else {
        a + b
    };
    let mut out: Vec<char> = Vec::new();
    extend_range(&mut out, &v, lo, hi);
    string_of(&out)
}

fn omit(input: String, a: usize, b: usize) -> (r: String)
    ensures
        r@ == crate::semantics::spec_omit(input@, a as int, b as int),
{
    let v = chars_of(input.as_str());
    let len = v.len();
    let k = if a >= len {
        len
    } else {
        a
    };
    let m = if a >= len {
        len
    } else if b > len - a {
        len
    } else {
        a + b
    };
    let mut out: Vec<char> = Vec::new();
    extend_range(&mut out, &v, 0, k);
    extend_range(&mut out, &v, m, len);
    string_of(&out)
}

fn insert_at(input: String, n: usize, t: &String) -> (r: String)
    ensures
        r@ == crate::semantics::spec_insert(input@, n as int, t@),
{
    let v = chars_of(input.as_str());
    let tv = chars_of(t.as_str());
    let len = v.len();
    let k = if n >= len {
        len
    } else {
        n
    };
    let mut out: Vec<char> = Vec::new();
    extend_range(&mut out, &v, 0, k);
    extend_all(&mut out, &tv);
    extend_range(&mut out, &v, k, len);
    string_of(&out)
}

fn overwrite_at(input: String, n: usize, t: &String) -> (r: String)
    ensures
        r@ == crate::semantics::spec_overwrite(input@, n as int, t@),
{
    let v = chars_of(input.as_str());
    let tv = chars_of(t.as_str());
    let m = byte_len_of(&tv);
    let len = v.len();
    let k = if n >= len {
        len
    } else {
        n
    };
    let tl = tv.len();
    proof {
        assert(m <= 4 * tl as u128);
    }
    let sum: u128 = n as u128 + m;
    let e = if sum >= len as u128 {
        len
    } else {
        sum as usize
    };
    let mut out: Vec<char> = Vec::new();
    extend_range(&mut out, &v, 0, k);
    extend_all(&mut out, &tv);
    extend_range(&mut out, &v, e, len);
    string_of(&out)
}

fn truncate_word(input: String, t: &Truncate) -> (r: String)
    ensures
        r@ == crate::semantics::spec_truncate(input@, *t),
{
    let v = chars_of(input.as_str());
    let len = v.len();
    let mut out: Vec<char> = Vec::new();
    match t {
        Truncate::Left => {
            let a = if len == 0 {
                0
            } else {
                1
            };
            extend_range(&mut out, &v, a, len);
        },
        Truncate::Right => {
            if len == 0 {
                return input;
            }
            extend_range(&mut out, &v, 0, len - 1);
            proof {
                assert(v@.subrange(0, v@.len() - 1) =~= input@.drop_last());
            }
        },
        Truncate::To(n) => {
            let k = if *n >= len {
                len
            } else {
                *n
            };
            extend_range(&mut out, &v, 0, k);
        },
    }
    string_of(&out)
}

fn dup_first(input: String, n: usize) -> (r: String)
    ensures
        r@ == crate::semantics::spec_dup_first(input@, n as int),
{
    let v = chars_of(input.as_str());
    if v.len() == 0 {
        return input;
    }
    let c = v[0];
    let mut out: Vec<char> = Vec::new();
    let mut j: usize = 0;
    while j < n
        invariant
            v@ == input@,
            v@.len() > 0,
            c == v@[0],
            j <= n,
            out@.len() == j,
            forall|k: int| 0 <= k < j ==> out@[k] == c,
        decreases n - j,
    {
        out.push(c);
        j += 1;
    }
    proof {
        assert(out@ =~= Seq::new(n as nat, |i: int| input@[0]));
    }
    extend_all(&mut out, &v);
    string_of(&out)
}

fn dup_last(input: String, n: usize) -> (r: String)
    ensures
        r@ == crate::semantics::spec_dup_last(input@, n as int),
{
    let v = chars_of(input.as_str());
    if v.len() == 0 {
        return input;
    }
    let c = v[v.len() - 1];
    let mut out: Vec<char> = Vec::new();
    extend_all(&mut out, &v);
    let mut j: usize = 0;
    while j < n
        invariant
            v@ == input@,
            v@.len() > 0,
            c == v@[v@.len() - 1],
            j <= n,
            out@.len() == v@.len() + j,
            out@.subrange(0, v@.len() as int) =~= v@,
            forall|k: int| v@.len() <= k < v@.len() + j ==> out@[k] == c,
        decreases n - j,
    {
        out.push(c);
        j += 1;
    }
    proof {
        assert(out@ =~= input@ + Seq::new(n as nat, |i: int| input@[input@.len() - 1]));
    }
    string_of(&out)
}

fn dup_all(input: String) -> (r: String)
    ensures
        r@ == crate::semantics::spec_dup_all(input@),
{
    let v = chars_of(input.as_str());
    let mut out: Vec<char> = Vec::new();
    let mut i: usize = 0;
    while i < v.len()
        invariant
            v@ == input@,
            i <= v@.len(),
            out@.len() == 2 * i,
            forall|k: int| 0 <= k < 2 * i ==> out@[k] == v@[k / 2],
        decreases v.len() - i,
    {
        out.push(v[i]);
        out.push(v[i]);
        i += 1;
    }
    proof {
        assert(out@ =~= crate::semantics::spec_dup_all(input@));
    }
    string_of(&out)
}

fn swap_front(input: String) -> (r: String)
    ensures
        r@ == crate::semantics::spec_swap_front(input@),
{
    let v = chars_of(input.as_str());
    let len = v.len();
    if len < 2 {
        return input;
    }
    let mut out: Vec<char> = Vec::new();
    out.push(v[1]);
    out.push(v[0]);
    extend_range(&mut out, &v, 2, len);
    proof {
        assert(out@ =~= crate::semantics::spec_swap_front(input@));
    }
    string_of(&out)
}

fn swap_back(input: String) -> (r: String)
    ensures
        r@ == crate::semantics::spec_swap_back(input@),
{
    let v = chars_of(input.as_str());
    let len = v.len();
    if len < 2 {
        return input;
    }
    let mut out: Vec<char> = Vec::new();
    extend_range(&mut out, &v, 0, len - 2);
    out.push(v[len - 1]);
    out.push(v[len - 2]);
    proof {
        assert(out@ =~= crate::semantics::spec_swap_back(input@));
    }
    string_of(&out)
}

fn swap_at(input: String, a: usize, b: usize) -> (r: String)
    ensures
        r@ == crate::semantics::spec_swap(input@, a as int, b as int),
{
    let v = chars_of(input.as_str());
    let len = v.len();
    let lo = if a <= b {
        a
    } else {
        b
    };
    let hi = if a <= b {
        b
    } else {
        a
    };
    if hi >= len {
        return input;
    }
    let orig_lo = v[lo];
    let w = update_at(&v, lo, v[hi]);
    let out = update_at(&w, hi, orig_lo);
    string_of(&out)
}

fn map_bytes(input: String, n: usize, op: u8) -> (r: String)
    requires
        op < 4,
    ensures
        op == 0 ==> r@ == input@.map_values(
            |c: char| crate::semantics::spec_shl_char(c, n),
        ),
        op == 1 ==> r@ == input@.map_values(
            |c: char| crate::semantics::spec_shr_char(c, n),
        ),
        op == 2 ==> r@ == input@.map_values(
            |c: char| crate::semantics::spec_inc_char(c, n),
        ),
        op == 3 ==> r@ == input@.map_values(
            |c: char| crate::semantics::spec_dec_char(c, n),
        ),
{
    let v = chars_of(input.as_str());
    let sh: u32 = (n % 8) as u32;
    let m: u32 = (n % 256) as u32;
    let mut out: Vec<char> = Vec::new();
    let mut i: usize = 0;
    while i < v.len()
        invariant
            v@ == input@,
            i <= v@.len(),
            op < 4,
            sh == ((n as int) % 8) as u32,
            m == ((n as int) % 256) as u32,
            out@.len() == i,
            forall|k: int|
                0 <= k < i ==> out@[k] == (if op == 0 {
                    crate::semantics::spec_shl_char(#[trigger] v@[k], n)
                } else if op == 1 {
                    crate::semantics::spec_shr_char(v@[k], n)
                } else if op == 2 {
                    crate::semantics::spec_inc_char(v@[k], n)
                } else {
                    crate::semantics::spec_dec_char(v@[k], n)
                }),
        decreases v.len() - i,
    {
        let c = v[i];
        let u: u32 = c as u32;
        let b: u32 = u % 256;
        let val: u32 = if op == 0 {
            (b << sh) % 256
        } else if op == 1 {
            (b >> sh) % 256
        } else if op == 2 {
            (b + m) % 256
        } else {
            (b + 256 - m) % 256
        };
        let byte: u8 = val as u8;
        out.push(byte as char);
        i += 1;
    }
    proof {
        if op == 0 {
            assert(out@ =~= input@.map_values(|c: char| crate::semantics::spec_shl_char(c, n)));
        } else if op == 1 {
            assert(out@ =~= input@.map_values(|c: char| crate::semantics::spec_shr_char(c, n)));
        } else if op == 2 {
            assert(out@ =~= input@.map_values(|c: char| crate::semantics::spec_inc_char(c, n)));
        } else {
            assert(out@ =~= input@.map_values(|c: char| crate::semantics::spec_dec_char(c, n)));
        }
    }
    string_of(&out)
}

fn replace_with_next(input: String, n: usize) -> (r: String)
    ensures
        r@ == crate::semantics::spec_replace_with_next(input@, n as int),
{
    let v = chars_of(input.as_str());
    let len = v.len();
    if n >= len || n + 1 >= len {
        return input;
    }
    let out = update_at(&v, n, v[n + 1]);
    string_of(&out)
}

fn replace_with_prev(input: String, n: usize) -> (r: String)
    ensures
        r@ == crate::semantics::spec_replace_with_prev(input@, n as int),
{
    let v = chars_of(input.as_str());
    let len = v.len();
    if n == 0 || n >= len {
        return input;
    }
    let out = update_at(&v, n, v[n - 1]);
    string_of(&out)
}

fn dup_first_block(input: String, n: usize) -> (r: String)
    ensures
        r@ == crate::semantics::spec_dup_first_block(input@, n as int),
{
    let v = chars_of(input.as_str());
    let len = v.len();
    let k = if n >= len {
        len
    } else {
        n
    };
    let mut out: Vec<char> = Vec::new();
    extend_range(&mut out, &v, 0, k);
    extend_all(&mut out, &v);
    string_of(&out)
}

fn dup_last_block(input: String, n: usize) -> (r: String)
    ensures
        r@ == crate::semantics::spec_dup_last_block(input@, n as int),
{
    let v = chars_of(input.as_str());
    let len = v.len();
    let k = if n >= len {
        len
    } else {
        n
    };
    let mut out: Vec<char> = Vec::new();
    extend_all(&mut out, &v);
    extend_range(&mut out, &v, len - k, len);
    string_of(&out)
}

impl TransformRule {
    /// Apply this transformation to a word. Total: every out-of-range index
    /// falls back to a clamped or unchanged result, exactly as the contract
    /// states.
    pub fn run(&self, input: String) -> (r: String)
        ensures
            r@ == spec_transform(self@, input@),
    {
        match self {
            TransformRule::Lowercase => lowercase_str(input.as_str()),
            TransformRule::Uppercase => uppercase_str(input.as_str()),
            TransformRule::Capitalize => capitalize(input),
            TransformRule::InvertCapitalize => invert_capitalize(input),
            TransformRule::ToggleCase(n) => match n {
                Some(i) => toggle_at(input, *i),
                None => toggle_all(input),
            },
            TransformRule::Reverse => reverse_chars(input),
            TransformRule::Duplicate(n) => duplicate(input, n),
            TransformRule::Reflect => reflect(input),
            TransformRule::Rotate(d) => rotate(input, *d),
            TransformRule::Append(t) => input.concat(t.as_str()),
            TransformRule::Prepend(t) => t.clone().concat(input.as_str()),
            TransformRule::Delete(n) => delete_at(input, *n),
            TransformRule::Extract(a, b) => extract(input, *a, *b),
            TransformRule::Omit(a, b) => omit(input, *a, *b),
            TransformRule::Insert(n, t) => insert_at(input, *n, t),
            TransformRule::Overwrite(n, t) => overwrite_at(input, *n, t),
            TransformRule::Truncate(d) => truncate_word(input, d),
            TransformRule::Replace(a, b) => {
                let v = chars_of(input.as_str());
                let av = chars_of(a.as_str());
                let bv = chars_of(b.as_str());
                let out = replace_all(&v, &av, &bv);
                string_of(&out)
            },
            TransformRule::Purge(t) => {
                let v = chars_of(input.as_str());
                let tv = chars_of(t.as_str());
                let empty: Vec<char> = Vec::new();
                let out = replace_all(&v, &tv, &empty);
                string_of(&out)
            },
            TransformRule::DuplicateFirst(n) => dup_first(input, *n),
            TransformRule::DuplicateLast(n) => dup_last(input, *n),
            TransformRule::DuplicateAll => dup_all(input),
            TransformRule::SwapFront => swap_front(input),
            TransformRule::SwapBack => swap_back(input),
            TransformRule::Swap(a, b) => swap_at(input, *a, *b),
            TransformRule::BitwiseShiftLeft(n) => map_bytes(input, *n, 0),
            TransformRule::BitwiseShiftRight(n) => map_bytes(input, *n, 1),
            TransformRule::AsciiIncrement(n) => map_bytes(input, *n, 2),
            TransformRule::AsciiDecrement(n) => map_bytes(input, *n, 3),
            TransformRule::ReplaceWithNext(n) => replace_with_next(input, *n),
            TransformRule::ReplaceWithPrev(n) => replace_with_prev(input, *n),
            TransformRule::DuplicateFirstBlock(n) => dup_first_block(input, *n),
            TransformRule::DuplicateLastBlock(n) => dup_last_block(input, *n),
        }
    }
}

impl RejectRule {
    /// Apply this rejection to a word: the word unchanged when the stored
    /// keep-condition holds, `None` otherwise.
    pub fn run(&self, input: String) -> (r: Option<String>)
        ensures
            opt_view(r) == (if spec_keep(self@, input@) {
                Some(input@)
            } else {
                None::<Seq<char>>
            }),
    {
        let v = chars_of(input.as_str());
        match self {
            RejectRule::ShorterThan(n) => {
                let bl = byte_len_of(&v);
                if bl >= *n as u128 {
                    Some(input)
                } else {
                    None
                }
            },
            RejectRule::LongerThan(n) => {
                let bl = byte_len_of(&v);
                if bl <= *n as u128 {
                    Some(input)
                } else {
                    None
                }
            },
            RejectRule::NotEqualTo(n) => {
                let bl = byte_len_of(&v);
                if bl == *n as u128 {
                    Some(input)
                } else {
                    None
                }
            },
            RejectRule::Contains(t) => {
                let tv = chars_of(t.as_str());
                if contains(&v, &tv) {
                    None
                } else {
                    Some(input)
                }
            },
            RejectRule::NotContains(t) => {
                let tv = chars_of(t.as_str());
                if contains(&v, &tv) {
                    Some(input)
                } else {
                    None
                }
            },
            RejectRule::NotStartsWith(t) => {
                let tv = chars_of(t.as_str());
                if starts_with(&v, &tv) {
                    Some(input)
                } else {
                    None
                }
            },
            RejectRule::NotEndsWith(t) => {
                let tv = chars_of(t.as_str());
                if ends_with(&v, &tv) {
                    Some(input)
                } else {
                    None
                }
            },
            RejectRule::NotEqualAt(n, t) => {
                let tv = chars_of(t.as_str());
                let m = byte_len_of(&tv);
                let len = v.len();
                let lo = if *n >= len {
                    len
                } else {
                    *n
                };
                let tl = tv.len();
                proof {
                    assert(m <= 4 * tl as u128);
                }
                let sum: u128 = *n as u128 + m;
                let hi = if sum >= len as u128 {
                    len
                } else {
                    sum as usize
                };
                let mut sub: Vec<char> = Vec::new();
                extend_range(&mut sub, &v, lo, hi);
                if vec_eq(&sub, &tv) {
                    Some(input)
                } else {
                    None
                }
            },
            RejectRule::ContainsLessThan(n, t) => {
                let tv = chars_of(t.as_str());
                if count_at_least(&v, &tv, *n) {
                    Some(input)
                } else {
                    None
                }
            },
        }
    }
}

impl Rule {
    /// Apply one rule to a word: `None` exactly when a rejection discards
    /// the word.
    pub fn run(&self, input: String) -> (r: Option<String>)
        ensures
            opt_view(r) == spec_rule(self@, input@),
    {
        match self {
            Rule::NoOp => Some(input),
            Rule::Transform(rule) => Some(rule.run(input)),
            Rule::Reject(rule) => rule.run(input),
            Rule::End => Some(input),
        }
    }

    /// Apply a rule sequence to a word, left to right, stopping at the first
    /// rejection.
    pub fn run_all(rules: &Vec<Rule>, input: String) -> (r: Option<String>)
        ensures
            opt_view(r) == spec_run_all(rules.deep_view(), input@),
    {
        let ghost rv = rules.deep_view();
        let ghost s0 = input@;
        let mut cur = input.clone();
        let mut i: usize = 0;
        proof {
            assert(rv.skip(0) =~= rv);
        }
        while i < rules.len()
            invariant
                i <= rv.len(),
                rv == rules.deep_view(),
                rv.len() == rules@.len(),
                s0 == input@,
                spec_run_all(rv, s0) == spec_run_all(rv.skip(i as int), cur@),
            decreases rules.len() - i,
        {
            let ghost w = cur@;
            proof {
                assert(rv[i as int] == rules@[i as int]@);
                assert(rv.skip(i as int)[0] == rv[i as int]);
                assert(rv.skip(i as int).drop_first() =~= rv.skip(i as int + 1));
            }
            match rules[i].run(cur) {
                Some(next) => {
                    cur = next;
                },
                None => {
                    proof {
                        assert(spec_rule(rv[i as int], w) is None);
                        assert(spec_run_all(rv.skip(i as int), w) is None);
                    }
                    return None;
                },
            }
            i += 1;
        }
        proof {
            assert(rv.skip(rv.len() as int) =~= Seq::<RuleV>::empty());
        }
        Some(cur)
    }
}

} // verus!
