//! Mod-manager core for a moddable game: a registry of installed mods with
//! all-or-nothing batch activation, named presets of mods, and a reconciler
//! that recomputes activation state as the union of all enabled presets.

use vstd::prelude::*;
use vstd::string::StrSliceExecFns;

pub mod game;
mod preset;

pub use preset::Preset;

verus! {

/// Errors produced by the registry and preset operations.
///
/// Only data-level failures live here; I/O and serialization failures belong
/// to the surrounding application, not to this library.
#[derive(Debug)]
pub enum Error {
    /// One or more mod ids were not found in the registry.
    MissingMods { mods: Vec<String> },
    /// One or more presets could not be applied; carries all missing mod ids
    /// and the names of the presets that failed.
    PresetsFailed { mods: Vec<String>, presets: Vec<String> },
}

/// Result type alias for this crate.
pub type Result<T> = core::result::Result<T, Error>;

/// Character-by-character string equality, proved against the string views.
pub(crate) fn str_eq(a: &str, b: &str) -> (r: bool)
    ensures
        r == (a@ == b@),
{
    let n = a.unicode_len();
    let m = b.unicode_len();
    if n != m {
        return false;
    }
    let mut i: usize = 0;
    while i < n
        invariant
            i <= n,
            n == a@.len(),
            n == b@.len(),
            forall|j: int| 0 <= j < i ==> a@[j] == b@[j],
        decreases n - i,
    {
        if a.get_char(i) != b.get_char(i) {
            return false;
        }
        i += 1;
    }
    proof {
        assert(a@ =~= b@);
    }
    true
}

/// Whether a slice of strings contains the given string, by value.
pub(crate) fn slice_contains_str(v: &[String], s: &str) -> (r: bool)
    ensures
        r == v.deep_view().contains(s@),
{
    let n = v.len();
    let mut i: usize = 0;
    while i < n
        invariant
            i <= n,
            n == v@.len(),
            forall|j: int| 0 <= j < i ==> v.deep_view()[j] != s@,
        decreases n - i,
    {
        if str_eq(v[i].as_str(), s) {
            assert(v.deep_view()[i as int] == s@);
            return true;
        }
        i += 1;
    }
    assert(forall|j: int| 0 <= j < v.deep_view().len() ==> v.deep_view()[j] != s@);
    false
}

/// Pushing one string onto a vector pushes its view onto the deep view.
pub(crate) proof fn lemma_deep_view_push(pre: Vec<String>, post: Vec<String>, x: String)
    requires
        post@ == pre@.push(x),
    ensures
        post.deep_view() == pre.deep_view().push(x@),
{
    assert forall|j: int| 0 <= j < post.deep_view().len() implies post.deep_view()[j]
        == pre.deep_view().push(x@)[j] by {
        if j < pre@.len() {
            assert(post@[j] == pre@[j]);
        } else {
            assert(post@[j] == x);
        }
    }
    assert(post.deep_view() =~= pre.deep_view().push(x@));
}

/// Membership in a sequence extended by one element.
pub(crate) proof fn lemma_contains_push<A>(s: Seq<A>, x: A, y: A)
    ensures
        s.push(x).contains(y) <==> (s.contains(y) || y == x),
{
    if s.contains(y) {
        let w = choose|w: int| 0 <= w < s.len() && s[w] == y;
        assert(s.push(x)[w] == y);
    }
    assert(s.push(x)[s.len() as int] == x);
    if s.push(x).contains(y) {
        let w = choose|w: int| 0 <= w < s.push(x).len() && s.push(x)[w] == y;
        if w < s.len() {
            assert(s[w] == y);
        }
    }
}

/// Filtering a sequence extended by one element keeps the element exactly
/// when the predicate holds of it.
pub(crate) proof fn lemma_filter_push<A>(s: Seq<A>, x: A, pred: spec_fn(A) -> bool)
    ensures
        s.push(x).filter(pred) == (if pred(x) {
            s.filter(pred).push(x)
        } else {
            s.filter(pred)
        }),
{
    reveal(Seq::filter);
    assert(s.push(x).drop_last() =~= s);
    assert(s.push(x).last() == x);
}

/// A filter whose predicate rejects every element yields the empty sequence.
pub(crate) proof fn lemma_filter_all_false<A>(s: Seq<A>, pred: spec_fn(A) -> bool)
    requires
        forall|i: int| 0 <= i < s.len() ==> !pred(s[i]),
    ensures
        s.filter(pred) == Seq::<A>::empty(),
    decreases s.len(),
{
    reveal(Seq::filter);
    if s.len() > 0 {
        lemma_filter_all_false(s.drop_last(), pred);
    }
}

/// Membership in a concatenation of two sequences.
pub(crate) proof fn lemma_contains_concat<A>(a: Seq<A>, b: Seq<A>, x: A)
    ensures
        (a + b).contains(x) <==> (a.contains(x) || b.contains(x)),
{
    if a.contains(x) {
        let w = choose|w: int| 0 <= w < a.len() && a[w] == x;
        assert((a + b)[w] == x);
    }
    if b.contains(x) {
        let w = choose|w: int| 0 <= w < b.len() && b[w] == x;
        assert((a + b)[a.len() + w] == x);
    }
    if (a + b).contains(x) {
        let w = choose|w: int| 0 <= w < (a + b).len() && (a + b)[w] == x;
        if w < a.len() {
            assert(a[w] == x);
        } else {
            assert(b[w - a.len()] == x);
        }
    }
}

/// An element is in a filtered sequence exactly when the unfiltered
/// sequence contains it and it satisfies the predicate.
pub(crate) proof fn lemma_filter_membership<A>(s: Seq<A>, pred: spec_fn(A) -> bool, x: A)
    ensures
        s.filter(pred).contains(x) <==> (s.contains(x) && pred(x)),
    decreases s.len(),
{
    reveal(Seq::filter);
    if s.len() > 0 {
        lemma_filter_membership(s.drop_last(), pred, x);
        assert(s =~= s.drop_last().push(s.last()));
        lemma_contains_push(s.drop_last(), s.last(), x);
        if pred(s.last()) {
            lemma_contains_push(s.drop_last().filter(pred), s.last(), x);
        }
    }
}

/// Pushing an element not yet present keeps a sequence duplicate-free.
pub(crate) proof fn lemma_no_dup_push<A>(s: Seq<A>, x: A)
    requires
        s.no_duplicates(),
        !s.contains(x),
    ensures
        s.push(x).no_duplicates(),
{
    assert forall|i: int, j: int|
        0 <= i < s.push(x).len() && 0 <= j < s.push(x).len() && i != j implies s.push(x)[i]
        != s.push(x)[j] by {
        if i < s.len() && j < s.len() {
        } else if i < s.len() {
            assert(s[i] == s.push(x)[i]);
        } else {
            assert(s[j] == s.push(x)[j]);
        }
    }
}

/// Two filters of the same sequence agree when their predicates agree on
/// every element of the sequence.
pub(crate) proof fn lemma_filter_congruence<A>(
    s: Seq<A>,
    pred1: spec_fn(A) -> bool,
    pred2: spec_fn(A) -> bool,
)
    requires
        forall|i: int| 0 <= i < s.len() ==> pred1(s[i]) == pred2(s[i]),
    ensures
        s.filter(pred1) == s.filter(pred2),
    decreases s.len(),
{
    reveal(Seq::filter);
    if s.len() > 0 {
        lemma_filter_congruence(s.drop_last(), pred1, pred2);
    }
}

/// Whether a character counts as whitespace when trimming user input.
pub open spec fn is_space(c: char) -> bool {
    let u = c as u32;
    u == 0x9 || u == 0xA || u == 0xB || u == 0xC || u == 0xD || u == 0x20 || u == 0x85 || u == 0xA0
        || u == 0x1680 || (0x2000 <= u && u <= 0x200A) || u == 0x2028 || u == 0x2029 || u == 0x202F
        || u == 0x205F || u == 0x3000
}

/// The sequence with its leading whitespace removed.
pub open spec fn drop_leading_spaces(s: Seq<char>) -> Seq<char>
    decreases s.len(),
{
    if s.len() > 0 && is_space(s.first()) {
        drop_leading_spaces(s.drop_first())
    } else {
        s
    }
}

/// The sequence with its trailing whitespace removed.
pub open spec fn drop_trailing_spaces(s: Seq<char>) -> Seq<char>
    decreases s.len(),
{
    if s.len() > 0 && is_space(s.last()) {
        drop_trailing_spaces(s.drop_last())
    } else {
        s
    }
}

/// The sequence with whitespace removed from both ends.
pub open spec fn trimmed(s: Seq<char>) -> Seq<char> {
    drop_trailing_spaces(drop_leading_spaces(s))
}

/// What a line of user input answers to a yes/no question: everything is
/// taken as the default except an explicit reply the other way, and a
/// blanket confirmation short-circuits the question entirely.
pub open spec fn spec_confirm(input: Seq<char>, default: bool, confirm_all: bool) -> bool {
    if confirm_all {
        true
    } else if default {
        !(trimmed(input) == seq!['n'] || trimmed(input) == seq!['N'])
    } else {
        trimmed(input) == seq!['y'] || trimmed(input) == seq!['Y']
    }
}

/// Removing leading whitespace keeps the suffix that starts at the first
/// non-whitespace position.
proof fn lemma_drop_leading_subrange(s: Seq<char>, start: int)
    requires
        0 <= start <= s.len(),
        forall|j: int| 0 <= j < start ==> is_space(s[j]),
        start < s.len() ==> !is_space(s[start]),
    ensures
        drop_leading_spaces(s) == s.subrange(start, s.len() as int),
    decreases start,
{
    if start == 0 {
        assert(s.subrange(0, s.len() as int) =~= s);
    } else {
        assert(is_space(s[0]));
        lemma_drop_leading_subrange(s.drop_first(), start - 1);
        assert(s.drop_first().subrange(start - 1, s.drop_first().len() as int) =~= s.subrange(
            start,
            s.len() as int,
        ));
    }
}

/// Removing trailing whitespace keeps the prefix that ends at the last
/// non-whitespace position.
proof fn lemma_drop_trailing_subrange(s: Seq<char>, end: int)
    requires
        0 <= end <= s.len(),
        forall|j: int| end <= j < s.len() ==> is_space(s[j]),
        end > 0 ==> !is_space(s[end - 1]),
    ensures
        drop_trailing_spaces(s) == s.subrange(0, end),
    decreases s.len() - end,
{
    if end == s.len() {
        assert(s.subrange(0, end) =~= s);
    } else {
        assert(is_space(s.last()));
        lemma_drop_trailing_subrange(s.drop_last(), end);
        assert(s.drop_last().subrange(0, end) =~= s.subrange(0, end));
    }
}

/// Whether a character counts as whitespace when trimming user input.
fn is_space_char(c: char) -> (r: bool)
    ensures
        r == is_space(c),
{
    let u = c as u32;
    u == 0x9 || u == 0xA || u == 0xB || u == 0xC || u == 0xD || u == 0x20 || u == 0x85 || u == 0xA0
        || u == 0x1680 || (0x2000 <= u && u <= 0x200A) || u == 0x2028 || u == 0x2029 || u == 0x202F
        || u == 0x205F || u == 0x3000
}

/// Interpret one line of user input as the answer to a yes/no question.
///
/// With `confirm_all` every question counts as answered yes. Otherwise the
/// input is trimmed of surrounding whitespace and compared case-insensitively:
/// when the default is yes, anything but an explicit `n` confirms; when the
/// default is no, only an explicit `y` confirms.
#[verifier::loop_isolation(false)]
pub fn confirm(input: &str, default: bool, confirm_all: bool) -> (r: bool)
    ensures
        r == spec_confirm(input@, default, confirm_all),
{
    if confirm_all {
        return true;
    }
    let n = input.unicode_len();
    let mut start: usize = 0;
    while start < n && is_space_char(input.get_char(start))
        invariant
            start <= n,
            forall|j: int| 0 <= j < start ==> is_space(input@[j]),
        decreases n - start,
    {
        start += 1;
    }
    let mut end: usize = n;
    while end > start && is_space_char(input.get_char(end - 1))
        invariant
            start <= end <= n,
            forall|j: int| end <= j < n ==> is_space(input@[j]),
        decreases end,
    {
        end -= 1;
    }
    proof {
        lemma_drop_leading_subrange(input@, start as int);
        lemma_drop_trailing_subrange(
            input@.subrange(start as int, input@.len() as int),
            end - start,
        );
        assert(trimmed(input@) =~= input@.subrange(start as int, end as int));
    }
    if end - start == 1 {
        let c = input.get_char(start);
        proof {
            assert(trimmed(input@).len() == 1);
            assert(trimmed(input@)[0] == c);
            assert(trimmed(input@) == seq!['n'] <==> c == 'n') by {
                if c == 'n' {
                    assert(trimmed(input@) =~= seq!['n']);
                }
                if trimmed(input@) == seq!['n'] {
                    assert(trimmed(input@)[0] == seq!['n'][0]);
                }
            }
            assert(trimmed(input@) == seq!['N'] <==> c == 'N') by {
                if c == 'N' {
                    assert(trimmed(input@) =~= seq!['N']);
                }
                if trimmed(input@) == seq!['N'] {
                    assert(trimmed(input@)[0] == seq!['N'][0]);
                }
            }
            assert(trimmed(input@) == seq!['y'] <==> c == 'y') by {
                if c == 'y' {
                    assert(trimmed(input@) =~= seq!['y']);
                }
                if trimmed(input@) == seq!['y'] {
                    assert(trimmed(input@)[0] == seq!['y'][0]);
                }
            }
            assert(trimmed(input@) == seq!['Y'] <==> c == 'Y') by {
                if c == 'Y' {
                    assert(trimmed(input@) =~= seq!['Y']);
                }
                if trimmed(input@) == seq!['Y'] {
                    assert(trimmed(input@)[0] == seq!['Y'][0]);
                }
            }
        }
        if default {
            !(c == 'n' || c == 'N')
        } else {
            c == 'y' || c == 'Y'
        }
    } else {
        proof {
            assert(trimmed(input@).len() != 1);
            assert(seq!['n'].len() == 1);
            assert(seq!['N'].len() == 1);
            assert(seq!['y'].len() == 1);
            assert(seq!['Y'].len() == 1);
        }
        default
    }
}

} // verus!
