//! Counting elves and shelves in free text.
use vstd::prelude::*;

use crate::text::chars_of;

verus! {

/// How many times `pat` occurs in `text`, scanning left to right and resuming
/// after the end of each match, so that matches never overlap.
pub open spec fn count_matches(text: Seq<char>, pat: Seq<char>) -> nat
    decreases text.len(),
{
    if pat.len() == 0 || text.len() < pat.len() {
        0
    } else if text.take(pat.len() as int) == pat {
        1 + count_matches(text.skip(pat.len() as int), pat)
    } else {
        count_matches(text.skip(1), pat)
    }
}

/// The three counts reported for a text.
#[derive(Debug, Clone, Copy, PartialEq, Eq, Structural)]
pub struct ElfCounts {
    /// Occurrences of `elf`.
    pub elf: usize,
    /// Occurrences of `elf on a shelf`.
    pub elf_on_a_shelf: usize,
    /// Occurrences of `shelf` less those of `elf on a shelf`.
    pub shelf_with_no_elf: usize,
}

/// Whether `pat` occurs in `text` at position `at`.
fn matches_at(text: &Vec<char>, pat: &Vec<char>, at: usize) -> (r: bool)
    requires
        at + pat@.len() <= text@.len(),
    ensures
        r == (text@.subrange(at as int, at + pat@.len()) == pat@),
{
    let n = text.len();
    let mut j: usize = 0;
    while j < pat.len()
        invariant
            n == text@.len(),
            at + pat@.len() <= text@.len(),
            j <= pat@.len(),
            text@.subrange(at as int, at + j) == pat@.take(j as int),
        decreases pat.len() - j,
    {
        if text[at + j] != pat[j] {
            assert(text@.subrange(at as int, at + pat@.len())[j as int] != pat@[j as int]);
            return false;
        }
        assert(text@.subrange(at as int, at + j + 1) =~= pat@.take(j + 1));
        j = j + 1;
    }
    assert(pat@.take(pat@.len() as int) =~= pat@);
    true
}

/// Counts the non-overlapping occurrences of `pat` in `text`, left to right.
pub fn count_occurrences(text: &Vec<char>, pat: &Vec<char>) -> (r: usize)
    ensures
        r == count_matches(text@, pat@),
{
    let n = text.len();
    let m = pat.len();
    if m == 0 {
        return 0;
    }
    let mut count: usize = 0;
    let mut i: usize = 0;
    assert(text@.skip(0) =~= text@);
    while m <= n - i
        invariant
            n == text@.len(),
            m == pat@.len(),
            m > 0,
            i <= n,
            count <= i,
            count + count_matches(text@.skip(i as int), pat@) == count_matches(text@, pat@),
        decreases n - i,
    {
        let ghost rest = text@.skip(i as int);
        assert(rest.take(m as int) =~= text@.subrange(i as int, i + m));
        if matches_at(text, pat, i) {
            assert(rest.skip(m as int) =~= text@.skip(i + m));
            count = count + 1;
            i = i + m;
        } else {
            assert(rest.skip(1) =~= text@.skip(i + 1));
            i = i + 1;
        }
    }
    count
}

/// Skipping ahead never finds more matches: dropping the first `k` characters
/// loses none or some; and dropping `j` characters, at most one pattern
/// length, loses at most one match.
proof fn lemma_count_matches_skip(t: Seq<char>, p: Seq<char>)
    ensures
        forall|k: int| 0 <= k <= t.len() ==> #[trigger] count_matches(t.skip(k), p) <= count_matches(t, p),
        forall|j: int|
            1 <= j <= p.len() && j <= t.len() ==> count_matches(t, p) <= 1 + #[trigger] count_matches(
                t.skip(j),
                p,
            ),
    decreases t.len(),
{
    let m = p.len() as int;
    assert(t.skip(0) =~= t);
    if m == 0 || t.len() < m {
        return;
    }
    let u = t.skip(1);
    lemma_count_matches_skip(u, p);
    assert forall|j: int| 1 <= j <= t.len() implies #[trigger] t.skip(j) == u.skip(j - 1) by {
        assert(t.skip(j) =~= u.skip(j - 1));
    }
    // One step ahead.
    if t.take(m) == p {
        if m > 1 {
            assert(count_matches(u, p) <= 1 + count_matches(u.skip(m - 1), p));
        }
    }
    assert(count_matches(u, p) <= count_matches(t, p));
    assert forall|j: int| 1 <= j <= m && j <= t.len() implies count_matches(t, p) <= 1
        + #[trigger] count_matches(t.skip(j), p) by {
        if t.take(m) == p {
            lemma_count_matches_skip(t.skip(j), p);
            assert(t.skip(j).skip(m - j) =~= t.skip(m));
        } else if j > 1 {
            assert(count_matches(u, p) <= 1 + count_matches(u.skip(j - 1), p));
        }
    }
}

pub open spec fn elf_word() -> Seq<char> {
    seq!['e', 'l', 'f']
}

pub open spec fn shelf_word() -> Seq<char> {
    seq!['s', 'h', 'e', 'l', 'f']
}

pub open spec fn elf_on_a_shelf_words() -> Seq<char> {
    seq!['e', 'l', 'f', ' ', 'o', 'n', ' ', 'a', ' ', 's', 'h', 'e', 'l', 'f']
}

/// Every `elf on a shelf` ends in a `shelf` of its own, so a text never holds
/// fewer shelves than elves on shelves, and the difference is never negative.
pub proof fn lemma_shelves_cover_elves_on_shelves(t: Seq<char>)
    ensures
        count_matches(t, elf_on_a_shelf_words()) <= count_matches(t, shelf_word()),
    decreases t.len(),
{
    let e = elf_on_a_shelf_words();
    let s = shelf_word();
    lemma_count_matches_skip(t, s);
    if t.len() < 14 {
        return;
    }
    if t.take(14) == e {
        lemma_shelves_cover_elves_on_shelves(t.skip(14));
        let tail = t.skip(9);
        assert(tail.take(5) =~= s) by {
            assert forall|i: int| 0 <= i < 5 implies tail[i] == s[i] by {
                assert(tail[i] == t.take(14)[9 + i]);
            }
        }
        assert(tail.skip(5) =~= t.skip(14));
        assert(count_matches(tail, s) == 1 + count_matches(t.skip(14), s));
        assert(count_matches(tail, s) <= count_matches(t, s));
    } else {
        lemma_shelves_cover_elves_on_shelves(t.skip(1));
        assert(count_matches(t.skip(1), s) <= count_matches(t, s));
    }
}

/// The counts for `text`: `elf`, `elf on a shelf`, and `shelf` less
/// `elf on a shelf`.
pub open spec fn elf_counts_spec(text: Seq<char>) -> (nat, nat, nat) {
    let shelves = count_matches(text, shelf_word());
    let on_shelf = count_matches(text, elf_on_a_shelf_words());
    (count_matches(text, elf_word()), on_shelf, (shelves - on_shelf) as nat)
}

/// Counts `elf`, `elf on a shelf`, and the shelves with no elf on them in `text`.
pub fn count_elves(text: &str) -> (r: ElfCounts)
    ensures
        (r.elf as nat, r.elf_on_a_shelf as nat, r.shelf_with_no_elf as nat) == elf_counts_spec(text@),
{
    let cs = chars_of(text);
    proof {
        reveal_strlit("elf");
        reveal_strlit("shelf");
        reveal_strlit("elf on a shelf");
    }
    let elf = chars_of("elf");
    let shelf = chars_of("shelf");
    let on_shelf = chars_of("elf on a shelf");
    assert(elf@ =~= elf_word());
    assert(shelf@ =~= shelf_word());
    assert(on_shelf@ =~= elf_on_a_shelf_words());
    let elves = count_occurrences(&cs, &elf);
    let shelves = count_occurrences(&cs, &shelf);
    let elves_on_shelves = count_occurrences(&cs, &on_shelf);
    proof {
        lemma_shelves_cover_elves_on_shelves(text@);
    }
    let bare = shelves - elves_on_shelves;
    ElfCounts { elf: elves, elf_on_a_shelf: elves_on_shelves, shelf_with_no_elf: bare }
}

} // verus!
