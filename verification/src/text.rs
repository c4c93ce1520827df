//! Character sequences: reading a string's characters and finding where a
//! run of characters of one class ends.

use vstd::prelude::*;
use vstd::string::StrSliceExecFns;

verus! {

/// The characters of `s`, in order.
pub fn chars_of(s: &str) -> (chars: Vec<char>)
    ensures
        chars@ == s@,
{
    let mut chars: Vec<char> = Vec::new();
    for c in it: s.chars()
        invariant
            it.seq() == s@,
            chars@ == it.seq().take(it.index() as int),
    {
        chars.push(c);
    }
    chars
}

/// Whether two texts hold the same characters.
pub fn same_text(a: &str, b: &str) -> (same: bool)
    ensures
        same == (a@ == b@),
{
    let n = a.unicode_len();
    if b.unicode_len() != n {
        return false;
    }
    let mut i: usize = 0;
    while i < n
        invariant
            i <= n,
            n == a@.len(),
            n == b@.len(),
            forall|j: int| 0 <= j < i ==> a@[j] == b@[j],
        decreases n - i,
    {
        if a.get_char(i) != b.get_char(i) {
            return false;
        }
        i += 1;
    }
    assert(a@ =~= b@);
    true
}

/// How many characters, from `from` on, satisfy `class` before one does not
/// or `s` ends.
pub open spec fn run_len(s: Seq<char>, from: int, class: spec_fn(char) -> bool) -> nat
    decreases s.len() - from,
{
    if 0 <= from < s.len() && class(s[from]) {
        1 + run_len(s, from + 1, class)
    } else {
        0
    }
}

/// The end of the longest run of characters satisfying `class` that starts
/// at `from`: the first index at or after `from` that holds another
/// character, or the length of `s` if there is none.
pub open spec fn run_end(s: Seq<char>, from: int, class: spec_fn(char) -> bool) -> int {
    from + run_len(s, from, class)
}

/// `run_end` is the one index that closes the run: everything before it is
/// in the class, and it is the end of `s` or holds a character outside it.
pub proof fn lemma_run_end(s: Seq<char>, from: int, class: spec_fn(char) -> bool)
    requires
        0 <= from <= s.len(),
    ensures
        from <= run_end(s, from, class) <= s.len(),
        forall|j: int| from <= j < run_end(s, from, class) ==> class(#[trigger] s[j]),
        run_end(s, from, class) < s.len() ==> !class(s[run_end(s, from, class)]),
    decreases s.len() - from,
{
    if from < s.len() && class(s[from]) {
        lemma_run_end(s, from + 1, class);
    }
}

/// Any index that closes the run is `run_end`.
pub proof fn lemma_run_end_unique(s: Seq<char>, from: int, class: spec_fn(char) -> bool, end: int)
    requires
        0 <= from <= end <= s.len(),
        forall|j: int| from <= j < end ==> class(#[trigger] s[j]),
        end < s.len() ==> !class(s[end]),
    ensures
        run_end(s, from, class) == end,
    decreases end - from,
{
    if from < end {
        lemma_run_end_unique(s, from + 1, class, end);
    }
}

/// How many line feeds stand before `pos`.
pub open spec fn newlines(s: Seq<char>, pos: int) -> nat
    decreases pos,
{
    if pos <= 0 || pos > s.len() {
        0
    } else if s[pos - 1] == '\n' {
        newlines(s, pos - 1) + 1
    } else {
        newlines(s, pos - 1)
    }
}

/// The line that position `pos` lies on. Lines count from 1, and a line
/// feed belongs to the line it ends.
pub open spec fn line_at(s: Seq<char>, pos: int) -> nat {
    1 + newlines(s, pos)
}

/// There are no more line feeds before a position than characters.
pub proof fn lemma_newlines_bound(s: Seq<char>, pos: int)
    requires
        0 <= pos <= s.len(),
    ensures
        newlines(s, pos) <= pos,
    decreases pos,
{
    if pos > 0 {
        lemma_newlines_bound(s, pos - 1);
    }
}

/// Across a stretch without line feeds the line stays the same.
pub proof fn lemma_same_line(s: Seq<char>, from: int, to: int)
    requires
        0 <= from <= to <= s.len(),
        forall|j: int| from <= j < to ==> #[trigger] s[j] != '\n',
    ensures
        newlines(s, to) == newlines(s, from),
    decreases to - from,
{
    if from < to {
        lemma_same_line(s, from, to - 1);
    }
}

} // verus!
