//! Character-level building blocks shared by the line grammar.
//!
//! Every matcher in this crate is stated over `Seq<char>`, the view of a
//! string, and implemented over a slice of `char`. The functions here are the
//! vocabulary the grammar is written in: literal prefixes, maximal runs of a
//! character class, and "the rest holds no line break".

use vstd::prelude::*;

verus! {

/// An ASCII decimal digit.
pub open spec fn is_digit(c: char) -> bool {
    '0' <= c && c <= '9'
}

/// A class of characters that a run may be made of.
#[derive(Clone, Copy, Debug, PartialEq, Eq)]
pub enum CharClass {
    /// ASCII decimal digits.
    Digit,
    /// The space character, and nothing else.
    Space,
}

impl CharClass {
    /// Whether `c` belongs to the class.
    pub open spec fn holds(self, c: char) -> bool {
        match self {
            CharClass::Digit => is_digit(c),
            CharClass::Space => c == ' ',
        }
    }

    /// Executable membership test.
    pub fn test(self, c: char) -> (r: bool)
        ensures
            r == self.holds(c),
    {
        match self {
            CharClass::Digit => '0' <= c && c <= '9',
            CharClass::Space => c == ' ',
        }
    }
}

/// `pat` stands in `text` at position `at`.
pub open spec fn has_prefix_at(text: Seq<char>, at: int, pat: Seq<char>) -> bool {
    &&& 0 <= at
    &&& at + pat.len() <= text.len()
    &&& forall|k: int| 0 <= k < pat.len() ==> text[at + k] == #[trigger] pat[k]
}

/// No line break occurs in `text` at or after position `from`.
pub open spec fn single_line_from(text: Seq<char>, from: int) -> bool {
    forall|k: int| from <= k < text.len() ==> #[trigger] text[k] != '\n'
}

/// The end of the longest run of `class` characters that starts at `from`:
/// the first position at or after `from` that holds no character of the
/// class, or the length of `text`.
pub open spec fn run_end(text: Seq<char>, from: int, class: CharClass) -> int
    decreases text.len() - from,
{
    if 0 <= from < text.len() && class.holds(text[from]) {
        run_end(text, from + 1, class)
    } else {
        from
    }
}

/// What `run_end` returns, said without recursion: everything before it is in
/// the class, and what stands at it is not.
pub proof fn lemma_run_end(text: Seq<char>, from: int, class: CharClass)
    requires
        0 <= from <= text.len(),
    ensures
        from <= run_end(text, from, class) <= text.len(),
        forall|k: int| from <= k < run_end(text, from, class) ==> class.holds(#[trigger] text[k]),
        run_end(text, from, class) < text.len() ==> !class.holds(
            text[run_end(text, from, class)],
        ),
    decreases text.len() - from,
{
    if from < text.len() && class.holds(text[from]) {
        lemma_run_end(text, from + 1, class);
    }
}

/// A run is pinned down by two facts: if everything in `[from, end)`
/// is in the class and the run cannot go on at `end`, then `end` is where
/// the run ends.
pub proof fn lemma_run_end_unique(text: Seq<char>, from: int, end: int, class: CharClass)
    requires
        0 <= from <= end <= text.len(),
        forall|k: int| from <= k < end ==> class.holds(#[trigger] text[k]),
        end < text.len() ==> !class.holds(text[end]),
    ensures
        run_end(text, from, class) == end,
    decreases end - from,
{
    if from < end {
        assert(class.holds(text[from]));
        lemma_run_end_unique(text, from + 1, end, class);
    }
}

/// A run seen through a window of the text is the run of the whole text,
/// cut off where the window ends.
pub proof fn lemma_run_end_window(text: Seq<char>, lo: int, hi: int, from: int, class: CharClass)
    requires
        0 <= lo <= from <= hi <= text.len(),
    ensures
        run_end(text.subrange(lo, hi), from - lo, class) == if run_end(text, from, class) <= hi {
            run_end(text, from, class) - lo
        } else {
            hi - lo
        },
    decreases hi - from,
{
    let window = text.subrange(lo, hi);
    lemma_run_end(text, from, class);
    if from < hi {
        assert(window[from - lo] == text[from]);
        if class.holds(text[from]) {
            lemma_run_end_window(text, lo, hi, from + 1, class);
        }
    }
}

/// The characters of a string slice, in order.
pub fn to_chars(s: &str) -> (v: Vec<char>)
    ensures
        v@ == s@,
{
    let mut v: Vec<char> = Vec::new();
    for c in it: s.chars()
        invariant
            v@ == it.seq().take(it.index() as int),
    {
        v.push(c);
    }
    v
}

/// Tests whether `pat` stands in `text` at position `at`.
pub fn prefix_at(text: &[char], at: usize, pat: &[char]) -> (r: bool)
    ensures
        r == has_prefix_at(text@, at as int, pat@),
{
    if at > text.len() || pat.len() > text.len() - at {
        return false;
    }
    let mut k: usize = 0;
    while k < pat.len()
        invariant
            k <= pat.len(),
            at + pat.len() <= text.len(),
            forall|j: int| 0 <= j < k ==> text@[at + j] == #[trigger] pat@[j],
        decreases pat.len() - k,
    {
        if text[at + k] != pat[k] {
            return false;
        }
        k += 1;
    }
    true
}

/// Tests whether `text` is free of line breaks from position `from` on.
pub fn line_break_free_from(text: &[char], from: usize) -> (r: bool)
    ensures
        r == single_line_from(text@, from as int),
{
    let mut k: usize = from;
    while k < text.len()
        invariant
            from <= k,
            forall|j: int| from <= j < k && j < text.len() ==> #[trigger] text@[j] != '\n',
        decreases text.len() - k,
    {
        if text[k] == '\n' {
            return false;
        }
        k += 1;
    }
    true
}

/// Finds the end of the longest run of `class` characters starting at `from`.
pub fn scan_run(text: &[char], from: usize, class: CharClass) -> (end: usize)
    ensures
        end == run_end(text@, from as int, class),
        from <= end,
        from <= text.len() ==> end <= text.len(),
{
    let mut k: usize = from;
    while k < text.len() && class.test(text[k])
        invariant
            from <= k,
            from <= text.len() ==> k <= text.len(),
            run_end(text@, from as int, class) == run_end(text@, k as int, class),
        decreases text.len() - k,
    {
        k += 1;
    }
    k
}

/// The least position below `len` at which `hit` holds, if there is one.
pub open spec fn leftmost(len: int, hit: spec_fn(int) -> bool) -> Option<int> {
    if exists|p: int| 0 <= p < len && #[trigger] hit(p) {
        Some(choose|p: int| is_leftmost(len, p, hit))
    } else {
        None
    }
}

/// `hit` holds at `p`, and at no position before `p`.
pub open spec fn is_leftmost(len: int, p: int, hit: spec_fn(int) -> bool) -> bool {
    &&& 0 <= p < len
    &&& hit(p)
    &&& forall|q: int| 0 <= q < p ==> !#[trigger] hit(q)
}

/// A position that is leftmost is the one `leftmost` names.
pub proof fn lemma_leftmost_found(len: int, p: int, hit: spec_fn(int) -> bool)
    requires
        is_leftmost(len, p, hit),
    ensures
        leftmost(len, hit) == Some(p),
{
    let c = choose|c: int| is_leftmost(len, c, hit);
    assert(is_leftmost(len, c, hit));
    if c < p {
        assert(!hit(c));
    } else if p < c {
        assert(!hit(p));
    }
}

/// Where `hit` holds nowhere below `len`, `leftmost` names nothing.
pub proof fn lemma_leftmost_absent(len: int, hit: spec_fn(int) -> bool)
    requires
        forall|p: int| 0 <= p < len ==> !#[trigger] hit(p),
    ensures
        leftmost(len, hit) is None,
{
}

/// Whatever `leftmost` names is leftmost; it names something exactly when
/// `hit` holds somewhere below `len`.
pub proof fn lemma_leftmost(len: int, hit: spec_fn(int) -> bool)
    ensures
        leftmost(len, hit) matches Some(p) ==> is_leftmost(len, p, hit),
        leftmost(len, hit) is Some <==> exists|p: int| 0 <= p < len && #[trigger] hit(p),
    decreases len,
{
    if exists|p: int| 0 <= p < len && #[trigger] hit(p) {
        let w = choose|p: int| 0 <= p < len && #[trigger] hit(p);
        lemma_least_hit(len, w, hit);
    }
}

/// Below any position where `hit` holds there is a leftmost one.
proof fn lemma_least_hit(len: int, w: int, hit: spec_fn(int) -> bool)
    requires
        0 <= w < len,
        hit(w),
    ensures
        exists|p: int| is_leftmost(len, p, hit),
    decreases w,
{
    if exists|q: int| 0 <= q < w && #[trigger] hit(q) {
        let q = choose|q: int| 0 <= q < w && #[trigger] hit(q);
        lemma_least_hit(len, q, hit);
    } else {
        assert(is_leftmost(len, w, hit));
    }
}

} // verus!
