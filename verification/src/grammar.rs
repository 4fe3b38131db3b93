//! The grammar of an sshd line in an authentication log.
//!
//! A line is of interest when it carries the tag that sshd writes in front of
//! its messages, `sshd[<pid>]:`. What follows the tag is the message body; how
//! the body opens says what kind of event it reports, and the first dotted
//! quad in it is the peer's address.
//!
//! Each part of the grammar is given twice: as a spec function over
//! `Seq<char>`, and as an executable matcher over `&[char]` whose contract is
//! that spec function.

use vstd::prelude::*;
use crate::text::{
    CharClass, has_prefix_at, is_digit, is_leftmost, leftmost, lemma_leftmost,
    lemma_leftmost_absent, lemma_leftmost_found, lemma_run_end, lemma_run_end_unique,
    lemma_run_end_window, line_break_free_from, prefix_at, run_end, scan_run, single_line_from,
    to_chars,
};

verus! {

/// The opening of the tag, up to the process id.
pub open spec fn tag_open() -> Seq<char> {
    "sshd["@
}

/// The closing of the tag, after the process id.
pub open spec fn tag_close() -> Seq<char> {
    "]:"@
}

/// Where the tag that starts at `at` ends, if one starts there: the opening,
/// one or more digits, and the closing.
pub open spec fn tag_end_at(text: Seq<char>, at: int) -> Option<int> {
    let pid = at + tag_open().len();
    let close = run_end(text, pid, CharClass::Digit);
    if has_prefix_at(text, at, tag_open()) && pid < close && has_prefix_at(
        text,
        close,
        tag_close(),
    ) {
        Some(close + tag_close().len())
    } else {
        None
    }
}

/// A tag starts at `at`.
pub open spec fn tag_at(text: Seq<char>) -> spec_fn(int) -> bool {
    |at: int| tag_end_at(text, at) is Some
}

/// The line carries the sshd tag somewhere.
pub open spec fn has_tag(text: Seq<char>) -> bool {
    exists|at: int| 0 <= at < text.len() && #[trigger] tag_at(text)(at)
}

/// Where the body starts that belongs to a tag at `at`. The tag must be
/// followed by at least one space and then by at least one more character,
/// and no line break may follow. The body starts after the spaces; where only
/// spaces follow the tag, the last of them is the body.
pub open spec fn body_start_at(text: Seq<char>, at: int) -> Option<int> {
    match tag_end_at(text, at) {
        None => None,
        Some(gap) => {
            let word = run_end(text, gap, CharClass::Space);
            let start = if word < text.len() {
                word
            } else {
                word - 1
            };
            if gap < start && single_line_from(text, start) {
                Some(start)
            } else {
                None
            }
        },
    }
}

/// A tag with a body starts at `at`.
pub open spec fn body_at(text: Seq<char>) -> spec_fn(int) -> bool {
    |at: int| body_start_at(text, at) is Some
}

/// Where the message body of the line starts: the body of the leftmost tag
/// that has one.
pub open spec fn body_start(text: Seq<char>) -> Option<int> {
    match leftmost(text.len() as int, body_at(text)) {
        Some(at) => body_start_at(text, at),
        None => None,
    }
}

/// The message body of the line: everything from `body_start` on.
pub open spec fn message_body(text: Seq<char>) -> Option<Seq<char>> {
    match body_start(text) {
        Some(start) => Some(text.subrange(start, text.len() as int)),
        None => None,
    }
}

/// Finds the end of the tag that starts at `at`.
pub fn find_tag_end(text: &[char], at: usize) -> (r: Option<usize>)
    ensures
        r matches Some(end) ==> tag_end_at(text@, at as int) == Some(end as int) && at < end
            <= text.len(),
        r is None ==> tag_end_at(text@, at as int) is None,
{
    let open = to_chars("sshd[");
    let close = to_chars("]:");
    if !prefix_at(text, at, open.as_slice()) {
        return None;
    }
    let len = text.len();
    assert(at + open@.len() <= len);
    let pid = at + open.len();
    let stop = scan_run(text, pid, CharClass::Digit);
    if pid < stop && prefix_at(text, stop, close.as_slice()) {
        assert(stop + close@.len() <= len);
        Some(stop + close.len())
    } else {
        None
    }
}

/// Tests whether the line carries the sshd tag.
pub fn find_tag(text: &[char]) -> (r: bool)
    ensures
        r == has_tag(text@),
{
    let mut at: usize = 0;
    while at < text.len()
        invariant
            forall|p: int| 0 <= p < at ==> !#[trigger] tag_at(text@)(p),
        decreases text.len() - at,
    {
        if find_tag_end(text, at).is_some() {
            assert(tag_at(text@)(at as int));
            return true;
        }
        at += 1;
    }
    false
}

/// Finds where the body starts that belongs to a tag at `at`.
pub fn find_body_start_at(text: &[char], at: usize) -> (r: Option<usize>)
    ensures
        r matches Some(start) ==> body_start_at(text@, at as int) == Some(start as int) && start
            < text.len(),
        r is None ==> body_start_at(text@, at as int) is None,
{
    match find_tag_end(text, at) {
        None => None,
        Some(gap) => {
            let word = scan_run(text, gap, CharClass::Space);
            let start = if word < text.len() {
                word
            } else {
                word - 1
            };
            if gap < start && line_break_free_from(text, start) {
                Some(start)
            } else {
                None
            }
        },
    }
}

/// Finds where the message body of the line starts.
pub fn find_body_start(text: &[char]) -> (r: Option<usize>)
    ensures
        r matches Some(start) ==> body_start(text@) == Some(start as int) && start < text.len(),
        r is None ==> body_start(text@) is None,
{
    let mut at: usize = 0;
    while at < text.len()
        invariant
            forall|p: int| 0 <= p < at ==> !#[trigger] body_at(text@)(p),
        decreases text.len() - at,
    {
        let found = find_body_start_at(text, at);
        if found.is_some() {
            proof {
                assert(body_at(text@)(at as int));
                assert(is_leftmost(text@.len() as int, at as int, body_at(text@)));
                lemma_leftmost_found(text@.len() as int, at as int, body_at(text@));
            }
            return found;
        }
        at += 1;
    }
    proof {
        lemma_leftmost_absent(text@.len() as int, body_at(text@));
    }
    None
}

/// What an sshd message reports.
#[derive(Clone, Copy, Debug, PartialEq, Eq, Hash)]
pub enum EventKind {
    /// A login was accepted.
    Accepted,
    /// A logged-in user disconnected.
    GoodDisconnect,
    /// A peer disconnected without having logged in.
    BadDisconnect,
    /// A connection was closed, or was reset by a user the host does not know.
    InvalidUser,
}

/// `pat` stands at `at`, and at least one more character follows it, with no
/// line break up to the end of the text.
pub open spec fn continues_at(text: Seq<char>, at: int, pat: Seq<char>) -> bool {
    &&& has_prefix_at(text, at, pat)
    &&& at + pat.len() < text.len()
    &&& single_line_from(text, at + pat.len())
}

/// How the body of an accepted login opens.
pub open spec fn accepted_opening() -> Seq<char> {
    "Accepted"@
}

/// How the body opens when a logged-in user disconnects.
pub open spec fn good_disconnect_opening() -> Seq<char> {
    "Disconnected from user"@
}

/// How the body opens on any disconnect.
pub open spec fn bad_disconnect_opening() -> Seq<char> {
    "Disconnected from"@
}

/// How the body opens when a connection was closed.
pub open spec fn closed_opening() -> Seq<char> {
    "Connection closed"@
}

/// The phrase that marks a reset by an unknown user, anywhere in the body.
pub open spec fn reset_phrase() -> Seq<char> {
    "reset by invalid user"@
}

/// The body reports an accepted login.
pub open spec fn is_accepted(body: Seq<char>) -> bool {
    continues_at(body, 0, accepted_opening())
}

/// The body reports that a logged-in user disconnected.
pub open spec fn is_good_disconnect(body: Seq<char>) -> bool {
    continues_at(body, 0, good_disconnect_opening())
}

/// The body reports a disconnect. Every body that `is_good_disconnect` accepts
/// is accepted here too; `kind_of` asks for the other first.
pub open spec fn is_bad_disconnect(body: Seq<char>) -> bool {
    continues_at(body, 0, bad_disconnect_opening())
}

/// The reset phrase stands at `at` and the body goes on after it.
pub open spec fn reset_at(body: Seq<char>) -> spec_fn(int) -> bool {
    |at: int| continues_at(body, at, reset_phrase())
}

/// The body opens with a closed connection, or holds the reset phrase
/// somewhere with more text after it. The first alone is enough: nothing in
/// the body need speak of an invalid user.
pub open spec fn is_invalid_user(body: Seq<char>) -> bool {
    has_prefix_at(body, 0, closed_opening()) || exists|at: int|
        0 <= at < body.len() && #[trigger] reset_at(body)(at)
}

/// The kind of event the body reports: the first of the four patterns that
/// accepts it, in the order accepted login, good disconnect, bad disconnect,
/// invalid user.
pub open spec fn kind_of(body: Seq<char>) -> Option<EventKind> {
    if is_accepted(body) {
        Some(EventKind::Accepted)
    } else if is_good_disconnect(body) {
        Some(EventKind::GoodDisconnect)
    } else if is_bad_disconnect(body) {
        Some(EventKind::BadDisconnect)
    } else if is_invalid_user(body) {
        Some(EventKind::InvalidUser)
    } else {
        None
    }
}

/// Tests whether `pat` stands at `at` with more text after it on the same line.
pub fn continues(text: &[char], at: usize, pat: &[char]) -> (r: bool)
    ensures
        r == continues_at(text@, at as int, pat@),
{
    if !prefix_at(text, at, pat) {
        return false;
    }
    let len = text.len();
    assert(at + pat@.len() <= len);
    let rest = at + pat.len();
    rest < len && line_break_free_from(text, rest)
}

/// Tests whether the body reports an accepted login.
pub fn match_accepted(body: &[char]) -> (r: bool)
    ensures
        r == is_accepted(body@),
{
    let opening = to_chars("Accepted");
    continues(body, 0, opening.as_slice())
}

/// Tests whether the body reports that a logged-in user disconnected.
pub fn match_good_disconnect(body: &[char]) -> (r: bool)
    ensures
        r == is_good_disconnect(body@),
{
    let opening = to_chars("Disconnected from user");
    continues(body, 0, opening.as_slice())
}

/// Tests whether the body reports a disconnect.
pub fn match_bad_disconnect(body: &[char]) -> (r: bool)
    ensures
        r == is_bad_disconnect(body@),
{
    let opening = to_chars("Disconnected from");
    continues(body, 0, opening.as_slice())
}

/// Tests whether the body reports a closed connection or a reset by an
/// unknown user.
pub fn match_invalid_user(body: &[char]) -> (r: bool)
    ensures
        r == is_invalid_user(body@),
{
    let closed = to_chars("Connection closed");
    if prefix_at(body, 0, closed.as_slice()) {
        return true;
    }
    let phrase = to_chars("reset by invalid user");
    let mut at: usize = 0;
    while at < body.len()
        invariant
            phrase@ == reset_phrase(),
            forall|p: int| 0 <= p < at ==> !#[trigger] reset_at(body@)(p),
        decreases body.len() - at,
    {
        if continues(body, at, phrase.as_slice()) {
            assert(reset_at(body@)(at as int));
            return true;
        }
        at += 1;
    }
    false
}

/// Names the kind of event the body reports.
pub fn kind(body: &[char]) -> (r: Option<EventKind>)
    ensures
        r == kind_of(body@),
{
    if match_accepted(body) {
        Some(EventKind::Accepted)
    } else if match_good_disconnect(body) {
        Some(EventKind::GoodDisconnect)
    } else if match_bad_disconnect(body) {
        Some(EventKind::BadDisconnect)
    } else if match_invalid_user(body) {
        Some(EventKind::InvalidUser)
    } else {
        None
    }
}

/// Where a group of the address ends that starts at `at` and is followed by
/// a dot: one to three digits, then the dot. The position is the one after
/// the dot.
pub open spec fn dotted_group_end(text: Seq<char>, at: int) -> Option<int> {
    let stop = run_end(text, at, CharClass::Digit);
    if at < stop <= at + 3 && stop < text.len() && text[stop] == '.' {
        Some(stop + 1)
    } else {
        None
    }
}

/// Where the last group of the address ends that starts at `at`: after the
/// digits that stand there, of which it takes three at most.
pub open spec fn last_group_end(text: Seq<char>, at: int) -> Option<int> {
    let stop = run_end(text, at, CharClass::Digit);
    if at < stop {
        Some(if stop <= at + 3 {
            stop
        } else {
            at + 3
        })
    } else {
        None
    }
}

/// Where the dotted quad ends that starts at `at`, if one starts there: three
/// groups followed by a dot each, and a last group.
pub open spec fn quad_end_at(text: Seq<char>, at: int) -> Option<int> {
    match dotted_group_end(text, at) {
        None => None,
        Some(second) => match dotted_group_end(text, second) {
            None => None,
            Some(third) => match dotted_group_end(text, third) {
                None => None,
                Some(fourth) => last_group_end(text, fourth),
            },
        },
    }
}

/// A dotted quad starts at `at`.
pub open spec fn quad_at(text: Seq<char>) -> spec_fn(int) -> bool {
    |at: int| quad_end_at(text, at) is Some
}

/// The bounds of the first dotted quad in the text: the leftmost position at
/// which one starts, and where that one ends.
pub open spec fn first_quad(text: Seq<char>) -> Option<(int, int)> {
    match leftmost(text.len() as int, quad_at(text)) {
        Some(at) => match quad_end_at(text, at) {
            Some(end) => Some((at, end)),
            None => None,
        },
        None => None,
    }
}

/// The first dotted quad in the text.
pub open spec fn first_address(text: Seq<char>) -> Option<Seq<char>> {
    match first_quad(text) {
        Some((at, end)) => Some(text.subrange(at, end)),
        None => None,
    }
}

/// The whole text is one dotted quad.
pub open spec fn is_dotted_quad(text: Seq<char>) -> bool {
    quad_end_at(text, 0) == Some(text.len() as int)
}

/// Finds the end of a group that starts at `at` and is followed by a dot.
pub fn find_dotted_group_end(text: &[char], at: usize) -> (r: Option<usize>)
    ensures
        r matches Some(end) ==> dotted_group_end(text@, at as int) == Some(end as int) && at < end
            <= text.len(),
        r is None ==> dotted_group_end(text@, at as int) is None,
{
    let stop = scan_run(text, at, CharClass::Digit);
    if at < stop && stop - at <= 3 && stop < text.len() && text[stop] == '.' {
        Some(stop + 1)
    } else {
        None
    }
}

/// Finds the end of the last group of an address, which starts at `at`.
pub fn find_last_group_end(text: &[char], at: usize) -> (r: Option<usize>)
    ensures
        r matches Some(end) ==> last_group_end(text@, at as int) == Some(end as int) && at < end
            <= text.len(),
        r is None ==> last_group_end(text@, at as int) is None,
{
    let stop = scan_run(text, at, CharClass::Digit);
    if at < stop {
        if stop - at <= 3 {
            Some(stop)
        } else {
            Some(at + 3)
        }
    } else {
        None
    }
}

/// Finds the end of the dotted quad that starts at `at`.
pub fn find_quad_end(text: &[char], at: usize) -> (r: Option<usize>)
    ensures
        r matches Some(end) ==> quad_end_at(text@, at as int) == Some(end as int) && at < end
            <= text.len(),
        r is None ==> quad_end_at(text@, at as int) is None,
{
    let second = match find_dotted_group_end(text, at) {
        Some(next) => next,
        None => { return None; },
    };
    let third = match find_dotted_group_end(text, second) {
        Some(next) => next,
        None => { return None; },
    };
    let fourth = match find_dotted_group_end(text, third) {
        Some(next) => next,
        None => { return None; },
    };
    find_last_group_end(text, fourth)
}

/// Finds the bounds of the first dotted quad in the text.
pub fn find_quad(text: &[char]) -> (r: Option<(usize, usize)>)
    ensures
        r matches Some((at, end)) ==> first_quad(text@) == Some((at as int, end as int)) && at
            < end <= text.len(),
        r is None ==> first_quad(text@) is None,
{
    let mut at: usize = 0;
    while at < text.len()
        invariant
            forall|p: int| 0 <= p < at ==> !#[trigger] quad_at(text@)(p),
        decreases text.len() - at,
    {
        match find_quad_end(text, at) {
            Some(end) => {
                proof {
                    assert(quad_at(text@)(at as int));
                    assert(is_leftmost(text@.len() as int, at as int, quad_at(text@)));
                    lemma_leftmost_found(text@.len() as int, at as int, quad_at(text@));
                }
                return Some((at, end));
            },
            None => {},
        }
        at += 1;
    }
    proof {
        lemma_leftmost_absent(text@.len() as int, quad_at(text@));
    }
    None
}

/// Tests whether the whole text is one dotted quad.
pub fn match_dotted_quad(text: &[char]) -> (r: bool)
    ensures
        r == is_dotted_quad(text@),
{
    match find_quad_end(text, 0) {
        Some(end) => end == text.len(),
        None => false,
    }
}

/// What a tag is, said without the run: the opening, then digits, one at
/// least and nothing but digits, then the closing.
pub proof fn lemma_tag_shape(text: Seq<char>, at: int, end: int)
    requires
        0 <= at,
    ensures
        tag_end_at(text, at) == Some(end) <==> {
            let pid = at + tag_open().len();
            let close = end - tag_close().len();
            &&& has_prefix_at(text, at, tag_open())
            &&& pid < close
            &&& forall|k: int| pid <= k < close ==> is_digit(#[trigger] text[k])
            &&& has_prefix_at(text, close, tag_close())
        },
{
    reveal_strlit("]:");
    let pid = at + tag_open().len();
    let close = end - tag_close().len();
    if has_prefix_at(text, at, tag_open()) {
        lemma_run_end(text, pid, CharClass::Digit);
        if pid < close && has_prefix_at(text, close, tag_close()) && (forall|k: int|
            pid <= k < close ==> is_digit(#[trigger] text[k])) {
            assert(text[close + 0] == tag_close()[0]);
            lemma_run_end_unique(text, pid, close, CharClass::Digit);
        }
    }
}

/// What a body is, said without the run: it starts after the tag and a
/// stretch of spaces, one at least; it is not empty and holds no line break;
/// and the stretch of spaces is as long as it can be with a body left.
pub proof fn lemma_body_shape(text: Seq<char>, at: int)
    requires
        0 <= at,
    ensures
        body_start_at(text, at) matches Some(start) ==> (tag_end_at(text, at) matches Some(gap)
            && gap < start < text.len() && (forall|k: int|
            gap <= k < start ==> #[trigger] text[k] == ' ') && single_line_from(text, start) && (
        text[start] != ' ' || start + 1 == text.len())),
{
    if let Some(gap) = tag_end_at(text, at) {
        lemma_run_end(text, at + tag_open().len(), CharClass::Digit);
        lemma_run_end(text, gap, CharClass::Space);
    }
}

/// `text` holds digits from `from` up to `to`, one at least and three at
/// most.
pub open spec fn is_group(text: Seq<char>, from: int, to: int) -> bool {
    &&& 0 <= from < to <= text.len()
    &&& to <= from + 3
    &&& forall|k: int| from <= k < to ==> is_digit(#[trigger] text[k])
}

/// What a dotted quad is, said without the run: four groups of digits with
/// a dot after each of the first three. The last group takes every digit it
/// can have.
pub proof fn lemma_quad_shape(text: Seq<char>, at: int, end: int)
    requires
        0 <= at,
        quad_end_at(text, at) == Some(end),
    ensures
        ({
            let second = dotted_group_end(text, at)->0;
            let third = dotted_group_end(text, second)->0;
            let fourth = dotted_group_end(text, third)->0;
            &&& is_group(text, at, second - 1) && text[second - 1] == '.'
            &&& is_group(text, second, third - 1) && text[third - 1] == '.'
            &&& is_group(text, third, fourth - 1) && text[fourth - 1] == '.'
            &&& is_group(text, fourth, end)
            &&& end < text.len() && is_digit(text[end]) ==> end == fourth + 3
        }),
{
    let second = dotted_group_end(text, at)->0;
    let third = dotted_group_end(text, second)->0;
    let fourth = dotted_group_end(text, third)->0;
    lemma_run_end(text, at, CharClass::Digit);
    lemma_run_end(text, second, CharClass::Digit);
    lemma_run_end(text, third, CharClass::Digit);
    lemma_run_end(text, fourth, CharClass::Digit);
}

/// A dotted quad cut out of a text is a dotted quad by itself.
pub proof fn lemma_quad_stands_alone(text: Seq<char>, at: int, end: int)
    requires
        0 <= at,
        quad_end_at(text, at) == Some(end),
    ensures
        at < end <= text.len(),
        is_dotted_quad(text.subrange(at, end)),
{
    let second = dotted_group_end(text, at)->0;
    let third = dotted_group_end(text, second)->0;
    let fourth = dotted_group_end(text, third)->0;
    lemma_run_end(text, at, CharClass::Digit);
    lemma_run_end(text, second, CharClass::Digit);
    lemma_run_end(text, third, CharClass::Digit);
    lemma_run_end(text, fourth, CharClass::Digit);
    let quad = text.subrange(at, end);
    lemma_run_end_window(text, at, end, at, CharClass::Digit);
    lemma_run_end_window(text, at, end, second, CharClass::Digit);
    lemma_run_end_window(text, at, end, third, CharClass::Digit);
    lemma_run_end_window(text, at, end, fourth, CharClass::Digit);
    assert(quad[second - 1 - at] == text[second - 1]);
    assert(quad[third - 1 - at] == text[third - 1]);
    assert(quad[fourth - 1 - at] == text[fourth - 1]);
    assert(dotted_group_end(quad, 0) == Some(second - at));
    assert(dotted_group_end(quad, second - at) == Some(third - at));
    assert(dotted_group_end(quad, third - at) == Some(fourth - at));
    assert(last_group_end(quad, fourth - at) == Some(end - at));
}

/// The first address of a text is a dotted quad, and it is cut out of the text.
pub proof fn lemma_first_address(text: Seq<char>)
    ensures
        first_quad(text) matches Some((at, end)) ==> 0 <= at < end <= text.len()
            && first_address(text) == Some(text.subrange(at, end)) && is_dotted_quad(
            text.subrange(at, end),
        ),
        first_address(text) matches Some(ip) ==> is_dotted_quad(ip),
        first_address(text) is Some <==> exists|at: int|
            0 <= at < text.len() && #[trigger] quad_at(text)(at),
{
    lemma_leftmost(text.len() as int, quad_at(text));
    if let Some((at, end)) = first_quad(text) {
        lemma_quad_stands_alone(text, at, end);
    }
}

} // verus!
