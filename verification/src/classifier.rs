//! From a raw log line to a typed session event.
//!
//! `classify` is the whole classifier. The functions before it are its
//! stages, each usable alone: the test for the sshd tag, the cut that yields
//! the message body, the four tests on how the body opens, and the search for
//! the peer's address.

use vstd::prelude::*;
use vstd::slice::slice_subrange;
use vstd::string::*;
use crate::grammar::{
    accepted_opening, bad_disconnect_opening, body_at, body_start, body_start_at, closed_opening,
    find_body_start, find_quad, find_tag, first_address, first_quad, good_disconnect_opening,
    has_tag, is_accepted, is_bad_disconnect, is_dotted_quad, is_good_disconnect, is_invalid_user,
    kind, kind_of, lemma_first_address, match_accepted, match_bad_disconnect, match_dotted_quad,
    match_good_disconnect, match_invalid_user, message_body, tag_at, tag_end_at, EventKind,
};
use crate::text::{
    has_prefix_at, is_leftmost, leftmost, lemma_leftmost, lemma_leftmost_found, to_chars,
};

verus! {

/// What an `SshEvent` stands for: the kind of event, and the peer's address
/// as it was written in the line.
pub struct EventModel {
    pub kind: EventKind,
    pub ip: Seq<char>,
}

/// One SSH session event, as read from one log line. The address it carries
/// is always a dotted quad.
#[derive(Debug, PartialEq, Eq)]
pub struct SshEvent {
    kind: EventKind,
    ip: String,
}

impl View for SshEvent {
    type V = EventModel;

    closed spec fn view(&self) -> EventModel {
        EventModel { kind: self.kind, ip: self.ip@ }
    }
}

impl Clone for SshEvent {
    fn clone(&self) -> (r: Self)
        ensures
            r@ == self@,
    {
        proof {
            use_type_invariant(self);
        }
        SshEvent { kind: self.kind, ip: self.ip.clone() }
    }
}

impl SshEvent {
    #[verifier::type_invariant]
    spec fn shaped(&self) -> bool {
        is_dotted_quad(self.ip@)
    }

    /// An event of the given kind from the given address. The address must be
    /// a dotted quad, and nothing else.
    pub fn new(kind: EventKind, ip: &str) -> (r: Option<SshEvent>)
        ensures
            r is Some <==> is_dotted_quad(ip@),
            r matches Some(event) ==> event@ == (EventModel { kind, ip: ip@ }),
    {
        let text = to_chars(ip);
        if match_dotted_quad(text.as_slice()) {
            Some(SshEvent { kind, ip: ip.to_owned() })
        } else {
            None
        }
    }

    /// The kind of the event.
    pub fn kind(&self) -> (r: EventKind)
        ensures
            r == self@.kind,
    {
        self.kind
    }

    /// The peer's address.
    pub fn ip(&self) -> (r: &str)
        ensures
            r@ == self@.ip,
            is_dotted_quad(r@),
    {
        proof {
            use_type_invariant(self);
        }
        self.ip.as_str()
    }
}

/// What `classify` returns for a line: the line must carry the tag with a
/// body after it, the body must be of one of the four kinds, and it must hold
/// an address. The event is then that kind with the first address of the
/// body. A line that fails any of the three yields nothing.
pub open spec fn classify_spec(line: Seq<char>) -> Option<EventModel> {
    match message_body(line) {
        None => None,
        Some(body) => match (kind_of(body), first_address(body)) {
            (Some(kind), Some(ip)) => Some(EventModel { kind, ip }),
            _ => None,
        },
    }
}

/// `r` is what the classifier owes for `line`: the contract of `classify`,
/// as one predicate.
pub open spec fn classifies(line: Seq<char>, r: Option<SshEvent>) -> bool {
    match r {
        Some(event) => classify_spec(line) == Some(event@),
        None => classify_spec(line) is None,
    }
}

/// Tests whether the line carries the sshd tag.
pub fn is_log_from_sshd(line: &str) -> (r: bool)
    ensures
        r == has_tag(line@),
{
    let text = to_chars(line);
    find_tag(text.as_slice())
}

/// Cuts the message body out of the line.
pub fn get_logline<'a>(line: &'a str) -> (r: Option<&'a str>)
    ensures
        r matches Some(body) ==> message_body(line@) == Some(body@),
        r is None ==> message_body(line@) is None,
{
    let text = to_chars(line);
    match find_body_start(text.as_slice()) {
        Some(start) => Some(line.substring_char(start, text.len())),
        None => None,
    }
}

/// Tests whether the body reports an accepted login.
pub fn is_log_accepted(body: &str) -> (r: bool)
    ensures
        r == is_accepted(body@),
{
    let text = to_chars(body);
    match_accepted(text.as_slice())
}

/// Tests whether the body reports that a logged-in user disconnected.
pub fn is_log_good_disconnect(body: &str) -> (r: bool)
    ensures
        r == is_good_disconnect(body@),
{
    let text = to_chars(body);
    match_good_disconnect(text.as_slice())
}

/// Tests whether the body reports a disconnect of any sort.
pub fn is_log_bad_disconnect(body: &str) -> (r: bool)
    ensures
        r == is_bad_disconnect(body@),
{
    let text = to_chars(body);
    match_bad_disconnect(text.as_slice())
}

/// Tests whether the body reports a closed connection or a reset by an
/// unknown user.
pub fn is_log_invalid_user(body: &str) -> (r: bool)
    ensures
        r == is_invalid_user(body@),
{
    let text = to_chars(body);
    match_invalid_user(text.as_slice())
}

/// Finds the first dotted quad in the body.
pub fn get_ipaddr<'a>(body: &'a str) -> (r: Option<&'a str>)
    ensures
        r matches Some(ip) ==> first_address(body@) == Some(ip@),
        r is None ==> first_address(body@) is None,
{
    let text = to_chars(body);
    match find_quad(text.as_slice()) {
        Some((at, end)) => Some(body.substring_char(at, end)),
        None => None,
    }
}

/// Reads one log line. Lines that are not sshd's, that report nothing of
/// interest, or that name no address are dropped.
pub fn classify(line: &str) -> (r: Option<SshEvent>)
    ensures
        r matches Some(event) ==> classify_spec(line@) == Some(event@),
        r is None ==> classify_spec(line@) is None,
        classifies(line@, r),
{
    let text = to_chars(line);
    let start = match find_body_start(text.as_slice()) {
        Some(start) => start,
        None => { return None; },
    };
    let body = slice_subrange(text.as_slice(), start, text.len());
    let kind = match kind(body) {
        Some(kind) => kind,
        None => { return None; },
    };
    let (at, end) = match find_quad(body) {
        Some(bounds) => bounds,
        None => { return None; },
    };
    let ip = line.substring_char(start + at, start + end);
    proof {
        lemma_first_address(body@);
        assert(ip@ == body@.subrange(at as int, end as int));
    }
    Some(SshEvent { kind, ip: ip.to_owned() })
}

/// A line that does not carry the sshd tag yields no event.
pub proof fn lemma_untagged_line_is_dropped(line: Seq<char>)
    requires
        !has_tag(line),
    ensures
        message_body(line) is None,
        classify_spec(line) is None,
{
    lemma_leftmost(line.len() as int, body_at(line));
    if let Some(at) = leftmost(line.len() as int, body_at(line)) {
        assert(body_at(line)(at));
        assert(tag_at(line)(at));
    }
}

/// Where no tag starts before position `at` and the tag at `at` has a body,
/// that body is the message body of the line.
pub proof fn lemma_body_of_first_tag(line: Seq<char>, at: int)
    requires
        0 <= at < line.len(),
        body_start_at(line, at) is Some,
        forall|p: int| 0 <= p < at ==> tag_end_at(line, p) is None,
    ensures
        body_start(line) == body_start_at(line, at),
{
    assert(body_at(line)(at));
    assert forall|p: int| 0 <= p < at implies !#[trigger] body_at(line)(p) by {
        assert(tag_end_at(line, p) is None);
    }
    assert(is_leftmost(line.len() as int, at, body_at(line)));
    lemma_leftmost_found(line.len() as int, at, body_at(line));
}

/// A tagged line whose body reports an accepted login and names an address
/// yields an accepted event from that address.
pub proof fn lemma_accepted_line(line: Seq<char>, body: Seq<char>, ip: Seq<char>)
    requires
        message_body(line) == Some(body),
        is_accepted(body),
        first_address(body) == Some(ip),
    ensures
        classify_spec(line) == Some(EventModel { kind: EventKind::Accepted, ip }),
{
}

/// A body that reports a logged-in user's disconnect would pass as a plain
/// disconnect too; it is the order of the tests that tells the two apart. A
/// disconnect of either sort is no accepted login.
pub proof fn lemma_disconnects(body: Seq<char>)
    ensures
        is_good_disconnect(body) ==> is_bad_disconnect(body),
        is_good_disconnect(body) ==> kind_of(body) == Some(EventKind::GoodDisconnect),
        is_bad_disconnect(body) && !is_good_disconnect(body) ==> kind_of(body) == Some(
            EventKind::BadDisconnect,
        ),
{
    reveal_strlit("Accepted");
    reveal_strlit("Disconnected from user");
    reveal_strlit("Disconnected from");
    let accepted = accepted_opening();
    let good = good_disconnect_opening();
    let bad = bad_disconnect_opening();
    if is_bad_disconnect(body) {
        assert(body[0] == bad[0]);
        if is_accepted(body) {
            assert(body[0] == accepted[0]);
        }
    }
    if is_good_disconnect(body) {
        assert forall|k: int| 0 <= k < bad.len() implies body[0 + k] == #[trigger] bad[k] by {
            assert(body[0 + k] == good[k]);
        }
        assert forall|k: int| bad.len() <= k < body.len() implies #[trigger] body[k] != '\n' by {
            if k < good.len() {
                assert(body[0 + k] == good[k]);
            }
        }
    }
}

/// A body that opens with a closed connection reports an invalid user,
/// whether or not it speaks of one.
pub proof fn lemma_closed_connection(body: Seq<char>)
    requires
        has_prefix_at(body, 0, closed_opening()),
    ensures
        kind_of(body) == Some(EventKind::InvalidUser),
{
    reveal_strlit("Accepted");
    reveal_strlit("Disconnected from user");
    reveal_strlit("Disconnected from");
    reveal_strlit("Connection closed");
    assert(body[0] == closed_opening()[0]);
    if is_accepted(body) {
        assert(body[0] == accepted_opening()[0]);
    }
    if is_good_disconnect(body) {
        assert(body[0] == good_disconnect_opening()[0]);
    }
    if is_bad_disconnect(body) {
        assert(body[0] == bad_disconnect_opening()[0]);
    }
}

/// The classifier is a function of the line: whatever two runs on the same
/// line return stands for the same event, or both return nothing.
pub proof fn lemma_classify_is_a_function(
    line: Seq<char>,
    first: Option<SshEvent>,
    second: Option<SshEvent>,
)
    requires
        classifies(line, first),
        classifies(line, second),
    ensures
        first is Some <==> second is Some,
        first matches Some(a) ==> second matches Some(b) && a@ == b@,
{
}

/// The address of an event is a dotted quad, cut out of the body of the line
/// the event was read from; the kind is the kind of that body.
pub proof fn lemma_event_comes_from_line(line: Seq<char>)
    ensures
        classify_spec(line) matches Some(event) ==> is_dotted_quad(event.ip) && (
        message_body(line) matches Some(body) && kind_of(body) == Some(event.kind) && (first_quad(
            body,
        ) matches Some((at, end)) && 0 <= at < end <= body.len() && event.ip == body.subrange(
            at,
            end,
        ))),
{
    if let Some(body) = message_body(line) {
        lemma_first_address(body);
    }
}

} // verus!
