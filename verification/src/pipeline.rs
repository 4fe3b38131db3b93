//! What is done with one event once it has been read from a line.
//!
//! The caller looks the event's address up and reports the outcome; `enrich`
//! turns event and outcome into the point to send. A lookup that fails never
//! holds the point back: the point then goes out without a location, and the
//! failure is reported beside it. The caller sends the point and reports
//! whether the store took it; `after_send` says whether to go on.
//!
//! The two status lines that accompany an event are laid out here as well.

use vstd::prelude::*;
use vstd::string::*;
use crate::classifier::{EventModel, SshEvent};
use crate::geo::{lookup, lookup_spec, GeoModel, LookupFailure, LookupOutcome};
use crate::metric::{build_point, label, label_of, point_of, MetricPoint};

verus! {

/// What is to be sent for an event, and what went wrong on the way, if
/// anything did.
#[derive(Debug, PartialEq)]
pub struct Emission<C> {
    /// The point to send.
    pub point: MetricPoint<C>,
    /// Why the point carries no location, if it carries none.
    pub failure: Option<LookupFailure>,
}

/// The location that an outcome contributes, if any.
pub open spec fn location_of<C>(outcome: LookupOutcome<C>) -> Option<GeoModel<C>> {
    match lookup_spec(outcome) {
        Ok(geo) => Some(geo),
        Err(_) => None,
    }
}

/// Why an outcome contributes no location, if it contributes none.
pub open spec fn failure_of<C>(outcome: LookupOutcome<C>) -> Option<LookupFailure> {
    match lookup_spec(outcome) {
        Ok(_) => None,
        Err(failure) => Some(failure),
    }
}

/// Puts event and lookup outcome together. There is always a point to send.
pub fn enrich<C>(event: &SshEvent, outcome: LookupOutcome<C>) -> (r: Emission<C>)
    ensures
        r.point@ == point_of(event@, location_of(outcome)),
        r.failure == failure_of(outcome),
{
    match lookup(outcome) {
        Ok(geo) => Emission { point: build_point(event, Some(geo)), failure: None },
        Err(failure) => Emission { point: build_point(event, None), failure: Some(failure) },
    }
}

/// How an attempt to hand a point to the store ended.
#[derive(Clone, Copy, Debug, PartialEq, Eq)]
pub enum SendOutcome {
    /// The store took the point.
    Acknowledged,
    /// The point could not be delivered.
    Failed,
}

/// Whether the shipper goes on.
#[derive(Clone, Copy, Debug, PartialEq, Eq)]
pub enum Verdict {
    /// Read the next line.
    Continue,
    /// Stop: a point was lost and nothing is in place to recover.
    Abort,
}

/// What follows from an attempt to send: a failure is fatal.
pub open spec fn verdict_of(outcome: SendOutcome) -> Verdict {
    match outcome {
        SendOutcome::Acknowledged => Verdict::Continue,
        SendOutcome::Failed => Verdict::Abort,
    }
}

/// Decides whether to go on after an attempt to send.
pub fn after_send(outcome: SendOutcome) -> (r: Verdict)
    ensures
        r == verdict_of(outcome),
{
    match outcome {
        SendOutcome::Acknowledged => Verdict::Continue,
        SendOutcome::Failed => Verdict::Abort,
    }
}

/// The words for a failure.
pub open spec fn reason_of(failure: LookupFailure) -> Seq<char> {
    match failure {
        LookupFailure::MalformedAddress => "malformed address"@,
        LookupFailure::NoEntry => "address not found"@,
        LookupFailure::DatabaseError => "database error"@,
        LookupFailure::MissingCoordinates => "record without coordinates"@,
        LookupFailure::MissingCountryName => "record without an English country name"@,
    }
}

/// The status line for an event.
pub open spec fn hit_line(event: EventModel) -> Seq<char> {
    "Got a "@ + label_of(event.kind) + " hit from "@ + event.ip
}

/// The status line for a lookup that failed.
pub open spec fn failure_line(ip: Seq<char>, failure: LookupFailure) -> Seq<char> {
    "Failed to get a position for "@ + ip + " - "@ + reason_of(failure)
}

/// The words for a failure.
pub fn reason(failure: LookupFailure) -> (r: &'static str)
    ensures
        r@ == reason_of(failure),
{
    match failure {
        LookupFailure::MalformedAddress => "malformed address",
        LookupFailure::NoEntry => "address not found",
        LookupFailure::DatabaseError => "database error",
        LookupFailure::MissingCoordinates => "record without coordinates",
        LookupFailure::MissingCountryName => "record without an English country name",
    }
}

/// Lays out the status line for an event.
pub fn hit_message(event: &SshEvent) -> (r: String)
    ensures
        r@ == hit_line(event@),
{
    let mut line = "Got a ".to_owned();
    line.append(label(event.kind()));
    line.append(" hit from ");
    line.append(event.ip());
    line
}

/// Lays out the status line for a lookup that failed.
pub fn failure_message(ip: &str, failure: LookupFailure) -> (r: String)
    ensures
        r@ == failure_line(ip@, failure),
{
    let mut line = "Failed to get a position for ".to_owned();
    line.append(ip);
    line.append(" - ");
    line.append(reason(failure));
    line
}

/// A lookup that fails does not hold the point back: the point goes out
/// with the event's tags and its address, and with no field of a location.
pub proof fn lemma_failed_lookup_still_emits<C>(event: EventModel, outcome: LookupOutcome<C>)
    requires
        lookup_spec(outcome) is Err,
    ensures
        failure_of(outcome) is Some,
        point_of(event, location_of(outcome)) == point_of::<C>(event, None),
        point_of(event, location_of(outcome)).fields.len() == 1,
        point_of(event, location_of(outcome)).fields[0].key == "ip_addr"@,
{
}

} // verus!
