//! The metric point that is sent for an event.
//!
//! A point belongs to the measurement `ssh_hits`. Its tags say what kind of
//! event it was and where it came from; its fields repeat the address and,
//! where the location is known, give latitude, longitude and country.

use vstd::prelude::*;
use vstd::string::*;
use crate::classifier::{EventModel, SshEvent};
use crate::geo::{GeoInfo, GeoModel};
use crate::grammar::EventKind;

verus! {

/// A tag of a point: a key and a text.
#[derive(Debug, PartialEq, Eq)]
pub struct Tag {
    pub key: String,
    pub value: String,
}

/// The value of a field.
#[derive(Debug, PartialEq)]
pub enum FieldValue<C> {
    Text(String),
    Number(C),
}

/// A field of a point: a key and a value.
#[derive(Debug, PartialEq)]
pub struct Field<C> {
    pub key: String,
    pub value: FieldValue<C>,
}

/// One point, ready to be handed to the metrics store.
#[derive(Debug, PartialEq)]
pub struct MetricPoint<C> {
    pub measurement: String,
    pub tags: Vec<Tag>,
    pub fields: Vec<Field<C>>,
}

/// What a `Tag` stands for.
pub struct TagModel {
    pub key: Seq<char>,
    pub value: Seq<char>,
}

/// What a `FieldValue` stands for.
pub enum ValueModel<C> {
    Text(Seq<char>),
    Number(C),
}

/// What a `Field` stands for.
pub struct FieldModel<C> {
    pub key: Seq<char>,
    pub value: ValueModel<C>,
}

/// What a `MetricPoint` stands for.
pub struct PointModel<C> {
    pub measurement: Seq<char>,
    pub tags: Seq<TagModel>,
    pub fields: Seq<FieldModel<C>>,
}

impl View for Tag {
    type V = TagModel;

    open spec fn view(&self) -> TagModel {
        TagModel { key: self.key@, value: self.value@ }
    }
}

impl<C> View for FieldValue<C> {
    type V = ValueModel<C>;

    open spec fn view(&self) -> ValueModel<C> {
        match self {
            FieldValue::Text(text) => ValueModel::Text(text@),
            FieldValue::Number(number) => ValueModel::Number(*number),
        }
    }
}

impl<C> View for Field<C> {
    type V = FieldModel<C>;

    open spec fn view(&self) -> FieldModel<C> {
        FieldModel { key: self.key@, value: self.value@ }
    }
}

impl<C> View for MetricPoint<C> {
    type V = PointModel<C>;

    open spec fn view(&self) -> PointModel<C> {
        PointModel {
            measurement: self.measurement@,
            tags: Seq::new(self.tags@.len(), |i: int| self.tags@[i]@),
            fields: Seq::new(self.fields@.len(), |i: int| self.fields@[i]@),
        }
    }
}

/// The text that stands for a kind of event in a point and in status lines.
pub open spec fn label_of(kind: EventKind) -> Seq<char> {
    match kind {
        EventKind::Accepted => "accepted"@,
        EventKind::GoodDisconnect => "good_disconnect"@,
        EventKind::BadDisconnect => "bad_disconnect"@,
        EventKind::InvalidUser => "invalid_user"@,
    }
}

/// The fields that a known location adds to a point.
pub open spec fn location_fields<C>(geo: Option<GeoModel<C>>) -> Seq<FieldModel<C>> {
    match geo {
        Some(geo) => seq![
            FieldModel { key: "latitude"@, value: ValueModel::Number(geo.latitude) },
            FieldModel { key: "longitude"@, value: ValueModel::Number(geo.longitude) },
            FieldModel { key: "country"@, value: ValueModel::Text(geo.country_name) },
        ],
        None => Seq::empty(),
    }
}

/// The point for an event, with its location where that is known.
pub open spec fn point_of<C>(event: EventModel, geo: Option<GeoModel<C>>) -> PointModel<C> {
    PointModel {
        measurement: "ssh_hits"@,
        tags: seq![
            TagModel { key: "type"@, value: label_of(event.kind) },
            TagModel { key: "ip"@, value: event.ip },
        ],
        fields: seq![FieldModel { key: "ip_addr"@, value: ValueModel::Text(event.ip) }]
            + location_fields(geo),
    }
}

/// What a location stands for, where there is one.
pub open spec fn model_of<C>(geo: Option<GeoInfo<C>>) -> Option<GeoModel<C>> {
    match geo {
        Some(geo) => Some(geo@),
        None => None,
    }
}

/// The text that stands for a kind of event.
pub fn label(kind: EventKind) -> (r: &'static str)
    ensures
        r@ == label_of(kind),
{
    match kind {
        EventKind::Accepted => "accepted",
        EventKind::GoodDisconnect => "good_disconnect",
        EventKind::BadDisconnect => "bad_disconnect",
        EventKind::InvalidUser => "invalid_user",
    }
}

/// Lays out the point for an event.
pub fn build_point<C>(event: &SshEvent, geo: Option<GeoInfo<C>>) -> (r: MetricPoint<C>)
    ensures
        r@ == point_of(event@, model_of(geo)),
{
    let mut tags: Vec<Tag> = Vec::new();
    tags.push(Tag { key: "type".to_owned(), value: label(event.kind()).to_owned() });
    tags.push(Tag { key: "ip".to_owned(), value: event.ip().to_owned() });
    let mut fields: Vec<Field<C>> = Vec::new();
    fields.push(Field { key: "ip_addr".to_owned(), value: FieldValue::Text(event.ip().to_owned()) });
    match geo {
        Some(geo) => {
            let GeoInfo { latitude, longitude, country_name } = geo;
            fields.push(Field { key: "latitude".to_owned(), value: FieldValue::Number(latitude) });
            fields.push(
                Field { key: "longitude".to_owned(), value: FieldValue::Number(longitude) },
            );
            fields.push(Field { key: "country".to_owned(), value: FieldValue::Text(country_name) });
        },
        None => {},
    }
    let point = MetricPoint { measurement: "ssh_hits".to_owned(), tags, fields };
    assert(point@.tags =~= point_of(event@, model_of(geo)).tags);
    assert(point@.fields =~= point_of(event@, model_of(geo)).fields);
    point
}

/// A location adds fields to a point and changes nothing else: measurement
/// and tags are those of the point without location, and the fields are that
/// point's single field, the address, followed by the fields of the location.
pub proof fn lemma_location_only_adds_fields<C>(event: EventModel, geo: Option<GeoModel<C>>)
    ensures
        point_of(event, geo).measurement == point_of::<C>(event, None).measurement,
        point_of(event, geo).tags == point_of::<C>(event, None).tags,
        point_of(event, geo).fields == point_of::<C>(event, None).fields + location_fields(geo),
        point_of::<C>(event, None).fields == seq![
            FieldModel::<C> { key: "ip_addr"@, value: ValueModel::Text(event.ip) },
        ],
{
    let bare = seq![FieldModel::<C> { key: "ip_addr"@, value: ValueModel::Text(event.ip) }];
    assert(point_of::<C>(event, None).fields =~= bare);
}

} // verus!
