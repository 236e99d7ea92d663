//! Nodes: single points on the map.

use vstd::prelude::*;
use vstd::std_specs::cmp::PartialEqSpec;
use crate::binary64::is_nearest;
use crate::coordinate::{
    decode, decode_spec, encode, encode_spec, valid_latitude, valid_longitude, MAX_LATITUDE,
    MAX_LONGITUDE, SCALE,
};
use crate::element_info::ElementInfo;
use crate::tags::Tags;

verus! {

/// A point with its attributes and tags.
///
/// Latitude and longitude are held in the fixed-point encoding, as 32-bit
/// counts of 10^-7 degree. A latitude beyond 90 degrees or a longitude
/// beyond 180 degrees, either way, is malformed; it is held as it is and
/// never brought into range.
#[derive(Debug)]
pub struct Node {
    pub element_info: ElementInfo,
    pub tags: Tags,
    pub lat: i32,
    pub lon: i32,
}

impl Node {
    /// The node with the given attributes at the encoded position `lat`, `lon`, without tags.
    pub fn new(element_info: ElementInfo, lat: i32, lon: i32) -> (r: Node)
        ensures
            r.element_info == element_info,
            r.tags@ == Map::<Seq<char>, Seq<char>>::empty(),
            r.lat == lat,
            r.lon == lon,
    {
        Node { element_info, tags: Tags::new(), lat, lon }
    }

    /// This node with `tags` in place of its tags.
    pub fn with_tags(self, tags: Tags) -> (r: Node)
        ensures
            r.element_info == self.element_info,
            r.tags == tags,
            r.lat == self.lat,
            r.lon == self.lon,
    {
        Node { element_info: self.element_info, tags, lat: self.lat, lon: self.lon }
    }

    /// The encoding of the latitude or longitude whose binary64 pattern is
    /// `coord`: the degree value times 10^7, rounded to the nearest integer
    /// with halves away from zero, and limited to 32 bits.
    pub fn coord_ftoi(coord: u64) -> (r: i32)
        ensures
            r == encode_spec(coord),
    {
        encode(coord)
    }

    /// The binary64 pattern of the latitude or longitude encoded as
    /// `coord`: that of the binary64 number nearest to `coord / 10^7`.
    pub fn coord_itof(coord: i32) -> (r: u64)
        ensures
            r == decode_spec(coord),
            is_nearest(r, coord as int, SCALE as int),
    {
        decode(coord)
    }

    /// Whether the latitude lies within 90 degrees and the longitude within
    /// 180 degrees of zero.
    pub open spec fn in_range(&self) -> bool {
        valid_latitude(self.lat) && valid_longitude(self.lon)
    }

    /// Whether the position is one on the globe, see `in_range`.
    pub fn has_valid_position(&self) -> (r: bool)
        ensures
            r == self.in_range(),
    {
        -MAX_LATITUDE <= self.lat && self.lat <= MAX_LATITUDE && -MAX_LONGITUDE <= self.lon
            && self.lon <= MAX_LONGITUDE
    }

    /// The node as a point `(x, y)` in degrees, each as a binary64
    /// pattern: the longitude is `x` and comes first, the latitude is `y`.
    pub fn to_point(&self) -> (r: (u64, u64))
        ensures
            r.0 == decode_spec(self.lon),
            r.1 == decode_spec(self.lat),
    {
        (decode(self.lon), decode(self.lat))
    }
}

impl PartialEq for Node {
    /// Two nodes are equal when they have the same id at the same
    /// position. Their other attributes and their tags do not count.
    fn eq(&self, other: &Node) -> (r: bool) {
        self.element_info.id == other.element_info.id && self.lat == other.lat && self.lon
            == other.lon
    }
}

impl vstd::std_specs::cmp::PartialEqSpecImpl for Node {
    open spec fn obeys_eq_spec() -> bool {
        true
    }

    open spec fn eq_spec(&self, other: &Node) -> bool {
        self.element_info.id == other.element_info.id && self.lat == other.lat && self.lon
            == other.lon
    }
}

/// Nodes with the same id, latitude and longitude are equal, whatever
/// their users, versions, timestamps, other attributes and tags.
pub proof fn node_equality_ignores_metadata(a: Node, b: Node)
    requires
        a.element_info.id == b.element_info.id,
        a.lat == b.lat,
        a.lon == b.lon,
    ensures
        a.eq_spec(&b),
{
}

/// Nodes that differ in id, latitude or longitude are unequal.
pub proof fn node_equality_needs_id_and_position(a: Node, b: Node)
    requires
        a.element_info.id != b.element_info.id || a.lat != b.lat || a.lon != b.lon,
    ensures
        !a.eq_spec(&b),
{
}

/// Equality of nodes is reflexive, symmetric and transitive.
pub proof fn node_equality_is_equivalence(a: Node, b: Node, c: Node)
    ensures
        a.eq_spec(&a),
        a.eq_spec(&b) == b.eq_spec(&a),
        a.eq_spec(&b) && b.eq_spec(&c) ==> a.eq_spec(&c),
{
}

} // verus!
