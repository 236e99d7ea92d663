//! The attributes that every element has: its id, and what is known of its
//! last edit.

use vstd::prelude::*;
use vstd::std_specs::cmp::PartialEqSpec;
use crate::text::same_text;
use crate::timestamp::Timestamp;

verus! {

/// The attributes common to nodes, ways and relations.
///
/// Only the id is always there. Each of the others may be absent, since
/// sources differ in what they record, and an absent attribute is kept
/// apart from any value it could have.
#[derive(Debug)]
pub struct ElementInfo {
    /// The id, unique among the elements of one kind.
    pub id: i64,
    /// The name of the user who made the last edit.
    pub user: Option<String>,
    /// The numeric id of that user.
    pub uid: Option<i32>,
    /// The time of the last edit.
    pub timestamp: Option<Timestamp>,
    /// Whether the element is visible; `Some(false)` marks a deleted element.
    pub visible: Option<bool>,
    /// The number of the edit, counted up with every edit of the element.
    pub version: Option<i32>,
    /// The changeset in which the last edit was made.
    pub changeset: Option<i64>,
}

/// The attributes of an element as plain values, text as a sequence of characters.
pub struct Attributes {
    pub id: i64,
    pub user: Option<Seq<char>>,
    pub uid: Option<i32>,
    pub timestamp: Option<Timestamp>,
    pub visible: Option<bool>,
    pub version: Option<i32>,
    pub changeset: Option<i64>,
}

impl View for ElementInfo {
    type V = Attributes;

    open spec fn view(&self) -> Attributes {
        Attributes {
            id: self.id,
            user: match self.user {
                Some(name) => Some(name@),
                None => None,
            },
            uid: self.uid,
            timestamp: self.timestamp,
            visible: self.visible,
            version: self.version,
            changeset: self.changeset,
        }
    }
}

/// Whether two optional texts are both absent or both present with the same content.
fn same_optional_text(a: &Option<String>, b: &Option<String>) -> (r: bool)
    ensures
        r == match (*a, *b) {
            (Some(x), Some(y)) => x@ == y@,
            (None, None) => true,
            _ => false,
        },
{
    match (a, b) {
        (Some(x), Some(y)) => same_text(x.as_str(), y.as_str()),
        (None, None) => true,
        _ => false,
    }
}

/// Whether two optional timestamps are both absent or both present and equal.
fn same_optional_timestamp(a: &Option<Timestamp>, b: &Option<Timestamp>) -> (r: bool)
    ensures
        r == (*a == *b),
{
    match (a, b) {
        (Some(x), Some(y)) => *x == *y,
        (None, None) => true,
        _ => false,
    }
}

impl ElementInfo {
    /// The attributes of the element `id` of which nothing else is known.
    pub fn create(id: i64) -> (r: ElementInfo)
        ensures
            r.id == id,
            r.user is None,
            r.uid is None,
            r.timestamp is None,
            r.visible is None,
            r.version is None,
            r.changeset is None,
    {
        ElementInfo {
            id,
            user: None,
            uid: None,
            timestamp: None,
            visible: None,
            version: None,
            changeset: None,
        }
    }

    /// The attributes of the element `id`, each of the others as given.
    pub fn new(
        id: i64,
        user: Option<String>,
        uid: Option<i32>,
        timestamp: Option<Timestamp>,
        visible: Option<bool>,
        version: Option<i32>,
        changeset: Option<i64>,
    ) -> (r: ElementInfo)
        ensures
            r.id == id,
            r.user == user,
            r.uid == uid,
            r.timestamp == timestamp,
            r.visible == visible,
            r.version == version,
            r.changeset == changeset,
    {
        ElementInfo { id, user, uid, timestamp, visible, version, changeset }
    }
}

impl PartialEq for ElementInfo {
    /// Two records are equal when they agree in every attribute: each is
    /// absent in both, or present in both with the same value.
    fn eq(&self, other: &ElementInfo) -> (r: bool) {
        self.id == other.id && same_optional_text(&self.user, &other.user) && self.uid
            == other.uid && same_optional_timestamp(&self.timestamp, &other.timestamp)
            && self.visible == other.visible && self.version == other.version && self.changeset
            == other.changeset
    }
}

impl vstd::std_specs::cmp::PartialEqSpecImpl for ElementInfo {
    open spec fn obeys_eq_spec() -> bool {
        true
    }

    open spec fn eq_spec(&self, other: &ElementInfo) -> bool {
        self@ == other@
    }
}

/// Equality of attribute records is reflexive, symmetric and transitive.
pub proof fn element_info_equality_is_equivalence(a: ElementInfo, b: ElementInfo, c: ElementInfo)
    ensures
        a.eq_spec(&a),
        a.eq_spec(&b) == b.eq_spec(&a),
        a.eq_spec(&b) && b.eq_spec(&c) ==> a.eq_spec(&c),
{
}

/// Records are equal exactly when they agree in every attribute, absent
/// attributes agreeing only with absent ones.
pub proof fn element_info_equality_is_attribute_wise(a: ElementInfo, b: ElementInfo)
    ensures
        a.eq_spec(&b) <==> {
            &&& a.id == b.id
            &&& a@.user == b@.user
            &&& a.uid == b.uid
            &&& a.timestamp == b.timestamp
            &&& a.visible == b.visible
            &&& a.version == b.version
            &&& a.changeset == b.changeset
        },
{
}

/// A record whose attribute is absent is unequal to every record in which
/// it is present, whatever else they hold: an unknown visibility, for one,
/// is not the same as being visible.
pub proof fn absent_differs_from_present(a: ElementInfo, b: ElementInfo)
    requires
        (a.user is None && b.user is Some) || (a.uid is None && b.uid is Some) || (a.timestamp
            is None && b.timestamp is Some) || (a.visible is None && b.visible is Some) || (
        a.version is None && b.version is Some) || (a.changeset is None && b.changeset is Some),
    ensures
        !a.eq_spec(&b),
        !b.eq_spec(&a),
{
}

} // verus!
