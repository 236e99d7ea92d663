//! Relations: ordered groups of elements, each member with a role.

use vstd::prelude::*;
use crate::element_info::ElementInfo;
use crate::tags::Tags;

verus! {

/// The kind of element that a member of a relation is.
#[derive(Clone, Copy, Debug, PartialEq, Eq, Structural)]
pub enum RelationMemberType {
    Node,
    Way,
    Relation,
}

/// A member of a relation: a reference to an element by kind and id, and
/// the role that the element has in the relation. Whether such an element
/// exists is not for the member to know.
#[derive(Debug)]
pub struct RelationMember {
    pub member_type: RelationMemberType,
    pub reference: i64,
    pub role: String,
}

/// A member as plain values, its role as a sequence of characters.
pub struct Membership {
    pub member_type: RelationMemberType,
    pub reference: i64,
    pub role: Seq<char>,
}

impl View for RelationMember {
    type V = Membership;

    open spec fn view(&self) -> Membership {
        Membership { member_type: self.member_type, reference: self.reference, role: self.role@ }
    }
}

impl RelationMember {
    /// The member that refers to the element `reference` of kind
    /// `member_type` in the role `role`, which may be empty.
    pub fn new(member_type: RelationMemberType, reference: i64, role: String) -> (r:
        RelationMember)
        ensures
            r.member_type == member_type,
            r.reference == reference,
            r.role == role,
    {
        RelationMember { member_type, reference, role }
    }
}

/// A group of elements in a given order. The order is part of the
/// relation, and so is every member, also one that occurs again.
#[derive(Debug)]
pub struct Relation {
    pub element_info: ElementInfo,
    pub tags: Tags,
    pub members: Vec<RelationMember>,
}

impl View for Relation {
    type V = Seq<Membership>;

    /// The members in their order.
    open spec fn view(&self) -> Seq<Membership> {
        Seq::new(self.members@.len(), |i: int| self.members@[i]@)
    }
}

impl Relation {
    /// The relation with the given attributes and `members`, in the order
    /// given and all of them, without tags.
    pub fn new(element_info: ElementInfo, members: Vec<RelationMember>) -> (r: Relation)
        ensures
            r.element_info == element_info,
            r.tags@ == Map::<Seq<char>, Seq<char>>::empty(),
            r.members == members,
    {
        Relation { element_info, tags: Tags::new(), members }
    }

    /// This relation with `tags` in place of its tags.
    pub fn with_tags(self, tags: Tags) -> (r: Relation)
        ensures
            r.element_info == self.element_info,
            r.tags == tags,
            r.members == self.members,
    {
        Relation { element_info: self.element_info, tags, members: self.members }
    }

    /// The number of members, counting each as often as it occurs.
    pub fn len(&self) -> (r: usize)
        ensures
            r == self@.len(),
    {
        self.members.len()
    }

    /// The member at `index` in the order of the relation, or `None` from
    /// `len()` on.
    pub fn member(&self, index: usize) -> (r: Option<&RelationMember>)
        ensures
            index < self@.len() ==> r == Some(&self.members@[index as int]),
            index >= self@.len() ==> r is None,
    {
        if index < self.members.len() {
            Some(&self.members[index])
        } else {
            None
        }
    }
}

/// Going through a relation by index gives the members it was made of, in
/// their order and each as often as it was given.
pub proof fn members_keep_their_order(relation: Relation, members: Seq<RelationMember>)
    requires
        relation.members@ == members,
    ensures
        relation@.len() == members.len(),
        forall|i: int| 0 <= i < members.len() ==> #[trigger] relation@[i] == members[i]@,
{
}

} // verus!
