//! Ways: lines through nodes.

use vstd::prelude::*;
use crate::element_info::ElementInfo;
use crate::tags::Tags;

verus! {

/// A line through nodes, which it names by their ids in the order in
/// which the line passes through them. Nothing is asked of the ids: a node
/// may occur more than once, and need not exist.
#[derive(Debug)]
pub struct Way {
    pub element_info: ElementInfo,
    pub tags: Tags,
    pub nodes: Vec<i64>,
}

impl Way {
    /// Whether the way ends where it starts: it has a node, and its first
    /// node is its last.
    pub open spec fn closed(&self) -> bool {
        self.nodes@.len() >= 1 && self.nodes@[0] == self.nodes@[self.nodes@.len() - 1]
    }

    /// Whether the tags tell that the way, closed or not, is a line: they
    /// hold the key `highway` or the key `barrier`, with whatever value.
    pub open spec fn linear(&self) -> bool {
        self.tags@.contains_key("highway"@) || self.tags@.contains_key("barrier"@)
    }

    /// Whether the way is an area: it is closed, and its tags do not tell
    /// that it is a line.
    pub open spec fn area(&self) -> bool {
        self.closed() && !self.linear()
    }

    /// The way with the given attributes through `nodes`, without tags.
    pub fn new(element_info: ElementInfo, nodes: Vec<i64>) -> (r: Way)
        ensures
            r.element_info == element_info,
            r.tags@ == Map::<Seq<char>, Seq<char>>::empty(),
            r.nodes == nodes,
    {
        Way { element_info, tags: Tags::new(), nodes }
    }

    /// This way with `tags` in place of its tags.
    pub fn with_tags(self, tags: Tags) -> (r: Way)
        ensures
            r.element_info == self.element_info,
            r.tags == tags,
            r.nodes == self.nodes,
    {
        Way { element_info: self.element_info, tags, nodes: self.nodes }
    }

    /// Whether the way is closed: it has a node, and its first node is its last.
    pub fn is_closed(&self) -> (r: bool)
        ensures
            r == self.closed(),
    {
        let len: usize = self.nodes.len();
        len >= 1 && self.nodes[0] == self.nodes[len - 1]
    }

    /// Whether the way is an area: it is closed, and its tags hold neither
    /// the key `highway` nor the key `barrier`.
    pub fn is_area(&self) -> (r: bool)
        ensures
            r == self.area(),
            r == (self.closed() && !self.tags@.contains_key("highway"@) && !self.tags@.contains_key(
                "barrier"@,
            )),
    {
        self.is_closed() && !self.tags.contains_key("highway") && !self.tags.contains_key(
            "barrier",
        )
    }
}

/// A closed way whose tags hold neither `highway` nor `barrier` is an area.
pub proof fn closed_way_without_highway_or_barrier_is_area(way: Way)
    requires
        way.closed(),
        !way.tags@.contains_key("highway"@),
        !way.tags@.contains_key("barrier"@),
    ensures
        way.area(),
{
}

/// A way whose tags hold `highway` or `barrier` is no area, closed or not
/// and whatever the value of the tag.
pub proof fn way_with_highway_or_barrier_is_no_area(way: Way)
    requires
        way.tags@.contains_key("highway"@) || way.tags@.contains_key("barrier"@),
    ensures
        !way.area(),
{
}

/// A way that is not closed is no area, whatever its tags.
pub proof fn open_way_is_no_area(way: Way)
    requires
        !way.closed(),
    ensures
        !way.area(),
{
}

/// A way through a single node is closed, and a way through no node is not.
pub proof fn shortest_ways(way: Way)
    ensures
        way.nodes@.len() == 1 ==> way.closed(),
        way.nodes@.len() == 0 ==> !way.closed(),
{
}

} // verus!
