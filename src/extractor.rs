use vstd::prelude::*;
use std::collections::HashSet;
use crate::element::{MapElement, Tag, TagFilter};
use crate::location::Location;

verus! {

broadcast use vstd::std_specs::hash::group_hash_axioms;

/// Collects the locations of elements carrying a tag that passes a filter:
/// nodes directly, ways through their first node, resolved in a second pass.
pub struct KvNodeExtractor {
    filter: TagFilter,
    nodes: Vec<Location>,
    node_ids: HashSet<i64>,
}

impl KvNodeExtractor {
    pub closed spec fn filter(&self) -> TagFilter {
        self.filter
    }

    /// The locations recorded so far, in the order they were found.
    pub closed spec fn nodes(&self) -> Seq<Location> {
        self.nodes@
    }

    /// Node ids whose location the second pass must record.
    pub closed spec fn pending(&self) -> Set<i64> {
        self.node_ids@
    }

    pub fn new(key: &str, value: Option<&str>) -> (r: KvNodeExtractor)
        ensures
            r.filter().key@ == key@,
            r.filter().value_view() == match value {
                Some(s) => Some(s@),
                None => None::<Seq<char>>,
            },
            r.nodes() == Seq::<Location>::empty(),
            r.pending() == Set::<i64>::empty(),
    {
        KvNodeExtractor { filter: TagFilter::new(key, value), nodes: Vec::new(), node_ids: HashSet::new() }
    }

    /// Whether `tag` passes the extractor's filter.
    pub fn does_tag_match(&self, tag: &Tag) -> (r: bool)
        ensures
            r == self.filter().spec_matches(*tag),
    {
        self.filter.does_tag_match(tag)
    }

    /// First pass: a node is recorded once for each matching tag; a way with a
    /// matching tag marks its first node as pending. Relations are ignored.
    pub fn process(&mut self, element: &MapElement)
        ensures
            final(self).filter() == old(self).filter(),
            match element {
                MapElement::Node { location, tags, .. } => {
                    &&& final(self).nodes() == old(self).nodes() + Seq::new(
                        old(self).filter().count_matches(tags@),
                        |i: int| *location,
                    )
                    &&& final(self).pending() == old(self).pending()
                },
                MapElement::Way { refs, tags, .. } => {
                    &&& final(self).nodes() == old(self).nodes()
                    &&& final(self).pending() == if old(self).filter().count_matches(tags@) > 0
                        && refs.len() > 0 {
                        old(self).pending().insert(refs@[0])
                    } else {
                        old(self).pending()
                    }
                },
                MapElement::Relation { .. } => {
                    &&& final(self).nodes() == old(self).nodes()
                    &&& final(self).pending() == old(self).pending()
                },
            },
    {
        match element {
            MapElement::Node { location, tags, .. } => {
                let n = self.filter.matching_count(tags);
                let ghost start = self.nodes@;
                let mut i: usize = 0;
                while i < n
                    invariant
                        i <= n,
                        self.filter == old(self).filter,
                        self.node_ids == old(self).node_ids,
                        start == old(self).nodes@,
                        self.nodes@ == start + Seq::new(i as nat, |j: int| *location),
                    decreases n - i,
                {
                    self.nodes.push(*location);
                    i = i + 1;
                    proof {
                        assert(self.nodes@ =~= start + Seq::new(i as nat, |j: int| *location));
                    }
                }
            },
            MapElement::Way { refs, tags, .. } => {
                if self.filter.matching_count(tags) > 0 && refs.len() > 0 {
                    self.node_ids.insert(refs[0]);
                }
            },
            MapElement::Relation { .. } => {},
        }
    }

    /// Second pass: a node whose id is pending is recorded.
    pub fn second_pass(&mut self, element: &MapElement)
        ensures
            final(self).filter() == old(self).filter(),
            final(self).pending() == old(self).pending(),
            final(self).nodes() == match element {
                MapElement::Node { id, location, .. } => if old(self).pending().contains(*id) {
                    old(self).nodes().push(*location)
                } else {
                    old(self).nodes()
                },
                _ => old(self).nodes(),
            },
    {
        match element {
            MapElement::Node { id, location, .. } => {
                if self.node_ids.contains(id) {
                    self.nodes.push(*location);
                }
            },
            _ => {},
        }
    }

    /// Every recorded location, in the order found.
    pub fn export(&self) -> (r: Vec<Location>)
        ensures
            r@ == self.nodes(),
    {
        self.nodes.clone()
    }
}

/// Counts of the elements seen, by kind. Counts stop at `u64::MAX`.
pub struct Counter {
    pub nodes: u64,
    pub ways: u64,
    pub relations: u64,
}

impl Counter {
    pub fn new() -> (r: Counter)
        ensures
            r.nodes == 0,
            r.ways == 0,
            r.relations == 0,
    {
        Counter { nodes: 0, ways: 0, relations: 0 }
    }

    pub fn process(&mut self, element: &MapElement)
        ensures
            final(self).nodes == old(self).nodes + if element is Node && old(self).nodes < u64::MAX {
                1int
            } else {
                0
            },
            final(self).ways == old(self).ways + if element is Way && old(self).ways < u64::MAX {
                1int
            } else {
                0
            },
            final(self).relations == old(self).relations + if element is Relation
                && old(self).relations < u64::MAX {
                1int
            } else {
                0
            },
    {
        match element {
            MapElement::Node { .. } => {
                self.nodes = self.nodes.saturating_add(1);
            },
            MapElement::Way { .. } => {
                self.ways = self.ways.saturating_add(1);
            },
            MapElement::Relation { .. } => {
                self.relations = self.relations.saturating_add(1);
            },
        }
    }
}

} // verus!
