use vstd::prelude::*;
use std::collections::{HashMap, HashSet};
use crate::element::{find_tag, has_tag, insert_all, MapElement, Member, MemberKind, Tag};
use crate::error::ExtractError;
use crate::location::Location;
use crate::polygon::{
    lemma_crossings_permutation, point_in_polygon, point_in_polygon_exec, sort_west_to_east,
    sorted_west_to_east, Edge,
};
use crate::roads::road_segments;

verus! {

broadcast use vstd::std_specs::hash::group_hash_axioms;

/// A region given by an unordered set of boundary edges, tested with the
/// even-odd rule. With no edges it contains no point.
pub struct BoundaryFilter {
    edges: Vec<Edge>,
}

impl BoundaryFilter {
    pub closed spec fn edges(&self) -> Seq<Edge> {
        self.edges@
    }

    pub fn new(edges: Vec<Edge>) -> (r: BoundaryFilter)
        ensures
            r.edges() == edges@,
    {
        BoundaryFilter { edges }
    }

    pub fn edge_list(&self) -> (r: &Vec<Edge>)
        ensures
            r@ == self.edges(),
    {
        &self.edges
    }

    /// The filter that reports every point as outside.
    pub fn empty() -> (r: BoundaryFilter)
        ensures
            r.edges() == Seq::<Edge>::empty(),
    {
        BoundaryFilter { edges: Vec::new() }
    }

    pub fn contains(&self, location: &Location) -> (r: bool)
        ensures
            r == point_in_polygon(self.edges(), *location),
    {
        point_in_polygon_exec(&self.edges, location)
    }
}

/// Whether some filter of `filters` contains `q`.
pub open spec fn in_some_region(filters: Seq<BoundaryFilter>, q: Location) -> bool {
    exists|i: int| 0 <= i < filters.len() && point_in_polygon(#[trigger] filters[i].edges(), q)
}

/// The union of several regions, such as the countries of a continent.
pub struct BoundaryFilterWriter {
    filters: Vec<BoundaryFilter>,
}

impl BoundaryFilterWriter {
    pub closed spec fn filters(&self) -> Seq<BoundaryFilter> {
        self.filters@
    }

    pub fn new(filters: Vec<BoundaryFilter>) -> (r: BoundaryFilterWriter)
        ensures
            r.filters() == filters@,
    {
        BoundaryFilterWriter { filters }
    }

    /// Whether at least one of the regions contains `location`.
    pub fn accepts(&self, location: &Location) -> (r: bool)
        ensures
            r == in_some_region(self.filters(), *location),
    {
        let mut i: usize = 0;
        while i < self.filters.len()
            invariant
                i <= self.filters@.len(),
                forall|j: int|
                    0 <= j < i ==> !point_in_polygon(#[trigger] self.filters@[j].edges(), *location),
            decreases self.filters.len() - i,
        {
            if self.filters[i].contains(location) {
                return true;
            }
            i = i + 1;
        }
        false
    }

    /// The points of `points` that lie in the union, in their order.
    pub fn retain_inside(&self, points: &Vec<Location>) -> (r: Vec<Location>)
        ensures
            r@ == points@.filter(|p: Location| in_some_region(self.filters(), p)),
    {
        let mut out: Vec<Location> = Vec::new();
        let mut i: usize = 0;
        while i < points.len()
            invariant
                i <= points.len(),
                out@ == points@.take(i as int).filter(
                    |p: Location| in_some_region(self.filters(), p),
                ),
            decreases points.len() - i,
        {
            proof {
                reveal(Seq::filter);
                assert(points@.take(i + 1).drop_last() =~= points@.take(i as int));
            }
            if self.accepts(&points[i]) {
                out.push(points[i]);
            }
            i = i + 1;
        }
        proof {
            assert(points@.take(i as int) =~= points@);
        }
        out
    }
}

/// Whether a member takes part in a boundary's outline.
pub open spec fn is_ring_member(m: Member) -> bool {
    match m.role {
        Some(role) => role@ == "outer"@ || role@ == "inner"@,
        None => false,
    }
}

/// Ids of the members that take part in a boundary's outline, in order.
pub open spec fn ring_member_ids(members: Seq<Member>) -> Seq<i64>
    decreases members.len(),
{
    if members.len() == 0 {
        Seq::empty()
    } else if is_ring_member(members.last()) {
        ring_member_ids(members.drop_last()).push(members.last().id)
    } else {
        ring_member_ids(members.drop_last())
    }
}

/// Whether a relation is an outline member, which boundary assembly does not support.
pub open spec fn is_nested_ring_member(m: Member) -> bool {
    is_ring_member(m) && m.kind == MemberKind::Relation
}

/// The value of the first `name` tag, or the empty text.
pub open spec fn relation_name(tags: Seq<Tag>) -> Seq<char>
    decreases tags.len(),
{
    if tags.len() == 0 {
        Seq::empty()
    } else if tags[0].key@ == "name"@ {
        tags[0].value@
    } else {
        relation_name(tags.drop_first())
    }
}

/// The value of the first `name` tag, or the empty text.
pub fn find_name(tags: &Vec<Tag>) -> (r: String)
    ensures
        r@ == relation_name(tags@),
{
    let name_key = "name".to_owned();
    let mut i: usize = 0;
    proof {
        assert(tags@.subrange(0, tags@.len() as int) =~= tags@);
    }
    while i < tags.len()
        invariant
            i <= tags.len(),
            name_key@ == "name"@,
            relation_name(tags@) == relation_name(tags@.subrange(i as int, tags@.len() as int)),
        decreases tags.len() - i,
    {
        let ghost rest = tags@.subrange(i as int, tags@.len() as int);
        if tags[i].key == name_key {
            return tags[i].value.clone();
        }
        proof {
            assert(rest.drop_first() =~= tags@.subrange(i + 1, tags@.len() as int));
        }
        i = i + 1;
    }
    proof {
        assert(tags@.subrange(i as int, tags@.len() as int) =~= Seq::<Tag>::empty());
    }
    String::new()
}

/// Index of the first member that is a relation in an outline role, or -1.
pub open spec fn first_nested_member(members: Seq<Member>) -> int
    decreases members.len(),
{
    if members.len() == 0 {
        -1
    } else if first_nested_member(members.drop_last()) >= 0 {
        first_nested_member(members.drop_last())
    } else if is_nested_ring_member(members.last()) {
        members.len() - 1
    } else {
        -1
    }
}

/// The outline way ids of relation `relation`, or the refusal of its first
/// member that is a relation in an outline role.
pub open spec fn ring_ids_spec(relation: i64, members: Seq<Member>) -> Result<Seq<i64>, ExtractError> {
    let i = first_nested_member(members);
    if i >= 0 {
        Err(ExtractError::UnsupportedMember { relation, member: members[i].id })
    } else {
        Ok(ring_member_ids(members))
    }
}

proof fn lemma_first_nested_prefix(s: Seq<Member>, n: int)
    requires
        0 <= n <= s.len(),
        first_nested_member(s.take(n)) >= 0,
    ensures
        first_nested_member(s) == first_nested_member(s.take(n)),
        0 <= first_nested_member(s) < n,
    decreases s.len(),
{
    if n == s.len() {
        assert(s.take(n) =~= s);
    } else {
        assert(s.drop_last().take(n) =~= s.take(n));
        lemma_first_nested_prefix(s.drop_last(), n);
    }
    lemma_first_nested_range(s.take(n));
}

proof fn lemma_first_nested_range(s: Seq<Member>)
    ensures
        -1 <= first_nested_member(s) < s.len(),
    decreases s.len(),
{
    if s.len() > 0 {
        lemma_first_nested_range(s.drop_last());
    }
}

/// The ids of the outline members of relation `relation`, in order; or the
/// refusal of a relation that is itself an outline member.
pub fn ring_ids(relation: i64, members: &Vec<Member>) -> (r: Result<Vec<i64>, ExtractError>)
    ensures
        match r {
            Ok(ids) => ring_ids_spec(relation, members@) == Ok::<Seq<i64>, ExtractError>(ids@),
            Err(e) => ring_ids_spec(relation, members@) == Err::<Seq<i64>, ExtractError>(e),
        },
{
    let outer = "outer".to_owned();
    let inner = "inner".to_owned();
    let mut ids: Vec<i64> = Vec::new();
    let mut i: usize = 0;
    while i < members.len()
        invariant
            i <= members.len(),
            outer@ == "outer"@,
            inner@ == "inner"@,
            ids@ == ring_member_ids(members@.take(i as int)),
            first_nested_member(members@.take(i as int)) == -1,
        decreases members.len() - i,
    {
        let m = &members[i];
        let ring = match &m.role {
            Some(role) => *role == outer || *role == inner,
            None => false,
        };
        proof {
            assert(members@.take(i + 1).drop_last() =~= members@.take(i as int));
        }
        if ring {
            if m.kind == MemberKind::Relation {
                proof {
                    assert(first_nested_member(members@.take(i + 1)) == i);
                    lemma_first_nested_prefix(members@, i + 1);
                }
                return Err(ExtractError::UnsupportedMember { relation, member: m.id });
            }
            ids.push(m.id);
        }
        i = i + 1;
    }
    proof {
        assert(members@.take(i as int) =~= members@);
    }
    Ok(ids)
}

/// Whether `tags` mark an administrative boundary.
pub open spec fn is_admin_boundary(tags: Seq<Tag>) -> bool {
    has_tag(tags, "boundary"@, "administrative"@)
}

/// The edges of a boundary: the consecutive node pairs of each of its ways,
/// way after way.
pub open spec fn relation_edges(
    way_ids: Seq<i64>,
    ways: Map<i64, Seq<i64>>,
    nodes: Map<i64, Location>,
) -> Seq<Edge>
    decreases way_ids.len(),
{
    if way_ids.len() == 0 {
        Seq::empty()
    } else {
        relation_edges(way_ids.drop_last(), ways, nodes) + road_segments(ways[way_ids.last()], nodes)
    }
}

/// Whether every way of a boundary, and every node of those ways, is known.
pub open spec fn relation_resolved(
    way_ids: Seq<i64>,
    ways: Map<i64, Seq<i64>>,
    nodes: Map<i64, Location>,
) -> bool {
    forall|i: int|
        0 <= i < way_ids.len() ==> {
            &&& ways.contains_key(#[trigger] way_ids[i])
            &&& forall|j: int|
                0 <= j < ways[way_ids[i]].len() ==> nodes.contains_key(
                    #[trigger] ways[way_ids[i]][j],
                )
        }
}

/// Relation ids by name, a later entry replacing an earlier one of the same name.
pub open spec fn names_map(entries: Seq<(String, i64)>) -> Map<Seq<char>, i64>
    decreases entries.len(),
{
    if entries.len() == 0 {
        Map::empty()
    } else {
        names_map(entries.drop_last()).insert(entries.last().0@, entries.last().1)
    }
}

/// Reconstructs administrative boundaries over three passes: relations, then
/// their ways, then the ways' nodes.
pub struct BoundaryFinder {
    boundaries: Vec<(String, i64)>,
    boundary_ways: HashMap<i64, Vec<i64>>,
    way_ids: HashSet<i64>,
    ways: HashMap<i64, Vec<i64>>,
    node_ids: HashSet<i64>,
    nodes: HashMap<i64, Location>,
}

impl BoundaryFinder {
    /// Ids of the boundary relations found, by name; of two relations with
    /// the same name, the later one is kept.
    pub closed spec fn boundaries(&self) -> Map<Seq<char>, i64> {
        names_map(self.boundaries@)
    }

    /// Outline way ids of each boundary relation.
    pub closed spec fn boundary_ways(&self) -> Map<i64, Seq<i64>> {
        self.boundary_ways@.map_values(|v: Vec<i64>| v@)
    }

    /// Way ids whose nodes the second pass must record.
    pub closed spec fn way_ids(&self) -> Set<i64> {
        self.way_ids@
    }

    /// Node ids of the recorded ways, by way id.
    pub closed spec fn ways(&self) -> Map<i64, Seq<i64>> {
        self.ways@.map_values(|v: Vec<i64>| v@)
    }

    /// Node ids whose location the third pass must record.
    pub closed spec fn node_ids(&self) -> Set<i64> {
        self.node_ids@
    }

    /// Locations recorded so far, by node id.
    pub closed spec fn nodes(&self) -> Map<i64, Location> {
        self.nodes@
    }

    /// The edges of the region of boundary relation `relid`; none when the
    /// relation is unknown or not fully resolved.
    pub open spec fn region_edges(&self, relid: i64) -> Seq<Edge> {
        if self.boundary_ways().contains_key(relid) && relation_resolved(
            self.boundary_ways()[relid],
            self.ways(),
            self.nodes(),
        ) {
            relation_edges(self.boundary_ways()[relid], self.ways(), self.nodes())
        } else {
            Seq::empty()
        }
    }

    /// The region of a relation that was never recorded contains no point.
    pub proof fn lemma_unknown_relation_excludes(&self, relid: i64, q: Location)
        requires
            !self.boundary_ways().contains_key(relid),
        ensures
            !point_in_polygon(self.region_edges(relid), q),
    {
    }

    pub fn new() -> (r: BoundaryFinder)
        ensures
            r.boundaries() == Map::<Seq<char>, i64>::empty(),
            r.boundary_ways() == Map::<i64, Seq<i64>>::empty(),
            r.way_ids() == Set::<i64>::empty(),
            r.ways() == Map::<i64, Seq<i64>>::empty(),
            r.node_ids() == Set::<i64>::empty(),
            r.nodes() == Map::<i64, Location>::empty(),
    {
        let r = BoundaryFinder {
            boundaries: Vec::new(),
            boundary_ways: HashMap::new(),
            way_ids: HashSet::new(),
            ways: HashMap::new(),
            node_ids: HashSet::new(),
            nodes: HashMap::new(),
        };
        proof {
            assert(r.boundary_ways() =~= Map::<i64, Seq<i64>>::empty());
            assert(r.ways() =~= Map::<i64, Seq<i64>>::empty());
        }
        r
    }

    /// First pass: an administrative boundary relation is recorded with its
    /// name and its outer and inner member ways. A relation as such a member
    /// is refused, and nothing is recorded then.
    pub fn find_boundaries(&mut self, element: &MapElement) -> (r: Result<(), ExtractError>)
        ensures
            final(self).ways() == old(self).ways(),
            final(self).node_ids() == old(self).node_ids(),
            final(self).nodes() == old(self).nodes(),
            match element {
                MapElement::Relation { id, tags, members } if is_admin_boundary(tags@) => {
                    match ring_ids_spec(*id, members@) {
                        Ok(ids) => {
                            &&& r is Ok
                            &&& final(self).boundaries() == old(self).boundaries().insert(
                                relation_name(tags@),
                                *id,
                            )
                            &&& final(self).boundary_ways() == old(self).boundary_ways().insert(*id, ids)
                            &&& final(self).way_ids() == old(self).way_ids().union(ids.to_set())
                        },
                        Err(e) => {
                            &&& r == Err::<(), ExtractError>(e)
                            &&& final(self).boundaries() == old(self).boundaries()
                            &&& final(self).boundary_ways() == old(self).boundary_ways()
                            &&& final(self).way_ids() == old(self).way_ids()
                        },
                    }
                },
                _ => {
                    &&& r is Ok
                    &&& final(self).boundaries() == old(self).boundaries()
                    &&& final(self).boundary_ways() == old(self).boundary_ways()
                    &&& final(self).way_ids() == old(self).way_ids()
                },
            },
    {
        match element {
            MapElement::Relation { id, tags, members } => {
                let boundary = "boundary".to_owned();
                let administrative = "administrative".to_owned();
                if !find_tag(tags, &boundary, &administrative) {
                    return Ok(());
                }
                let ids = match ring_ids(*id, members) {
                    Ok(ids) => ids,
                    Err(e) => {
                        return Err(e);
                    },
                };
                let name = find_name(tags);
                insert_all(&mut self.way_ids, &ids);
                self.boundaries.push((name, *id));
                self.boundary_ways.insert(*id, ids);
                proof {
                    assert(self.boundaries@.drop_last() =~= old(self).boundaries@);
                    assert(self.boundary_ways() =~= old(self).boundary_ways().insert(
                        *id,
                        ring_member_ids(members@),
                    ));
                }
                Ok(())
            },
            _ => Ok(()),
        }
    }

    /// Second pass: a way of a recorded boundary has its node ids recorded,
    /// and those nodes are marked as pending.
    pub fn find_node_ids(&mut self, element: &MapElement)
        ensures
            final(self).boundaries() == old(self).boundaries(),
            final(self).boundary_ways() == old(self).boundary_ways(),
            final(self).way_ids() == old(self).way_ids(),
            final(self).nodes() == old(self).nodes(),
            match element {
                MapElement::Way { id, refs, .. } => if old(self).way_ids().contains(*id) {
                    &&& final(self).ways() == old(self).ways().insert(*id, refs@)
                    &&& final(self).node_ids() == old(self).node_ids().union(refs@.to_set())
                } else {
                    &&& final(self).ways() == old(self).ways()
                    &&& final(self).node_ids() == old(self).node_ids()
                },
                _ => {
                    &&& final(self).ways() == old(self).ways()
                    &&& final(self).node_ids() == old(self).node_ids()
                },
            },
    {
        match element {
            MapElement::Way { id, refs, .. } => {
                if self.way_ids.contains(id) {
                    insert_all(&mut self.node_ids, refs);
                    self.ways.insert(*id, refs.clone());
                    proof {
                        assert(self.ways() =~= old(self).ways().insert(*id, refs@));
                    }
                }
            },
            _ => {},
        }
    }

    /// The region of boundary relation `relid`: the consecutive node pairs of
    /// each of its ways, with no attempt to join the ways into a ring, ordered
    /// by their western longitude. A relation that is unknown, or one of whose ways or their nodes
    /// was not recorded, gives the empty region.
    pub fn filter(&self, relid: i64) -> (r: BoundaryFilter)
        ensures
            r.edges().to_multiset() == self.region_edges(relid).to_multiset(),
            sorted_west_to_east(r.edges()),
            forall|q: Location|
                point_in_polygon(r.edges(), q) == point_in_polygon(self.region_edges(relid), q),
    {
        let ghost ways = self.ways();
        let ghost nodes = self.nodes();
        let way_ids = match self.boundary_ways.get(&relid) {
            Some(w) => w,
            None => {
                return BoundaryFilter::empty();
            },
        };
        let ghost wids = way_ids@;
        assert(wids == self.boundary_ways()[relid]);
        let mut edges: Vec<Edge> = Vec::new();
        let mut k: usize = 0;
        while k < way_ids.len()
            invariant
                ways == self.ways(),
                nodes == self.nodes(),
                wids == way_ids@,
                self.boundary_ways().contains_key(relid),
                wids == self.boundary_ways()[relid],
                k <= wids.len(),
                edges@ == relation_edges(wids.take(k as int), ways, nodes),
                relation_resolved(wids.take(k as int), ways, nodes),
            decreases way_ids.len() - k,
        {
            let way = match self.ways.get(&way_ids[k]) {
                Some(w) => w,
                None => {
                    proof {
                        assert(!ways.contains_key(wids[k as int]));
                        assert(!relation_resolved(wids, ways, nodes));
                    }
                    return BoundaryFilter::empty();
                },
            };
            assert(way@ == ways[wids[k as int]]);
            if way.len() > 0 {
                if self.nodes.get(&way[0]).is_none() {
                    proof {
                        assert(!nodes.contains_key(ways[wids[k as int]][0]));
                        if relation_resolved(wids, ways, nodes) {
                            assert(ways.contains_key(wids[k as int]));
                        }
                    }
                    return BoundaryFilter::empty();
                }
            }
            let ghost base = edges@;
            let mut i: usize = 1;
            while i < way.len()
                invariant
                    ways == self.ways(),
                    nodes == self.nodes(),
                    wids == way_ids@,
                    self.boundary_ways().contains_key(relid),
                    wids == self.boundary_ways()[relid],
                    k < wids.len(),
                    way@ == ways[wids[k as int]],
                    1 <= i,
                    i <= way@.len() || i == 1,
                    edges@ == base + Seq::new(
                        (i - 1) as nat,
                        |s: int| (nodes[way@[s]], nodes[way@[s + 1]]),
                    ),
                    forall|j: int| 0 <= j < i && j < way@.len() ==> nodes.contains_key(#[trigger] way@[j]),
                decreases way.len() - i,
            {
                let a = match self.nodes.get(&way[i - 1]) {
                    Some(a) => *a,
                    None => {
                        proof {
                            assert(!nodes.contains_key(ways[wids[k as int]][i - 1]));
                            if relation_resolved(wids, ways, nodes) {
                                assert(ways.contains_key(wids[k as int]));
                            }
                        }
                        return BoundaryFilter::empty();
                    },
                };
                let b = match self.nodes.get(&way[i]) {
                    Some(b) => *b,
                    None => {
                        proof {
                            assert(!nodes.contains_key(ways[wids[k as int]][i as int]));
                            if relation_resolved(wids, ways, nodes) {
                                assert(ways.contains_key(wids[k as int]));
                            }
                        }
                        return BoundaryFilter::empty();
                    },
                };
                edges.push((a, b));
                proof {
                    assert(edges@ =~= base + Seq::new(
                        i as nat,
                        |s: int| (nodes[way@[s]], nodes[way@[s + 1]]),
                    ));
                }
                i = i + 1;
            }
            proof {
                assert(wids.take(k + 1).drop_last() =~= wids.take(k as int));
                assert(wids.take(k + 1).last() == wids[k as int]);
                assert(Seq::new((i - 1) as nat, |s: int| (nodes[way@[s]], nodes[way@[s + 1]]))
                    =~= road_segments(way@, nodes));
                assert(edges@ =~= relation_edges(wids.take(k + 1), ways, nodes));
                assert forall|t: int| 0 <= t < k + 1 implies {
                    &&& ways.contains_key(#[trigger] wids.take(k + 1)[t])
                    &&& forall|j: int|
                        0 <= j < ways[wids.take(k + 1)[t]].len() ==> nodes.contains_key(
                            #[trigger] ways[wids.take(k + 1)[t]][j],
                        )
                } by {
                    if t < k {
                        assert(wids.take(k + 1)[t] == wids.take(k as int)[t]);
                    }
                }
            }
            k = k + 1;
        }
        proof {
            assert(wids.take(k as int) =~= wids);
        }
        let ghost unsorted = edges@;
        sort_west_to_east(&mut edges);
        proof {
            assert forall|q: Location| point_in_polygon(edges@, q) == point_in_polygon(unsorted, q) by {
                lemma_crossings_permutation(edges@, unsorted, q);
            }
        }
        BoundaryFilter::new(edges)
    }

    /// Third pass: a node whose id is pending has its location recorded.
    pub fn find_nodes(&mut self, element: &MapElement)
        ensures
            final(self).boundaries() == old(self).boundaries(),
            final(self).boundary_ways() == old(self).boundary_ways(),
            final(self).way_ids() == old(self).way_ids(),
            final(self).ways() == old(self).ways(),
            final(self).node_ids() == old(self).node_ids(),
            final(self).nodes() == match element {
                MapElement::Node { id, location, .. } => if old(self).node_ids().contains(*id) {
                    old(self).nodes().insert(*id, *location)
                } else {
                    old(self).nodes()
                },
                _ => old(self).nodes(),
            },
    {
        match element {
            MapElement::Node { id, location, .. } => {
                if self.node_ids.contains(id) {
                    self.nodes.insert(*id, *location);
                }
            },
            _ => {},
        }
    }
}

} // verus!
