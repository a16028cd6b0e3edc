use vstd::prelude::*;
use std::collections::{HashMap, HashSet};
use crate::element::{find_key, has_key, insert_all, MapElement};
use crate::error::ExtractError;
use crate::location::Location;
use crate::polygon::Edge;

verus! {

broadcast use vstd::std_specs::hash::group_hash_axioms;

/// Whether `element` is a way tagged as a road.
pub open spec fn is_road(element: MapElement) -> bool {
    match element {
        MapElement::Way { tags, .. } => has_key(tags@, "highway"@),
        _ => false,
    }
}

/// The consecutive node pairs of `road`, each node replaced by its location.
pub open spec fn road_segments(road: Seq<i64>, nodes: Map<i64, Location>) -> Seq<Edge> {
    Seq::new(
        if road.len() > 0 { (road.len() - 1) as nat } else { 0 },
        |s: int| (nodes[road[s]], nodes[road[s + 1]]),
    )
}

/// Whether every node of every road with at least one segment has a location.
pub open spec fn segments_resolved(roads: Seq<Seq<i64>>, nodes: Map<i64, Location>) -> bool {
    forall|r: int, i: int|
        0 <= r < roads.len() && roads[r].len() >= 2 && 0 <= i < roads[r].len()
            ==> nodes.contains_key(#[trigger] roads[r][i])
}

/// Relies on rand::Rng::gen_ratio on the thread-local generator: `true` with
/// probability `numerator / denominator`; always when they are equal, never
/// when the numerator is zero. It panics when the denominator is zero or
/// below the numerator.
#[verifier::external_body]
fn bernoulli(numerator: u32, denominator: u32) -> (r: bool)
    requires
        0 < denominator,
        numerator <= denominator,
    ensures
        numerator == denominator ==> r,
        numerator == 0 ==> !r,
{
    rand::Rng::gen_ratio(&mut rand::thread_rng(), numerator, denominator)
}

/// Out of how many roads one is kept, to bound memory on large datasets.
pub const ROAD_KEEP_ONE_IN: u32 = 100;

/// Collects a random subset of the road network and the locations of its nodes.
pub struct RoadExtractor {
    node_ids: HashSet<i64>,
    nodes: HashMap<i64, Location>,
    roads: Vec<Vec<i64>>,
}

impl RoadExtractor {
    /// Node ids whose location the second pass must record.
    pub closed spec fn pending(&self) -> Set<i64> {
        self.node_ids@
    }

    /// Locations recorded so far, by node id.
    pub closed spec fn resolved(&self) -> Map<i64, Location> {
        self.nodes@
    }

    /// The kept roads, each as its sequence of node ids.
    pub closed spec fn roads(&self) -> Seq<Seq<i64>> {
        self.roads@.map_values(|r: Vec<i64>| r@)
    }

    pub fn new() -> (r: RoadExtractor)
        ensures
            r.pending() == Set::<i64>::empty(),
            r.resolved() == Map::<i64, Location>::empty(),
            r.roads() == Seq::<Seq<i64>>::empty(),
    {
        let r = RoadExtractor { node_ids: HashSet::new(), nodes: HashMap::new(), roads: Vec::new() };
        proof {
            assert(r.roads() =~= Seq::<Seq<i64>>::empty());
        }
        r
    }

    /// Keeps the road `element` when `keep` holds: its node ids are appended
    /// to the road list and marked as pending.
    pub fn collect_road(&mut self, element: &MapElement, keep: bool)
        ensures
            final(self).resolved() == old(self).resolved(),
            match element {
                MapElement::Way { refs, .. } => if is_road(*element) && keep {
                    &&& final(self).roads() == old(self).roads().push(refs@)
                    &&& final(self).pending() == old(self).pending().union(refs@.to_set())
                } else {
                    &&& final(self).roads() == old(self).roads()
                    &&& final(self).pending() == old(self).pending()
                },
                _ => {
                    &&& final(self).roads() == old(self).roads()
                    &&& final(self).pending() == old(self).pending()
                },
            },
    {
        match element {
            MapElement::Way { refs, tags, .. } => {
                let highway = "highway".to_owned();
                if keep && find_key(tags, &highway) {
                    insert_all(&mut self.node_ids, refs);
                    let road = refs.clone();
                    self.roads.push(road);
                    proof {
                        assert(self.roads() =~= old(self).roads().push(refs@));
                    }
                }
            },
            _ => {},
        }
    }

    /// First pass: each road is kept with probability one in
    /// [`ROAD_KEEP_ONE_IN`].
    pub fn first_pass(&mut self, element: &MapElement)
        ensures
            final(self).resolved() == old(self).resolved(),
            ({
                let unchanged = final(self).roads() == old(self).roads() && final(self).pending()
                    == old(self).pending();
                match element {
                    MapElement::Way { refs, .. } => if is_road(*element) {
                        unchanged || {
                            &&& final(self).roads() == old(self).roads().push(refs@)
                            &&& final(self).pending() == old(self).pending().union(refs@.to_set())
                        }
                    } else {
                        unchanged
                    },
                    _ => unchanged,
                }
            }),
    {
        let keep = match element {
            MapElement::Way { tags, .. } => {
                let highway = "highway".to_owned();
                find_key(tags, &highway) && bernoulli(1, ROAD_KEEP_ONE_IN)
            },
            _ => false,
        };
        self.collect_road(element, keep);
    }

    /// Second pass: a node whose id is pending has its location recorded.
    pub fn second_pass(&mut self, element: &MapElement)
        ensures
            final(self).pending() == old(self).pending(),
            final(self).roads() == old(self).roads(),
            final(self).resolved() == match element {
                MapElement::Node { id, location, .. } => if old(self).pending().contains(*id) {
                    old(self).resolved().insert(*id, *location)
                } else {
                    old(self).resolved()
                },
                _ => old(self).resolved(),
            },
    {
        match element {
            MapElement::Node { id, location, .. } => {
                if self.node_ids.contains(id) {
                    self.nodes.insert(*id, *location);
                }
            },
            _ => {},
        }
    }

    /// The segments of every kept road, as pairs of endpoint locations. Fails
    /// with the first node id of a segment that has no recorded location.
    pub fn segments(&self) -> (r: Result<Vec<Vec<Edge>>, ExtractError>)
        ensures
            match r {
                Ok(segs) => {
                    &&& segments_resolved(self.roads(), self.resolved())
                    &&& segs@.len() == self.roads().len()
                    &&& forall|k: int|
                        0 <= k < segs@.len() ==> (#[trigger] segs@[k])@ == road_segments(
                            self.roads()[k],
                            self.resolved(),
                        )
                },
                Err(e) => {
                    &&& !segments_resolved(self.roads(), self.resolved())
                    &&& exists|k: int, i: int|
                        0 <= k < self.roads().len() && 0 <= i < self.roads()[k].len()
                            && !self.resolved().contains_key(self.roads()[k][i]) && e
                            == ExtractError::UnresolvedNode(self.roads()[k][i])
                },
            },
    {
        let ghost roads = self.roads();
        let ghost nodes = self.resolved();
        let mut out: Vec<Vec<Edge>> = Vec::new();
        let mut k: usize = 0;
        while k < self.roads.len()
            invariant
                roads == self.roads(),
                nodes == self.resolved(),
                k <= self.roads@.len(),
                out@.len() == k,
                forall|j: int|
                    0 <= j < k ==> (#[trigger] out@[j])@ == road_segments(roads[j], nodes),
                forall|r: int, i: int|
                    0 <= r < k && roads[r].len() >= 2 && 0 <= i < roads[r].len()
                        ==> nodes.contains_key(#[trigger] roads[r][i]),
            decreases self.roads.len() - k,
        {
            let road = &self.roads[k];
            assert(road@ == roads[k as int]);
            let mut segs: Vec<Edge> = Vec::new();
            let mut i: usize = 1;
            while i < road.len()
                invariant
                    road@ == roads[k as int],
                    roads == self.roads(),
                    nodes == self.resolved(),
                    1 <= i,
                    k < roads.len(),
                    segs@.len() == i - 1,
                    forall|s: int|
                        0 <= s < i - 1 ==> #[trigger] segs@[s] == (
                            nodes[road@[s]],
                            nodes[road@[s + 1]],
                        ),
                    i <= road@.len() || i == 1,
                    forall|j: int| i >= 2 && 0 <= j < i ==> nodes.contains_key(#[trigger] road@[j]),
                decreases road.len() - i,
            {
                let a = match self.nodes.get(&road[i - 1]) {
                    Some(a) => *a,
                    None => {
                        proof {
                            assert(roads[k as int][i - 1] == road@[i - 1]);
                        }
                        return Err(ExtractError::UnresolvedNode(road[i - 1]));
                    },
                };
                let b = match self.nodes.get(&road[i]) {
                    Some(b) => *b,
                    None => {
                        proof {
                            assert(roads[k as int][i as int] == road@[i as int]);
                        }
                        return Err(ExtractError::UnresolvedNode(road[i]));
                    },
                };
                segs.push((a, b));
                i = i + 1;
            }
            proof {
                assert(segs@ =~= road_segments(roads[k as int], nodes));
            }
            out.push(segs);
            k = k + 1;
        }
        Ok(out)
    }
}

} // verus!
