use vstd::prelude::*;
use crate::error::ExtractError;

verus! {

/// Sum of the elements of `s`.
pub open spec fn seq_sum(s: Seq<u64>) -> int
    decreases s.len(),
{
    if s.len() == 0 {
        0
    } else {
        seq_sum(s.drop_last()) + s.last()
    }
}

/// Total length of the first `r` roads, each road given by its segment lengths.
pub open spec fn roads_before(lengths: Seq<Seq<u64>>, r: int) -> int
    decreases r,
{
    if r <= 0 {
        0
    } else {
        roads_before(lengths, r - 1) + seq_sum(lengths[r - 1])
    }
}

/// Total length of a road network.
pub open spec fn network_length(lengths: Seq<Seq<u64>>) -> int {
    roads_before(lengths, lengths.len() as int)
}

pub proof fn lemma_seq_sum_nonneg(s: Seq<u64>)
    ensures
        seq_sum(s) >= 0,
    decreases s.len(),
{
    if s.len() > 0 {
        lemma_seq_sum_nonneg(s.drop_last());
    }
}

/// Sums of longer prefixes are no smaller.
pub proof fn lemma_prefix_sum_monotone(s: Seq<u64>, i: int, j: int)
    requires
        0 <= i <= j <= s.len(),
    ensures
        seq_sum(s.take(i)) <= seq_sum(s.take(j)),
    decreases j - i,
{
    if i < j {
        assert(s.take(j).drop_last() =~= s.take(j - 1));
        lemma_prefix_sum_monotone(s, i, j - 1);
    }
}

/// Totals over more roads are no smaller.
pub proof fn lemma_roads_before_monotone(lengths: Seq<Seq<u64>>, i: int, j: int)
    requires
        0 <= i <= j,
    ensures
        roads_before(lengths, i) <= roads_before(lengths, j),
    decreases j - i,
{
    if i < j {
        lemma_roads_before_monotone(lengths, i, j - 1);
        lemma_seq_sum_nonneg(lengths[j - 1]);
    }
}

/// Where an offset into the road network falls.
#[derive(Clone, Copy, Debug, PartialEq, Eq, Structural)]
pub struct Placement {
    /// Index of the road.
    pub road: usize,
    /// Index of the segment within the road.
    pub segment: usize,
    /// Distance from the segment's start to the point.
    pub offset: u64,
    /// Length of the segment.
    pub length: u64,
}

/// `p` is where offset `off` falls in the network `lengths`: the road is the
/// last one starting at or before `off`; within it, the segment is the first
/// one whose end lies at or beyond the offset into the road.
pub open spec fn placement_of(lengths: Seq<Seq<u64>>, off: int, p: Placement) -> bool {
    let r = p.road as int;
    let s = p.segment as int;
    let o = off - roads_before(lengths, r);
    &&& 0 <= r < lengths.len()
    &&& roads_before(lengths, r) <= off
    &&& r + 1 < lengths.len() ==> off < roads_before(lengths, r + 1)
    &&& 0 <= s < lengths[r].len()
    &&& s == 0 || seq_sum(lengths[r].take(s)) < o
    &&& o <= seq_sum(lengths[r].take(s + 1))
    &&& p.offset == o - seq_sum(lengths[r].take(s))
    &&& p.length == lengths[r][s]
}

/// Offsets land on a road exactly when they lie in that road's span of the
/// network, so uniformly drawn offsets land on each road in proportion to
/// its length.
pub proof fn lemma_road_share(lengths: Seq<Seq<u64>>, off: int, p: Placement, r: int)
    requires
        0 <= off < network_length(lengths),
        placement_of(lengths, off, p),
        0 <= r < lengths.len(),
    ensures
        p.road == r <==> roads_before(lengths, r) <= off < roads_before(lengths, r + 1),
{
    let q = p.road as int;
    if q < r {
        lemma_roads_before_monotone(lengths, q + 1, r);
    } else if q > r {
        lemma_roads_before_monotone(lengths, r + 1, q);
    } else if q + 1 == lengths.len() {
        assert(roads_before(lengths, r + 1) == network_length(lengths));
    }
}

pub open spec fn sorted(s: Seq<u64>) -> bool {
    forall|i: int, j: int| 0 <= i <= j < s.len() ==> s[i] <= s[j]
}

/// `|draw| mod total`: how a random draw becomes an offset into the network.
pub fn offset_from_draw(draw: i64, total: u64) -> (r: u64)
    requires
        total > 0,
    ensures
        r == (if draw < 0 { -draw } else { draw as int }) % (total as int),
{
    let magnitude: u64 = if draw < 0 {
        ((-(draw + 1)) as u64) + 1
    } else {
        draw as u64
    };
    magnitude % total
}

/// Relies on rand::random: one draw from the thread-local generator. Nothing
/// is promised of its value.
#[verifier::external_body]
pub(crate) fn random_i64() -> (r: i64) {
    rand::random::<i64>()
}

/// Relies on slice::sort_unstable: the same elements, in ascending order.
#[verifier::external_body]
fn sort_ascending(v: &mut Vec<u64>)
    ensures
        sorted(final(v)@),
        final(v)@.to_multiset() == old(v)@.to_multiset(),
{
    v.sort_unstable();
}

impl Placement {
    /// A placement is kept when its interpolation fraction
    /// `offset / length` lies in `[0, 1]`, which takes a segment of non-zero length.
    pub fn is_accepted(&self) -> (r: bool)
        ensures
            r == (self.length > 0),
    {
        self.length > 0
    }
}

/// The placements that are kept, in their order.
pub fn accepted_placements(placements: &Vec<Placement>) -> (r: Vec<Placement>)
    ensures
        r@ == placements@.filter(|p: Placement| p.length > 0),
{
    let mut out: Vec<Placement> = Vec::new();
    let mut i: usize = 0;
    while i < placements.len()
        invariant
            i <= placements.len(),
            out@ == placements@.take(i as int).filter(|p: Placement| p.length > 0),
        decreases placements.len() - i,
    {
        proof {
            reveal(Seq::filter);
            assert(placements@.take(i + 1).drop_last() =~= placements@.take(i as int));
        }
        if placements[i].is_accepted() {
            out.push(placements[i]);
        }
        i = i + 1;
    }
    proof {
        assert(placements@.take(i as int) =~= placements@);
    }
    out
}

/// Per-road start offsets and per-segment lengths of a road network, in a
/// common integer unit.
pub struct LengthIndex {
    lengths: Vec<Vec<u64>>,
    starts: Vec<u64>,
    total: u64,
}

impl LengthIndex {
    /// Segment lengths, road by road.
    pub closed spec fn lengths(&self) -> Seq<Seq<u64>> {
        self.lengths@.map_values(|v: Vec<u64>| v@)
    }

    pub closed spec fn wf(&self) -> bool {
        &&& self.starts@.len() == self.lengths@.len()
        &&& forall|r: int|
            0 <= r < self.starts@.len() ==> self.starts@[r] == roads_before(self.lengths(), r)
        &&& self.total == network_length(self.lengths())
    }

    /// Builds the index. Fails when the network's total length exceeds `u64`.
    pub fn new(lengths: Vec<Vec<u64>>) -> (r: Option<LengthIndex>)
        ensures
            match r {
                Some(idx) => {
                    &&& idx.wf()
                    &&& idx.lengths() == lengths@.map_values(|v: Vec<u64>| v@)
                },
                None => network_length(lengths@.map_values(|v: Vec<u64>| v@)) > u64::MAX,
            },
    {
        let ghost ls = lengths@.map_values(|v: Vec<u64>| v@);
        let mut starts: Vec<u64> = Vec::new();
        let mut total: u64 = 0;
        let mut r: usize = 0;
        while r < lengths.len()
            invariant
                r <= lengths.len(),
                ls == lengths@.map_values(|v: Vec<u64>| v@),
                starts@.len() == r,
                forall|k: int| 0 <= k < r ==> starts@[k] == roads_before(ls, k),
                total == roads_before(ls, r as int),
            decreases lengths.len() - r,
        {
            starts.push(total);
            let road = &lengths[r];
            let mut s: usize = 0;
            let ghost base = total as int;
            while s < road.len()
                invariant
                    s <= road.len(),
                    r < lengths.len(),
                    ls == lengths@.map_values(|v: Vec<u64>| v@),
                    base == roads_before(ls, r as int),
                    road@ == ls[r as int],
                    total == base + seq_sum(road@.take(s as int)),
                decreases road.len() - s,
            {
                proof {
                    assert(road@.take(s + 1).drop_last() =~= road@.take(s as int));
                }
                match total.checked_add(road[s]) {
                    Some(t) => {
                        total = t;
                    },
                    None => {
                        proof {
                            lemma_prefix_sum_monotone(road@, s + 1, road@.len() as int);
                            assert(road@.take(road@.len() as int) =~= road@);
                            assert(road@.take(s + 1).drop_last() =~= road@.take(s as int));
                            assert(roads_before(ls, r + 1) == base + seq_sum(road@));
                            lemma_roads_before_monotone(ls, r + 1, ls.len() as int);
                        }
                        return None;
                    },
                }
                s = s + 1;
            }
            proof {
                assert(road@.take(s as int) =~= road@);
            }
            r = r + 1;
        }
        Some(LengthIndex { lengths, starts, total })
    }

    /// Maps each of the ascending `offsets` to where it falls in the network.
    /// Offsets and the road and segment cursors only move forward, so the
    /// whole batch takes one sweep over the network.
    pub fn locate_sorted(&self, offsets: &Vec<u64>) -> (r: Vec<Placement>)
        requires
            self.wf(),
            sorted(offsets@),
            forall|i: int| 0 <= i < offsets@.len() ==> offsets@[i] < network_length(self.lengths()),
        ensures
            r@.len() == offsets@.len(),
            forall|i: int|
                0 <= i < offsets@.len() ==> placement_of(
                    self.lengths(),
                    offsets@[i] as int,
                    #[trigger] r@[i],
                ),
    {
        let ghost ls = self.lengths();
        let n = self.lengths.len();
        let mut out: Vec<Placement> = Vec::new();
        let mut road: usize = 0;
        let mut i: usize = 0;
        while i < offsets.len()
            invariant
                self.wf(),
                ls == self.lengths(),
                n == self.lengths@.len(),
                sorted(offsets@),
                forall|k: int| 0 <= k < offsets@.len() ==> offsets@[k] < network_length(ls),
                i <= offsets.len(),
                out@.len() == i,
                forall|k: int|
                    0 <= k < i ==> placement_of(ls, offsets@[k] as int, #[trigger] out@[k]),
                n == 0 || road < n,
                road == 0 || (i > 0 && roads_before(ls, road as int) <= offsets@[i - 1]),
            decreases offsets.len() - i,
        {
            let off = offsets[i];
            proof {
                if n == 0 {
                    assert(network_length(ls) == 0);
                }
                if road > 0 {
                    assert(offsets@[i - 1] <= offsets@[i as int]);
                }
            }
            while road + 1 < n && self.starts[road + 1] <= off
                invariant
                    self.wf(),
                    ls == self.lengths(),
                    n == self.lengths@.len(),
                    road < n,
                    roads_before(ls, road as int) <= off,
                decreases n - road,
            {
                road = road + 1;
            }
            let o = off - self.starts[road];
            let segs = &self.lengths[road];
            proof {
                assert(segs@ == ls[road as int]);
                assert(roads_before(ls, road + 1) == roads_before(ls, road as int) + seq_sum(segs@));
                lemma_roads_before_monotone(ls, road + 1, n as int);
                if segs@.len() == 0 {
                    if road + 1 < n {
                        assert(off < roads_before(ls, road + 1));
                    }
                }
            }
            let mut seg: usize = 0;
            let mut so_far: u64 = 0;
            proof {
                assert(segs@.take(0) =~= Seq::<u64>::empty());
                assert(segs@.take(1).drop_last() =~= segs@.take(0));
                assert(seq_sum(segs@.take(0)) == 0);
                assert(segs@.take(1).last() == segs@[0]);
                assert(seq_sum(segs@.take(1)) == segs@[0]);
                lemma_prefix_sum_monotone(segs@, 1, segs@.len() as int);
                assert(segs@.take(segs@.len() as int) =~= segs@);
            }
            while seg + 1 < segs.len() && so_far + segs[seg] < o
                invariant
                    segs@.len() > 0,
                    segs@.len() == segs.len(),
                    seg < segs@.len(),
                    seq_sum(segs@) <= u64::MAX,
                    so_far == seq_sum(segs@.take(seg as int)),
                    so_far + segs@[seg as int] == seq_sum(segs@.take(seg + 1)),
                    seq_sum(segs@.take(seg + 1)) <= seq_sum(segs@),
                    seg == 0 || so_far < o,
                decreases segs.len() - seg,
            {
                so_far = so_far + segs[seg];
                seg = seg + 1;
                proof {
                    assert(segs@.take(seg + 1).drop_last() =~= segs@.take(seg as int));
                    lemma_prefix_sum_monotone(segs@, seg + 1, segs@.len() as int);
                    assert(segs@.take(segs@.len() as int) =~= segs@);
                }
            }
            proof {
                assert(segs@.take(seg + 1).drop_last() =~= segs@.take(seg as int));
                if seg + 1 == segs.len() {
                    assert(segs@.take(seg + 1) =~= segs@);
                }
            }
            let p = Placement { road, segment: seg, offset: o - so_far, length: segs[seg] };
            out.push(p);
            proof {
                assert(placement_of(ls, off as int, p));
                assert forall|k: int| 0 <= k < i + 1 implies placement_of(
                    ls,
                    offsets@[k] as int,
                    #[trigger] out@[k],
                ) by {}
            }
            i = i + 1;
        }
        out
    }

    /// `count` offsets drawn over `[0, total)`, in ascending order.
    pub fn draw_offsets(&self, count: usize) -> (r: Vec<u64>)
        requires
            self.wf(),
            network_length(self.lengths()) > 0,
        ensures
            r@.len() == count,
            sorted(r@),
            forall|i: int| 0 <= i < r@.len() ==> r@[i] < network_length(self.lengths()),
    {
        let mut offsets: Vec<u64> = Vec::new();
        let mut i: usize = 0;
        while i < count
            invariant
                self.wf(),
                self.total > 0,
                i <= count,
                offsets@.len() == i,
                forall|k: int| 0 <= k < i ==> offsets@[k] < self.total,
            decreases count - i,
        {
            offsets.push(offset_from_draw(random_i64(), self.total));
            i = i + 1;
        }
        let ghost before = offsets@;
        sort_ascending(&mut offsets);
        proof {
            broadcast use vstd::seq_lib::group_to_multiset_ensures;

            assert(offsets@.to_multiset().len() == before.to_multiset().len());
            assert forall|k: int| 0 <= k < offsets@.len() implies offsets@[k] < self.total by {
                assert(offsets@.to_multiset().count(offsets@[k]) > 0);
                assert(before.contains(offsets@[k]));
            }
        }
        offsets
    }

    /// Draws `count` offsets, locates each, and keeps those on a segment of
    /// non-zero length. Sampling a network of zero length is refused.
    pub fn sample(&self, count: usize) -> (r: Result<Vec<Placement>, ExtractError>)
        requires
            self.wf(),
        ensures
            network_length(self.lengths()) == 0 <==> r == Err::<Vec<Placement>, ExtractError>(
                ExtractError::EmptyNetwork,
            ),
            network_length(self.lengths()) > 0 ==> r is Ok,
            r is Ok ==> exists|offs: Seq<u64>, ps: Seq<Placement>|
                {
                    &&& offs.len() == count
                    &&& ps.len() == count
                    &&& sorted(offs)
                    &&& forall|i: int|
                        0 <= i < count ==> {
                            &&& offs[i] < network_length(self.lengths())
                            &&& placement_of(self.lengths(), offs[i] as int, #[trigger] ps[i])
                        }
                    &&& r->Ok_0@ == ps.filter(|p: Placement| p.length > 0)
                },
    {
        if self.total == 0 {
            return Err(ExtractError::EmptyNetwork);
        }
        let offsets = self.draw_offsets(count);
        let located = self.locate_sorted(&offsets);
        let kept = accepted_placements(&located);
        proof {
            let ls = self.lengths();
            assert forall|i: int| 0 <= i < count implies {
                &&& offsets@[i] < network_length(ls)
                &&& placement_of(ls, offsets@[i] as int, #[trigger] located@[i])
            } by {}
        }
        Ok(kept)
    }

    /// Total length of the network.
    pub fn total(&self) -> (r: u64)
        requires
            self.wf(),
        ensures
            r == network_length(self.lengths()),
    {
        self.total
    }
}

} // verus!
