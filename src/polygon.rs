use vstd::prelude::*;
use crate::location::Location;

verus! {

/// A directed boundary edge between two points.
pub type Edge = (Location, Location);

/// Whether the latitude of the straight line through `(x1, y1)` and `(x2, y2)`,
/// taken at longitude `x`, is at most `y`. The line must not be vertical.
/// Written without division: the interpolated latitude is
/// `y1 + (y2 - y1) * (x - x1) / (x2 - x1)`, compared exactly.
pub open spec fn lerp_at_or_below(x1: int, x2: int, y1: int, y2: int, x: int, y: int) -> bool {
    if x2 > x1 {
        (y2 - y1) * (x - x1) <= (y - y1) * (x2 - x1)
    } else {
        (y2 - y1) * (x - x1) >= (y - y1) * (x2 - x1)
    }
}

/// Whether the edge `(a, b)` crosses the ray cast due south from `q`.
/// The half-open comparisons keep a vertex shared by two edges from being
/// counted twice.
pub open spec fn edge_crosses(a: Location, b: Location, q: Location) -> bool {
    if a.longitude <= q.longitude && b.longitude <= q.longitude {
        false
    } else if a.longitude >= q.longitude && b.longitude >= q.longitude {
        false
    } else if a.latitude >= q.latitude && b.latitude >= q.latitude {
        false
    } else if a.latitude <= q.latitude && b.latitude <= q.latitude {
        true
    } else {
        lerp_at_or_below(
            a.longitude as int,
            b.longitude as int,
            a.latitude as int,
            b.latitude as int,
            q.longitude as int,
            q.latitude as int,
        )
    }
}

/// How many of `edges` cross the ray cast due south from `q`.
pub open spec fn crossings(edges: Seq<Edge>, q: Location) -> nat
    decreases edges.len(),
{
    if edges.len() == 0 {
        0
    } else {
        crossings(edges.drop_last(), q) + if edge_crosses(edges.last().0, edges.last().1, q) {
            1nat
        } else {
            0nat
        }
    }
}

/// How many edges cross the ray when the edge at index `j` is taken out.
proof fn lemma_crossings_remove(edges: Seq<Edge>, j: int, q: Location)
    requires
        0 <= j < edges.len(),
    ensures
        crossings(edges, q) == crossings(edges.remove(j), q) + if edge_crosses(
            edges[j].0,
            edges[j].1,
            q,
        ) {
            1nat
        } else {
            0nat
        },
    decreases edges.len(),
{
    if j == edges.len() - 1 {
        assert(edges.remove(j) =~= edges.drop_last());
    } else {
        lemma_crossings_remove(edges.drop_last(), j, q);
        assert(edges.remove(j).drop_last() =~= edges.drop_last().remove(j));
        assert(edges.remove(j).last() == edges.last());
    }
}

/// The crossing count depends only on which edges there are, not on their order.
pub proof fn lemma_crossings_permutation(s: Seq<Edge>, t: Seq<Edge>, q: Location)
    requires
        s.to_multiset() == t.to_multiset(),
    ensures
        crossings(s, q) == crossings(t, q),
    decreases s.len(),
{
    broadcast use vstd::seq_lib::group_to_multiset_ensures;

    if s.len() == 0 {
        assert(t.to_multiset().len() == 0);
    } else {
        let x = s.last();
        assert(s.drop_last().push(x) =~= s);
        assert(s.to_multiset().count(x) > 0);
        assert(t.contains(x));
        let j = choose|j: int| 0 <= j < t.len() && t[j] == x;
        assert(t.remove(j).to_multiset() =~= s.drop_last().to_multiset());
        lemma_crossings_permutation(s.drop_last(), t.remove(j), q);
        lemma_crossings_remove(t, j, q);
    }
}

/// The western longitude of an edge: the smaller of its endpoints' longitudes.
pub open spec fn west_of(e: Edge) -> i32 {
    if e.0.longitude <= e.1.longitude {
        e.0.longitude
    } else {
        e.1.longitude
    }
}

pub fn west_longitude(e: &Edge) -> (r: i32)
    ensures
        r == west_of(*e),
{
    if e.0.longitude <= e.1.longitude {
        e.0.longitude
    } else {
        e.1.longitude
    }
}

/// Whether `edges` are ordered by their western longitude.
pub open spec fn sorted_west_to_east(edges: Seq<Edge>) -> bool {
    forall|i: int, j: int| 0 <= i <= j < edges.len() ==> west_of(edges[i]) <= west_of(edges[j])
}

/// Relies on slice::sort_by_key: the same edges, ordered by the key that
/// [`west_longitude`] gives.
#[verifier::external_body]
pub(crate) fn sort_west_to_east(edges: &mut Vec<Edge>)
    ensures
        final(edges)@.to_multiset() == old(edges)@.to_multiset(),
        sorted_west_to_east(final(edges)@),
{
    edges.sort_by_key(|e| west_longitude(e));
}

/// Even-odd rule: `q` is inside when an odd number of edges cross its ray.
pub open spec fn point_in_polygon(edges: Seq<Edge>, q: Location) -> bool {
    crossings(edges, q) % 2 == 1
}

/// Exact form of [`lerp_at_or_below`] on coordinates.
pub fn flat_lerp_at_or_below(x1: i32, x2: i32, y1: i32, y2: i32, x: i32, y: i32) -> (r: bool)
    requires
        x1 != x2,
    ensures
        r == lerp_at_or_below(x1 as int, x2 as int, y1 as int, y2 as int, x as int, y as int),
{
    let dy: i128 = y2 as i128 - y1 as i128;
    let dx_q: i128 = x as i128 - x1 as i128;
    let dy_q: i128 = y as i128 - y1 as i128;
    let dx: i128 = x2 as i128 - x1 as i128;
    assert(-0x1_0000_0000 * 0x1_0000_0000 <= dy * dx_q <= 0x1_0000_0000 * 0x1_0000_0000)
        by (nonlinear_arith)
        requires
            -0x1_0000_0000 <= dy <= 0x1_0000_0000,
            -0x1_0000_0000 <= dx_q <= 0x1_0000_0000,
    ;
    assert(-0x1_0000_0000 * 0x1_0000_0000 <= dy_q * dx <= 0x1_0000_0000 * 0x1_0000_0000)
        by (nonlinear_arith)
        requires
            -0x1_0000_0000 <= dy_q <= 0x1_0000_0000,
            -0x1_0000_0000 <= dx <= 0x1_0000_0000,
    ;
    let lhs: i128 = dy * dx_q;
    let rhs: i128 = dy_q * dx;
    if x2 > x1 {
        lhs <= rhs
    } else {
        lhs >= rhs
    }
}

/// Whether the edge `(a, b)` crosses the ray cast due south from `q`.
pub fn edge_crosses_ray(a: &Location, b: &Location, q: &Location) -> (r: bool)
    ensures
        r == edge_crosses(*a, *b, *q),
{
    if a.longitude <= q.longitude && b.longitude <= q.longitude {
        false
    } else if a.longitude >= q.longitude && b.longitude >= q.longitude {
        false
    } else if a.latitude >= q.latitude && b.latitude >= q.latitude {
        false
    } else if a.latitude <= q.latitude && b.latitude <= q.latitude {
        true
    } else {
        flat_lerp_at_or_below(
            a.longitude,
            b.longitude,
            a.latitude,
            b.latitude,
            q.longitude,
            q.latitude,
        )
    }
}

/// Even-odd ray-casting test of `q` against an unordered set of edges.
pub fn point_in_polygon_exec(edges: &Vec<Edge>, q: &Location) -> (r: bool)
    ensures
        r == point_in_polygon(edges@, *q),
{
    let mut odd = false;
    let mut i: usize = 0;
    while i < edges.len()
        invariant
            i <= edges.len(),
            odd == (crossings(edges@.take(i as int), *q) % 2 == 1),
        decreases edges.len() - i,
    {
        let crosses = edge_crosses_ray(&edges[i].0, &edges[i].1, q);
        proof {
            assert(edges@.take(i + 1).drop_last() =~= edges@.take(i as int));
        }
        if crosses {
            odd = !odd;
        }
        i = i + 1;
    }
    proof {
        assert(edges@.take(i as int) =~= edges@);
    }
    odd
}

} // verus!
