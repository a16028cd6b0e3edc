use placeguessr::boundary::{BoundaryFilter, BoundaryFilterWriter, BoundaryFinder};
use placeguessr::element::{MapElement, Member, MemberKind, Tag, TagFilter};
use placeguessr::error::ExtractError;
use placeguessr::extractor::{Counter, KvNodeExtractor};
use placeguessr::location::Location;
use placeguessr::roads::RoadExtractor;

fn tag(k: &str, v: &str) -> Tag {
    Tag { key: k.to_string(), value: v.to_string() }
}

fn deg(lat: i32, lon: i32) -> Location {
    Location::new(lat * 10_000_000, lon * 10_000_000)
}

fn node(id: i64, location: Location, tags: Vec<Tag>) -> MapElement {
    MapElement::Node { id, location, tags }
}

fn way(id: i64, refs: Vec<i64>, tags: Vec<Tag>) -> MapElement {
    MapElement::Way { id, refs, tags }
}

fn member(id: i64, kind: MemberKind, role: Option<&str>) -> Member {
    Member { id, kind, role: role.map(|r| r.to_string()) }
}

#[test]
fn tag_filter_matches_key_and_value() {
    let f = TagFilter::new("brand", Some("Walmart"));
    assert!(f.does_tag_match(&tag("brand", "Walmart")));
    assert!(!f.does_tag_match(&tag("brand", "Target")));
    assert!(!f.does_tag_match(&tag("name", "Walmart")));
    let any = TagFilter::new("highway", None);
    assert!(any.does_tag_match(&tag("highway", "residential")));
    assert_eq!(any.matching_count(&vec![tag("highway", "a"), tag("x", "y"), tag("highway", "b")]), 2);
}

#[test]
fn node_and_way_give_two_points() {
    let mut ex = KvNodeExtractor::new("brand", Some("McDonald's"));
    let dataset = vec![
        node(1, deg(10, 20), vec![tag("brand", "McDonald's")]),
        node(2, deg(30, 40), vec![]),
        node(3, deg(31, 41), vec![tag("amenity", "cafe")]),
        way(100, vec![2, 3], vec![tag("brand", "McDonald's"), tag("building", "yes")]),
    ];
    for e in dataset.iter() {
        ex.process(e);
    }
    for e in dataset.iter() {
        ex.second_pass(e);
    }
    assert_eq!(ex.export(), vec![deg(10, 20), deg(30, 40)]);
}

#[test]
fn node_with_repeated_matching_tag_is_recorded_per_tag() {
    let mut ex = KvNodeExtractor::new("brand", None);
    ex.process(&node(1, deg(1, 1), vec![tag("brand", "A"), tag("brand", "B")]));
    assert_eq!(ex.export(), vec![deg(1, 1), deg(1, 1)]);
}

#[test]
fn counter_counts_kinds() {
    let mut c = Counter::new();
    c.process(&node(1, deg(0, 0), vec![]));
    c.process(&way(2, vec![1], vec![]));
    c.process(&node(3, deg(0, 0), vec![]));
    assert_eq!((c.nodes, c.ways, c.relations), (2, 1, 0));
}

fn square_edges() -> Vec<(Location, Location)> {
    vec![
        (deg(0, 0), deg(0, 10)),
        (deg(0, 10), deg(10, 10)),
        (deg(10, 10), deg(10, 0)),
        (deg(10, 0), deg(0, 0)),
    ]
}

#[test]
fn unit_square_contains_center_not_far_point() {
    let f = BoundaryFilter::new(square_edges());
    assert!(f.contains(&deg(5, 5)));
    assert!(!f.contains(&deg(20, 20)));
    assert!(!f.contains(&deg(-5, 5)));
}

#[test]
fn sloped_edge_uses_interpolated_latitude() {
    // A triangle with one sloped edge from (0,0) to (10,10).
    let f = BoundaryFilter::new(vec![
        (deg(0, 0), deg(10, 10)),
        (deg(10, 10), deg(0, 10)),
        (deg(0, 10), deg(0, 0)),
    ]);
    assert!(f.contains(&deg(2, 5)));
    assert!(!f.contains(&deg(8, 5)));
}

#[test]
fn union_of_regions() {
    let square = BoundaryFilter::new(square_edges());
    let shifted = BoundaryFilter::new(
        square_edges()
            .into_iter()
            .map(|(a, b)| {
                (
                    Location::new(a.latitude + 200_000_000, a.longitude),
                    Location::new(b.latitude + 200_000_000, b.longitude),
                )
            })
            .collect(),
    );
    let w = BoundaryFilterWriter::new(vec![square, shifted]);
    assert!(w.accepts(&deg(5, 5)));
    assert!(w.accepts(&deg(25, 5)));
    assert!(!w.accepts(&deg(15, 5)));
    let kept = w.retain_inside(&vec![deg(5, 5), deg(15, 5), deg(25, 5)]);
    assert_eq!(kept, vec![deg(5, 5), deg(25, 5)]);
    let none = BoundaryFilterWriter::new(vec![]);
    assert!(!none.accepts(&deg(5, 5)));
}

fn boundary_dataset() -> Vec<MapElement> {
    vec![
        node(1, deg(0, 0), vec![]),
        node(2, deg(0, 10), vec![]),
        node(3, deg(10, 10), vec![]),
        node(4, deg(10, 0), vec![]),
        way(10, vec![1, 2, 3], vec![]),
        way(11, vec![3, 4, 1], vec![]),
        MapElement::Relation {
            id: 500,
            tags: vec![tag("type", "boundary"), tag("name", "Square"), tag("boundary", "administrative")],
            members: vec![
                member(10, MemberKind::Way, Some("outer")),
                member(11, MemberKind::Way, Some("outer")),
                member(3, MemberKind::Node, Some("admin_centre")),
                member(12, MemberKind::Way, None),
            ],
        },
    ]
}

#[test]
fn boundary_finder_builds_region_over_three_passes() {
    let mut g = BoundaryFinder::new();
    let data = boundary_dataset();
    for e in data.iter() {
        assert_eq!(g.find_boundaries(e), Ok(()));
    }
    for e in data.iter() {
        g.find_node_ids(e);
    }
    for e in data.iter() {
        g.find_nodes(e);
    }
    let f = g.filter(500);
    assert!(f.contains(&deg(5, 5)));
    assert!(!f.contains(&deg(20, 20)));
    let edges = f.edge_list();
    assert_eq!(edges.len(), 4);
    let west: Vec<i32> = edges.iter().map(|(a, b)| a.longitude.min(b.longitude)).collect();
    assert_eq!(west, vec![0, 0, 0, 100_000_000]);
}

#[test]
fn unknown_relation_gives_empty_region() {
    let mut g = BoundaryFinder::new();
    let data = boundary_dataset();
    for e in data.iter() {
        g.find_boundaries(e).unwrap();
    }
    let f = g.filter(999);
    assert!(!f.contains(&deg(5, 5)));
    assert!(!f.contains(&deg(0, 0)));
    // The ways of relation 500 were never resolved either.
    assert!(!g.filter(500).contains(&deg(5, 5)));
}

#[test]
fn relation_as_outline_member_is_refused() {
    let mut g = BoundaryFinder::new();
    let rel = MapElement::Relation {
        id: 7,
        tags: vec![tag("boundary", "administrative")],
        members: vec![member(10, MemberKind::Way, Some("outer")), member(8, MemberKind::Relation, Some("inner"))],
    };
    assert_eq!(
        g.find_boundaries(&rel),
        Err(ExtractError::UnsupportedMember { relation: 7, member: 8 })
    );
    let other = MapElement::Relation {
        id: 9,
        tags: vec![tag("boundary", "political")],
        members: vec![member(8, MemberKind::Relation, Some("outer"))],
    };
    assert_eq!(g.find_boundaries(&other), Ok(()));
}

#[test]
fn road_extractor_resolves_segments() {
    let mut roads = RoadExtractor::new();
    let data = vec![
        node(1, deg(0, 0), vec![]),
        node(2, deg(0, 1), vec![]),
        node(3, deg(1, 1), vec![]),
        way(20, vec![1, 2, 3], vec![tag("highway", "primary")]),
        way(21, vec![1, 3], vec![tag("building", "yes")]),
    ];
    for e in data.iter() {
        roads.collect_road(e, true);
    }
    for e in data.iter() {
        roads.second_pass(e);
    }
    let segs = roads.segments().unwrap();
    assert_eq!(segs, vec![vec![(deg(0, 0), deg(0, 1)), (deg(0, 1), deg(1, 1))]]);
}

#[test]
fn road_with_unresolved_node_is_an_error() {
    let mut roads = RoadExtractor::new();
    roads.collect_road(&way(20, vec![1, 2], vec![tag("highway", "primary")]), true);
    roads.second_pass(&node(1, deg(0, 0), vec![]));
    assert_eq!(roads.segments(), Err(ExtractError::UnresolvedNode(2)));
}

#[test]
fn road_not_kept_is_not_collected() {
    let mut roads = RoadExtractor::new();
    roads.collect_road(&way(20, vec![1, 2], vec![tag("highway", "primary")]), false);
    roads.second_pass(&node(1, deg(0, 0), vec![]));
    assert_eq!(roads.segments(), Ok(vec![]));
}

#[test]
fn boundary_with_unresolved_lone_node_gives_empty_region() {
    let mut g = BoundaryFinder::new();
    let mut data = boundary_dataset();
    data.push(way(12, vec![99], vec![]));
    for e in data.iter() {
        g.find_boundaries(e).unwrap();
    }
    for e in data.iter() {
        g.find_node_ids(e);
    }
    for e in data.iter() {
        g.find_nodes(e);
    }
    // Member 12 has no role, so it is not part of the outline.
    assert!(g.filter(500).contains(&deg(5, 5)));
    let rel = MapElement::Relation {
        id: 501,
        tags: vec![tag("boundary", "administrative")],
        members: vec![member(10, MemberKind::Way, Some("outer")), member(12, MemberKind::Way, Some("inner"))],
    };
    let mut h = BoundaryFinder::new();
    data.push(rel);
    for e in data.iter() {
        h.find_boundaries(e).unwrap();
    }
    for e in data.iter() {
        h.find_node_ids(e);
    }
    for e in data.iter() {
        h.find_nodes(e);
    }
    assert!(h.filter(501).edge_list().is_empty());
}
