use placeguessr::error::ExtractError;
use placeguessr::record::{decode_records, encode_records, PointRecord};
use placeguessr::sampling::{accepted_placements, offset_from_draw, LengthIndex, Placement};

const KM: u64 = 1_000_000;

fn two_roads() -> LengthIndex {
    LengthIndex::new(vec![vec![KM], vec![3 * KM]]).unwrap()
}

#[test]
fn offsets_land_on_weighted_roads() {
    let idx = two_roads();
    assert_eq!(idx.total(), 4 * KM);
    let ps = idx.locate_sorted(&vec![KM / 2, KM, 3 * KM / 2]);
    assert_eq!(ps[0], Placement { road: 0, segment: 0, offset: KM / 2, length: KM });
    // An offset at the start of road B lands there with fraction 0.
    assert_eq!(ps[1], Placement { road: 1, segment: 0, offset: 0, length: 3 * KM });
    assert_eq!(ps[2], Placement { road: 1, segment: 0, offset: KM / 2, length: 3 * KM });
}

#[test]
fn evenly_spread_offsets_split_three_to_one() {
    let idx = two_roads();
    let offsets: Vec<u64> = (0..4000u64).map(|i| i * 1000).collect();
    let ps = idx.locate_sorted(&offsets);
    let on_b = ps.iter().filter(|p| p.road == 1).count();
    assert_eq!(on_b * 4, ps.len() * 3);
}

#[test]
fn random_samples_favour_longer_road() {
    let idx = two_roads();
    let ps = idx.sample(20_000).unwrap();
    assert_eq!(ps.len(), 20_000);
    let on_b = ps.iter().filter(|p| p.road == 1).count() as f64 / ps.len() as f64;
    assert!((on_b - 0.75).abs() < 0.03, "fraction on road B: {}", on_b);
}

#[test]
fn drawn_offsets_are_sorted_and_in_range() {
    let idx = two_roads();
    let offsets = idx.draw_offsets(1000);
    assert_eq!(offsets.len(), 1000);
    assert!(offsets.windows(2).all(|w| w[0] <= w[1]));
    assert!(offsets.iter().all(|o| *o < 4 * KM));
}

#[test]
fn segments_within_a_road() {
    let idx = LengthIndex::new(vec![vec![], vec![100, 0, 200], vec![50]]).unwrap();
    let ps = idx.locate_sorted(&vec![0, 100, 101, 300, 320]);
    assert_eq!(ps[0], Placement { road: 1, segment: 0, offset: 0, length: 100 });
    assert_eq!(ps[1], Placement { road: 1, segment: 0, offset: 100, length: 100 });
    assert_eq!(ps[2], Placement { road: 1, segment: 2, offset: 1, length: 200 });
    assert_eq!(ps[3], Placement { road: 2, segment: 0, offset: 0, length: 50 });
    assert_eq!(ps[4], Placement { road: 2, segment: 0, offset: 20, length: 50 });
}

#[test]
fn zero_length_segment_is_dropped() {
    let idx = LengthIndex::new(vec![vec![0, 10]]).unwrap();
    let ps = idx.locate_sorted(&vec![0, 5]);
    assert_eq!(ps[0], Placement { road: 0, segment: 0, offset: 0, length: 0 });
    assert!(!ps[0].is_accepted());
    assert!(ps[1].is_accepted());
    assert_eq!(accepted_placements(&ps), vec![ps[1]]);
}

#[test]
fn empty_network_cannot_be_sampled() {
    let idx = LengthIndex::new(vec![vec![], vec![0]]).unwrap();
    assert_eq!(idx.sample(10), Err(ExtractError::EmptyNetwork));
}

#[test]
fn overlong_network_is_refused() {
    assert!(LengthIndex::new(vec![vec![u64::MAX], vec![1]]).is_none());
    assert!(LengthIndex::new(vec![vec![u64::MAX - 1], vec![1]]).is_some());
}

#[test]
fn draws_become_offsets_by_magnitude() {
    assert_eq!(offset_from_draw(17, 5), 2);
    assert_eq!(offset_from_draw(-17, 5), 2);
    assert_eq!(offset_from_draw(i64::MIN, 10), 8);
    assert_eq!(offset_from_draw(0, 3), 0);
}

#[test]
fn point_records_round_trip() {
    let points: Vec<(f32, f32)> = vec![(30.266666, -97.73333), (40.73061, -73.935242), (0.0, -0.0)];
    let records: Vec<PointRecord> = points
        .iter()
        .map(|(lat, lon)| PointRecord { latitude_bits: lat.to_bits(), longitude_bits: lon.to_bits() })
        .collect();
    let bytes = encode_records(&records);
    assert_eq!(bytes.len(), 24);
    assert_eq!(&bytes[0..4], &30.266666f32.to_le_bytes());
    let back = decode_records(&bytes);
    let back_points: Vec<(f32, f32)> = back
        .iter()
        .map(|r| (f32::from_bits(r.latitude_bits), f32::from_bits(r.longitude_bits)))
        .collect();
    assert_eq!(back_points, points);
}

#[test]
fn trailing_partial_record_is_not_read() {
    let bytes = vec![1u8, 0, 0, 0, 2, 0, 0, 0, 9, 9, 9];
    assert_eq!(decode_records(&bytes), vec![PointRecord { latitude_bits: 1, longitude_bits: 2 }]);
}
