use geo_score::grid::{decode_grid, encode_grid, encode_grid_checked, GridIndex};
use geo_score::morton::{CODE_LIMIT, GRID_SIZE};

const MIN_LATITUDE: f64 = -85.05112878;
const MAX_LATITUDE: f64 = 85.05112878;
const MIN_LONGITUDE: f64 = -180.0;
const MAX_LONGITUDE: f64 = 180.0;

fn grid_of(latitude: f64, longitude: f64) -> GridIndex {
    let scale = 2.0_f64.powi(26);
    let lat = scale * (latitude - MIN_LATITUDE) / (MAX_LATITUDE - MIN_LATITUDE);
    let lon = scale * (longitude - MIN_LONGITUDE) / (MAX_LONGITUDE - MIN_LONGITUDE);
    GridIndex::new(lat as u32, lon as u32)
}

fn centre_of(index: GridIndex) -> (f64, f64) {
    let scale = 2.0_f64.powi(26);
    let lat_range = MAX_LATITUDE - MIN_LATITUDE;
    let lon_range = MAX_LONGITUDE - MIN_LONGITUDE;
    let lat_lo = MIN_LATITUDE + lat_range * (index.latitude as f64 / scale);
    let lat_hi = MIN_LATITUDE + lat_range * ((index.latitude + 1) as f64 / scale);
    let lon_lo = MIN_LONGITUDE + lon_range * (index.longitude as f64 / scale);
    let lon_hi = MIN_LONGITUDE + lon_range * ((index.longitude + 1) as f64 / scale);
    ((lat_lo + lat_hi) / 2.0, (lon_lo + lon_hi) / 2.0)
}

fn check_city(latitude: f64, longitude: f64, code: u64, expected: (f64, f64)) {
    assert_eq!(encode_grid(grid_of(latitude, longitude)), code);
    let (lat, lon) = centre_of(decode_grid(code));
    assert!((lat - expected.0).abs() < 1e-6);
    assert!((lon - expected.1).abs() < 1e-6);
}

#[test]
fn encode_grid_of_known_cells() {
    assert_eq!(encode_grid(GridIndex::new(38968045, 52293687)), 3962257306574459);
    assert_eq!(encode_grid(GridIndex::new(53875168, 33530608)), 2163557714755072);
    assert_eq!(encode_grid(GridIndex::new(49616474, 19758713)), 1791873974549446);
    assert_eq!(encode_grid(GridIndex::new(20192488, 61741888)), 3252046221964352);
}

#[test]
fn decode_grid_of_known_codes() {
    assert_eq!(decode_grid(3962257306574459), GridIndex::new(38968045, 52293687));
    assert_eq!(decode_grid(2163557714755072), GridIndex::new(53875168, 33530608));
    assert_eq!(decode_grid(1791873974549446), GridIndex::new(49616474, 19758713));
    assert_eq!(decode_grid(3252046221964352), GridIndex::new(20192488, 61741888));
}

#[test]
fn decode_grid_then_encode_grid_keeps_code() {
    for code in [0u64, 1, 2, 3962257306574459, CODE_LIMIT - 1, u64::MAX] {
        assert_eq!(encode_grid(decode_grid(code)), code);
    }
}

#[test]
fn decode_grid_of_large_code_leaves_grid() {
    assert!(decode_grid(CODE_LIMIT - 1).is_in_grid());
    assert!(!decode_grid(CODE_LIMIT).is_in_grid());
    assert_eq!(decode_grid(u64::MAX), GridIndex::new(u32::MAX, u32::MAX));
}

#[test]
fn encode_grid_checked_rejects_outside_cells() {
    assert_eq!(encode_grid_checked(GridIndex::new(GRID_SIZE, 0)), None);
    assert_eq!(encode_grid_checked(GridIndex::new(0, GRID_SIZE)), None);
    assert_eq!(encode_grid_checked(GridIndex::new(u32::MAX, u32::MAX)), None);
    assert_eq!(
        encode_grid_checked(GridIndex::new(GRID_SIZE - 1, GRID_SIZE - 1)),
        Some(CODE_LIMIT - 1)
    );
    assert_eq!(
        encode_grid_checked(GridIndex::new(38968045, 52293687)),
        Some(3962257306574459)
    );
}

#[test]
fn encode_grid_of_outside_cell_is_not_clamped() {
    assert_eq!(encode_grid(GridIndex::new(GRID_SIZE, 0)), CODE_LIMIT);
    assert_eq!(encode_grid(GridIndex::new(0, GRID_SIZE)), CODE_LIMIT << 1);
}

#[test]
fn bangkok() {
    check_city(13.7220, 100.5252, 3962257306574459, (13.722000686932997, 100.52520006895065));
}

#[test]
fn beijing() {
    check_city(39.9075, 116.3972, 4069885364908765, (39.9075003315814, 116.39719873666763));
}

#[test]
fn berlin() {
    check_city(52.5244, 13.4105, 3673983964876493, (52.52439934649943, 13.410500586032867));
}

#[test]
fn copenhagen() {
    check_city(55.6759, 12.5655, 3685973395504349, (55.67589927498264, 12.56549745798111));
}

#[test]
fn new_delhi() {
    check_city(28.6667, 77.2167, 3631527070936756, (28.666698899347338, 77.21670180559158));
}

#[test]
fn kathmandu() {
    check_city(27.7017, 85.3206, 3639507404773204, (27.701700137333084, 85.3205993771553));
}

#[test]
fn london() {
    check_city(51.5074, -0.1278, 2163557714755072, (51.50740077990134, -0.12779921293258667));
}

#[test]
fn new_york() {
    check_city(40.7128, -74.0060, 1791873974549446, (40.712798986951505, -74.00600105524063));
}

#[test]
fn paris() {
    check_city(48.8534, 2.3488, 3663832752681684, (48.85340071224621, 2.348802387714386));
}

#[test]
fn sydney() {
    check_city(-33.8688, 151.2093, 3252046221964352, (-33.86880091934156, 151.2092998623848));
}

#[test]
fn tokyo() {
    check_city(35.6895, 139.6917, 4171231230197045, (35.68950126697936, 139.691701233387));
}

#[test]
fn vienna() {
    check_city(48.2064, 16.3707, 3673109836391743, (48.20640046271915, 16.370699107646942));
}

#[test]
fn round_trip_stays_within_a_cell() {
    let lat_step = (MAX_LATITUDE - MIN_LATITUDE) / 2.0_f64.powi(26);
    let lon_step = (MAX_LONGITUDE - MIN_LONGITUDE) / 2.0_f64.powi(26);
    for (lat, lon) in [(0.0, 0.0), (-85.0, -179.9), (85.0, 179.9), (13.722, 100.5252)] {
        let (back_lat, back_lon) = centre_of(decode_grid(encode_grid(grid_of(lat, lon))));
        assert!((back_lat - lat).abs() < lat_step);
        assert!((back_lon - lon).abs() < lon_step);
    }
}

#[test]
fn latitude_order_keeps_row_order() {
    let lats = [-85.0, -40.0, -0.0001, 0.0, 0.0001, 13.722, 85.0];
    for pair in lats.windows(2) {
        assert!(grid_of(pair[0], 10.0).latitude <= grid_of(pair[1], 10.0).latitude);
    }
}
