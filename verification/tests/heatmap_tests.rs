use gpx_processor::aggregate::{create_segment_key, snap_to_grid, SegmentUsage, GRID_TOL_E5};
use gpx_processor::cleaner::filter_unrealistic_jumps;
use gpx_processor::coord::{is_valid_coordinate, Coordinate};
use gpx_processor::cursor::BinaryCursor;
use gpx_processor::decoder::{semicircles_to_e5, FitParser};
use gpx_processor::geo::{hav_e24, HAV_100KM_E24, HAV_150KM_E24};
use gpx_processor::pipeline::{is_fit_file, process_gpx_files, FileInput, RawPoint, SIMPLIFY_TOL_E5};
use gpx_processor::simplify::simplify_track;

fn c(lat_e5: i64, lon_e5: i64) -> Coordinate {
    Coordinate { lat_e5, lon_e5 }
}

fn rp(lat_e5: i64, lon_e5: i64) -> RawPoint {
    RawPoint { lat_e5, lon_e5 }
}

fn push_u16_le(buf: &mut Vec<u8>, v: u16) {
    buf.push((v & 0xFF) as u8);
    buf.push((v >> 8) as u8);
}

fn push_u32_le(buf: &mut Vec<u8>, v: u32) {
    buf.push((v & 0xFF) as u8);
    buf.push(((v >> 8) & 0xFF) as u8);
    buf.push(((v >> 16) & 0xFF) as u8);
    buf.push(((v >> 24) & 0xFF) as u8);
}

fn push_i32_le(buf: &mut Vec<u8>, v: i32) {
    push_u32_le(buf, v as u32);
}

/// A well-formed binary telemetry buffer: a 14-byte header, one
/// definition record for global message 20 with two 4-byte fields
/// (field 0 = latitude, field 1 = longitude), and one data record per
/// given (latitude, longitude) raw semicircle pair.
fn fit_buffer(records: &[(i32, i32)]) -> Vec<u8> {
    let mut body: Vec<u8> = Vec::new();
    // definition record, local message type 0
    body.push(0x40);
    body.push(0); // reserved
    body.push(0); // architecture
    push_u16_le(&mut body, 20); // global message number
    body.push(2); // field count
    body.push(0); // field 0: latitude
    body.push(4);
    body.push(0x85);
    body.push(1); // field 1: longitude
    body.push(4);
    body.push(0x85);
    for &(lat_raw, lon_raw) in records {
        body.push(0x00); // data record, local message type 0
        push_i32_le(&mut body, lat_raw);
        push_i32_le(&mut body, lon_raw);
    }

    let mut buf: Vec<u8> = Vec::new();
    buf.push(14); // header length
    buf.push(0x10); // protocol version
    push_u16_le(&mut buf, 0); // profile version
    push_u32_le(&mut buf, body.len() as u32); // declared data size
    buf.push(b'.');
    buf.push(b'F');
    buf.push(b'I');
    buf.push(b'T');
    push_u16_le(&mut buf, 0); // header CRC
    buf.extend_from_slice(&body);
    push_u16_le(&mut buf, 0); // trailing CRC
    buf
}

#[test]
fn test_cursor_reads_little_endian() {
    let mut cur = BinaryCursor::new(vec![0x01, 0x02, 0x03, 0x04, 0xFF]);
    assert_eq!(cur.read_u8(), Some(0x01));
    assert_eq!(cur.read_u16_le(), Some(0x0302));
    assert_eq!(cur.read_u16_le(), Some(0xFF04));
    assert_eq!(cur.read_u8(), None);

    let mut cur = BinaryCursor::new(vec![0x78, 0x56, 0x34, 0x12]);
    assert_eq!(cur.read_u32_le(), Some(0x12345678));

    let mut cur = BinaryCursor::new(vec![0xFF, 0xFF, 0xFF, 0xFF]);
    assert_eq!(cur.read_i32_le(), Some(-1));

    let mut cur = BinaryCursor::new(vec![0x00, 0x00, 0x00, 0x80]);
    assert_eq!(cur.read_i32_le(), Some(i32::MIN));

    let mut cur = BinaryCursor::new(vec![1, 2, 3]);
    assert_eq!(cur.read_u32_le(), None);
    cur.skip(100);
    assert_eq!(cur.read_u8(), None);
}

#[test]
fn test_is_valid_coordinate_ranges() {
    assert!(is_valid_coordinate(9_000_000, 18_000_000));
    assert!(is_valid_coordinate(-9_000_000, -18_000_000));
    assert!(is_valid_coordinate(1, 0));
    assert!(!is_valid_coordinate(0, 0));
    assert!(!is_valid_coordinate(9_000_001, 0));
    assert!(!is_valid_coordinate(-9_000_001, 0));
    assert!(!is_valid_coordinate(0, 18_000_001));
    assert!(!is_valid_coordinate(0, -18_000_001));
}

#[test]
fn test_is_fit_file_detection() {
    assert!(!is_fit_file(&vec![0u8; 11]));
    let mut buf = vec![0u8; 12];
    buf[8] = b'.';
    buf[9] = b'F';
    buf[10] = b'I';
    buf[11] = b'T';
    assert!(is_fit_file(&buf));
    buf[11] = b'X';
    assert!(!is_fit_file(&buf));
}

#[test]
fn test_semicircles_to_e5_exact() {
    assert_eq!(semicircles_to_e5(400_000_000), 3_352_761);
    assert_eq!(semicircles_to_e5(410_000_000), 3_436_580);
    assert_eq!(semicircles_to_e5(420_000_000), 3_520_399);
    assert_eq!(semicircles_to_e5(700_000_000), 5_867_332);
    assert_eq!(semicircles_to_e5(-400_000_000), -3_352_761);
    assert_eq!(semicircles_to_e5(1_073_741_824), 9_000_000); // exactly 90 degrees
    assert_eq!(semicircles_to_e5(0), 0);
}

#[test]
fn test_scenario_short_buffer_yields_nothing() {
    // a buffer shorter than 12 bytes of arbitrary content
    let bytes = vec![0x37, 0x99, 0x12, 0xAB, 0x01, 0x02, 0x03, 0x04, 0x05, 0x06, 0x07];
    assert!(!is_fit_file(&bytes));
    let mut parser = FitParser::new(bytes.clone());
    assert_eq!(parser.parse_gps_coordinates().len(), 0);

    let files = vec![FileInput { bytes, tag_tracks: None }];
    let result = process_gpx_files(&files);
    assert_eq!(result.tracks.len(), 0);
    assert_eq!(result.max_frequency, 0);
}

#[test]
fn test_scenario_definition_and_three_records() {
    // one definition record (global message 20, two 4-byte fields) and
    // three data records: the decoder yields the exact scaled values
    let buf = fit_buffer(&[
        (400_000_000, 700_000_000),
        (410_000_000, 710_000_000),
        (420_000_000, 720_000_000),
    ]);
    let mut parser = FitParser::new(buf);
    let coords = parser.parse_gps_coordinates();
    assert_eq!(coords.len(), 3);
    assert_eq!((coords[0].lat_e5, coords[0].lon_e5), (3_352_761, 5_867_332));
    assert_eq!((coords[1].lat_e5, coords[1].lon_e5), (3_436_580, 5_951_151));
    assert_eq!((coords[2].lat_e5, coords[2].lon_e5), (3_520_399, 6_034_970));
}

#[test]
fn test_pipeline_binary_file_one_track_frequency_one() {
    // three closely spaced points from a binary file: one heatmap track,
    // no segment reused, so its frequency and the maximum are 1
    let buf = fit_buffer(&[
        (400_000_000, 700_000_000),
        (400_100_000, 700_100_000),
        (400_200_000, 700_200_000),
    ]);
    let files = vec![FileInput { bytes: buf, tag_tracks: None }];
    let result = process_gpx_files(&files);
    assert_eq!(result.tracks.len(), 1);
    let track = &result.tracks[0];
    assert_eq!(track.coordinates.len(), 3);
    assert_eq!((track.coordinates[0].lat_e5, track.coordinates[0].lon_e5), (3_352_761, 5_867_332));
    assert_eq!((track.coordinates[1].lat_e5, track.coordinates[1].lon_e5), (3_353_599, 5_868_170));
    assert_eq!((track.coordinates[2].lat_e5, track.coordinates[2].lon_e5), (3_354_438, 5_869_009));
    assert_eq!(track.frequency, 1);
    assert_eq!(result.max_frequency, 1);
}

#[test]
fn test_decoder_rejects_bad_header() {
    // header length below 12
    let mut buf = fit_buffer(&[(400_000_000, 700_000_000)]);
    buf[0] = 8;
    let mut parser = FitParser::new(buf);
    assert_eq!(parser.parse_gps_coordinates().len(), 0);

    // wrong signature
    let mut buf = fit_buffer(&[(400_000_000, 700_000_000)]);
    buf[9] = b'G';
    let mut parser = FitParser::new(buf);
    assert_eq!(parser.parse_gps_coordinates().len(), 0);
}

#[test]
fn test_decoder_survives_garbage_records() {
    // a valid header followed by data records that reference a local
    // message type that was never defined: every record is a parse
    // failure, and decoding gives up after the error cap with nothing
    // extracted
    let mut buf = fit_buffer(&[]);
    let n = buf.len();
    buf.truncate(n - 2);
    for _ in 0..600 {
        buf.push(0x0F);
    }
    push_u16_le(&mut buf, 0);
    // fix the declared data size to cover the garbage
    let body_len = (buf.len() - 16) as u32;
    buf[4] = (body_len & 0xFF) as u8;
    buf[5] = ((body_len >> 8) & 0xFF) as u8;
    buf[6] = ((body_len >> 16) & 0xFF) as u8;
    buf[7] = ((body_len >> 24) & 0xFF) as u8;
    let mut parser = FitParser::new(buf);
    let coords = parser.parse_gps_coordinates();
    assert_eq!(coords.len(), 0);
}

#[test]
fn test_decoder_rejects_oversized_field_count() {
    let mut buf = fit_buffer(&[(400_000_000, 700_000_000)]);
    // corrupt the definition record's field count (offset 14 is the
    // record header, 14 + 5 = 19 is the field count byte)
    buf[19] = 200;
    let mut parser = FitParser::new(buf);
    assert_eq!(parser.parse_gps_coordinates().len(), 0);
}

#[test]
fn test_decoder_flexible_message_classifies_candidates() {
    // an auxiliary message (global 19) with ambiguous field numbering:
    // the first candidate within 90 degrees becomes latitude, the first
    // remaining distinct candidate becomes longitude — in either order
    for &(first, second) in &[(400_000_000i32, 1_500_000_000i32), (1_500_000_000, 400_000_000)] {
        let mut body: Vec<u8> = Vec::new();
        body.push(0x40); // definition record, local message type 0
        body.push(0);
        body.push(0);
        push_u16_le(&mut body, 19); // global message number
        body.push(2);
        body.push(3); // field numbers that carry no meaning here
        body.push(4);
        body.push(0x85);
        body.push(4);
        body.push(4);
        body.push(0x85);
        body.push(0x00); // data record
        push_i32_le(&mut body, first);
        push_i32_le(&mut body, second);

        let mut buf: Vec<u8> = Vec::new();
        buf.push(14);
        buf.push(0x10);
        push_u16_le(&mut buf, 0);
        push_u32_le(&mut buf, body.len() as u32);
        buf.push(b'.');
        buf.push(b'F');
        buf.push(b'I');
        buf.push(b'T');
        push_u16_le(&mut buf, 0);
        buf.extend_from_slice(&body);
        push_u16_le(&mut buf, 0);

        let mut parser = FitParser::new(buf);
        let coords = parser.parse_gps_coordinates();
        assert_eq!(coords.len(), 1);
        assert_eq!((coords[0].lat_e5, coords[0].lon_e5), (3_352_761, 12_572_855));
    }
}

#[test]
fn test_decoder_sentinel_values_dropped() {
    // the maximum signed 32-bit value and zero are "no data" sentinels
    let buf = fit_buffer(&[(0x7FFF_FFFF, 700_000_000), (0, 700_000_000)]);
    let mut parser = FitParser::new(buf);
    assert_eq!(parser.parse_gps_coordinates().len(), 0);
}

#[test]
fn test_hav_thresholds() {
    // just under and just over 100 km along the equator
    assert!(hav_e24(c(1, 0), c(1, 89_900)) <= HAV_100KM_E24);
    assert!(hav_e24(c(1, 0), c(1, 90_100)) > HAV_100KM_E24);
    // 500 km is far beyond both thresholds
    assert!(hav_e24(c(1_000_000, 2_000_000), c(1_450_000, 2_000_000)) > HAV_150KM_E24);
    // 111 m is well within
    assert!(hav_e24(c(1_000_000, 2_000_000), c(1_000_100, 2_000_000)) <= HAV_100KM_E24);
}

#[test]
fn test_cleaner_keeps_close_points() {
    let coords = vec![c(1_000_000, 2_000_000), c(1_000_100, 2_000_000), c(1_000_200, 2_000_000)];
    let filtered = filter_unrealistic_jumps(&coords);
    assert_eq!(filtered, coords);
}

#[test]
fn test_cleaner_bridges_transient_glitch() {
    // a single 330 km glitch with a good continuation right behind it is
    // skipped without truncating the track
    let coords = vec![c(1_000_000, 2_000_000), c(1_300_000, 2_000_000), c(1_000_100, 2_000_000)];
    let filtered = filter_unrealistic_jumps(&coords);
    assert_eq!(filtered, vec![c(1_000_000, 2_000_000), c(1_000_100, 2_000_000)]);
}

#[test]
fn test_cleaner_salvages_after_lookahead_fails() {
    // 21 far points exhaust the 20-point lookahead window, then the
    // track reconnects: cleaning resumes from the reconnecting point
    let mut coords = vec![c(1_000_000, 2_000_000)];
    for i in 0..21 {
        coords.push(c(3_000_000 + i * 1_000, 2_000_000));
    }
    coords.push(c(1_000_100, 2_000_000));
    let filtered = filter_unrealistic_jumps(&coords);
    assert_eq!(filtered, vec![c(1_000_000, 2_000_000), c(1_000_100, 2_000_000)]);
}

#[test]
fn test_cleaner_tolerates_up_to_ten_bad_points() {
    // ten consecutive violations, each bridged, then a good point: the
    // glitches are skipped and the good point is kept
    let mut coords = vec![c(1_000_000, 2_000_000)];
    for _ in 0..10 {
        coords.push(c(1_300_000, 2_000_000));
    }
    coords.push(c(1_000_100, 2_000_000));
    let filtered = filter_unrealistic_jumps(&coords);
    assert_eq!(filtered, vec![c(1_000_000, 2_000_000), c(1_000_100, 2_000_000)]);
}

#[test]
fn test_cleaner_stops_after_eleven_bad_points() {
    // the eleventh consecutive violation truncates the track, even
    // though a plausible continuation exists further on
    let mut coords = vec![c(1_000_000, 2_000_000)];
    for _ in 0..11 {
        coords.push(c(1_300_000, 2_000_000));
    }
    coords.push(c(1_000_100, 2_000_000));
    let filtered = filter_unrealistic_jumps(&coords);
    assert_eq!(filtered, vec![c(1_000_000, 2_000_000)]);
}

#[test]
fn test_decoder_accepts_twelve_byte_header() {
    // same records, but with a 12-byte header (no header CRC)
    let with_crc = fit_buffer(&[(400_000_000, 700_000_000), (400_100_000, 700_100_000)]);
    let mut buf: Vec<u8> = Vec::new();
    buf.push(12);
    buf.extend_from_slice(&with_crc[1..12]); // protocol, profile, size, signature
    buf.extend_from_slice(&with_crc[14..]); // records and trailing CRC
    let mut parser = FitParser::new(buf);
    let coords = parser.parse_gps_coordinates();
    assert_eq!(coords.len(), 2);
    assert_eq!((coords[0].lat_e5, coords[0].lon_e5), (3_352_761, 5_867_332));
    assert_eq!((coords[1].lat_e5, coords[1].lon_e5), (3_353_599, 5_868_170));
}

#[test]
fn test_scenario_outlier_truncates_track() {
    // a point 500 km away with no bridge and no valid continuation:
    // the cleaner truncates at the last good point
    let coords = vec![c(1_000_000, 2_000_000), c(1_450_000, 2_000_000)];
    let filtered = filter_unrealistic_jumps(&coords);
    assert_eq!(filtered, vec![c(1_000_000, 2_000_000)]);

    // fewer than 2 points remain, so the track is excluded entirely
    let files = vec![FileInput {
        bytes: Vec::new(),
        tag_tracks: Some(vec![vec![rp(1_000_000, 2_000_000), rp(1_450_000, 2_000_000)]]),
    }];
    let result = process_gpx_files(&files);
    assert_eq!(result.tracks.len(), 0);
    assert_eq!(result.max_frequency, 0);
}

#[test]
fn test_simplify_drops_points_within_tolerance() {
    let points = vec![
        c(1_000_000, 2_000_000),
        c(1_000_002, 2_000_000), // within 0.00005 degrees of the first
        c(1_000_100, 2_000_000),
        c(1_000_101, 2_000_000), // within tolerance, but final: kept
    ];
    let simplified = simplify_track(&points, SIMPLIFY_TOL_E5);
    assert_eq!(
        simplified,
        vec![c(1_000_000, 2_000_000), c(1_000_100, 2_000_000), c(1_000_101, 2_000_000)]
    );
}

#[test]
fn test_simplify_short_tracks_unchanged() {
    let two = vec![c(1_000_000, 2_000_000), c(1_000_001, 2_000_000)];
    assert_eq!(simplify_track(&two, SIMPLIFY_TOL_E5), two);
    let one = vec![c(1_000_000, 2_000_000)];
    assert_eq!(simplify_track(&one, SIMPLIFY_TOL_E5), one);
}

#[test]
fn test_simplify_is_idempotent() {
    let points = vec![
        c(1_000_000, 2_000_000),
        c(1_000_002, 2_000_001),
        c(1_000_100, 2_000_050),
        c(1_000_103, 2_000_052),
        c(1_000_200, 2_000_100),
        c(1_000_201, 2_000_101),
    ];
    let once = simplify_track(&points, SIMPLIFY_TOL_E5);
    let twice = simplify_track(&once, SIMPLIFY_TOL_E5);
    assert_eq!(once, twice);
}

#[test]
fn test_segment_key_symmetric() {
    let a = c(1_000_037, 2_000_081);
    let b = c(1_000_140, 2_000_204);
    assert_eq!(create_segment_key(a, b), create_segment_key(b, a));
    // endpoints snapping to the same grid point
    let p = c(1_000_010, 2_000_020);
    let q = c(1_000_030, 2_000_040);
    assert_eq!(create_segment_key(p, q), create_segment_key(q, p));
    // negative coordinates
    let m = c(-1_000_037, -2_000_081);
    let n = c(-1_000_140, -2_000_204);
    assert_eq!(create_segment_key(m, n), create_segment_key(n, m));
}

#[test]
fn test_snap_to_grid_rounds_ties_away_from_zero() {
    let snapped = snap_to_grid(c(150, -150), GRID_TOL_E5);
    assert_eq!((snapped.lat_e5, snapped.lon_e5), (200, -200));
    let snapped = snap_to_grid(c(149, -149), GRID_TOL_E5);
    assert_eq!((snapped.lat_e5, snapped.lon_e5), (100, -100));
    let snapped = snap_to_grid(c(1_000_049, 2_000_050), GRID_TOL_E5);
    assert_eq!((snapped.lat_e5, snapped.lon_e5), (1_000_000, 2_000_100));
}

#[test]
fn test_segment_usage_counts() {
    let mut usage = SegmentUsage::new();
    let k1 = create_segment_key(c(1_000_000, 2_000_000), c(1_000_100, 2_000_100));
    let k2 = create_segment_key(c(5_000_000, 6_000_000), c(5_000_100, 6_000_100));
    assert_eq!(usage.get(k1), None);
    usage.increment(k1);
    usage.increment(k1);
    usage.increment(k2);
    assert_eq!(usage.get(k1), Some(2));
    assert_eq!(usage.get(k2), Some(1));
}

#[test]
fn test_scenario_two_tracks_share_segment() {
    // two tracks retrace the same path between grid-snapped endpoints:
    // the shared segment is counted twice, both tracks report
    // frequency 2, and the maximum is 2
    let a = rp(1_000_000, 2_000_000);
    let b = rp(1_000_100, 2_000_100);
    let files = vec![
        FileInput { bytes: Vec::new(), tag_tracks: Some(vec![vec![a, b]]) },
        FileInput { bytes: Vec::new(), tag_tracks: Some(vec![vec![a, b]]) },
    ];
    let result = process_gpx_files(&files);
    assert_eq!(result.tracks.len(), 2);
    assert_eq!(result.tracks[0].frequency, 2);
    assert_eq!(result.tracks[1].frequency, 2);
    assert_eq!(result.max_frequency, 2);

    let ka = create_segment_key(c(1_000_000, 2_000_000), c(1_000_100, 2_000_100));
    let mut usage = SegmentUsage::new();
    usage.increment(ka);
    usage.increment(ka);
    assert_eq!(usage.get(ka), Some(2));
}

#[test]
fn test_frequency_is_rounded_mean_of_segment_counts() {
    // track 1 has segments counted 2 and 1 (mean 1.5, rounds up to 2);
    // track 2 has one segment counted 2
    let a = rp(1_000_000, 2_000_000);
    let b = rp(1_000_100, 2_000_100);
    let d = rp(1_000_200, 2_000_200);
    let files = vec![
        FileInput { bytes: Vec::new(), tag_tracks: Some(vec![vec![a, b, d]]) },
        FileInput { bytes: Vec::new(), tag_tracks: Some(vec![vec![a, b]]) },
    ];
    let result = process_gpx_files(&files);
    assert_eq!(result.tracks.len(), 2);
    assert_eq!(result.tracks[0].frequency, 2);
    assert_eq!(result.tracks[1].frequency, 2);
    assert_eq!(result.max_frequency, 2);
}

#[test]
fn test_output_coordinates_are_valid() {
    // invalid points are dropped before cleaning; everything in the
    // output is in range and never the (0, 0) sentinel
    let files = vec![FileInput {
        bytes: Vec::new(),
        tag_tracks: Some(vec![vec![
            rp(9_100_000, 100), // latitude out of range
            rp(0, 0), // "no fix" sentinel
            rp(1_000_000, 2_000_000),
            rp(1_000_100, 2_000_100),
            rp(100, 18_100_000), // longitude out of range
        ]]),
    }];
    let result = process_gpx_files(&files);
    assert_eq!(result.tracks.len(), 1);
    let coords = &result.tracks[0].coordinates;
    assert_eq!(coords.len(), 2);
    for p in coords.iter() {
        assert!(p.lat_e5.abs() <= 9_000_000);
        assert!(p.lon_e5.abs() <= 18_000_000);
        assert!(!(p.lat_e5 == 0 && p.lon_e5 == 0));
    }
    assert_eq!(result.tracks[0].frequency, 1);
    assert_eq!(result.max_frequency, 1);
}

#[test]
fn test_empty_batch_yields_empty_result() {
    let result = process_gpx_files(&Vec::new());
    assert_eq!(result.tracks.len(), 0);
    assert_eq!(result.max_frequency, 0);
}

#[test]
fn test_unrecognized_files_are_skipped() {
    // a file that is neither format contributes nothing, and does not
    // prevent other files from being processed
    let garbage = FileInput { bytes: vec![1, 2, 3, 4, 5, 6, 7, 8, 9, 10, 11, 12, 13, 14, 15], tag_tracks: None };
    let good = FileInput {
        bytes: Vec::new(),
        tag_tracks: Some(vec![vec![rp(1_000_000, 2_000_000), rp(1_000_100, 2_000_100)]]),
    };
    let result = process_gpx_files(&vec![garbage, good]);
    assert_eq!(result.tracks.len(), 1);
    assert_eq!(result.max_frequency, 1);
}
