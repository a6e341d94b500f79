use usch::sync::{Key, Track, TrackReadError, Tracker, TrackerError};

#[test]
fn key_can_save_and_load_binary() {
    let input = Key { row: 0xDEADBEEF, value: (1337.69f32).to_bits() };

    // Write to binary
    let mut data: Vec<u8> = Vec::new();
    input.write(&mut data);

    // Read back into struct
    let result = Key::read(&data, 0);

    assert_eq!(input.row, result.row);
    assert_eq!(f32::from_bits(input.value), f32::from_bits(result.value));
}

#[test]
fn key_binary_layout_is_little_endian() {
    let key = Key { row: 0x0403_0201, value: 0x0807_0605 };
    let mut data: Vec<u8> = Vec::new();
    key.write(&mut data);
    assert_eq!(vec![1u8, 2, 3, 4, 5, 6, 7, 8], data);
}

#[test]
fn set_value_is_idempotent() {
    let mut track = Track::new(String::from("sphere.radius"));
    track.set_value(12, 77);
    track.set_value(12, 77);
    assert_eq!(1, track.keys().len());
    assert_eq!(Some(77), track.get_value(12));
}

#[test]
fn set_value_overwrites_single_key() {
    let mut track = Track::new(String::from("sphere.radius"));
    track.set_value(12, 100);
    track.set_value(12, 200);
    assert_eq!(1, track.keys().len());
    assert_eq!(Some(200), track.get_value(12));
}

#[test]
fn set_value_keeps_rows_sorted() {
    let mut track = Track::new(String::from("cam.x"));
    track.set_value(30, 3);
    track.set_value(10, 1);
    track.set_value(20, 2);
    track.set_value(10, 11);
    let rows: Vec<u32> = track.keys().iter().map(|k| k.row).collect();
    assert_eq!(vec![10, 20, 30], rows);
    assert_eq!(Some(11), track.get_value(10));
    assert_eq!(Some(2), track.get_value(20));
    assert_eq!(Some(3), track.get_value(30));
}

#[test]
fn get_value_without_keyframe_is_none() {
    let mut track = Track::new(String::from("cam.x"));
    assert_eq!(None, track.get_value(0));
    track.set_value(5, 1);
    assert_eq!(None, track.get_value(4));
    assert_eq!(None, track.get_value(6));
}

#[test]
fn track_round_trips_through_binary() {
    let mut track = Track::new(String::from("päärynä"));
    track.set_value(0, 10);
    track.set_value(0xDEADBEEF, (1337.69f32).to_bits());
    let mut data: Vec<u8> = Vec::new();
    assert!(track.write(&mut data));
    let (back, end) = Track::read(&data, 0).unwrap();
    assert_eq!(data.len(), end);
    assert_eq!(track.name(), back.name());
    assert_eq!(track.keys().len(), back.keys().len());
    for (a, b) in track.keys().iter().zip(back.keys().iter()) {
        assert_eq!(a, b);
    }
}

#[test]
fn read_back_tracks_can_be_checked_for_sortedness() {
    let mut track = Track::new(String::from("t"));
    track.set_value(9, 1);
    track.set_value(4, 2);
    let mut data: Vec<u8> = Vec::new();
    assert!(track.write(&mut data));
    let (back, _) = Track::read(&data, 0).unwrap();
    assert!(back.check_sorted());

    // A crafted record whose rows run backwards reads fine but fails the
    // sortedness check: one-byte name, two keys at rows five and three.
    let crafted: Vec<u8> = vec![
        1, 0, b't', 2, 0, 0, 0, 5, 0, 0, 0, 1, 0, 0, 0, 3, 0, 0, 0, 2, 0, 0, 0,
    ];
    let (bad, end) = Track::read(&crafted, 0).unwrap();
    assert_eq!(crafted.len(), end);
    assert!(!bad.check_sorted());
}

#[test]
fn track_read_rejects_truncated_input() {
    let mut track = Track::new(String::from("t"));
    track.set_value(1, 2);
    let mut data: Vec<u8> = Vec::new();
    assert!(track.write(&mut data));
    data.pop();
    assert_eq!(Err(TrackReadError::TruncatedInput), Track::read(&data, 0).map(|p| p.1));
}

#[test]
fn track_read_rejects_invalid_name() {
    // A one-byte name that is not UTF-8, then a zero key count.
    let data: Vec<u8> = vec![1, 0, 0xFF, 0, 0, 0, 0];
    assert_eq!(Err(TrackReadError::InvalidName), Track::read(&data, 0).map(|p| p.1));
}

#[test]
fn tracker_rejects_duplicate_names() {
    let names = vec![String::from("a"), String::from("b"), String::from("a")];
    let r = Tracker::new(120, None, &names);
    assert!(matches!(r, Err(TrackerError::DuplicateTrackName)));
}

#[test]
fn tracker_rejects_zero_tempo() {
    let names = vec![String::from("a")];
    let r = Tracker::new(0, None, &names);
    assert!(matches!(r, Err(TrackerError::ZeroTempo)));
}

#[test]
fn tracker_set_value_unknown_track_fails() {
    let names = vec![String::from("a")];
    let mut tracker = Tracker::new(120, None, &names).unwrap();
    let r = tracker.set_value(&String::from("b"), 0, 1);
    assert!(matches!(r, Err(TrackerError::UnknownTrack)));
    assert!(tracker.set_value(&String::from("a"), 0, 1).is_ok());
    assert_eq!(Some(1), tracker.tracks()[0].get_value(0));
}

#[test]
fn tracker_rows_follow_tempo() {
    // At 120 beats per minute there are eight rows per second.
    let names = vec![String::from("a")];
    let tracker = Tracker::new(120, None, &names).unwrap();
    assert_eq!(1_000_000_000, tracker.get_time_from_row(8));
    assert_eq!(125_000_000, tracker.get_time_from_row(1));
}

#[test]
fn tracker_serializes_all_tracks() {
    let names = vec![String::from("a"), String::from("b")];
    let mut tracker = Tracker::new(120, Some(String::from("demo.tracks")), &names).unwrap();
    tracker.set_value(&String::from("b"), 3, 9).unwrap();
    let bytes = tracker.serialize().unwrap();
    // 32-bit track count, then each track: read both back.
    assert_eq!(&[2, 0, 0, 0], &bytes[0..4]);
    let (first, mid) = Track::read(&bytes, 4).unwrap();
    let (second, end) = Track::read(&bytes, mid).unwrap();
    assert_eq!(bytes.len(), end);
    assert_eq!("a", first.name());
    assert_eq!(0, first.keys().len());
    assert_eq!("b", second.name());
    assert_eq!(Some(9), second.get_value(3));
}
