use steam_cloud_sync::naming::{
    make_snapshot_name, new_snapshot_name, origin_name, parse_snapshot_name, Timestamp,
};

fn at(year: i32, month: u32, day: u32, hour: u32, minute: u32, second: u32) -> Timestamp {
    Timestamp::from_parts(year, month, day, hour, minute, second).unwrap()
}

#[test]
fn name_is_stamp_dash_host() {
    let t = at(2024, 1, 2, 3, 4, 5);
    assert_eq!(make_snapshot_name(&t, "h1"), "20240102_030405-h1");
}

#[test]
fn name_pads_small_years() {
    let t = at(7, 12, 31, 23, 59, 59);
    assert_eq!(make_snapshot_name(&t, "box"), "00071231_235959-box");
}

#[test]
fn stamp_and_display_forms() {
    let t = at(2023, 11, 9, 8, 7, 6);
    assert_eq!(t.stamp(), "20231109_080706");
    assert_eq!(t.display(), "2023-11-09 08:07:06");
}

#[test]
fn parse_round_trips_timestamp() {
    let t = at(2024, 2, 29, 13, 45, 0);
    let name = make_snapshot_name(&t, "my-host");
    let (shown, host) = parse_snapshot_name(&name);
    assert_eq!(shown, "2024-02-29 13:45:00");
    assert_eq!(host, "my-host");
}

#[test]
fn parse_malformed_gives_sentinel() {
    let (shown, host) = parse_snapshot_name("garbage");
    assert_eq!(shown, "invalid timestamp");
    assert_eq!(host, "");
    let (shown, host) = parse_snapshot_name("2024011_010101-h1");
    assert_eq!(shown, "invalid timestamp");
    assert_eq!(host, "h1");
}

#[test]
fn parse_nonexistent_date_gives_sentinel() {
    let (shown, _) = parse_snapshot_name("20230229_000000-h");
    assert_eq!(shown, "invalid timestamp");
    let (shown, _) = parse_snapshot_name("20240101_240000-h");
    assert_eq!(shown, "invalid timestamp");
}

#[test]
fn later_names_sort_after_earlier_ones() {
    let times = [
        at(2023, 12, 31, 23, 59, 59),
        at(2024, 1, 1, 0, 0, 0),
        at(2024, 1, 1, 0, 0, 1),
        at(2024, 1, 1, 0, 1, 0),
        at(2024, 10, 1, 0, 0, 0),
    ];
    let hosts = ["zeta", "alpha", "mid", "a", "b"];
    for i in 0..times.len() - 1 {
        let a = make_snapshot_name(&times[i], hosts[i]);
        let b = make_snapshot_name(&times[i + 1], hosts[i + 1]);
        assert!(a < b, "{a} should sort before {b}");
    }
}

#[test]
fn from_parts_rejects_impossible_moments() {
    assert!(Timestamp::from_parts(2024, 13, 1, 0, 0, 0).is_none());
    assert!(Timestamp::from_parts(2023, 2, 29, 0, 0, 0).is_none());
    assert!(Timestamp::from_parts(2024, 4, 31, 0, 0, 0).is_none());
    assert!(Timestamp::from_parts(2024, 1, 1, 0, 60, 0).is_none());
    assert!(Timestamp::from_parts(10000, 1, 1, 0, 0, 0).is_none());
    assert!(Timestamp::from_parts(-1, 1, 1, 0, 0, 0).is_none());
    assert!(Timestamp::from_parts(2000, 2, 29, 0, 0, 0).is_some());
}

#[test]
fn unknown_host_marker() {
    assert_eq!(origin_name(None), "[unknown host]");
    assert_eq!(origin_name(Some("deck".to_string())), "deck");
}

#[test]
fn fresh_name_parses_back() {
    let name = new_snapshot_name().expect("the local year has four digits");
    let (shown, _) = parse_snapshot_name(&name);
    assert_ne!(shown, "invalid timestamp");
    assert_eq!(shown.len(), 19);
}
