use dataset_capture::index_map::IndexMap;
use dataset_capture::session::{
    dispatch, focus_down, focus_up, key_to_char, record_step, KeyAction, OperatingMode,
};

#[test]
fn interactive_keys_dispatch_by_class() {
    let m = OperatingMode::Interactive;
    assert_eq!(dispatch(m, '\r'), KeyAction::QueryFocus);
    assert_eq!(dispatch(m, '-'), KeyAction::FocusDown);
    assert_eq!(dispatch(m, '+'), KeyAction::FocusUp);
    assert_eq!(dispatch(m, 'a'), KeyAction::Record('a'));
    assert_eq!(dispatch(m, 'z'), KeyAction::Record('z'));
    assert_eq!(dispatch(m, 'A'), KeyAction::Record('A'));
    assert_eq!(dispatch(m, 'Z'), KeyAction::Record('Z'));
    assert_eq!(dispatch(m, '0'), KeyAction::Record('0'));
    assert_eq!(dispatch(m, '9'), KeyAction::Record('9'));
    assert_eq!(dispatch(m, ' '), KeyAction::Ignore);
    assert_eq!(dispatch(m, '\n'), KeyAction::Ignore);
    assert_eq!(dispatch(m, '/'), KeyAction::Ignore);
}

#[test]
fn batch_mode_records_every_key() {
    let m = OperatingMode::Batch;
    assert_eq!(dispatch(m, '5'), KeyAction::Record('5'));
    assert_eq!(dispatch(m, ' '), KeyAction::Record(' '));
    assert_eq!(dispatch(m, '\r'), KeyAction::Record('\r'));
    assert_eq!(dispatch(m, '-'), KeyAction::Record('-'));
}

#[test]
fn key_codes_become_characters() {
    assert_eq!(key_to_char(-1), None);
    assert_eq!(key_to_char(-7), None);
    assert_eq!(key_to_char(97), Some('a'));
    assert_eq!(key_to_char(13), Some('\r'));
    assert_eq!(key_to_char(0xD800), None);
}

#[test]
fn focus_floor_clamps_at_zero() {
    // Focus is carried in thousandths: 500.0 -> 499.0, 0.5 -> 0.0,
    // 1.0 -> 0.0.
    assert_eq!(focus_down(500_000), 499_000);
    assert_eq!(focus_down(500), 0);
    assert_eq!(focus_down(1_000), 0);
    assert_eq!(focus_down(0), 0);
    assert_eq!(focus_down(-250), 0);
}

#[test]
fn focus_up_steps_one_unit() {
    // Fixed focus 500.0, one step up: the next query reports 501.0.
    assert_eq!(focus_up(500_000), 501_000);
    assert_eq!(focus_up(0), 1_000);
}

#[test]
fn batch_records_count_up_from_zero() {
    // Batch playback over an empty store: pressing `5` twice creates
    // `data/5/0.png` then `data/5/1.png`.
    let mut map = IndexMap::new();
    let dir = String::from("data/5");
    match dispatch(OperatingMode::Batch, '5') {
        KeyAction::Record(c) => assert_eq!(c, '5'),
        _ => panic!("a batch key must record"),
    }
    let (i0, name0) = record_step(&mut map, &dir);
    assert_eq!(i0, 0);
    assert_eq!(name0.as_str(), "0.png");
    let (i1, name1) = record_step(&mut map, &dir);
    assert_eq!(i1, 1);
    assert_eq!(name1.as_str(), "1.png");
    assert_eq!(map.get(&dir), Some(2));
}

#[test]
fn record_advances_only_the_recorded_directory() {
    let mut map = IndexMap::new();
    let a = String::from("data/a");
    let b = String::from("data/b");
    let _ = record_step(&mut map, &a);
    let (i, name) = record_step(&mut map, &b);
    assert_eq!(i, 0);
    assert_eq!(name.as_str(), "0.png");
    assert_eq!(map.get(&a), Some(1));
    assert_eq!(map.get(&b), Some(1));
}
