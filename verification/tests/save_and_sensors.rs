//! The transactional store, saved values, the decimal codec, and the
//! shared sensors.

use orbital::datastructures::Sensor;
use orbital::save::codec::{parse_i64, render_i64};
use orbital::save::storage::Storage;
use orbital::save::{ComplexSave, Coord, Save, Saveable};

#[test]
fn decimal_rendering() {
    assert_eq!(render_i64(0), "0");
    assert_eq!(render_i64(7), "7");
    assert_eq!(render_i64(42), "42");
    assert_eq!(render_i64(-123), "-123");
    assert_eq!(render_i64(i64::MAX), "9223372036854775807");
    assert_eq!(render_i64(i64::MIN), "-9223372036854775808");
}

#[test]
fn decimal_parsing_accepts_exactly_canonical_text() {
    assert_eq!(parse_i64("0"), Some(0));
    assert_eq!(parse_i64("42"), Some(42));
    assert_eq!(parse_i64("-123"), Some(-123));
    assert_eq!(parse_i64("9223372036854775807"), Some(i64::MAX));
    assert_eq!(parse_i64("-9223372036854775808"), Some(i64::MIN));
    // Out of range.
    assert_eq!(parse_i64("9223372036854775808"), None);
    assert_eq!(parse_i64("-9223372036854775809"), None);
    // Malformed or redundant.
    assert_eq!(parse_i64(""), None);
    assert_eq!(parse_i64("-"), None);
    assert_eq!(parse_i64("-0"), None);
    assert_eq!(parse_i64("007"), None);
    assert_eq!(parse_i64("1x"), None);
    assert_eq!(parse_i64("+5"), None);
    assert_eq!(parse_i64("über"), None);
}

#[test]
fn decimal_round_trip() {
    for v in [0i64, 1, -1, 10, 99, -100, 123_456_789, i64::MAX, i64::MIN] {
        let text = render_i64(v);
        assert_eq!(parse_i64(text.as_str()), Some(v));
    }
}

#[test]
fn committed_writes_survive_a_reload() {
    let mut store = Storage::new();
    store.start_transactions();
    store.begin_frame();
    store.set("score", "42");
    store.set("name", "sail");
    store.set("score", "43");
    store.commit_frame();
    // Mirror the committed slot out and back in, as the persistence
    // layer does across runs.
    let odd = false;
    let entries = store.snapshot(odd);
    let reloaded = Storage::load_committed(entries, odd);
    assert_eq!(reloaded.get("score"), Some("43".to_owned()));
    assert_eq!(reloaded.get("name"), Some("sail".to_owned()));
    assert_eq!(reloaded.get("missing"), None);
}

#[test]
fn uncommitted_writes_stay_invisible() {
    let mut store = Storage::new();
    store.start_transactions();
    store.begin_frame();
    store.set("score", "42");
    store.commit_frame();
    store.begin_frame();
    store.set("score", "99");
    // No commit: the previously committed slot still holds 42.
    let committed_odd = false;
    let entries = store.snapshot(committed_odd);
    let reloaded = Storage::load_committed(entries, committed_odd);
    assert_eq!(reloaded.get("score"), Some("42".to_owned()));
}

#[test]
fn a_fresh_store_reads_nothing() {
    let store = Storage::new();
    assert_eq!(store.get("anything"), None);
}

#[test]
fn saveable_restores_what_an_update_saved() {
    let mut store = Storage::new();
    // First run: nothing committed, the default value stands.
    let mut speed: Saveable<i64> = Saveable::new(5, "speed", &store);
    assert_eq!(speed.value, 5);
    store.start_transactions();
    store.begin_frame();
    speed.update(|v| v + 10, &mut store);
    assert_eq!(speed.value, 15);
    speed.set(20, &mut store);
    assert_eq!(speed.value, 20);
    store.commit_frame();
    // Second run: the committed entry overrides the default.
    let entries = store.snapshot(false);
    let reloaded = Storage::load_committed(entries, false);
    let speed2: Saveable<i64> = Saveable::new(5, "speed", &reloaded);
    assert_eq!(speed2.value, 20);
}

#[test]
fn composite_values_save_componentwise() {
    let mut store = Storage::new();
    let mut home: Saveable<ComplexSave<Coord>> =
        Saveable::new(ComplexSave(Coord { x: 0, y: 0 }), "home", &store);
    store.start_transactions();
    store.begin_frame();
    home.set(ComplexSave(Coord { x: -3, y: 8 }), &mut store);
    store.commit_frame();
    let entries = store.snapshot(false);
    let reloaded = Storage::load_committed(entries, false);
    assert_eq!(reloaded.get("home/x"), Some("-3".to_owned()));
    assert_eq!(reloaded.get("home/y"), Some("8".to_owned()));
    let mut back = ComplexSave(Coord { x: 0, y: 0 });
    back.load("home", &reloaded);
    assert_eq!(back.0, Coord { x: -3, y: 8 });
}

#[test]
fn unparsable_entries_leave_the_prior_value() {
    let mut store = Storage::new();
    store.start_transactions();
    store.begin_frame();
    store.set("speed", "not a number");
    store.commit_frame();
    let entries = store.snapshot(false);
    let reloaded = Storage::load_committed(entries, false);
    let speed: Saveable<i64> = Saveable::new(5, "speed", &reloaded);
    assert_eq!(speed.value, 5);
}

#[test]
fn sensors_share_their_reading_with_readers() {
    let (mut sensor, reader) = Sensor::new(3i64);
    assert_eq!(sensor.get(), 3);
    assert_eq!(reader.get(), Some(3));
    sensor.set(8);
    assert_eq!(reader.get(), Some(8));
    sensor.update(|v| v * 2);
    assert_eq!(reader.get(), Some(16));
    let doubled = sensor.modify(|v| v + 1);
    assert_eq!(doubled, 17);
    assert_eq!(reader.get(), Some(17));
    let second = reader.clone();
    assert_eq!(second.get(), Some(17));
    drop(sensor);
    assert_eq!(reader.get(), None);
    assert_eq!(second.get(), None);
}

#[test]
fn raw_sensors_make_readers_later() {
    let sensor = Sensor::raw(1.5f32);
    let reader = sensor.make_reader();
    assert_eq!(reader.get(), Some(1.5f32));
}
