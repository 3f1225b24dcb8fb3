//! Tests of the value, key/value, state and metadata parsers.

use dmi::key_value::{Dirs, KeyValue};
use dmi::state::Frames;
use dmi::values::{Decimal, Value};

fn chars(s: &str) -> usize {
    s.chars().count()
}

fn d(mantissa: u64, scale: u32) -> Decimal {
    Decimal::new(mantissa, scale)
}

#[test]
fn version() {
    let s = r#"version = 4.0"#;
    let n = chars(s);
    assert_eq!(
        dmi::key_value::key_value(s, 0, n),
        Some((n, KeyValue::Version(d(40, 1))))
    );
}

#[test]
fn width() {
    let s = r#"width = 32"#;
    let n = chars(s);
    assert_eq!(dmi::key_value::key_value(s, 0, n), Some((n, KeyValue::Width(32))));
}

#[test]
fn height() {
    let s = r#"height = 32"#;
    let n = chars(s);
    assert_eq!(dmi::key_value::key_value(s, 0, n), Some((n, KeyValue::Height(32))));
}

#[test]
fn state() {
    let s = r#"state = "meow""#;
    let n = chars(s);
    assert_eq!(
        dmi::key_value::key_value(s, 0, n),
        Some((n, KeyValue::State("meow".to_string())))
    );
}

#[test]
fn dirs() {
    let s = r#"dirs = 4"#;
    let n = chars(s);
    assert_eq!(
        dmi::key_value::key_value(s, 0, n),
        Some((n, KeyValue::Dirs(Dirs::Four)))
    );
}

#[test]
fn frames() {
    let s = r#"frames = 2"#;
    let n = chars(s);
    assert_eq!(dmi::key_value::key_value(s, 0, n), Some((n, KeyValue::Frames(2))));
}

#[test]
fn key_value_delay() {
    let s = r#"delay = 1,2,3"#;
    let n = chars(s);
    assert_eq!(
        dmi::key_value::key_value(s, 0, n),
        Some((n, KeyValue::Delay(vec![d(1, 0), d(2, 0), d(3, 0)])))
    );
}

#[test]
fn loop_flag() {
    let s = r#"loop = 1"#;
    let n = chars(s);
    assert_eq!(dmi::key_value::key_value(s, 0, n), Some((n, KeyValue::Loop(true))));
}

#[test]
fn rewind() {
    let s = r#"rewind = 1"#;
    let n = chars(s);
    assert_eq!(dmi::key_value::key_value(s, 0, n), Some((n, KeyValue::Rewind(true))));
}

#[test]
fn movement() {
    let s = r#"movement = 1"#;
    let n = chars(s);
    assert_eq!(
        dmi::key_value::key_value(s, 0, n),
        Some((n, KeyValue::Movement(true)))
    );
}

#[test]
fn hotspot() {
    let s = r#"hotspot = 13,12,1"#;
    let n = chars(s);
    assert_eq!(
        dmi::key_value::key_value(s, 0, n),
        Some((n, KeyValue::Hotspot(vec![d(13, 0), d(12, 0), d(1, 0)])))
    );
}

#[test]
fn test_evil_delay() {
    let evil_delay = r#"delay = 1,2,5.4,3"#;
    let n = chars(evil_delay);
    assert_eq!(
        dmi::key_value::key_value(evil_delay, 0, n),
        Some((n, KeyValue::Delay(vec![d(1, 0), d(2, 0), d(54, 1), d(3, 0)])))
    );
}

#[test]
fn test_atoms() {
    let float = r#"4.0"#;
    let int = r#"32"#;
    let string = r#""duplicate""#;
    let list = r#"1,2,5.4"#;
    assert_eq!(
        dmi::values::atom(float, 0, chars(float)),
        Some((chars(float), Value::Float(d(40, 1))))
    );
    assert_eq!(
        dmi::values::atom(int, 0, chars(int)),
        Some((chars(int), Value::Int(32)))
    );
    assert_eq!(
        dmi::values::atom(string, 0, chars(string)),
        Some((chars(string), Value::Text("duplicate".to_string())))
    );
    assert_eq!(
        dmi::values::atom(list, 0, chars(list)),
        Some((chars(list), Value::List(vec![d(1, 0), d(2, 0), d(54, 1)])))
    );
}

#[test]
fn test_empty_str() {
    let empty_str = r#""""#;
    let n = chars(empty_str);
    assert_eq!(
        dmi::values::atom(empty_str, 0, n),
        Some((n, Value::Text("".to_string())))
    );
}

#[test]
fn metadata() {
    let description = r#"
state = "duplicate"
    dirs = 1
    frames = 1
"#
    .trim_start();

    let n = chars(description);
    let (pos, state) = dmi::state::state(description, 0, n).unwrap();
    assert_eq!(pos, n);
    assert_eq!(state.dirs, Dirs::One);
    assert_eq!(state.frames, Frames::One);
    assert_eq!(state.name, "duplicate");
}

#[test]
fn state_delay() {
    let description = r#"
state = "bluespace_coffee"
    dirs = 1
    frames = 4
    delay = 1,2,5.4,3
state = "..."
"#
    .trim();

    let n = chars(description);
    let (pos, state) = dmi::state::state(description, 0, n).unwrap();
    let tail = r#"state = "...""#;
    assert_eq!(n - pos, chars(tail));
    assert_eq!(state.dirs, Dirs::One);
    assert_eq!(
        state.frames,
        Frames::Delays(vec![d(1, 0), d(2, 0), d(54, 1), d(3, 0)])
    );
    assert_eq!(state.name, "bluespace_coffee");
}

#[test]
fn fail_delay_without_frames() {
    let description = r#"
state = "bluespace_coffee"
    dirs = 1
    delay = 1,2,5.4,3
state = "..."
        "#
    .trim();

    let n = chars(description);
    let x = dmi::state::state(description, 0, n);
    assert!(x.is_none());
}

#[test]
fn test_metadata() {
    let description = r#"
# BEGIN DMI
version = 4.0
    width = 32
    height = 32
state = "state1"
    dirs = 4
    frames = 2
    delay = 1.2,1
    movement = 1
    loop = 1
    rewind = 0
    hotspot = 12,13,0
    future = "lmao"
state = "state2"
    dirs = 1
    frames = 1
# END DMI
"#
    .trim();

    let metadata = dmi::parse(description).unwrap();

    assert_eq!(metadata.header.version, d(40, 1));
    assert_eq!(metadata.header.width, 32);
    assert_eq!(metadata.header.height, 32);

    assert_eq!(metadata.states[0].1.name, "state1".to_string());
    assert_eq!(metadata.states[0].1.dirs, Dirs::Four);
    assert_eq!(metadata.states[0].1.frames, Frames::Delays(vec![d(12, 1), d(1, 0)]));
    assert!(metadata.states[0].1.movement);
    assert!(metadata.states[0].1.looping);
    assert!(!metadata.states[0].1.rewind);
    assert_eq!(metadata.states[0].1.hotspot, Some((d(12, 0), d(13, 0), d(0, 0))));
    assert_eq!(
        metadata.states[0].1.unk,
        Some(vec![("future".to_string(), Value::Text("lmao".to_string()))])
    );

    assert_eq!(metadata.states[1].1.name, "state2".to_string());
    assert_eq!(metadata.states[1].1.dirs, Dirs::One);
    assert_eq!(metadata.states[1].1.frames, Frames::One);

    assert_eq!(metadata.states[0].0.into_inner(), 0);
    assert_eq!(metadata.states[1].0.into_inner(), 8);
}

#[test]
fn atom_string_parses_quoted_text() {
    let s = r#""meow""#;
    let n = chars(s);
    assert_eq!(
        dmi::values::atom_string(s, 0),
        Some((n, Value::Text("meow".to_string())))
    );
    assert_eq!(dmi::values::atom_string("meow", 0), None);
}
