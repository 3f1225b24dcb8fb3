//! One input for each error value the library returns.

use dmi::dmi::IconFile;
use dmi::error::FormatError;
use dmi::key_value::{Dirs, KeyValue};
use dmi::rgba::RgbaImage;
use dmi::state::State;
use dmi::values::{Decimal, Value};

fn chars(s: &str) -> usize {
    s.chars().count()
}

#[test]
fn bad_syntax_is_fatal() {
    assert!(matches!(
        dmi::parse("not a description"),
        Err(FormatError::BadSyntax { .. })
    ));
    assert!(matches!(
        dmi::parse("# BEGIN DMI\nwidth = 32\n# END DMI"),
        Err(FormatError::BadSyntax { .. })
    ));
    // Trailing content after the end marker is an error.
    assert!(matches!(
        dmi::parse("# BEGIN DMI\nversion = 4.0\n\twidth = 32\n\theight = 32\n# END DMI\nx"),
        Err(FormatError::BadSyntax { .. })
    ));
}

#[test]
fn unsupported_version() {
    let kvs = vec![KeyValue::Width(32), KeyValue::Height(32)];
    let r = dmi::metadata::Header::try_from(KeyValue::Version(Decimal::new(30, 1)), kvs);
    assert_eq!(r, Err(FormatError::UnsupportedVersion));
    // A differently written supported version still passes.
    let kvs = vec![KeyValue::Width(32), KeyValue::Height(32)];
    let r = dmi::metadata::Header::try_from(KeyValue::Version(Decimal::new(400, 2)), kvs);
    assert!(r.is_ok());
}

#[test]
fn missing_header_fields() {
    let r = dmi::metadata::Header::try_from(
        KeyValue::Version(Decimal::new(40, 1)),
        vec![KeyValue::Height(32)],
    );
    assert_eq!(r, Err(FormatError::MissingWidth));
    let r = dmi::metadata::Header::try_from(
        KeyValue::Version(Decimal::new(40, 1)),
        vec![KeyValue::Width(32)],
    );
    assert_eq!(r, Err(FormatError::MissingHeight));
}

#[test]
fn state_field_rules() {
    let name = || KeyValue::State("s".to_string());
    let r = State::try_from(name(), vec![KeyValue::Frames(1)]);
    assert_eq!(r, Err(FormatError::MissingDirs));

    let r = State::try_from(
        name(),
        vec![KeyValue::Dirs(Dirs::One), KeyValue::Frames(1), KeyValue::Frames(2)],
    );
    assert_eq!(r, Err(FormatError::DuplicateFrames));

    let r = State::try_from(
        name(),
        vec![
            KeyValue::Dirs(Dirs::One),
            KeyValue::Frames(2),
            KeyValue::Delay(vec![Decimal::new(1, 0)]),
            KeyValue::Delay(vec![Decimal::new(2, 0)]),
        ],
    );
    assert_eq!(r, Err(FormatError::DuplicateDelay));

    let r = State::try_from(
        name(),
        vec![KeyValue::Dirs(Dirs::One), KeyValue::Delay(vec![Decimal::new(1, 0)])],
    );
    assert_eq!(r, Err(FormatError::DelayWithoutFrames));

    let r = State::try_from(
        name(),
        vec![
            KeyValue::Dirs(Dirs::One),
            KeyValue::Hotspot(vec![Decimal::new(1, 0), Decimal::new(2, 0)]),
        ],
    );
    assert_eq!(r, Err(FormatError::BadHotspot));

    let r = State::try_from(name(), vec![KeyValue::Dirs(Dirs::One), KeyValue::Width(3)]);
    assert_eq!(r, Err(FormatError::MisplacedKey));

    // A delay list may come before its frames declaration.
    let r = State::try_from(
        name(),
        vec![
            KeyValue::Dirs(Dirs::One),
            KeyValue::Delay(vec![Decimal::new(1, 0), Decimal::new(2, 0)]),
            KeyValue::Frames(2),
        ],
    );
    assert!(r.is_ok());
}

#[test]
fn misplaced_key_in_header() {
    let r = dmi::metadata::Header::try_from(
        KeyValue::Version(Decimal::new(40, 1)),
        vec![KeyValue::Width(32), KeyValue::Height(32), KeyValue::Frames(1)],
    );
    assert_eq!(r, Err(FormatError::MisplacedKey));
}

#[test]
fn invalid_dirs_value() {
    assert_eq!(Dirs::try_from(1), Ok(Dirs::One));
    assert_eq!(Dirs::try_from(4), Ok(Dirs::Four));
    assert_eq!(Dirs::try_from(8), Ok(Dirs::Eight));
    assert_eq!(Dirs::try_from(3), Err(FormatError::InvalidDirs));
    // A dirs line with an invalid count fails to parse at all.
    let s = "dirs = 3";
    assert!(dmi::key_value::key_value(s, 0, chars(s)).is_none());
}

#[test]
fn too_many_cells() {
    let description = r#"
# BEGIN DMI
version = 4.0
    width = 32
    height = 32
state = "huge"
    dirs = 8
    frames = 600000000
# END DMI
"#
    .trim();
    assert_eq!(dmi::parse(description), Err(FormatError::TooManyCells));
}

#[test]
fn bad_sheet_grid() {
    let description = r#"
# BEGIN DMI
version = 4.0
    width = 32
    height = 32
# END DMI
"#
    .trim();
    let metadata = dmi::parse(description).unwrap();
    let image = RgbaImage::new(33, 32);
    assert!(matches!(
        IconFile::new(metadata, image),
        Err(FormatError::BadSheetGrid)
    ));
}

#[test]
fn unknown_keys_round_trip() {
    let description = r#"
# BEGIN DMI
version = 4.0
    width = 32
    height = 32
    vendor = "someone"
    scale = 2
state = "s"
    dirs = 1
    custom = 1.5
    custom = 2.5
# END DMI
"#
    .trim();
    let metadata = dmi::parse(description).unwrap();
    assert_eq!(
        metadata.header.unk,
        Some(vec![
            ("vendor".to_string(), Value::Text("someone".to_string())),
            ("scale".to_string(), Value::Int(2)),
        ])
    );
    // A repeated unknown key keeps its place with the newest value.
    assert_eq!(
        metadata.states[0].1.unk,
        Some(vec![("custom".to_string(), Value::Float(Decimal::new(25, 1)))])
    );
}

#[test]
fn list_with_dangling_separator_fails() {
    let s = "delay = 1,2,";
    assert!(dmi::key_value::key_value(s, 0, chars(s)).is_none());
    let t = "delay = ,1";
    assert!(dmi::key_value::key_value(t, 0, chars(t)).is_none());
}

#[test]
fn state_num_sprites_and_animation() {
    let description = r#"
state = "s"
    dirs = 4
    frames = 3
"#
    .trim_start();
    let n = chars(description);
    let (_, state) = dmi::state::state(description, 0, n).unwrap();
    assert_eq!(state.num_sprites(), 12);
    assert!(state.is_animated());
    assert_eq!(state.frame_count(), 3);

    let single = r#"
state = "s"
    dirs = 8
"#
    .trim_start();
    let n = chars(single);
    let (_, state) = dmi::state::state(single, 0, n).unwrap();
    assert_eq!(state.num_sprites(), 8);
    assert!(!state.is_animated());
}
