//! End-to-end scenarios: offsets, duplicate names, cell addressing,
//! rendering and animation timing.

use dmi::dir::Dir;
use dmi::dmi::{IconFile, Rect};
use dmi::key_value::Dirs;
use dmi::metadata::IconIndex;
use dmi::render::IconRenderer;
use dmi::rgba::{Rgba, RgbaImage};
use dmi::state::Frames;
use dmi::values::Decimal;

fn d(mantissa: u64, scale: u32) -> Decimal {
    Decimal::new(mantissa, scale)
}

/// A sheet whose cell `i` is filled with the solid color `(i, 0, 0, 255)`.
fn numbered_sheet(width: u32, height: u32, cell: u32) -> RgbaImage {
    let mut image = RgbaImage::new(width, height);
    let cols = width / cell;
    for y in 0..height {
        for x in 0..width {
            let idx = (y / cell) * cols + x / cell;
            image.put_pixel(x, y, Rgba::new(idx as u8, 0, 0, 255));
        }
    }
    image
}

/// Round-trip offset law on concrete values: each state's offset is the sum
/// of the cell counts before it, and the first offset is zero.
#[test]
fn offsets_are_running_sums() {
    let description = r#"
# BEGIN DMI
version = 4.0
    width = 32
    height = 32
state = "a"
    dirs = 8
    frames = 3
state = "b"
    dirs = 4
    frames = 2
state = "c"
    dirs = 1
# END DMI
"#
    .trim();
    let metadata = dmi::parse(description).unwrap();
    assert_eq!(metadata.states[0].0.into_inner(), 0);
    assert_eq!(metadata.states[1].0.into_inner(), 24);
    assert_eq!(metadata.states[2].0.into_inner(), 32);
}

/// Parsing the same text twice yields identical catalogs.
#[test]
fn parse_is_idempotent() {
    let description = r#"
# BEGIN DMI
version = 4.0
    width = 32
    height = 32
state = "open"
    dirs = 4
    frames = 2
    delay = 1.2,1
# END DMI
"#
    .trim();
    let a = dmi::parse(description).unwrap();
    let b = dmi::parse(description).unwrap();
    assert_eq!(a, b);
}

/// A delay list whose length disagrees with the declared frame count is
/// preserved as given: the list itself carries the frame count.
#[test]
fn delay_length_wins_over_declared_count() {
    let description = r#"
state = "odd"
    dirs = 1
    frames = 3
    delay = 1,2
"#
    .trim_start();
    let n = description.chars().count();
    let (_, state) = dmi::state::state(description, 0, n).unwrap();
    assert_eq!(state.frames, Frames::Delays(vec![d(1, 0), d(2, 0)]));
    assert_eq!(state.frame_count(), 2);
}

/// Scenario A: a header with no states treats the whole sheet as one
/// implicit cell at the origin, for any reference.
#[test]
fn empty_catalog_addresses_full_sheet() {
    let description = r#"
# BEGIN DMI
version = 4.0
    width = 32
    height = 32
# END DMI
"#
    .trim();
    let metadata = dmi::parse(description).unwrap();
    let image = RgbaImage::new(32, 32);
    let file = IconFile::new(metadata, image).unwrap();
    let rect = file.rect_of(IconIndex::default_icon("anything"), Dir::South);
    assert_eq!(rect, Some(Rect { x: 0, y: 0, width: 32, height: 32 }));
    let rect2 = file.rect_of(IconIndex::new(7, "other"), Dir::Northwest);
    assert_eq!(rect2, Some(Rect { x: 0, y: 0, width: 32, height: 32 }));
}

/// Scenario B: two states sharing a name stay distinct occurrences with
/// their own offsets, each resolvable on its own.
#[test]
fn duplicate_names_stay_distinct() {
    let description = r#"
# BEGIN DMI
version = 4.0
    width = 32
    height = 32
state = "open"
    dirs = 1
    frames = 1
state = "open"
    dirs = 4
    frames = 1
# END DMI
"#
    .trim();
    let metadata = dmi::parse(description).unwrap();

    let (loc0, st0) = metadata.get_icon_state(IconIndex::new(0, "open")).unwrap();
    assert_eq!(loc0.into_inner(), 0);
    assert_eq!(st0.dirs, Dirs::One);

    let (loc1, st1) = metadata.get_icon_state(IconIndex::new(1, "open")).unwrap();
    assert_eq!(loc1.into_inner(), 1);
    assert_eq!(st1.dirs, Dirs::Four);

    assert!(metadata.get_icon_state(IconIndex::new(2, "open")).is_none());

    let all = metadata.get_duplicate_icon_states("open").unwrap();
    assert_eq!(all.len(), 2);
    assert_eq!(all[0].0.into_inner(), 0);
    assert_eq!(all[1].0.into_inner(), 1);
    assert!(metadata.get_duplicate_icon_states("shut").is_none());
}

/// Cell index resolution: offset, plus the direction's canonical slot, plus
/// the frame number times the direction cardinality.
#[test]
fn direction_and_frame_indexing() {
    let description = r#"
# BEGIN DMI
version = 4.0
    width = 32
    height = 32
state = "pad"
    dirs = 1
    frames = 2
state = "walk"
    dirs = 8
    frames = 3
# END DMI
"#
    .trim();
    let metadata = dmi::parse(description).unwrap();
    let walk = IconIndex::new(0, "walk");
    assert_eq!(metadata.get_index_of_dir(walk, Dir::South), Some(2));
    assert_eq!(metadata.get_index_of_dir(walk, Dir::North), Some(3));
    assert_eq!(metadata.get_index_of_dir(walk, Dir::East), Some(4));
    assert_eq!(metadata.get_index_of_dir(walk, Dir::West), Some(5));
    assert_eq!(metadata.get_index_of_dir(walk, Dir::Southeast), Some(6));
    assert_eq!(metadata.get_index_of_dir(walk, Dir::Southwest), Some(7));
    assert_eq!(metadata.get_index_of_dir(walk, Dir::Northeast), Some(8));
    assert_eq!(metadata.get_index_of_dir(walk, Dir::Northwest), Some(9));
    assert_eq!(metadata.get_index_of_frame(walk, Dir::East, 2), Some(20));

    // An unknown direction of a four-direction state falls back to slot 0.
    let pad = IconIndex::new(0, "pad");
    assert_eq!(metadata.get_index_of_dir(pad, Dir::Northwest), Some(0));
    assert_eq!(metadata.get_index_of_frame(pad, Dir::South, 1), Some(1));
}

/// Scenario C: a four-direction, two-frame state on a 32-pixel grid renders
/// two 128 by 32 canvases, with delays 1.2 and 1.0 in tenths of a second.
#[test]
fn four_direction_two_frame_render() {
    let description = r#"
# BEGIN DMI
version = 4.0
    width = 32
    height = 32
state = "spin"
    dirs = 4
    frames = 2
    delay = 1.2,1
    rewind = 0
# END DMI
"#
    .trim();
    let metadata = dmi::parse(description).unwrap();
    let image = numbered_sheet(128, 64, 32);
    let file = IconFile::new(metadata, image).unwrap();
    let renderer = IconRenderer::new(&file);

    let frames = renderer.render_to_images(IconIndex::new(0, "spin")).unwrap();
    assert_eq!(frames.len(), 2);
    for frame in &frames {
        assert_eq!(frame.width(), 128);
        assert_eq!(frame.height(), 32);
    }
    // Frame 0 draws cells 0..4, frame 1 draws cells 4..8, slot by slot.
    for j in 0..4u32 {
        assert_eq!(frames[0].get_pixel(j * 32, 0), Rgba::new(j as u8, 0, 0, 255));
        assert_eq!(frames[1].get_pixel(j * 32, 0), Rgba::new(4 + j as u8, 0, 0, 255));
    }

    let timed = renderer.animation_frames(IconIndex::new(0, "spin")).unwrap();
    assert_eq!(timed.len(), 2);
    assert_eq!(timed[0].1, 120);
    assert_eq!(timed[1].1, 100);
}

/// Scenario D: the same state with rewind set emits the frame sequence
/// 0, 1, 1, 0 with the matching delays.
#[test]
fn rewind_emits_ping_pong() {
    let description = r#"
# BEGIN DMI
version = 4.0
    width = 32
    height = 32
state = "spin"
    dirs = 4
    frames = 2
    delay = 1.2,1
    rewind = 1
# END DMI
"#
    .trim();
    let metadata = dmi::parse(description).unwrap();
    let image = numbered_sheet(128, 64, 32);
    let file = IconFile::new(metadata, image).unwrap();
    let renderer = IconRenderer::new(&file);

    let timed = renderer.animation_frames(IconIndex::new(0, "spin")).unwrap();
    assert_eq!(timed.len(), 4);
    let first_cells: Vec<u8> = timed.iter().map(|p| p.0.get_pixel(0, 0).r).collect();
    // Slot 0 of frame 0 is cell 0; slot 0 of frame 1 is cell 4.
    assert_eq!(first_cells, vec![0, 4, 4, 0]);
    let delays: Vec<u64> = timed.iter().map(|p| p.1).collect();
    assert_eq!(delays, vec![120, 100, 100, 120]);
}

/// A still state selects the still output shape; an animated one the
/// animation shape; rendering the animation path of a still state is a
/// usage error; an unknown reference is not found.
#[test]
fn render_path_selection() {
    let description = r#"
# BEGIN DMI
version = 4.0
    width = 32
    height = 32
state = "still"
    dirs = 1
    frames = 1
state = "anim"
    dirs = 1
    frames = 2
# END DMI
"#
    .trim();
    let metadata = dmi::parse(description).unwrap();
    let image = numbered_sheet(96, 32, 32);
    let file = IconFile::new(metadata, image).unwrap();
    let renderer = IconRenderer::new(&file);

    let still = renderer.prepare_render(IconIndex::new(0, "still")).unwrap();
    assert_eq!(still.render_type, dmi::render::RenderType::Png);
    let anim = renderer.prepare_render(IconIndex::new(0, "anim")).unwrap();
    assert_eq!(anim.render_type, dmi::render::RenderType::Gif);

    assert_eq!(
        renderer.prepare_render(IconIndex::new(0, "missing")).err(),
        Some(dmi::error::RenderError::NotFound)
    );
    assert_eq!(
        renderer.animation_frames(IconIndex::new(0, "still")).err(),
        Some(dmi::error::RenderError::NotAnimated)
    );
}

/// Delay scaling: tenths of a second become milliseconds, truncating.
#[test]
fn delay_millis_scaling() {
    assert_eq!(dmi::render::delay_millis(d(12, 1)), 120);
    assert_eq!(dmi::render::delay_millis(d(1, 0)), 100);
    assert_eq!(dmi::render::delay_millis(d(54, 1)), 540);
    assert_eq!(dmi::render::delay_millis(d(25, 2)), 25);
    assert_eq!(dmi::render::delay_millis(d(1, 3)), 0);
    assert_eq!(dmi::render::delay_millis(d(0, 0)), 0);
}
