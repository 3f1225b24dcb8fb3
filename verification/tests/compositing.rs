//! Tests of the alpha compositor and the direction model.

use dmi::dir::Dir;
use dmi::dmi::{composite, Rect};
use dmi::rgba::{Rgba, RgbaImage};

#[test]
fn composite_test() {
    let mut map = RgbaImage::new(4, 4);
    let mut image = RgbaImage::new(4, 4);

    for y in 0..4 {
        for x in 0..4 {
            image.put_pixel(x, y, Rgba::new(255, 0, 0, 255));
        }
    }

    composite(
        &image,
        &mut map,
        (0, 0),
        Rect { x: 0, y: 0, width: 2, height: 2 },
        Rgba::new(255, 255, 255, 255),
    )
    .unwrap();

    for y in 0..2 {
        for x in 0..2 {
            assert!(map.get_pixel(x, y) == image.get_pixel(x, y));
        }
    }
}

/// Compositing identity: an opaque source with the identity tint onto a
/// region already holding the same content reproduces it unchanged.
#[test]
fn opaque_identity_blend() {
    let mut src = RgbaImage::new(3, 3);
    let mut dst = RgbaImage::new(3, 3);
    for y in 0..3 {
        for x in 0..3 {
            let p = Rgba::new((40 * x + 7) as u8, (91 * y + 3) as u8, 200, 255);
            src.put_pixel(x, y, p);
            dst.put_pixel(x, y, p);
        }
    }
    let before: Vec<Rgba> = (0..3)
        .flat_map(|y| (0..3).map(move |x| (x, y)))
        .map(|(x, y)| dst.get_pixel(x, y))
        .collect();
    composite(
        &src,
        &mut dst,
        (0, 0),
        Rect { x: 0, y: 0, width: 3, height: 3 },
        Rgba::new(255, 255, 255, 255),
    )
    .unwrap();
    let after: Vec<Rgba> = (0..3)
        .flat_map(|y| (0..3).map(move |x| (x, y)))
        .map(|(x, y)| dst.get_pixel(x, y))
        .collect();
    assert_eq!(before, after);
}

/// A crop that leaves the source is rejected before any write.
#[test]
fn composite_rejects_out_of_source_crop() {
    let src = RgbaImage::new(4, 4);
    let mut dst = RgbaImage::new(8, 8);
    let r = composite(
        &src,
        &mut dst,
        (0, 0),
        Rect { x: 3, y: 0, width: 2, height: 2 },
        Rgba::new(255, 255, 255, 255),
    );
    assert_eq!(r, Err(dmi::error::BoundsError));
}

/// Destination pixels outside the canvas are skipped, the rest written.
#[test]
fn composite_clips_at_destination_edge() {
    let mut src = RgbaImage::new(2, 2);
    for y in 0..2 {
        for x in 0..2 {
            src.put_pixel(x, y, Rgba::new(9, 8, 7, 255));
        }
    }
    let mut dst = RgbaImage::new(2, 2);
    composite(
        &src,
        &mut dst,
        (1, 1),
        Rect { x: 0, y: 0, width: 2, height: 2 },
        Rgba::new(255, 255, 255, 255),
    )
    .unwrap();
    assert_eq!(dst.get_pixel(1, 1), Rgba::new(9, 8, 7, 255));
    assert_eq!(dst.get_pixel(0, 0), Rgba::new(0, 0, 0, 0));
    assert_eq!(dst.get_pixel(1, 0), Rgba::new(0, 0, 0, 0));
    assert_eq!(dst.get_pixel(0, 1), Rgba::new(0, 0, 0, 0));
}

/// A zero output alpha leaves the destination pixel untouched.
#[test]
fn zero_alpha_leaves_destination() {
    let src = RgbaImage::new(1, 1);
    let mut dst = RgbaImage::new(1, 1);
    dst.put_pixel(0, 0, Rgba::new(5, 6, 7, 0));
    composite(
        &src,
        &mut dst,
        (0, 0),
        Rect { x: 0, y: 0, width: 1, height: 1 },
        Rgba::new(255, 255, 255, 255),
    )
    .unwrap();
    assert_eq!(dst.get_pixel(0, 0), Rgba::new(5, 6, 7, 0));
}

/// The tint scales each channel in 0..=255 fixed point, truncating.
#[test]
fn tint_scales_channels() {
    let mut src = RgbaImage::new(1, 1);
    src.put_pixel(0, 0, Rgba::new(200, 100, 50, 255));
    let mut dst = RgbaImage::new(1, 1);
    composite(
        &src,
        &mut dst,
        (0, 0),
        Rect { x: 0, y: 0, width: 1, height: 1 },
        Rgba::new(128, 255, 0, 255),
    )
    .unwrap();
    // 200*128/255 = 100, 100*255/255 = 100, 50*0/255 = 0, alpha stays 255.
    assert_eq!(dst.get_pixel(0, 0), Rgba::new(100, 100, 0, 255));
}

/// Direction closure: flipping twice returns the original direction, a
/// counterclockwise quarter turn is undone by a clockwise one and the other
/// way round, and eight eighth turns are a full turn.
#[test]
fn direction_closure() {
    let all = [
        Dir::North,
        Dir::South,
        Dir::East,
        Dir::West,
        Dir::Northeast,
        Dir::Northwest,
        Dir::Southeast,
        Dir::Southwest,
    ];
    for d in all {
        assert_eq!(d.flip().flip(), d);
        let mut r = d;
        for _ in 0..8 {
            r = r.clockwise_45();
        }
        assert_eq!(r, d);
        assert_eq!(d.counterclockwise_90().clockwise_90(), d);
        assert_eq!(d.clockwise_90().counterclockwise_90(), d);
    }
}

/// The direction bit encodings round-trip and diagonals contain their
/// cardinals.
#[test]
fn direction_encoding() {
    for value in 0..16 {
        if let Some(d) = Dir::from_int(value) {
            assert_eq!(d.to_int(), value);
        }
    }
    assert_eq!(Dir::from_int(3), None);
    assert!(Dir::Southwest.contains(Dir::South));
    assert!(Dir::Southwest.contains(Dir::West));
    assert!(!Dir::Southwest.contains(Dir::North));
    assert!(Dir::Northeast.is_diagonal());
    assert!(!Dir::North.is_diagonal());
    assert_eq!(Dir::Northeast.offset(), (1, 1));
    assert_eq!(Dir::South.offset(), (0, -1));
}
