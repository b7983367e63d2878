use glyphgrid::atlas::{next_power_of_two, Atlas, Sprite};
use glyphgrid::bitmaps::Image;

fn rects_disjoint(a: &Sprite, b: &Sprite) -> bool {
    let (ar, br) = (a.rect, b.rect);
    ar.x + ar.width <= br.x
        || br.x + br.width <= ar.x
        || ar.y + ar.height <= br.y
        || br.y + br.height <= ar.y
}

#[test]
fn next_power_of_two_exact() {
    assert_eq!(next_power_of_two(0), 1);
    assert_eq!(next_power_of_two(1), 1);
    assert_eq!(next_power_of_two(2), 2);
    assert_eq!(next_power_of_two(3), 4);
    assert_eq!(next_power_of_two(64), 64);
    assert_eq!(next_power_of_two(65), 128);
    assert_eq!(next_power_of_two(102), 128);
}

#[test]
fn shelf_packing_scenario() {
    // Side 64: two 30x30 bitmaps (reserved 32x32 each) fill one shelf;
    // the next two fill a second shelf; the fifth exhausts the height and
    // suggests the next power of two above 64 + 32.
    let mut atlas = Atlas::new(64);
    let im = Image::new(30, 30);
    let s1 = atlas.allocate(&im).expect("first fits");
    let s2 = atlas.allocate(&im).expect("second fits");
    let s3 = atlas.allocate(&im).expect("third starts a new shelf");
    let s4 = atlas.allocate(&im).expect("fourth fits in the new shelf");
    let err = atlas.allocate(&im).expect_err("fifth exhausts the atlas");
    assert!(err.size >= 128);
    assert_eq!(err.size, 128);

    assert_eq!((s1.rect.x, s1.rect.y), (1, 1));
    assert_eq!((s2.rect.x, s2.rect.y), (33, 1));
    assert_eq!((s3.rect.x, s3.rect.y), (1, 33));
    assert_eq!((s4.rect.x, s4.rect.y), (33, 33));

    let sprites = [s1, s2, s3, s4];
    for i in 0..sprites.len() {
        for j in (i + 1)..sprites.len() {
            assert!(rects_disjoint(&sprites[i], &sprites[j]));
        }
    }
}

#[test]
fn oversized_bitmap_fails_immediately() {
    let mut atlas = Atlas::new(64);
    let im = Image::new(100, 10);
    let err = atlas.allocate(&im).expect_err("cannot ever fit");
    assert_eq!(err.size, 128);
    // The atlas is still usable afterwards.
    assert!(atlas.allocate(&Image::new(10, 10)).is_ok());
}

#[test]
fn mixed_sizes_stay_disjoint() {
    let mut atlas = Atlas::new(64);
    let mut sprites: Vec<Sprite> = Vec::new();
    for (w, h) in [(10, 4), (3, 9), (20, 7), (1, 1), (14, 14), (30, 2)] {
        sprites.push(atlas.allocate(&Image::new(w, h)).expect("fits"));
    }
    for i in 0..sprites.len() {
        for j in (i + 1)..sprites.len() {
            assert!(rects_disjoint(&sprites[i], &sprites[j]));
        }
    }
}

#[test]
fn texture_coordinate_round_trip() {
    // Mapping the sprite's rectangle into [0,1] texture space and back
    // recovers the pixel rectangle.
    let mut atlas = Atlas::new(64);
    let sprite = atlas.allocate(&Image::new(30, 30)).expect("fits");
    let side = atlas.side() as f64;
    let (x, y, w, h) = (
        sprite.rect.x as f64,
        sprite.rect.y as f64,
        sprite.rect.width as f64,
        sprite.rect.height as f64,
    );
    let (tx, ty, tw, th) = (x / side, y / side, w / side, h / side);
    assert!((tx * side - x).abs() < 1e-9);
    assert!((ty * side - y).abs() < 1e-9);
    assert!((tw * side - w).abs() < 1e-9);
    assert!((th * side - h).abs() < 1e-9);
}
