use wadb::tray::icon::{layout, phone_icon, pixmaps, Icon, SIZES};

fn pixel(icon: &Icon, x: u32, y: u32) -> [u8; 4] {
    let i = ((y * icon.width as u32 + x) * 4) as usize;
    icon.data[i..i + 4].try_into().unwrap()
}

fn opaque(icon: &Icon, x: u32, y: u32) -> bool {
    pixel(icon, x, y)[0] == 0xFF
}

#[test]
fn every_size_is_the_right_length_and_fully_opaque_or_fully_clear() {
    for &size in &SIZES {
        for attached in [true, false] {
            let icon = phone_icon(size, attached);
            assert_eq!(icon.width, size as i32);
            assert_eq!(icon.height, size as i32);
            assert_eq!(icon.data.len(), (size * size * 4) as usize);
            for chunk in icon.data.chunks(4) {
                assert!(
                    chunk[0] == 0 || chunk[0] == 0xFF,
                    "size {size}: alpha {} is neither clear nor opaque",
                    chunk[0]
                );
            }
        }
    }
}

#[test]
fn the_glyph_never_touches_an_edge() {
    for &size in &SIZES {
        for attached in [true, false] {
            let icon = phone_icon(size, attached);
            for i in 0..size {
                assert!(!opaque(&icon, i, 0), "size {size}: top row is drawn on");
                assert!(
                    !opaque(&icon, i, size - 1),
                    "size {size}: bottom row is drawn on"
                );
                assert!(!opaque(&icon, 0, i), "size {size}: left column is drawn on");
                assert!(
                    !opaque(&icon, size - 1, i),
                    "size {size}: right column is drawn on"
                );
            }
        }
    }
}

#[test]
fn the_two_states_share_one_outline_and_differ_inside_it() {
    for &size in &SIZES {
        let on = phone_icon(size, true);
        let off = phone_icon(size, false);

        let bounds = |icon: &Icon| {
            let (mut x0, mut y0, mut x1, mut y1) = (size, size, 0, 0);
            for y in 0..size {
                for x in 0..size {
                    if opaque(icon, x, y) {
                        x0 = x0.min(x);
                        y0 = y0.min(y);
                        x1 = x1.max(x);
                        y1 = y1.max(y);
                    }
                }
            }
            (x0, y0, x1, y1)
        };
        assert_eq!(
            bounds(&on),
            bounds(&off),
            "size {size}: the silhouette must not change with the state"
        );
        assert_ne!(
            on.data, off.data,
            "size {size}: the two states must be distinguishable"
        );
        let lit = |icon: &Icon| {
            (0..size * size)
                .filter(|i| icon.data[(*i * 4) as usize] == 0xFF)
                .count()
        };
        assert!(
            lit(&on) > lit(&off),
            "size {size}: attached must draw more than detached, not just recolour it"
        );
    }
}

#[test]
fn bytes_are_argb_in_network_order() {
    for &size in &SIZES {
        let l = layout(size);
        let on = phone_icon(size, true);
        let off = phone_icon(size, false);
        let (x, y) = (l.x, l.y + l.h / 2);
        assert_eq!(pixel(&on, x, y), [0xFF, 0x2F, 0xA8, 0x5A], "size {size}");
        assert_eq!(pixel(&off, x, y), [0xFF, 0x8A, 0x8A, 0x8E], "size {size}");
    }
}

#[test]
fn the_four_corners_of_the_case_are_clear() {
    for &size in &SIZES {
        for attached in [true, false] {
            let icon = phone_icon(size, attached);
            let l = layout(size);
            for (cx, cy) in [
                (l.x, l.y),
                (l.x + l.w - 1, l.y),
                (l.x, l.y + l.h - 1),
                (l.x + l.w - 1, l.y + l.h - 1),
            ] {
                assert!(
                    !opaque(&icon, cx, cy),
                    "size {size}: corner ({cx},{cy}) is painted"
                );
            }
        }
    }
}

#[test]
fn pixmaps_offers_every_size() {
    let sizes: Vec<i32> = pixmaps(true).iter().map(|i| i.width).collect();
    assert_eq!(sizes, SIZES.iter().map(|&s| s as i32).collect::<Vec<_>>());
}

#[test]
fn the_smallest_icon_is_drawn_pixel_by_pixel() {
    let picture = |attached: bool| {
        let icon = phone_icon(16, attached);
        (0..16)
            .map(|y| {
                (0..16)
                    .map(|x| if opaque(&icon, x, y) { '#' } else { '.' })
                    .collect::<String>()
            })
            .collect::<Vec<_>>()
    };
    let off = picture(false);
    assert_eq!(off[1], "................");
    assert_eq!(off[2], "......####......");
    assert_eq!(off[3], ".....#....#.....");
    assert_eq!(off[12], ".....#....#.....");
    assert_eq!(off[13], "......####......");
    assert_eq!(off[14], "................");
    let on = picture(true);
    assert_eq!(on[3], off[3]);
    assert_eq!(on[4], ".....#.##.#.....");
    assert_eq!(on[9], ".....#.##.#.....");
    assert_eq!(on[10], off[10]);
}
