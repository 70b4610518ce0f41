//! What the icon looks like, pixel by pixel.

use crate::tray::icon::{
    bytes_are_in_network_order, case_parts, geometry, layout, painted, parts, phone_icon, pixmaps,
    screen_parts, slot_parts, Icon, Layout,
};
use vstd::prelude::*;

verus! {

/// The larger of two numbers.
pub open spec fn larger(a: int, b: int) -> int {
    if a > b {
        a
    } else {
        b
    }
}

/// A phone stands upright in the middle of the picture, with an eighth of it clear above and below.
/// It is five ninths as wide as it is high. Its case is a twenty-second of the picture thick, and
/// its screen begins a sixteenth further in. Nothing is ever less than a pixel.
pub proof fn how_a_phone_is_laid_out(size: u32, l: Layout)
    requires
        3 <= size <= 32767,
        call_ensures(layout, (size,), l),
    ensures
        l.y == larger(size as int / 8, 1),
        l.y + l.h + l.y == size,
        l.w == larger(l.h * 5 / 9, 3),
        l.x == (size - l.w) / 2,
        l.stroke == larger(size as int / 22, 1),
        l.inset == l.stroke + larger(size as int / 16, 1),
{
}

/// On the case: within the phone, within a stroke of its side, and not in one of its four corners,
/// which are rounded off.
pub open spec fn on_case(l: Layout, px: int, py: int) -> bool {
    let left = px - l.x;
    let top = py - l.y;
    let right = l.x + l.w - 1 - px;
    let bottom = l.y + l.h - 1 - py;
    let near_x = left < l.stroke || right < l.stroke;
    let near_y = top < l.stroke || bottom < l.stroke;
    &&& left >= 0 && top >= 0 && right >= 0 && bottom >= 0
    &&& near_x || near_y
    &&& !(near_x && near_y)
}

/// On the screen: an inset from the side and from the top, and two insets from the bottom.
pub open spec fn on_screen(l: Layout, px: int, py: int) -> bool {
    &&& l.x + l.inset <= px < l.x + l.w - l.inset
    &&& l.y + l.inset <= py < l.y + l.h - 2 * l.inset
}

/// In the slot of the earpiece: in the middle between the case and the screen, a third of the phone
/// wide and a stroke high. A picture under 22 pixels has no room for it.
pub open spec fn in_slot(size: int, l: Layout, px: int, py: int) -> bool {
    let forehead = l.inset - l.stroke;
    let w = larger(l.w as int / 3, 2);
    let x = l.x + (l.w - w) / 2;
    let y = l.y + l.stroke + (forehead - l.stroke + 1) / 2;
    &&& size >= 22 && forehead >= l.stroke
    &&& x <= px < x + w
    &&& y <= py < y + l.stroke
}

proof fn lemma_painted(size: int, l: Layout, attached: bool, px: int, py: int)
    requires
        5 <= size <= 32767,
        (l.x as int, l.y as int, l.w as int, l.h as int, l.stroke as int, l.inset as int)
            == geometry(size),
    ensures
        painted(size, attached, px, py) <==> on_case(l, px, py) || in_slot(size, l, px, py) || (
        attached && on_screen(l, px, py)),
{
    let all = parts(size, attached);
    let case = case_parts(size);
    let slot = slot_parts(size);
    let screen = screen_parts(size, attached);
    assert(all == case + slot + screen);
    assert(l.w >= 2 * l.stroke && l.h >= 2 * l.stroke);
    assert(all[0] == case[0] && all[1] == case[1] && all[2] == case[2] && all[3] == case[3]);
    if painted(size, attached, px, py) {
        let k = choose|k: int| 0 <= k < all.len() && (#[trigger] all[k]).covers(px, py);
        if k < 4 {
            assert(all[k] == case[k]);
            assert(k == 0 || k == 1 || k == 2 || k == 3);
            assert(on_case(l, px, py));
        } else if k < 4 + slot.len() {
            assert(all[k] == slot[k - 4]);
            assert(in_slot(size, l, px, py));
        } else {
            assert(all[k] == screen[k - 4 - slot.len()]);
            assert(on_screen(l, px, py));
        }
    }
    if on_case(l, px, py) {
        assert(all[0].covers(px, py) || all[1].covers(px, py) || all[2].covers(px, py)
            || all[3].covers(px, py));
    }
    if in_slot(size, l, px, py) {
        assert(all[4] == slot[0]);
        assert(all[4].covers(px, py));
    }
    if attached && on_screen(l, px, py) {
        let k = 4 + slot.len() as int;
        assert(screen.len() == 1);
        assert(all[k] == screen[0]);
        assert(all[k].covers(px, py));
    }
}

/// What is painted is the case, the slot and, with a phone attached, the whole screen; every other
/// pixel is clear. It is painted green with a phone attached and grey without, alpha first.
pub proof fn what_is_painted(
    size: u32,
    attached: bool,
    r: Icon,
    l: Layout,
    px: int,
    py: int,
    b: int,
)
    requires
        5 <= size <= 32767,
        call_ensures(phone_icon, (size, attached), r),
        call_ensures(layout, (size,), l),
        0 <= px < size,
        0 <= py < size,
        0 <= b < 4,
    ensures
        r.width == size && r.height == size,
        r.data@.len() == size * size * 4,
        0 <= (py * size + px) * 4 + b < r.data@.len(),
        r.data@[(py * size + px) * 4 + b] == (if on_case(l, px, py) || in_slot(
            size as int,
            l,
            px,
            py,
        ) || (attached && on_screen(l, px, py)) {
            if attached {
                seq![0xFFu8, 0x2Fu8, 0xA8u8, 0x5Au8][b]
            } else {
                seq![0xFFu8, 0x8Au8, 0x8Au8, 0x8Eu8][b]
            }
        } else {
            0u8
        }),
{
    lemma_painted(size as int, l, attached, px, py);
    bytes_are_in_network_order(size as int, attached, px, py, b);
}

/// The panel is given the icon in five sizes, from 16 pixels to 48.
pub proof fn the_icon_comes_in_five_sizes(
    attached: bool,
    r: Vec<Icon>,
    i: int,
    size: u32,
    one: Icon,
)
    requires
        call_ensures(pixmaps, (attached,), r),
        0 <= i < 5,
        size == seq![16u32, 22u32, 24u32, 32u32, 48u32][i],
        call_ensures(phone_icon, (size, attached), one),
    ensures
        r@.len() == 5,
        r@[i].width == one.width && r@[i].height == one.height && r@[i].data@ == one.data@,
{
}

} // verus!
