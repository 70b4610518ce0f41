//! The panel icon, drawn here rather than named from the user's icon theme.
//!
//! It must not be confusable with the panel's own network indicator, and no icon theme ships a
//! phone with an on/off pair. State is carried by shape *and* colour: the body outline is identical
//! in both states, and the screen inside it is lit when a phone is attached and dark when none is.

use vstd::prelude::*;

verus! {

/// The sizes a panel may ask for. Each is drawn at its own size rather than scaled from one
/// bitmap, so 16 px is drawn as 16 px instead of being squeezed out of 48.
pub const SIZES: [u32; 5] = [16, 22, 24, 32, 48];

/// ARGB, opaque. Mid-tone on purpose: a drawn pixmap does not recolour with the panel theme, so
/// white would vanish on a light panel and black on a dark one.
pub const ATTACHED: u32 = 0xFF2F_A85A;

pub const DETACHED: u32 = 0xFF8A_8A8E;

/// A picture in ARGB32 with the bytes in network order, row by row.
#[derive(Debug, Clone, PartialEq, Eq)]
pub struct Icon {
    pub width: i32,
    pub height: i32,
    pub data: Vec<u8>,
}

/// The sizes that can be drawn: large enough for a phone, and small enough for the picture's
/// length to be a 32-bit number.
pub open spec fn drawable(size: u32) -> bool {
    3 <= size <= 32767
}

/// The geometry of the glyph at one size. Integer arithmetic throughout, so there is nothing to
/// round differently on another machine.
#[derive(Debug, Clone, Copy, PartialEq, Eq, Structural)]
pub struct Layout {
    pub x: u32,
    pub y: u32,
    pub w: u32,
    pub h: u32,
    pub stroke: u32,
    pub inset: u32,
}

pub open spec fn at_least(n: int, least: int) -> int {
    if n < least {
        least
    } else {
        n
    }
}

/// Where the phone stands in a square of the given size: at least one clear row and column on
/// every side, and about 5:9.
pub open spec fn geometry(size: int) -> (int, int, int, int, int, int) {
    let pad = at_least(size / 8, 1);
    let h = size - 2 * pad;
    let w = at_least((h * 5) / 9, 3);
    (
        (size - w) / 2,
        pad,
        w,
        h,
        at_least(size / 22, 1),
        at_least(size / 22, 1) + at_least(size / 16, 1),
    )
}

pub fn layout(size: u32) -> (r: Layout)
    requires
        drawable(size),
    ensures
        (r.x as int, r.y as int, r.w as int, r.h as int, r.stroke as int, r.inset as int)
            == geometry(size as int),
{
    let pad: u32 = if size / 8 < 1 {
        1
    } else {
        size / 8
    };
    let h: u32 = size - 2 * pad;
    let w: u32 = if (h * 5) / 9 < 3 {
        3
    } else {
        (h * 5) / 9
    };
    let stroke: u32 = if size / 22 < 1 {
        1
    } else {
        size / 22
    };
    let forehead: u32 = if size / 16 < 1 {
        1
    } else {
        size / 16
    };
    Layout { x: (size - w) / 2, y: pad, w, h, stroke, inset: stroke + forehead }
}

/// A rectangle: its left and top, and how far it reaches.
pub struct Rect {
    pub x: u32,
    pub y: u32,
    pub w: u32,
    pub h: u32,
}

pub struct RectView {
    pub x: int,
    pub y: int,
    pub w: int,
    pub h: int,
}

impl View for Rect {
    type V = RectView;

    open spec fn view(&self) -> RectView {
        RectView { x: self.x as int, y: self.y as int, w: self.w as int, h: self.h as int }
    }
}

impl RectView {
    pub open spec fn covers(self, px: int, py: int) -> bool {
        self.x <= px < self.x + self.w && self.y <= py < self.y + self.h
    }
}

/// What is left of a length after something has been taken off it.
pub open spec fn less(n: int, m: int) -> int {
    if n > m {
        n - m
    } else {
        0
    }
}

/// The case. The bars stop short of the corners, leaving the four corner pixels clear, which reads
/// as a rounded case rather than as a box.
pub open spec fn case_parts(size: int) -> Seq<RectView> {
    let (x, y, w, h, stroke, inset) = geometry(size);
    let inner_w = less(w, 2 * stroke);
    let inner_h = less(h, 2 * stroke);
    seq![
        RectView { x: x + stroke, y, w: inner_w, h: stroke },
        RectView { x: x + stroke, y: y + h - stroke, w: inner_w, h: stroke },
        RectView { x, y: y + stroke, w: stroke, h: inner_h },
        RectView { x: x + w - stroke, y: y + stroke, w: stroke, h: inner_h },
    ]
}

/// A speaker slot in the forehead, where the forehead is more than one pixel. It is part of the
/// phone, not part of what the phone is telling you.
pub open spec fn slot_parts(size: int) -> Seq<RectView> {
    let (x, y, w, h, stroke, inset) = geometry(size);
    let forehead = less(inset, stroke);
    let slot_w = at_least(w / 3, 2);
    if size >= 22 && forehead >= stroke {
        seq![
            RectView {
                x: x + (w - slot_w) / 2,
                y: y + stroke + (forehead - stroke + 1) / 2,
                w: slot_w,
                h: stroke,
            },
        ]
    } else {
        seq![]
    }
}

/// The screen, lit only when a phone is attached. The gap below it is twice the gap above, so there
/// is a visible chin and the handset sits the right way up.
pub open spec fn screen_parts(size: int, attached: bool) -> Seq<RectView> {
    let (x, y, w, h, stroke, inset) = geometry(size);
    let sw = less(w, 2 * inset);
    let sh = less(h, 3 * inset);
    if attached && sw > 0 && sh > 0 {
        seq![RectView { x: x + inset, y: y + inset, w: sw, h: sh }]
    } else {
        seq![]
    }
}

/// Everything that is painted.
pub open spec fn parts(size: int, attached: bool) -> Seq<RectView> {
    case_parts(size) + slot_parts(size) + screen_parts(size, attached)
}

/// Whether a pixel is painted.
pub open spec fn painted(size: int, attached: bool, px: int, py: int) -> bool {
    exists|i: int|
        0 <= i < parts(size, attached).len() && (#[trigger] parts(size, attached)[i]).covers(px, py)
}

pub open spec fn rects(v: Seq<Rect>) -> Seq<RectView> {
    v.map_values(|r: Rect| r@)
}

fn push_rect(v: &mut Vec<Rect>, r: Rect)
    ensures
        rects(final(v)@) == rects(old(v)@).push(r@),
{
    let ghost before = rects(v@);
    v.push(r);
    assert(rects(v@) == before.push(r@));
}

fn parts_of(size: u32, attached: bool) -> (r: Vec<Rect>)
    requires
        drawable(size),
    ensures
        rects(r@) == parts(size as int, attached),
{
    let l = layout(size);
    let inner_w: u32 = if l.w > 2 * l.stroke {
        l.w - 2 * l.stroke
    } else {
        0
    };
    let inner_h: u32 = if l.h > 2 * l.stroke {
        l.h - 2 * l.stroke
    } else {
        0
    };
    let mut v: Vec<Rect> = Vec::new();
    assert(rects(v@) == Seq::<RectView>::empty());
    push_rect(&mut v, Rect { x: l.x + l.stroke, y: l.y, w: inner_w, h: l.stroke });
    push_rect(
        &mut v,
        Rect { x: l.x + l.stroke, y: l.y + l.h - l.stroke, w: inner_w, h: l.stroke },
    );
    push_rect(&mut v, Rect { x: l.x, y: l.y + l.stroke, w: l.stroke, h: inner_h });
    push_rect(
        &mut v,
        Rect { x: l.x + l.w - l.stroke, y: l.y + l.stroke, w: l.stroke, h: inner_h },
    );
    assert(rects(v@) == case_parts(size as int));
    let ghost case = rects(v@);
    let forehead: u32 = l.inset - l.stroke;
    if size >= 22 && forehead >= l.stroke {
        let slot_w: u32 = if l.w / 3 < 2 {
            2
        } else {
            l.w / 3
        };
        push_rect(
            &mut v,
            Rect {
                x: l.x + (l.w - slot_w) / 2,
                y: l.y + l.stroke + (forehead - l.stroke + 1) / 2,
                w: slot_w,
                h: l.stroke,
            },
        );
    }
    assert(rects(v@) == case + slot_parts(size as int));
    let ghost phone = rects(v@);
    let sw: u32 = if l.w > 2 * l.inset {
        l.w - 2 * l.inset
    } else {
        0
    };
    let sh: u32 = if l.h > 3 * l.inset {
        l.h - 3 * l.inset
    } else {
        0
    };
    if attached && sw > 0 && sh > 0 {
        push_rect(&mut v, Rect { x: l.x + l.inset, y: l.y + l.inset, w: sw, h: sh });
    }
    assert(rects(v@) == phone + screen_parts(size as int, attached));
    v
}

/// A colour's bytes, the most significant first.
pub open spec fn network_order(c: u32) -> Seq<u8> {
    seq![
        (c / 0x100_0000) as u8,
        ((c / 0x1_0000) % 0x100) as u8,
        ((c / 0x100) % 0x100) as u8,
        (c % 0x100) as u8,
    ]
}

/// The colour of a state.
pub open spec fn state_colour(attached: bool) -> u32 {
    if attached {
        ATTACHED
    } else {
        DETACHED
    }
}

/// One byte of the picture: of the colour where the pixel is painted, and clear elsewhere.
pub open spec fn icon_byte(size: int, attached: bool, k: int) -> u8 {
    let i = k / 4;
    if painted(size, attached, i % size, i / size) {
        network_order(state_colour(attached))[k % 4]
    } else {
        0
    }
}

/// The whole picture.
pub open spec fn icon_data(size: int, attached: bool) -> Seq<u8> {
    Seq::new((size * size * 4) as nat, |k: int| icon_byte(size, attached, k))
}

fn covered(v: &Vec<Rect>, px: u32, py: u32) -> (r: bool)
    requires
        forall|i: int|
            0 <= i < v@.len() ==> (#[trigger] v@[i]).x + v@[i].w <= u32::MAX && v@[i].y + v@[i].h
                <= u32::MAX,
    ensures
        r == exists|i: int|
            0 <= i < rects(v@).len() && (#[trigger] rects(v@)[i]).covers(px as int, py as int),
{
    let mut i: usize = 0;
    while i < v.len()
        invariant
            i <= v.len(),
            forall|j: int|
                0 <= j < v@.len() ==> (#[trigger] v@[j]).x + v@[j].w <= u32::MAX && v@[j].y
                    + v@[j].h <= u32::MAX,
            forall|j: int| 0 <= j < i ==> !(#[trigger] rects(v@)[j]).covers(px as int, py as int),
        decreases v.len() - i,
    {
        let r = &v[i];
        assert(rects(v@)[i as int] == r@);
        assert(v@[i as int].x + v@[i as int].w <= u32::MAX);
        if r.x <= px && px < r.x + r.w && r.y <= py && py < r.y + r.h {
            assert(rects(v@)[i as int].covers(px as int, py as int));
            return true;
        }
        i += 1;
    }
    assert(rects(v@).len() == v@.len());
    false
}

/// Every part lies inside the square.
proof fn lemma_parts_inside(size: u32, attached: bool, i: int)
    requires
        drawable(size),
        0 <= i < parts(size as int, attached).len(),
    ensures
        ({
            let r = parts(size as int, attached)[i];
            0 <= r.x && 0 <= r.y && 0 <= r.w && 0 <= r.h && r.x + r.w <= size && r.y + r.h <= size
        }),
{
    let n = size as int;
    let case = case_parts(n);
    let slot = slot_parts(n);
    let screen = screen_parts(n, attached);
    let all = parts(n, attached);
    if i < 4 {
        assert(all[i] == case[i]);
        assert(i == 0 || i == 1 || i == 2 || i == 3);
    } else if i < 4 + slot.len() {
        assert(all[i] == slot[i - 4]);
    } else {
        assert(all[i] == screen[i - 4 - slot.len()]);
    }
}

/// One phone, `size` by `size`, in ARGB32 with the bytes in network order.
pub fn phone_icon(size: u32, attached: bool) -> (r: Icon)
    requires
        drawable(size),
    ensures
        r.width == size,
        r.height == size,
        r.data@ == icon_data(size as int, attached),
{
    let colour: u32 = if attached {
        ATTACHED
    } else {
        DETACHED
    };
    let bytes: [u8; 4] = [
        (colour / 0x100_0000) as u8,
        ((colour / 0x1_0000) % 0x100) as u8,
        ((colour / 0x100) % 0x100) as u8,
        (colour % 0x100) as u8,
    ];
    assert(bytes@ == network_order(state_colour(attached)));
    let v = parts_of(size, attached);
    let ghost n = size as int;
    proof {
        assert(rects(v@).len() == v@.len());
        assert forall|i: int| 0 <= i < v@.len() implies (#[trigger] v@[i]).x + v@[i].w <= u32::MAX
            && v@[i].y + v@[i].h <= u32::MAX by {
            lemma_parts_inside(size, attached, i);
            assert(rects(v@)[i] == v@[i]@);
        }
        assert(n * n * 4 <= 32767 * 32767 * 4) by (nonlinear_arith)
            requires
                0 <= n <= 32767,
        ;
        assert(0 <= n * n) by (nonlinear_arith);
    }
    let total: u32 = size * size;
    let ghost all = icon_data(n, attached);
    let mut data: Vec<u8> = Vec::new();
    let mut i: u32 = 0;
    while i < total
        invariant
            i <= total,
            drawable(size),
            n == size,
            total == n * n,
            all == icon_data(n, attached),
            all.len() == total * 4,
            rects(v@) == parts(n, attached),
            bytes@ == network_order(state_colour(attached)),
            forall|j: int|
                0 <= j < v@.len() ==> (#[trigger] v@[j]).x + v@[j].w <= u32::MAX && v@[j].y
                    + v@[j].h <= u32::MAX,
            data@ == all.take(i * 4),
        decreases total - i,
    {
        let on = covered(&v, i % size, i / size);
        assert(on == painted(n, attached, i as int % n, i as int / n));
        let ghost done = data@;
        let mut b: usize = 0;
        while b < 4
            invariant
                b <= 4,
                i < total,
                n == size,
                total == n * n,
                all == icon_data(n, attached),
                all.len() == total * 4,
                on == painted(n, attached, i as int % n, i as int / n),
                bytes@ == network_order(state_colour(attached)),
                data@ == all.take(i * 4 + b),
            decreases 4 - b,
        {
            let ghost k = i * 4 + b;
            assert(k / 4 == i && k % 4 == b);
            data.push(
                if on {
                    bytes[b]
                } else {
                    0
                },
            );
            assert(all[k] == icon_byte(n, attached, k));
            assert(data@ == all.take(k + 1));
            b += 1;
        }
        i += 1;
    }
    assert(data@ == all);
    Icon { width: size as i32, height: size as i32, data }
}

/// Every size, for a host to pick from.
pub fn pixmaps(attached: bool) -> (r: Vec<Icon>)
    ensures
        r@.len() == SIZES@.len(),
        forall|i: int|
            0 <= i < r@.len() ==> (#[trigger] r@[i]).width == SIZES@[i] && r@[i].height == SIZES@[i]
                && r@[i].data@ == icon_data(SIZES@[i] as int, attached),
{
    let mut r: Vec<Icon> = Vec::new();
    let mut i: usize = 0;
    while i < 5
        invariant
            i <= 5,
            r@.len() == i,
            forall|j: int|
                0 <= j < r@.len() ==> (#[trigger] r@[j]).width == SIZES@[j] && r@[j].height
                    == SIZES@[j] && r@[j].data@ == icon_data(SIZES@[j] as int, attached),
        decreases 5 - i,
    {
        assert(drawable(SIZES@[i as int]));
        r.push(phone_icon(SIZES[i], attached));
        i += 1;
    }
    r
}

// ---------------------------------------------------------------------------
// What holds of the glyph
// ---------------------------------------------------------------------------

/// A painted pixel lies in the phone's box, and not on one of its corners.
proof fn lemma_part(size: int, attached: bool, i: int, px: int, py: int)
    requires
        5 <= size <= 32767,
        0 <= i < parts(size, attached).len(),
        parts(size, attached)[i].covers(px, py),
    ensures
        ({
            let (x, y, w, h, stroke, inset) = geometry(size);
            &&& x <= px < x + w && y <= py < y + h
            &&& !((px == x || px == x + w - 1) && (py == y || py == y + h - 1))
            &&& 1 <= x && x + w <= size - 1 && 1 <= y && y + h <= size - 1
        }),
{
    let case = case_parts(size);
    let slot = slot_parts(size);
    let screen = screen_parts(size, attached);
    let all = parts(size, attached);
    if i < 4 {
        assert(all[i] == case[i]);
        assert(i == 0 || i == 1 || i == 2 || i == 3);
    } else if i < 4 + slot.len() {
        assert(all[i] == slot[i - 4]);
    } else {
        assert(all[i] == screen[i - 4 - slot.len()]);
    }
}

/// A panel crops and centres the picture; a glyph on its border would read as clipped. The
/// outermost rows and columns are clear at every size from 5 up.
pub proof fn the_glyph_touches_no_edge(size: int, attached: bool, i: int)
    requires
        5 <= size <= 32767,
    ensures
        !painted(size, attached, i, 0),
        !painted(size, attached, i, size - 1),
        !painted(size, attached, 0, i),
        !painted(size, attached, size - 1, i),
{
    lemma_clear(size, attached, i, 0);
    lemma_clear(size, attached, i, size - 1);
    lemma_clear(size, attached, 0, i);
    lemma_clear(size, attached, size - 1, i);
}

/// A pixel on an edge is not painted.
proof fn lemma_clear(size: int, attached: bool, px: int, py: int)
    requires
        5 <= size <= 32767,
        px == 0 || px == size - 1 || py == 0 || py == size - 1,
    ensures
        !painted(size, attached, px, py),
{
    if painted(size, attached, px, py) {
        let k = choose|k: int|
            0 <= k < parts(size, attached).len() && (#[trigger] parts(size, attached)[k]).covers(
                px,
                py,
            );
        lemma_part(size, attached, k, px, py);
    }
}

/// The four corners of the case are clear, and nothing is painted outside it.
pub proof fn the_case_is_rounded(size: int, attached: bool, px: int, py: int)
    requires
        5 <= size <= 32767,
    ensures
        ({
            let (x, y, w, h, stroke, inset) = geometry(size);
            &&& !painted(size, attached, x, y)
            &&& !painted(size, attached, x + w - 1, y)
            &&& !painted(size, attached, x, y + h - 1)
            &&& !painted(size, attached, x + w - 1, y + h - 1)
            &&& painted(size, attached, px, py) ==> x <= px < x + w && y <= py < y + h
        }),
{
    let (x, y, w, h, stroke, inset) = geometry(size);
    lemma_corner(size, attached, x, y);
    lemma_corner(size, attached, x + w - 1, y);
    lemma_corner(size, attached, x, y + h - 1);
    lemma_corner(size, attached, x + w - 1, y + h - 1);
    if painted(size, attached, px, py) {
        let k = choose|k: int|
            0 <= k < parts(size, attached).len() && (#[trigger] parts(size, attached)[k]).covers(
                px,
                py,
            );
        lemma_part(size, attached, k, px, py);
    }
}

proof fn lemma_corner(size: int, attached: bool, px: int, py: int)
    requires
        5 <= size <= 32767,
        ({
            let (x, y, w, h, stroke, inset) = geometry(size);
            (px == x || px == x + w - 1) && (py == y || py == y + h - 1)
        }),
    ensures
        !painted(size, attached, px, py),
{
    if painted(size, attached, px, py) {
        let k = choose|k: int|
            0 <= k < parts(size, attached).len() && (#[trigger] parts(size, attached)[k]).covers(
                px,
                py,
            );
        lemma_part(size, attached, k, px, py);
    }
}

/// What is painted with no phone attached is painted with one attached too.
pub proof fn an_attached_phone_only_adds(size: int, px: int, py: int)
    ensures
        painted(size, false, px, py) ==> painted(size, true, px, py),
{
    let off = parts(size, false);
    let on = parts(size, true);
    if painted(size, false, px, py) {
        let k = choose|k: int| 0 <= k < off.len() && (#[trigger] off[k]).covers(px, py);
        assert(on[k] == off[k]);
    }
}

/// The two states have one silhouette: the phone's box is touched on all four sides in both, so
/// with nothing painted outside it the bounds of the glyph never change with the state.
pub proof fn both_states_share_one_outline(size: int, attached: bool)
    requires
        16 <= size <= 32767,
    ensures
        ({
            let (x, y, w, h, stroke, inset) = geometry(size);
            &&& painted(size, attached, x, y + h / 2)
            &&& painted(size, attached, x + w - 1, y + h / 2)
            &&& painted(size, attached, x + w / 2, y)
            &&& painted(size, attached, x + w / 2, y + h - 1)
        }),
{
    let (x, y, w, h, stroke, inset) = geometry(size);
    let all = parts(size, attached);
    let case = case_parts(size);
    assert(all[0] == case[0] && all[1] == case[1] && all[2] == case[2] && all[3] == case[3]);
    assert(all[2].covers(x, y + h / 2));
    assert(all[3].covers(x + w - 1, y + h / 2));
    assert(all[0].covers(x + w / 2, y));
    assert(all[1].covers(x + w / 2, y + h - 1));
}

/// The states do not differ by colour alone: the lit screen is pixels the dark one does not have.
pub proof fn a_lit_screen_is_more_than_a_colour(size: int)
    requires
        16 <= size <= 32767,
    ensures
        ({
            let (x, y, w, h, stroke, inset) = geometry(size);
            painted(size, true, x + inset, y + inset) && !painted(
                size,
                false,
                x + inset,
                y + inset,
            )
        }),
{
    let (x, y, w, h, stroke, inset) = geometry(size);
    let on = parts(size, true);
    let slot = slot_parts(size);
    let screen = screen_parts(size, true);
    let px = x + inset;
    let py = y + inset;
    assert(w > 2 * inset && h > 3 * inset);
    assert(on[4 + slot.len() as int] == screen[0]);
    assert(on[4 + slot.len() as int].covers(px, py));
    let off = parts(size, false);
    if painted(size, false, px, py) {
        let k = choose|k: int| 0 <= k < off.len() && (#[trigger] off[k]).covers(px, py);
        let case = case_parts(size);
        if k < 4 {
            assert(off[k] == case[k]);
            assert(k == 0 || k == 1 || k == 2 || k == 3);
        } else {
            assert(off[k] == slot[k - 4]);
        }
    }
}

/// Every pixel is either fully clear or the state's colour, alpha first.
pub proof fn bytes_are_in_network_order(size: int, attached: bool, px: int, py: int, b: int)
    requires
        3 <= size <= 32767,
        0 <= px < size,
        0 <= py < size,
        0 <= b < 4,
    ensures
        0 <= (py * size + px) * 4 + b < icon_data(size, attached).len(),
        icon_data(size, attached)[(py * size + px) * 4 + b] == if painted(size, attached, px, py) {
            network_order(state_colour(attached))[b]
        } else {
            0u8
        },
        network_order(state_colour(true)) == seq![0xFFu8, 0x2Fu8, 0xA8u8, 0x5Au8],
        network_order(state_colour(false)) == seq![0xFFu8, 0x8Au8, 0x8Au8, 0x8Eu8],
{
    let i = py * size + px;
    assert(0 <= i < size * size) by (nonlinear_arith)
        requires
            0 <= px < size,
            0 <= py < size,
            i == py * size + px,
    ;
    assert(i % size == px && i / size == py) by {
        vstd::arithmetic::div_mod::lemma_fundamental_div_mod_converse(i, size, py, px);
    }
    let k = i * 4 + b;
    assert(k / 4 == i && k % 4 == b);
}

} // verus!
