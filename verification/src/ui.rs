//! Small computations for the tray icon and the popup window.

use vstd::prelude::*;

verus! {

/// Width and height of the tray icon in pixels.
pub const ICON_SIZE: usize = 18;

/// Whether the pixel in column `x` and row `y` of the tray icon is drawn:
/// the icon is a square frame with a cross through its middle.
pub open spec fn icon_pixel_on(x: int, y: int) -> bool {
    x == 3 || x == 14 || y == 3 || y == 14 || x == 8 || x == 9 || y == 8 || y == 9
}

/// The byte at position `i` of the icon's RGBA data: drawn pixels are opaque
/// black, all others transparent.
pub open spec fn icon_byte(i: int) -> u8 {
    let pixel = i / 4;
    if i % 4 == 3 && icon_pixel_on(pixel % (ICON_SIZE as int), pixel / (ICON_SIZE as int)) {
        255
    } else {
        0
    }
}

/// The RGBA data of the tray icon, row by row.
pub open spec fn icon_rgba() -> Seq<u8> {
    Seq::new((ICON_SIZE * ICON_SIZE * 4) as nat, |i: int| icon_byte(i))
}

/// Draws the tray icon.
pub fn tray_icon_rgba() -> (rgba: Vec<u8>)
    ensures
        rgba@ == icon_rgba(),
{
    let mut rgba: Vec<u8> = Vec::new();
    let mut y: usize = 0;
    while y < ICON_SIZE
        invariant
            y <= ICON_SIZE,
            rgba@.len() == 4 * (y * ICON_SIZE),
            forall|i: int| 0 <= i < rgba@.len() ==> rgba@[i] == icon_byte(i),
        decreases ICON_SIZE - y,
    {
        let mut x: usize = 0;
        while x < ICON_SIZE
            invariant
                y < ICON_SIZE,
                x <= ICON_SIZE,
                rgba@.len() == 4 * (y * ICON_SIZE + x),
                forall|i: int| 0 <= i < rgba@.len() ==> rgba@[i] == icon_byte(i),
            decreases ICON_SIZE - x,
        {
            let on = x == 3 || x == 14 || y == 3 || y == 14 || x == 8 || x == 9 || y == 8 || y == 9;
            let ghost base = rgba@.len() as int;
            proof {
                let pixel = y * ICON_SIZE + x;
                assert(base == 4 * pixel);
                assert(pixel % (ICON_SIZE as int) == x && pixel / (ICON_SIZE as int) == y);
                assert((base + 0) / 4 == pixel && (base + 1) / 4 == pixel && (base + 2) / 4 == pixel
                    && (base + 3) / 4 == pixel);
                assert((base + 0) % 4 == 0 && (base + 1) % 4 == 1 && (base + 2) % 4 == 2 && (base
                    + 3) % 4 == 3);
            }
            rgba.push(0);
            rgba.push(0);
            rgba.push(0);
            rgba.push(if on { 255 } else { 0 });
            x += 1;
        }
        y += 1;
    }
    assert(rgba@ =~= icon_rgba());
    rgba
}

/// `v` brought into the range of `i32`.
pub open spec fn clamp_i32(v: int) -> int {
    if v < i32::MIN {
        i32::MIN as int
    } else if v > i32::MAX {
        i32::MAX as int
    } else {
        v
    }
}

/// Where the popup goes on a monitor: centered horizontally in the work
/// area and resting on its lower edge, but never left of or above the work
/// area's origin.
pub open spec fn popup_origin(
    work_x: int,
    work_y: int,
    work_width: int,
    work_height: int,
    popup_width: int,
    popup_height: int,
) -> (int, int) {
    let dx = if work_width > popup_width {
        (work_width - popup_width) / 2
    } else {
        0
    };
    let dy = if work_height > popup_height {
        work_height - popup_height
    } else {
        0
    };
    (clamp_i32(work_x + dx), clamp_i32(work_y + dy))
}

fn to_i32(v: i64) -> (r: i32)
    ensures
        r == clamp_i32(v as int),
{
    if v < -0x8000_0000 {
        -0x8000_0000
    } else if v > 0x7fff_ffff {
        0x7fff_ffff
    } else {
        v as i32
    }
}

/// Computes the popup's position from the monitor's work area and the
/// popup's size; see `popup_origin`.
pub fn popup_position(
    work_x: i32,
    work_y: i32,
    work_width: u32,
    work_height: u32,
    popup_width: i32,
    popup_height: i32,
) -> (r: (i32, i32))
    ensures
        (r.0 as int, r.1 as int) == popup_origin(
            work_x as int,
            work_y as int,
            work_width as int,
            work_height as int,
            popup_width as int,
            popup_height as int,
        ),
{
    let dx: i64 = if work_width as i64 > popup_width as i64 {
        (work_width as i64 - popup_width as i64) / 2
    } else {
        0
    };
    let dy: i64 = if work_height as i64 > popup_height as i64 {
        work_height as i64 - popup_height as i64
    } else {
        0
    };
    (to_i32(work_x as i64 + dx), to_i32(work_y as i64 + dy))
}

} // verus!
