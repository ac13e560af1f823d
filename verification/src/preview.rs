//! The layout of a workspace preview: one canvas spanning every monitor,
//! on which each monitor's picture is placed at its offset.
use vstd::prelude::*;

use crate::text::owned;

verus! {

/// The position and size of one monitor on the virtual desktop.
#[derive(Clone, Copy, Debug)]
pub struct MonitorArea {
    pub x: i32,
    pub y: i32,
    pub width: u32,
    pub height: u32,
}

/// The canvas that covers every monitor: its top-left corner on the
/// virtual desktop and its size.
#[derive(Clone, Copy, Debug)]
pub struct CanvasLayout {
    pub min_x: i32,
    pub min_y: i32,
    pub width: u32,
    pub height: u32,
}

/// The leftmost monitor edge (`i32::MAX` for no monitor).
pub open spec fn min_left(ms: Seq<MonitorArea>) -> int
    decreases ms.len(),
{
    if ms.len() == 0 {
        i32::MAX as int
    } else {
        let rest = min_left(ms.drop_last());
        if (ms.last().x as int) < rest {
            ms.last().x as int
        } else {
            rest
        }
    }
}

/// The topmost monitor edge (`i32::MAX` for no monitor).
pub open spec fn min_top(ms: Seq<MonitorArea>) -> int
    decreases ms.len(),
{
    if ms.len() == 0 {
        i32::MAX as int
    } else {
        let rest = min_top(ms.drop_last());
        if (ms.last().y as int) < rest {
            ms.last().y as int
        } else {
            rest
        }
    }
}

/// The rightmost monitor edge (`i32::MIN` for no monitor).
pub open spec fn max_right(ms: Seq<MonitorArea>) -> int
    decreases ms.len(),
{
    if ms.len() == 0 {
        i32::MIN as int
    } else {
        let rest = max_right(ms.drop_last());
        let r = ms.last().x + ms.last().width;
        if r > rest {
            r
        } else {
            rest
        }
    }
}

/// The bottom monitor edge (`i32::MIN` for no monitor).
pub open spec fn max_bottom(ms: Seq<MonitorArea>) -> int
    decreases ms.len(),
{
    if ms.len() == 0 {
        i32::MIN as int
    } else {
        let rest = max_bottom(ms.drop_last());
        let b = ms.last().y + ms.last().height;
        if b > rest {
            b
        } else {
            rest
        }
    }
}

/// The monitors' coordinates, edges and the desktop's span fit in an `i32`.
pub open spec fn monitors_in_range(ms: Seq<MonitorArea>) -> bool {
    &&& forall|i: int|
        0 <= i < ms.len() ==> {
            let m = #[trigger] ms[i];
            &&& m.width <= i32::MAX
            &&& m.height <= i32::MAX
            &&& m.x + m.width <= i32::MAX
            &&& m.y + m.height <= i32::MAX
        }
    &&& ms.len() > 0 ==> max_right(ms) - min_left(ms) <= i32::MAX
    &&& ms.len() > 0 ==> max_bottom(ms) - min_top(ms) <= i32::MAX
}

pub proof fn lemma_bounds(ms: Seq<MonitorArea>, i: int)
    requires
        0 <= i < ms.len(),
    ensures
        min_left(ms) <= ms[i].x,
        min_top(ms) <= ms[i].y,
        ms[i].x + ms[i].width <= max_right(ms),
        ms[i].y + ms[i].height <= max_bottom(ms),
    decreases ms.len(),
{
    if i < ms.len() - 1 {
        lemma_bounds(ms.drop_last(), i);
    }
}

/// The canvas covering all monitors, or why there is none: no monitor, or
/// an empty span.
pub fn canvas_layout(monitors: &Vec<MonitorArea>) -> (r: Result<CanvasLayout, String>)
    requires
        monitors_in_range(monitors@),
    ensures
        monitors@.len() == 0 ==> (r matches Err(m) && m@ == "No monitors found"@),
        monitors@.len() > 0 ==> {
            let w = max_right(monitors@) - min_left(monitors@);
            let h = max_bottom(monitors@) - min_top(monitors@);
            if w == 0 || h == 0 {
                (r matches Err(m) && m@ == "Invalid virtual screen dimensions"@)
            } else {
                (r matches Ok(c) && c.min_x == min_left(monitors@) && c.min_y == min_top(monitors@)
                    && c.width == w && c.height == h)
            }
        },
{
    if monitors.len() == 0 {
        return Err(owned("No monitors found"));
    }
    let mut min_x: i32 = i32::MAX;
    let mut min_y: i32 = i32::MAX;
    let mut max_x: i32 = i32::MIN;
    let mut max_y: i32 = i32::MIN;
    let mut i: usize = 0;
    while i < monitors.len()
        invariant
            i <= monitors@.len(),
            monitors_in_range(monitors@),
            min_x == min_left(monitors@.take(i as int)),
            min_y == min_top(monitors@.take(i as int)),
            max_x == max_right(monitors@.take(i as int)),
            max_y == max_bottom(monitors@.take(i as int)),
        decreases monitors@.len() - i,
    {
        let m = monitors[i];
        proof {
            assert(monitors@.take(i + 1).drop_last() =~= monitors@.take(i as int));
            assert(monitors@.take(i + 1).last() == m);
        }
        let w = m.width as i32;
        let h = m.height as i32;
        if m.x < min_x {
            min_x = m.x;
        }
        if m.y < min_y {
            min_y = m.y;
        }
        if m.x + w > max_x {
            max_x = m.x + w;
        }
        if m.y + h > max_y {
            max_y = m.y + h;
        }
        i = i + 1;
    }
    proof {
        assert(monitors@.take(monitors@.len() as int) =~= monitors@);
        lemma_bounds(monitors@, 0);
    }
    let total_width = (max_x - min_x) as u32;
    let total_height = (max_y - min_y) as u32;
    if total_width == 0 || total_height == 0 {
        return Err(owned("Invalid virtual screen dimensions"));
    }
    Ok(CanvasLayout { min_x, min_y, width: total_width, height: total_height })
}

/// Where a monitor's picture goes on the canvas.
pub fn monitor_offset(canvas: &CanvasLayout, x: i32, y: i32) -> (r: (u32, u32))
    requires
        canvas.min_x <= x,
        canvas.min_y <= y,
        x - canvas.min_x <= i32::MAX,
        y - canvas.min_y <= i32::MAX,
    ensures
        r.0 == x - canvas.min_x,
        r.1 == y - canvas.min_y,
{
    ((x - canvas.min_x) as u32, (y - canvas.min_y) as u32)
}

/// A captured picture: `width` × `height` pixels, row by row, four bytes
/// (red, green, blue, alpha) each.
#[derive(Clone, Debug)]
pub struct Picture {
    pub width: u32,
    pub height: u32,
    pub rgba: Vec<u8>,
}

/// The picture's bytes are its pixels.
pub open spec fn picture_ok(p: Picture) -> bool {
    p.rgba@.len() == p.width * p.height * 4
}

/// The RGBA bytes of a `width` × `height` canvas after the picture
/// `pic_width` × `pic_height` (`pic`) is copied onto it with its top-left
/// corner at (`x`, `y`), cut off where it leaves the canvas: a pixel of the
/// canvas inside the picture's rectangle takes the picture's pixel there,
/// every other pixel stays.
pub open spec fn placed_on(
    canvas: Seq<u8>,
    width: u32,
    height: u32,
    x: u32,
    y: u32,
    pic_width: u32,
    pic_height: u32,
    pic: Seq<u8>,
) -> Seq<u8> {
    Seq::new(
        canvas.len(),
        |i: int|
            {
                let px = (i / 4) % (width as int);
                let py = (i / 4) / (width as int);
                if x <= px < x + pic_width && y <= py < y + pic_height {
                    pic[((py - y) * pic_width + (px - x)) * 4 + i % 4]
                } else {
                    canvas[i]
                }
            },
    )
}

/// The RGB bytes of a `width` × `height` RGBA canvas: the red, green and
/// blue bytes of each pixel, its alpha byte dropped.
pub open spec fn rgb_of_canvas(canvas: Seq<u8>, width: u32, height: u32) -> Seq<u8> {
    Seq::new((width * height * 3) as nat, |i: int| canvas[(i / 3) * 4 + i % 3])
}

/// Copies a picture onto a canvas with `image::imageops::replace`, both held
/// as `image::RgbaImage` (`ImageBuffer::from_raw`, `into_raw`). Claimed, as
/// `replace` and its clipping (`overlay_bounds_ext`) do it: the result is
/// `placed_on` of the arguments, and the canvas keeps its size.
#[verifier::external_body]
fn place_picture(canvas: Vec<u8>, width: u32, height: u32, x: u32, y: u32, pic: &Picture) -> (r: Vec<u8>)
    requires
        canvas@.len() == width * height * 4,
        picture_ok(*pic),
    ensures
        r@ == placed_on(canvas@, width, height, x, y, pic.width, pic.height, pic.rgba@),
        r@.len() == canvas@.len(),
{
    let mut bottom = match image::RgbaImage::from_raw(width, height, canvas) {
        Some(b) => b,
        None => return Vec::new(),
    };
    let top = match image::RgbaImage::from_raw(pic.width, pic.height, pic.rgba.clone()) {
        Some(t) => t,
        None => return bottom.into_raw(),
    };
    image::imageops::replace(&mut bottom, &top, x as i64, y as i64);
    bottom.into_raw()
}

/// Converts an RGBA canvas to RGB with `DynamicImage::into_rgb8` and hands
/// back its bytes. Claimed, as the RGBA-to-RGB colour conversion does it:
/// the result is `rgb_of_canvas` of the arguments (alpha dropped).
#[verifier::external_body]
fn rgb_bytes(canvas: Vec<u8>, width: u32, height: u32) -> (r: Vec<u8>)
    requires
        canvas@.len() == width * height * 4,
    ensures
        r@ == rgb_of_canvas(canvas@, width, height),
{
    match image::RgbaImage::from_raw(width, height, canvas) {
        Some(img) => image::DynamicImage::ImageRgba8(img).into_rgb8().into_raw(),
        None => Vec::new(),
    }
}

/// `n` opaque black pixels.
pub open spec fn black_pixels(n: nat) -> Seq<u8> {
    Seq::new(n * 4, |i: int| if i % 4 == 3 { 255u8 } else { 0u8 })
}

/// The bytes of a black canvas of `n` pixels.
fn black_canvas(n: usize) -> (r: Vec<u8>)
    requires
        n * 4 <= usize::MAX,
    ensures
        r@ == black_pixels(n as nat),
{
    let mut r: Vec<u8> = Vec::new();
    let mut i: usize = 0;
    while i < n
        invariant
            i <= n,
            n * 4 <= usize::MAX,
            r@ == black_pixels(i as nat),
        decreases n - i,
    {
        r.push(0);
        r.push(0);
        r.push(0);
        r.push(255);
        proof {
            assert(r@ =~= black_pixels((i + 1) as nat));
        }
        i = i + 1;
    }
    r
}

/// The canvas after the pictures of the first monitors are copied onto it,
/// each at its monitor's offset from (`min_x`, `min_y`); a monitor without a
/// picture leaves it as it is.
pub open spec fn laid_out(
    base: Seq<u8>,
    width: u32,
    height: u32,
    min_x: int,
    min_y: int,
    ms: Seq<MonitorArea>,
    pics: Seq<Option<Picture>>,
) -> Seq<u8>
    decreases ms.len(),
{
    if ms.len() == 0 || pics.len() != ms.len() {
        base
    } else {
        let before = laid_out(base, width, height, min_x, min_y, ms.drop_last(), pics.drop_last());
        match pics.last() {
            Some(p) => placed_on(
                before,
                width,
                height,
                (ms.last().x - min_x) as u32,
                (ms.last().y - min_y) as u32,
                p.width,
                p.height,
                p.rgba@,
            ),
            None => before,
        }
    }
}

/// The bytes of the canvas that covers all monitors fit in memory.
pub open spec fn canvas_fits(ms: Seq<MonitorArea>) -> bool {
    (max_right(ms) - min_left(ms)) * (max_bottom(ms) - min_top(ms)) * 4 <= usize::MAX
}

/// The preview of the desktop: a black canvas covering every monitor, on
/// which each monitor's picture (where there is one) is copied at its
/// offset, in monitor order, as RGB bytes; or why there is no canvas.
pub fn stitch_monitors(monitors: &Vec<MonitorArea>, pictures: &Vec<Option<Picture>>) -> (r: Result<Vec<u8>, String>)
    requires
        monitors_in_range(monitors@),
        canvas_fits(monitors@),
        pictures@.len() == monitors@.len(),
        forall|k: int| 0 <= k < pictures@.len() ==> (#[trigger] pictures@[k] matches Some(p) ==> picture_ok(p)),
    ensures
        monitors@.len() == 0 ==> (r matches Err(m) && m@ == "No monitors found"@),
        monitors@.len() > 0 ==> {
            let w = max_right(monitors@) - min_left(monitors@);
            let h = max_bottom(monitors@) - min_top(monitors@);
            if w == 0 || h == 0 {
                (r matches Err(m) && m@ == "Invalid virtual screen dimensions"@)
            } else {
                (r matches Ok(b) && b@ == rgb_of_canvas(
                    laid_out(
                        black_pixels((w * h) as nat),
                        w as u32,
                        h as u32,
                        min_left(monitors@),
                        min_top(monitors@),
                        monitors@,
                        pictures@,
                    ),
                    w as u32,
                    h as u32,
                ))
            }
        },
{
    let canvas = match canvas_layout(monitors) {
        Ok(c) => c,
        Err(e) => {
            return Err(e);
        },
    };
    let ghost w = canvas.width as int;
    let ghost h = canvas.height as int;
    assert(w * h * 4 <= usize::MAX);
    assert(w * h <= usize::MAX) by (nonlinear_arith)
        requires
            w * h * 4 <= usize::MAX,
            w >= 0,
            h >= 0,
    ;
    let n = (canvas.width as usize) * (canvas.height as usize);
    let mut bytes = black_canvas(n);
    let ghost base = bytes@;
    proof {
        assert(bytes@.len() == canvas.width * canvas.height * 4);
    }
    let mut k: usize = 0;
    while k < monitors.len()
        invariant
            k <= monitors@.len(),
            pictures@.len() == monitors@.len(),
            monitors_in_range(monitors@),
            forall|j: int| 0 <= j < pictures@.len() ==> (#[trigger] pictures@[j] matches Some(p) ==> picture_ok(p)),
            canvas.min_x == min_left(monitors@),
            canvas.min_y == min_top(monitors@),
            bytes@.len() == canvas.width * canvas.height * 4,
            bytes@ == laid_out(
                base,
                canvas.width,
                canvas.height,
                canvas.min_x as int,
                canvas.min_y as int,
                monitors@.take(k as int),
                pictures@.take(k as int),
            ),
        decreases monitors@.len() - k,
    {
        let m = monitors[k];
        proof {
            lemma_bounds(monitors@, k as int);
            assert(monitors@.take(k + 1).drop_last() =~= monitors@.take(k as int));
            assert(pictures@.take(k + 1).drop_last() =~= pictures@.take(k as int));
            assert(monitors@.take(k + 1).last() == m);
            assert(pictures@.take(k + 1).last() == pictures@[k as int]);
        }
        match &pictures[k] {
            Some(p) => {
                let (ox, oy) = monitor_offset(&canvas, m.x, m.y);
                bytes = place_picture(bytes, canvas.width, canvas.height, ox, oy, p);
            },
            None => {},
        }
        k = k + 1;
    }
    proof {
        assert(monitors@.take(monitors@.len() as int) =~= monitors@);
        assert(pictures@.take(pictures@.len() as int) =~= pictures@);
    }
    Ok(rgb_bytes(bytes, canvas.width, canvas.height))
}

/// Every monitor's picture lies inside the canvas.
pub proof fn lemma_monitor_inside_canvas(ms: Seq<MonitorArea>, i: int)
    requires
        0 <= i < ms.len(),
    ensures
        min_left(ms) <= ms[i].x,
        min_top(ms) <= ms[i].y,
        (ms[i].x - min_left(ms)) + ms[i].width <= max_right(ms) - min_left(ms),
        (ms[i].y - min_top(ms)) + ms[i].height <= max_bottom(ms) - min_top(ms),
{
    lemma_bounds(ms, i);
}

} // verus!
