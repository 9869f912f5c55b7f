//! Renderer decisions that need no GPU: frame statistics, the canvas
//! rectangle inside the window, batching of sprite instances, and the
//! choice of GPU and swapchain settings from what the driver reports.
use vstd::prelude::*;

verus! {

/// What one rendered frame did.
#[derive(Clone, Copy, Debug)]
pub struct RenderStats {
    pub drawn: usize,
    pub culled: usize,
    pub draw_calls: usize,
    pub texture_uploads: usize,
    pub uploaded_bytes: usize,
}

impl Default for RenderStats {
    fn default() -> (r: Self)
        ensures
            r.drawn == 0 && r.culled == 0 && r.draw_calls == 0 && r.texture_uploads == 0 && r.uploaded_bytes == 0,
    {
        RenderStats { drawn: 0, culled: 0, draw_calls: 0, texture_uploads: 0, uploaded_bytes: 0 }
    }
}

/// A rectangle of window pixels.
#[derive(Clone, Copy, Debug, PartialEq, Eq, Structural)]
pub struct CanvasRect {
    pub x: i32,
    pub y: i32,
    pub width: u32,
    pub height: u32,
}

/// The largest rectangle of the canvas's aspect ratio that fits a window of
/// `window[0]`×`window[1]` pixels, centered, its sides rounded down (but at
/// least one pixel) so that no fractional edge shows outside it.
pub open spec fn canvas_fit(canvas: [u32; 2], window: [u32; 2]) -> (int, int) {
    let cw = canvas[0] as int;
    let ch = canvas[1] as int;
    let w = window[0] as int;
    let h = window[1] as int;
    if w * ch <= h * cw {
        (w, if w * ch / cw >= 1 { w * ch / cw } else { 1 })
    } else {
        (if h * cw / ch >= 1 { h * cw / ch } else { 1 }, h)
    }
}

/// Where the canvas of `canvas[0]`×`canvas[1]` logical pixels is drawn in a
/// window of `window[0]`×`window[1]` pixels.
pub fn canvas_rect(canvas: [u32; 2], window: [u32; 2]) -> (r: CanvasRect)
    requires
        canvas[0] > 0,
        canvas[1] > 0,
        window[0] > 0,
        window[1] > 0,
    ensures
        r.width == canvas_fit(canvas, window).0,
        r.height == canvas_fit(canvas, window).1,
        r.x == (window[0] - r.width) / 2,
        r.y == (window[1] - r.height) / 2,
        0 < r.width <= window[0],
        0 < r.height <= window[1],
        0 <= r.x,
        0 <= r.y,
        r.x + r.width <= window[0],
        r.y + r.height <= window[1],
{
    let cw = canvas[0] as u64;
    let ch = canvas[1] as u64;
    let w = window[0] as u64;
    let h = window[1] as u64;
    proof {
        lemma_product_bound(w as int, ch as int);
        lemma_product_bound(h as int, cw as int);
    }
    let (width, height) = if w * ch <= h * cw {
        let q = w * ch / cw;
        proof {
            lemma_quotient_bound(w as int, ch as int, h as int, cw as int);
        }
        (w, if q >= 1 { q } else { 1 })
    } else {
        let q = h * cw / ch;
        proof {
            lemma_quotient_bound(h as int, cw as int, w as int, ch as int);
        }
        (if q >= 1 { q } else { 1 }, h)
    };
    CanvasRect { x: ((w - width) / 2) as i32, y: ((h - height) / 2) as i32, width: width as u32, height: height as u32 }
}

proof fn lemma_product_bound(a: int, b: int)
    by (nonlinear_arith)
    requires
        0 <= a <= u32::MAX,
        0 <= b <= u32::MAX,
    ensures
        0 <= a * b <= u64::MAX,
{
}

/// `a * b <= c * d` with `d > 0` gives `a * b / d <= c`.
proof fn lemma_quotient_bound(a: int, b: int, c: int, d: int)
    by (nonlinear_arith)
    requires
        0 <= a,
        0 <= b,
        0 <= c,
        d > 0,
        a * b <= c * d,
    ensures
        a * b / d <= c,
        a * b / d >= 0,
{
}

/// A run of instances drawn with one call: all share the texture binding
/// `descriptor` and the blending mode.
#[derive(Clone, Copy, Debug, PartialEq, Eq, Structural)]
pub struct Batch {
    pub descriptor: u64,
    pub first: u32,
    pub count: u32,
    pub premultiplied: bool,
}

/// The batches cover the instances `0..len` in order, each nonempty, and
/// no two neighbours could have been merged.
pub open spec fn tiles(batches: Seq<Batch>, len: int) -> bool {
    &&& forall|i: int| 0 <= i < batches.len() ==> #[trigger] batches[i].count > 0
    &&& batches.len() == 0 ==> len == 0
    &&& batches.len() > 0 ==> batches[0].first == 0
    &&& batches.len() > 0 ==> batches.last().first + batches.last().count == len
    &&& forall|i: int|
        0 < i < batches.len() ==> #[trigger] batches[i].first == batches[i - 1].first + batches[i - 1].count
    &&& forall|i: int|
        0 < i < batches.len() ==> !(#[trigger] batches[i].descriptor == batches[i - 1].descriptor
            && batches[i].premultiplied == batches[i - 1].premultiplied)
}

/// The instances of one surface for one frame, grouped into draw calls.
pub struct DrawList<I> {
    instances: Vec<I>,
    batches: Vec<Batch>,
}

impl<I> DrawList<I> {
    /// The instances, in drawing order.
    pub closed spec fn instances(&self) -> Seq<I> {
        self.instances@
    }

    /// The draw calls, in order.
    pub closed spec fn batches(&self) -> Seq<Batch> {
        self.batches@
    }

    /// The draw calls tile the instances, whose count fits a `u32`.
    pub open spec fn wf(&self) -> bool {
        &&& tiles(self.batches(), self.instances().len() as int)
        &&& self.instances().len() <= u32::MAX
    }

    pub fn new() -> (r: Self)
        ensures
            r.wf(),
            r.instances().len() == 0,
            r.batches().len() == 0,
    {
        DrawList { instances: Vec::new(), batches: Vec::new() }
    }

    /// Empties the list.
    pub fn clear(&mut self)
        ensures
            final(self).wf(),
            final(self).instances().len() == 0,
            final(self).batches().len() == 0,
    {
        self.instances.clear();
        self.batches.clear();
    }

    /// Appends an instance drawn with `descriptor` and blending mode
    /// `premultiplied`: it extends the last draw call when that uses the
    /// same, and starts a new one otherwise.
    pub fn push(&mut self, instance: I, descriptor: u64, premultiplied: bool)
        requires
            old(self).wf(),
            old(self).instances().len() < u32::MAX,
        ensures
            final(self).wf(),
            final(self).instances() == old(self).instances().push(instance),
            ({
                let b = old(self).batches();
                if b.len() > 0 && b.last().descriptor == descriptor && b.last().premultiplied == premultiplied {
                    final(self).batches() == b.update(
                        b.len() - 1,
                        Batch { count: (b.last().count + 1) as u32, ..b.last() },
                    )
                } else {
                    final(self).batches() == b.push(
                        Batch { descriptor, first: old(self).instances().len() as u32, count: 1, premultiplied },
                    )
                }
            }),
    {
        let first = self.instances.len() as u32;
        self.instances.push(instance);
        let n = self.batches.len();
        if n > 0 {
            let last = self.batches[n - 1];
            if last.descriptor == descriptor && last.premultiplied == premultiplied {
                self.batches.set(n - 1, Batch { count: last.count + 1, ..last });
                return;
            }
        }
        self.batches.push(Batch { descriptor, first, count: 1, premultiplied });
    }

    /// The instances, in drawing order.
    pub fn instance_slice(&self) -> (r: &[I])
        ensures
            r@ == self.instances(),
    {
        self.instances.as_slice()
    }

    /// The draw calls, in order.
    pub fn batch_slice(&self) -> (r: &[Batch])
        ensures
            r@ == self.batches(),
    {
        self.batches.as_slice()
    }
}

/// The GPU to render with, among candidates scored by `device_score`:
/// the highest score and, among equal scores, the last candidate.
pub fn choose_device(scores: &[u32]) -> (r: Option<usize>)
    ensures
        r is None <==> scores@.len() == 0,
        r matches Some(i) ==> {
            &&& i < scores@.len()
            &&& forall|j: int| 0 <= j < scores@.len() ==> scores@[j] <= scores@[i as int]
            &&& forall|j: int| i < j < scores@.len() ==> scores@[j] < scores@[i as int]
        },
{
    if scores.len() == 0 {
        return None;
    }
    let mut best: usize = 0;
    let mut j: usize = 1;
    while j < scores.len()
        invariant
            best < j <= scores@.len(),
            forall|k: int| 0 <= k < j ==> scores@[k] <= scores@[best as int],
            forall|k: int| best < k < j ==> scores@[k] < scores@[best as int],
        decreases scores@.len() - j,
    {
        if scores[j] >= scores[best] {
            best = j;
        }
        j = j + 1;
    }
    Some(best)
}

/// A discrete GPU scores 2, any other 1.
pub fn device_score(discrete: bool) -> (r: u32)
    ensures
        r == if discrete { 2u32 } else { 1u32 },
{
    if discrete {
        2
    } else {
        1
    }
}

/// How presented frames are paced.
#[derive(Clone, Copy, Debug, PartialEq, Eq, Structural)]
pub enum PresentChoice {
    Immediate,
    Mailbox,
    Fifo,
}

/// Without vsync, the first of immediate and mailbox presentation that the
/// surface offers; otherwise, and when it offers neither, FIFO (vsync).
pub fn present_mode(vsync: bool, immediate: bool, mailbox: bool) -> (r: PresentChoice)
    ensures
        r == if !vsync && immediate {
            PresentChoice::Immediate
        } else if !vsync && mailbox {
            PresentChoice::Mailbox
        } else {
            PresentChoice::Fifo
        },
{
    if !vsync && immediate {
        PresentChoice::Immediate
    } else if !vsync && mailbox {
        PresentChoice::Mailbox
    } else {
        PresentChoice::Fifo
    }
}

/// Swapchain images: one more than the surface's minimum, within its
/// maximum when it has one (a maximum of 0 means none).
pub fn swapchain_image_count(min: u32, max: u32) -> (r: u32)
    requires
        min < u32::MAX,
    ensures
        r == if max > 0 && max < min + 1 { max as int } else { min + 1 },
{
    if max > 0 && max < min + 1 {
        max
    } else {
        min + 1
    }
}

/// The swapchain size: the surface's current extent, or, when the surface
/// leaves it to the swapchain (a current width of `u32::MAX`), the window
/// size clamped to the surface's limits.
pub fn swapchain_extent(current: [u32; 2], min: [u32; 2], max: [u32; 2], window: [u32; 2]) -> (r: [u32; 2])
    requires
        current[0] == u32::MAX ==> min[0] <= max[0] && min[1] <= max[1],
    ensures
        current[0] != u32::MAX ==> r == current,
        current[0] == u32::MAX ==> forall|k: int|
            0 <= k < 2 ==> #[trigger] r[k] == if window[k] < min[k] {
                min[k]
            } else if window[k] > max[k] {
                max[k]
            } else {
                window[k]
            },
{
    if current[0] != u32::MAX {
        return current;
    }
    let w = if window[0] < min[0] {
        min[0]
    } else if window[0] > max[0] {
        max[0]
    } else {
        window[0]
    };
    let h = if window[1] < min[1] {
        min[1]
    } else if window[1] > max[1] {
        max[1]
    } else {
        window[1]
    };
    let r = [w, h];
    assert(r[0] == w && r[1] == h);
    r
}

/// `VkFormat` code of `R8G8B8A8_UNORM`.
pub const FORMAT_R8G8B8A8_UNORM: i32 = 37;

/// `VkFormat` code of `B8G8R8A8_UNORM`.
pub const FORMAT_B8G8R8A8_UNORM: i32 = 44;

/// `VkColorSpaceKHR` code of `SRGB_NONLINEAR`.
pub const COLOR_SPACE_SRGB_NONLINEAR: i32 = 0;

/// A surface format (format code, color space code) the swapchain can use:
/// RGBA8 or BGRA8 UNORM in the sRGB nonlinear color space.
pub open spec fn usable_surface_format(f: (i32, i32)) -> bool {
    (f.0 == FORMAT_B8G8R8A8_UNORM || f.0 == FORMAT_R8G8B8A8_UNORM) && f.1 == COLOR_SPACE_SRGB_NONLINEAR
}

/// The first usable surface format among those the surface offers, as
/// (`VkFormat`, `VkColorSpaceKHR`) codes; `None` when none is usable.
pub fn surface_format(formats: &[(i32, i32)]) -> (r: Option<usize>)
    ensures
        r is None <==> forall|j: int| 0 <= j < formats@.len() ==> !usable_surface_format(#[trigger] formats@[j]),
        r matches Some(i) ==> i < formats@.len() && usable_surface_format(formats@[i as int]) && forall|j: int|
            0 <= j < i ==> !usable_surface_format(#[trigger] formats@[j]),
{
    let mut i: usize = 0;
    while i < formats.len()
        invariant
            i <= formats@.len(),
            forall|j: int| 0 <= j < i ==> !usable_surface_format(#[trigger] formats@[j]),
        decreases formats@.len() - i,
    {
        let (format, space) = formats[i];
        if (format == FORMAT_B8G8R8A8_UNORM || format == FORMAT_R8G8B8A8_UNORM) && space == COLOR_SPACE_SRGB_NONLINEAR {
            return Some(i);
        }
        i = i + 1;
    }
    None
}

} // verus!
