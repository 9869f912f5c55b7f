//! CPU-side textures and the render surfaces that sprites draw into.
use crate::assets::TextureCompression;
use crate::pixels::{blocks_of_format, compressible, encode_rgba8, fits_compression, law_each_format_uses_its_own_kernel, rgba8_encoded};
use std::sync::{Arc, Mutex};
use vstd::prelude::*;

verus! {

#[verifier::external_type_specification]
#[verifier::external_body]
#[verifier::reject_recursive_types(T)]
pub struct ExMutex<T: ?Sized>(Mutex<T>);

/// How a texture is sampled.
#[derive(Clone, Copy, Debug, PartialEq, Eq, Hash, Structural)]
pub enum TextureFilter {
    Linear,
    Nearest,
}

impl Default for TextureFilter {
    fn default() -> (r: Self)
        ensures
            r == TextureFilter::Linear,
    {
        TextureFilter::Linear
    }
}

/// A weak reference to a renderer's retirement queue (`std::sync::Weak`, which
/// Verus cannot declare: its allocator parameter does not match). Holding it
/// never keeps the queue alive.
#[verifier::external_body]
pub struct RetireQueue {
    queue: std::sync::Weak<Mutex<Vec<usize>>>,
}

impl RetireQueue {
    /// `std::sync::Arc::downgrade` of `queue`.
    #[verifier::external_body]
    pub(crate) fn new(queue: &Arc<Mutex<Vec<usize>>>) -> Self {
        RetireQueue { queue: Arc::downgrade(queue) }
    }

    /// Appends `key` to the queue when it still exists (`Weak::upgrade`, then
    /// `Mutex::lock` and `Vec::push`); otherwise, or when the lock is poisoned,
    /// does nothing. It runs in a destructor, which Verus holds to never
    /// unwind, so a poisoned lock is passed over rather than panicked on.
    /// Nothing is stated of the queue afterwards: it lives behind a `Weak`.
    #[verifier::external_body]
    fn push(&self, key: usize)
        opens_invariants none
        no_unwind
    {
        if let Some(queue) = self.queue.upgrade() {
            if let Ok(mut queue) = queue.lock() {
                queue.push(key);
            }
        }
    }
}

/// The link from a GPU-resident texture back to its renderer.
pub struct GpuHandle {
    pub owner: u64,
    pub key: usize,
    pub retired: RetireQueue,
}

impl GpuHandle {
    /// The handle of texture `key` of renderer `owner`, whose retirement
    /// queue is `queue`; the handle does not keep the queue alive.
    pub fn new(owner: u64, key: usize, queue: &Arc<Mutex<Vec<usize>>>) -> (r: Self)
        ensures
            r.owner == owner,
            r.key == key,
    {
        GpuHandle { owner, key, retired: RetireQueue::new(queue) }
    }
}

/// An image: either RGBA8 pixels held on the CPU, or a handle to GPU storage.
pub struct Texture {
    pub filter: TextureFilter,
    width: u16,
    height: u16,
    pixels: Vec<u8>,
    pub gpu: Option<GpuHandle>,
}

impl Drop for Texture {
    /// A GPU texture hands its key to the renderer's retirement queue.
    fn drop(&mut self)
        opens_invariants none
        no_unwind
    {
        if let Some(gpu) = &self.gpu {
            gpu.retired.push(gpu.key);
        }
    }
}

/// What `image::load_from_memory` followed by `DynamicImage::into_rgba8`
/// makes of an encoded file: width, height and RGBA8 pixels, or the text of
/// the decoding error.
pub uninterp spec fn image_decode(bytes: Seq<u8>) -> Result<(u32, u32, Seq<u8>), Seq<char>>;

/// Decodes an image file of any format the `image` crate was built with
/// (`image::load_from_memory`), converted to RGBA8 (`into_rgba8`,
/// `into_raw`); errors are rendered with `to_string`. AVIF is not among
/// the formats: `image` decodes it only through the native `dav1d`
/// library (its `avif-native` feature), which this crate does not build
/// with, so an AVIF file fails with `image`'s unsupported-format error.
#[verifier::external_body]
fn decode_rgba(bytes: &[u8]) -> (r: Result<(u32, u32, Vec<u8>), String>)
    ensures
        match (r, image_decode(bytes@)) {
            (Ok((w, h, p)), Ok((dw, dh, dp))) => w == dw && h == dh && p@ == dp,
            (Err(e), Err(de)) => e@ == de,
            _ => false,
        },
{
    match image::load_from_memory(bytes) {
        Ok(image) => {
            let rgba = image.into_rgba8();
            Ok((rgba.width(), rgba.height(), rgba.into_raw()))
        },
        Err(e) => Err(e.to_string()),
    }
}

/// The shape `Texture::from_rgba` accepts.
pub open spec fn valid_rgba(width: int, height: int, len: int) -> bool {
    width > 0 && height > 0 && len == width * height * 4
}

impl Texture {
    pub closed spec fn spec_width(&self) -> u16 {
        self.width
    }

    pub closed spec fn spec_height(&self) -> u16 {
        self.height
    }

    pub closed spec fn spec_pixels(&self) -> Seq<u8> {
        self.pixels@
    }

    pub closed spec fn spec_filter(&self) -> TextureFilter {
        self.filter
    }

    pub closed spec fn spec_gpu(&self) -> Option<GpuHandle> {
        self.gpu
    }

    /// A CPU texture from `width * height` RGBA8 pixels, row by row.
    pub fn from_rgba(width: u16, height: u16, pixels: Vec<u8>) -> (r: Result<Self, String>)
        ensures
            r is Ok <==> valid_rgba(width as int, height as int, pixels@.len() as int),
            r matches Ok(t) ==> t.spec_width() == width && t.spec_height() == height
                && t.spec_pixels() == pixels@ && t.spec_filter() == TextureFilter::Linear
                && t.spec_gpu().is_none(),
            r matches Err(e) ==> e@ == "expected nonzero dimensions and width * height * 4 RGBA bytes"@,
    {
        assert((width as int) * (height as int) <= 65535 * 65535) by (nonlinear_arith)
            requires
                width <= 65535,
                height <= 65535,
        ;
        let needed: u64 = (width as u64) * (height as u64) * 4;
        if width == 0 || height == 0 || pixels.len() as u64 != needed {
            return Err("expected nonzero dimensions and width * height * 4 RGBA bytes".to_owned());
        }
        Ok(Texture { width, height, pixels, filter: TextureFilter::Linear, gpu: None })
    }

    /// A texture whose pixels live on the GPU.
    pub fn on_gpu(width: u16, height: u16, filter: TextureFilter, gpu: GpuHandle) -> (r: Self)
        ensures
            r.spec_width() == width,
            r.spec_height() == height,
            r.spec_pixels() == Seq::<u8>::empty(),
            r.spec_filter() == filter,
            r.spec_gpu() == Some(gpu),
    {
        Texture { width, height, pixels: Vec::new(), filter, gpu: Some(gpu) }
    }

    /// Decodes an encoded image file into a CPU texture.
    pub fn from_file_bytes(bytes: &[u8]) -> (r: Result<Self, String>)
        ensures
            match image_decode(bytes@) {
                Err(e) => r == Err::<Self, String>(e_string(r)) && e_string(r)@ == e,
                Ok((w, h, p)) => if w > 65535 {
                    r.is_err() && e_string(r)@ == "texture width exceeds 65535"@
                } else if h > 65535 {
                    r.is_err() && e_string(r)@ == "texture height exceeds 65535"@
                } else if !valid_rgba(w as int, h as int, p.len() as int) {
                    r.is_err() && e_string(r)@ == "expected nonzero dimensions and width * height * 4 RGBA bytes"@
                } else {
                    r matches Ok(t) && t.spec_width() == w && t.spec_height() == h
                        && t.spec_pixels() == p && t.spec_filter() == TextureFilter::Linear
                        && t.spec_gpu().is_none()
                },
            },
    {
        let (width, height, rgba) = decode_rgba(bytes)?;
        if width > 65535 {
            return Err("texture width exceeds 65535".to_owned());
        }
        if height > 65535 {
            return Err("texture height exceeds 65535".to_owned());
        }
        Self::from_rgba(width as u16, height as u16, rgba)
    }

    pub fn width(&self) -> (r: u16)
        ensures
            r == self.spec_width(),
    {
        self.width
    }

    pub fn height(&self) -> (r: u16)
        ensures
            r == self.spec_height(),
    {
        self.height
    }

    /// The RGBA8 pixels; empty for a GPU texture.
    pub fn pixels(&self) -> (r: &[u8])
        ensures
            r@ == self.spec_pixels(),
    {
        self.pixels.as_slice()
    }
}

/// Why a decoded `width`×`height` image cannot become a GPU texture whose
/// sides may be at most `max_dimension`, checked in this order.
pub open spec fn upload_size_error(width: u32, height: u32, max_dimension: u32) -> Option<Seq<char>> {
    if width > 65535 {
        Some("texture width exceeds 65535"@)
    } else if height > 65535 {
        Some("texture height exceeds 65535"@)
    } else if width == 0 || height == 0 {
        Some("empty texture"@)
    } else if width > max_dimension || height > max_dimension {
        Some("image dimensions exceed GPU limits"@)
    } else {
        None
    }
}

/// Checks that a decoded image fits a GPU texture: each side below 65536
/// pixels, neither empty, and within the device's `max_dimension`.
pub fn check_upload_size(width: u32, height: u32, max_dimension: u32) -> (r: Result<(u16, u16), String>)
    ensures
        match upload_size_error(width, height, max_dimension) {
            Some(e) => r matches Err(m) && m@ == e,
            None => r == Ok::<(u16, u16), String>((width as u16, height as u16)),
        },
{
    if width > 65535 {
        return Err("texture width exceeds 65535".to_owned());
    }
    if height > 65535 {
        return Err("texture height exceeds 65535".to_owned());
    }
    if width == 0 || height == 0 {
        return Err("empty texture".to_owned());
    }
    let larger = if width > height { width } else { height };
    if larger > max_dimension {
        return Err("image dimensions exceed GPU limits".to_owned());
    }
    Ok((width as u16, height as u16))
}

/// What preparing an upload as `compression` gives, from what decoding
/// the file gave (`decoded`): the decoding error; a size error; the error
/// for a pixel buffer of the wrong length; or the checked size and the
/// bytes `encode_rgba8` gives for the requested format.
pub open spec fn upload_outcome(
    decoded: Result<(u32, u32, Seq<u8>), Seq<char>>,
    compression: TextureCompression,
    max_dimension: u32,
    r: Result<(u16, u16, Vec<u8>), String>,
) -> bool {
    match decoded {
        Err(e) => r matches Err(m) && m@ == e,
        Ok((w, h, p)) => match upload_size_error(w, h, max_dimension) {
            Some(e) => r matches Err(m) && m@ == e,
            None => if p.len() != w * h * 4 {
                r matches Err(m) && m@ == "expected nonzero dimensions and width * height * 4 RGBA bytes"@
            } else if compression != TextureCompression::RGBA8 && !compressible(w as int, h as int, 4) {
                r matches Err(m) && m@ == "image dimensions exceed GPU limits"@
            } else {
                r matches Ok((rw, rh, data)) && rw == w && rh == h && rgba8_encoded(
                    compression,
                    w as int,
                    h as int,
                    p,
                    data@,
                )
            },
        },
    }
}

/// An upload holds the requested format: the bytes prepared for a decoded
/// image are, for RGBA8, its premultiplied pixels and, for every block
/// format, a result of that format's own kernel for the image (BC2: of
/// the BC3 kernel, with explicit alpha), never another format's.
pub proof fn law_upload_bytes_are_the_requested_format(
    decoded: Result<(u32, u32, Seq<u8>), Seq<char>>,
    compression: TextureCompression,
    max_dimension: u32,
    w: u16,
    h: u16,
    data: Vec<u8>,
)
    requires
        compression != TextureCompression::BC6H,
        upload_outcome(decoded, compression, max_dimension, Ok((w, h, data))),
    ensures
        decoded matches Ok((dw, dh, p)) && dw == w && dh == h && blocks_of_format(compression, w as int, h as int, p, data@),
{
    let (dw, dh, p) = decoded->Ok_0;
    law_each_format_uses_its_own_kernel(compression, w as int, h as int, p, data@);
}

/// Decodes an encoded image and prepares its pixels for upload as
/// `compression` (any format but BC6H, whose pixels are half floats): the
/// checked size and the bytes to upload.
pub fn prepare_upload(bytes: &[u8], compression: TextureCompression, max_dimension: u32) -> (r: Result<(u16, u16, Vec<u8>), String>)
    requires
        compression != TextureCompression::BC6H,
    ensures
        upload_outcome(image_decode(bytes@), compression, max_dimension, r),
{
    let (width, height, rgba) = match decode_rgba(bytes) {
        Ok(d) => d,
        Err(e) => return Err(e),
    };
    let (w, h) = match check_upload_size(width, height, max_dimension) {
        Ok(s) => s,
        Err(e) => return Err(e),
    };
    assert((w as int) * (h as int) <= 65535 * 65535) by (nonlinear_arith)
        requires
            w <= 65535,
            h <= 65535,
    ;
    let needed: u64 = (w as u64) * (h as u64) * 4;
    if rgba.len() as u64 != needed {
        return Err("expected nonzero dimensions and width * height * 4 RGBA bytes".to_owned());
    }
    if compression != TextureCompression::RGBA8 && !fits_compression(width, height, 4) {
        return Err("image dimensions exceed GPU limits".to_owned());
    }
    Ok((w, h, encode_rgba8(width, height, rgba, compression)))
}

/// The error text of a failed result (spec helper).
pub open spec fn e_string<T>(r: Result<T, String>) -> String {
    match r {
        Err(e) => e,
        Ok(_) => arbitrary(),
    }
}

/// An offscreen render target of one renderer. Sprites name one to draw into
/// it instead of the default surface.
#[derive(Clone, Copy, Debug, PartialEq, Eq)]
pub struct Surface {
    pub renderer: u64,
    pub index: usize,
    pub logical_size: [u16; 2],
}

} // verus!
