use std::sync::{Arc, Mutex};
use velocity::assets::TextureCompression;
use velocity::texture::{check_upload_size, prepare_upload, GpuHandle, Texture, TextureFilter};

#[test]
fn texture_handles_do_not_keep_retirement_queue_alive() {
    let retired = Arc::new(Mutex::new(Vec::new()));
    let mut texture = Texture::from_rgba(1, 1, vec![255; 4]).unwrap();
    texture.gpu = Some(GpuHandle::new(1, 42, &retired));
    assert_eq!(Arc::strong_count(&retired), 1);
    drop(texture);
    assert_eq!(*retired.lock().unwrap(), [42]);
    let mut texture = Texture::from_rgba(1, 1, vec![255; 4]).unwrap();
    texture.gpu = Some(GpuHandle::new(1, 43, &retired));
    let weak = Arc::downgrade(&retired);
    drop(retired);
    assert!(weak.upgrade().is_none());
    drop(texture);
}

#[test]
fn rejects_invalid_images() {
    assert!(Texture::from_rgba(0, 1, vec![]).is_err());
    assert!(Texture::from_rgba(2, 2, vec![255; 15]).is_err());
}

#[test]
fn cpu_textures_keep_their_pixels() {
    let t = Texture::from_rgba(2, 1, vec![1, 2, 3, 4, 5, 6, 7, 8]).unwrap();
    assert_eq!(t.width(), 2);
    assert_eq!(t.height(), 1);
    assert_eq!(t.pixels(), &[1, 2, 3, 4, 5, 6, 7, 8]);
    assert_eq!(t.filter, TextureFilter::Linear);
    assert!(t.gpu.is_none());
    assert_eq!(
        Texture::from_rgba(1, 0, vec![]).err().unwrap(),
        "expected nonzero dimensions and width * height * 4 RGBA bytes"
    );
}

fn png_2x1() -> Vec<u8> {
    let mut bytes = Vec::new();
    let image = image::RgbaImage::from_raw(2, 1, vec![255, 0, 0, 255, 0, 0, 255, 128]).unwrap();
    image
        .write_to(&mut std::io::Cursor::new(&mut bytes), image::ImageFormat::Png)
        .unwrap();
    bytes
}

#[test]
fn file_bytes_decode_to_rgba() {
    let t = Texture::from_file_bytes(&png_2x1()).unwrap();
    assert_eq!((t.width(), t.height()), (2, 1));
    assert_eq!(t.pixels(), &[255, 0, 0, 255, 0, 0, 255, 128]);
}

#[test]
fn upload_sizes_are_checked_in_order() {
    assert_eq!(check_upload_size(70000, 0, 16384).unwrap_err(), "texture width exceeds 65535");
    assert_eq!(check_upload_size(1, 70000, 16384).unwrap_err(), "texture height exceeds 65535");
    assert_eq!(check_upload_size(0, 4, 16384).unwrap_err(), "empty texture");
    assert_eq!(check_upload_size(4, 20000, 16384).unwrap_err(), "image dimensions exceed GPU limits");
    assert_eq!(check_upload_size(300, 200, 16384).unwrap(), (300, 200));
}

#[test]
fn upload_data_is_premultiplied_or_compressed() {
    let (w, h, data) = prepare_upload(&png_2x1(), TextureCompression::RGBA8, 16384).unwrap();
    assert_eq!((w, h), (2, 1));
    assert_eq!(data, vec![255, 0, 0, 255, 0, 0, 128, 128]);
    let (_, _, bc1) = prepare_upload(&png_2x1(), TextureCompression::BC1, 16384).unwrap();
    assert_eq!(bc1.len(), 8);
    assert_eq!(
        prepare_upload(&png_2x1(), TextureCompression::BC7, 1).unwrap_err(),
        "image dimensions exceed GPU limits"
    );
    assert!(prepare_upload(b"not an image", TextureCompression::BC7, 16384).is_err());
}

fn send<T: Send>() {}

#[test]
fn scene_data_can_cross_threads() {
    send::<Texture>();
    send::<velocity::texture::Surface>();
    send::<velocity::scene::Scene<Texture, Texture>>();
}
