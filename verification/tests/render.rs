use velocity::render::surface_format;
use velocity::render::{
    canvas_rect, choose_device, device_score, present_mode, swapchain_extent, swapchain_image_count, Batch,
    DrawList, PresentChoice, RenderStats,
};

#[test]
fn canvas_bounds_round_inward_for_arbitrary_window_sizes() {
    for canvas in [[1280, 720], [720, 1280], [960, 640]] {
        for (w, h) in [(1920, 1080), (1920, 1009), (1001, 777), (1, 1), (1, 100), (100, 1)] {
            let rect = canvas_rect(canvas, [w, h]);
            assert!(rect.width > 0 && rect.height > 0);
            assert!(rect.x >= 0 && rect.y >= 0);
            assert!(rect.x as u32 + rect.width <= w);
            assert!(rect.y as u32 + rect.height <= h);
            let scale = (w as f64 / canvas[0] as f64).min(h as f64 / canvas[1] as f64);
            assert!((rect.width as f64 - canvas[0] as f64 * scale).abs() <= 1.);
            assert!((rect.height as f64 - canvas[1] as f64 * scale).abs() <= 1.);
        }
    }
}

#[test]
fn canvas_letterboxes_and_pillarboxes() {
    let r = canvas_rect([1280, 720], [1920, 1200]);
    assert_eq!((r.x, r.y, r.width, r.height), (0, 60, 1920, 1080));
    let r = canvas_rect([1280, 720], [1000, 500]);
    assert_eq!((r.x, r.y, r.width, r.height), (56, 0, 888, 500));
    let r = canvas_rect([1280, 720], [2560, 1440]);
    assert_eq!((r.x, r.y, r.width, r.height), (0, 0, 2560, 1440));
}

#[test]
fn draw_list_merges_runs_of_the_same_binding() {
    let mut list: DrawList<u32> = DrawList::new();
    list.push(10, 7, true);
    list.push(11, 7, true);
    list.push(12, 7, false);
    list.push(13, 8, false);
    list.push(14, 8, false);
    list.push(15, 7, true);
    assert_eq!(list.instance_slice(), &[10, 11, 12, 13, 14, 15]);
    assert_eq!(
        list.batch_slice(),
        &[
            Batch { descriptor: 7, first: 0, count: 2, premultiplied: true },
            Batch { descriptor: 7, first: 2, count: 1, premultiplied: false },
            Batch { descriptor: 8, first: 3, count: 2, premultiplied: false },
            Batch { descriptor: 7, first: 5, count: 1, premultiplied: true },
        ]
    );
    list.clear();
    assert!(list.instance_slice().is_empty());
    assert!(list.batch_slice().is_empty());
}

#[test]
fn render_stats_start_at_zero() {
    let s = RenderStats::default();
    assert_eq!((s.drawn, s.culled, s.draw_calls, s.texture_uploads, s.uploaded_bytes), (0, 0, 0, 0, 0));
}

#[test]
fn device_choice_prefers_discrete_and_the_last_of_equals() {
    assert_eq!(choose_device(&[]), None);
    assert_eq!(choose_device(&[device_score(false), device_score(true), device_score(false)]), Some(1));
    assert_eq!(choose_device(&[2, 1, 2]), Some(2));
    assert_eq!(choose_device(&[1]), Some(0));
}

#[test]
fn swapchain_settings_follow_the_surface() {
    assert_eq!(present_mode(false, true, true), PresentChoice::Immediate);
    assert_eq!(present_mode(false, false, true), PresentChoice::Mailbox);
    assert_eq!(present_mode(true, true, true), PresentChoice::Fifo);
    assert_eq!(present_mode(false, false, false), PresentChoice::Fifo);
    assert_eq!(swapchain_image_count(2, 0), 3);
    assert_eq!(swapchain_image_count(2, 2), 2);
    assert_eq!(swapchain_image_count(2, 8), 3);
    assert_eq!(swapchain_extent([800, 600], [1, 1], [4096, 4096], [1280, 720]), [800, 600]);
    assert_eq!(swapchain_extent([u32::MAX, u32::MAX], [1, 1], [1000, 4096], [1280, 720]), [1000, 720]);
    assert_eq!(swapchain_extent([u32::MAX, u32::MAX], [64, 64], [4096, 4096], [10, 720]), [64, 720]);
}

#[test]
fn the_first_rgba8_or_bgra8_srgb_format_is_chosen() {
    assert_eq!(surface_format(&[]), None);
    assert_eq!(surface_format(&[(50, 0), (44, 1000104001), (44, 0), (37, 0)]), Some(2));
    assert_eq!(surface_format(&[(37, 0), (44, 0)]), Some(0));
    assert_eq!(surface_format(&[(43, 0)]), None);
}
