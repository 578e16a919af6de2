use lib::desktop::renderable::PixelBuffer;
use lib::desktop::theme::{Color, ThemeRegistry};
use lib::desktop::error::DesktopError;

#[test]
fn renderable_test_new() {
    let buf = PixelBuffer::new(10, 20);
    assert_eq!(buf.width, 10);
    assert_eq!(buf.height, 20);
    assert_eq!(buf.stride, 10);
    assert_eq!(buf.data.len(), 200);
}

#[test]
fn test_set_get_pixel() {
    let mut buf = PixelBuffer::new(10, 10);
    buf.set_pixel(3, 4, 0xFFAABBCC);
    assert_eq!(buf.get_pixel(3, 4), 0xFFAABBCC);
    // 其他位置应为 0
    assert_eq!(buf.get_pixel(0, 0), 0);
}

#[test]
fn test_set_pixel_out_of_bounds() {
    let mut buf = PixelBuffer::new(10, 10);
    // 越界设置不应 panic
    buf.set_pixel(10, 10, 0xFFFFFFFF);
    assert_eq!(buf.get_pixel(10, 10), 0);
}

#[test]
fn test_clear() {
    let mut buf = PixelBuffer::new(5, 5);
    buf.set_pixel(0, 0, 0xFFFFFFFF);
    buf.clear(0x11223344);
    for i in 0..25 {
        assert_eq!(buf.data[i], 0x11223344);
    }
}

#[test]
fn test_fill_rect() {
    let mut buf = PixelBuffer::new(10, 10);
    buf.fill_rect(2, 3, 4, 5, 0xFF0000FF);
    // 填充区域内的像素应为目标颜色
    assert_eq!(buf.get_pixel(2, 3), 0xFF0000FF);
    assert_eq!(buf.get_pixel(5, 7), 0xFF0000FF);
    // 填充区域外的像素应为 0
    assert_eq!(buf.get_pixel(0, 0), 0);
    assert_eq!(buf.get_pixel(1, 3), 0);
}

#[test]
fn test_size() {
    let buf = PixelBuffer::new(100, 200);
    assert_eq!(buf.size(), (100, 200));
}

#[test]
fn test_is_empty() {
    let buf = PixelBuffer::new(0, 10);
    assert!(buf.is_empty());
    let buf = PixelBuffer::new(10, 0);
    assert!(buf.is_empty());
    let buf = PixelBuffer::new(1, 1);
    assert!(!buf.is_empty());
}

#[test]
fn test_color_from_argb() {
    let c = Color::from_argb(0xAB, 0x12, 0x34, 0x56);
    assert_eq!(c.alpha(), 0xAB);
    assert_eq!(c.red(), 0x12);
    assert_eq!(c.green(), 0x34);
    assert_eq!(c.blue(), 0x56);
}

#[test]
fn test_color_from_rgb() {
    let c = Color::from_rgb(0x10, 0x20, 0x30);
    assert_eq!(c.alpha(), 0xFF);
    assert_eq!(c.red(), 0x10);
    assert_eq!(c.green(), 0x20);
    assert_eq!(c.blue(), 0x30);
}

#[test]
fn test_fill_rect_clipped_to_buffer() {
    let mut buf = PixelBuffer::new(4, 3);
    buf.fill_rect(2, 1, 10, 10, 7);
    for y in 0..3u32 {
        for x in 0..4u32 {
            let expected = if x >= 2 && y >= 1 { 7 } else { 0 };
            assert_eq!(buf.get_pixel(x, y), expected);
        }
    }
    buf.fill_rect(0, 0, 0, 5, 9);
    assert_eq!(buf.get_pixel(0, 0), 0);
}

#[test]
fn test_pixel_rows_use_stride() {
    let mut buf = PixelBuffer::new(3, 2);
    buf.set_pixel(2, 1, 5);
    assert_eq!(buf.data[1 * 3 + 2], 5);
    assert_eq!(buf.data.iter().filter(|&&p| p != 0).count(), 1);
}

#[test]
fn test_color_word_layout() {
    assert_eq!(Color::from_argb(0x11, 0x22, 0x33, 0x44).0, 0x11223344);
    assert_eq!(Color::from_rgb(1, 2, 3).0, 0xFF010203);
}

#[test]
fn test_desktop_error_messages() {
    assert_eq!(DesktopError::WindowNotFound(9).message(), "窗口未找到: 9");
    assert_eq!(DesktopError::RenderFailed { reason: "gpu" }.message(), "渲染失败: gpu");
    assert_eq!(DesktopError::ThemeNotFound("x".to_string()).message(), "主题未找到: x");
    assert_eq!(DesktopError::BufferTooSmall.message(), "缓冲区太小");
}

fn aqua_dark() -> ThemeRegistry<u32> {
    ThemeRegistry::new("Aqua Dark".to_string(), 12)
}

#[test]
fn test_theme_manager_new() {
    let mgr = aqua_dark();
    assert_eq!(*mgr.current(), 12);
    assert_eq!(mgr.list_themes(), vec!["Aqua Dark".to_string()]);
    assert_eq!(mgr.list_themes().len(), 1);
}

#[test]
fn test_theme_manager_add_theme() {
    let mut mgr = aqua_dark();
    mgr.add_theme("Aqua Light".to_string(), 8);
    assert_eq!(mgr.list_themes().len(), 2);
    assert!(mgr.list_themes().contains(&"Aqua Light".to_string()));
}

#[test]
fn test_theme_manager_set_theme() {
    let mut mgr = aqua_dark();
    mgr.add_theme("Aqua Light".to_string(), 8);
    mgr.set_theme("Aqua Light").unwrap();
    assert_eq!(*mgr.current(), 8);
}

#[test]
fn test_theme_manager_set_theme_not_found() {
    let mut mgr = aqua_dark();
    let result = mgr.set_theme("NonExistent");
    assert!(matches!(result, Err(DesktopError::ThemeNotFound(ref n)) if n == "NonExistent"));
    assert_eq!(*mgr.current(), 12);
}

#[test]
fn test_theme_manager_replace_theme() {
    let mut mgr = aqua_dark();
    mgr.add_theme("Aqua Dark".to_string(), 20);
    assert_eq!(mgr.list_themes().len(), 1);
    assert_eq!(*mgr.current(), 12);
    mgr.set_theme("Aqua Dark").unwrap();
    assert_eq!(*mgr.current(), 20);
}

#[test]
fn theme_registry_keeps_order_and_moves_replaced_theme_last() {
    let mut mgr = aqua_dark();
    mgr.add_theme("Aqua Light".to_string(), 8);
    mgr.add_theme("Graphite".to_string(), 4);
    mgr.add_theme("Aqua Dark".to_string(), 16);
    assert_eq!(
        mgr.list_themes(),
        vec!["Aqua Light".to_string(), "Graphite".to_string(), "Aqua Dark".to_string()]
    );
    mgr.set_theme("Graphite").unwrap();
    assert_eq!(*mgr.current(), 4);
}
