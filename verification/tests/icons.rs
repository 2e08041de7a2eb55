use escpos_viewer::app_icon::{
    best_entry, eframe_icon_data, load_best_ico_rgba, load_icons, tray_icon, IconPixels,
};
use escpos_viewer::tray::{
    fallback_icon, icon_or_fallback, tray_failure, SystemTray, TrayAction, TrayStep,
};

fn frame(width: u32, height: u32, shade: u8) -> ico::IconImage {
    let mut rgba = Vec::new();
    for _ in 0..width * height {
        rgba.extend_from_slice(&[shade, shade / 2, 7, 255]);
    }
    ico::IconImage::from_rgba_data(width, height, rgba)
}

fn file(frames: &[(u32, u32, u8)]) -> Vec<u8> {
    let mut dir = ico::IconDir::new(ico::ResourceType::Icon);
    for &(width, height, shade) in frames {
        dir.add_entry(ico::IconDirEntry::encode(&frame(width, height, shade)).unwrap());
    }
    let mut bytes = Vec::new();
    dir.write(&mut bytes).unwrap();
    bytes
}

#[test]
fn the_largest_frame_is_the_icon() {
    let bytes = file(&[(4, 4, 10), (8, 8, 20), (2, 16, 30)]);
    let icon = load_best_ico_rgba(&bytes).unwrap();
    assert_eq!((icon.width, icon.height), (8, 8));
    assert_eq!(icon.rgba, frame(8, 8, 20).rgba_data().to_vec());
    assert!(icon.is_valid_rgba());
    assert_eq!(eframe_icon_data(&bytes), Some(icon.clone()));
    assert_eq!(tray_icon(&bytes), Some(icon));
}

#[test]
fn of_frames_of_the_same_size_the_last_is_the_icon() {
    let bytes = file(&[(4, 4, 10), (2, 8, 20)]);
    let icon = load_best_ico_rgba(&bytes).unwrap();
    assert_eq!((icon.width, icon.height), (2, 8));
    assert_eq!(best_entry(&vec![(1, 1), (4, 4), (2, 8), (3, 3)]), Some(2));
    assert_eq!(best_entry(&vec![]), None);
}

#[test]
fn a_file_that_is_no_icon_has_none() {
    assert_eq!(load_best_ico_rgba(b""), None);
    assert_eq!(load_best_ico_rgba(b"not an icon"), None);
    assert_eq!(load_best_ico_rgba(&[0, 0, 1, 0, 0, 0]), None);
    let mut cut = file(&[(4, 4, 10)]);
    cut.pop();
    assert_eq!(load_best_ico_rgba(&cut), None);
}

#[test]
fn a_frame_that_announces_more_than_the_file_holds_is_not_read() {
    let mut bytes = vec![0, 0, 1, 0, 1, 0];
    bytes.extend_from_slice(&[1, 1, 0, 0, 1, 0, 32, 0]);
    bytes.extend_from_slice(&[0xFF, 0xFF, 0xFF, 0xFF, 22, 0, 0, 0]);
    assert_eq!(load_best_ico_rgba(&bytes), None);
    let icons = load_icons(&bytes).unwrap();
    assert_eq!((icons.window, icons.tray), (None, None));
}

#[test]
fn a_frame_that_is_too_large_is_left_alone() {
    // The header of a bitmap of 65536 x 65536 pixels.
    let mut bitmap = vec![40, 0, 0, 0, 0, 0, 1, 0, 0, 0, 2, 0, 1, 0, 32, 0];
    bitmap.resize(40, 0);
    let mut bytes = vec![0, 0, 1, 0, 1, 0];
    bytes.extend_from_slice(&[0, 0, 0, 0, 1, 0, 32, 0]);
    bytes.extend_from_slice(&[40, 0, 0, 0, 22, 0, 0, 0]);
    bytes.extend_from_slice(&bitmap);
    assert_eq!(load_icons(&bytes), None);
}

#[test]
fn both_icons_come_from_the_same_file() {
    let bytes = file(&[(16, 16, 99)]);
    let icons = load_icons(&bytes).unwrap();
    assert_eq!(icons.window, icons.tray);
    assert_eq!(icons.tray.unwrap().rgba[..4].to_vec(), vec![99, 49, 7, 255]);
}

#[test]
fn an_icon_has_four_bytes_a_pixel() {
    let icon = IconPixels {
        rgba: vec![0; 8],
        width: 2,
        height: 1,
    };
    assert!(icon.is_valid_rgba());
    let icon = IconPixels {
        rgba: vec![0; 8],
        width: 2,
        height: 2,
    };
    assert!(!icon.is_valid_rgba());
    let icon = IconPixels {
        rgba: vec![0; 7],
        width: 2,
        height: 1,
    };
    assert!(!icon.is_valid_rgba());
}

#[test]
fn fallback_tray_icon_is_valid_rgba() {
    let (w, h) = (16u32, 16u32);
    let mut rgba = vec![0u8; (w * h * 4) as usize];
    for y in 0..h {
        for x in 0..w {
            let i = ((y * w + x) * 4) as usize;
            let border = x == 0 || y == 0 || x == w - 1 || y == h - 1;
            let (r, g, b) = if border { (0, 0, 0) } else { (210, 210, 210) };
            rgba[i] = r;
            rgba[i + 1] = g;
            rgba[i + 2] = b;
            rgba[i + 3] = 255;
        }
    }

    let icon = fallback_icon();
    assert_eq!((icon.width, icon.height), (w, h));
    assert_eq!(icon.rgba, rgba);
    assert!(icon.is_valid_rgba(), "fallback icon should be valid");
}

#[test]
fn the_fallback_stands_in_for_a_missing_icon() {
    assert_eq!(icon_or_fallback(None), fallback_icon());
    let icon = IconPixels {
        rgba: vec![1, 2, 3, 4],
        width: 1,
        height: 1,
    };
    assert_eq!(icon_or_fallback(Some(icon.clone())), icon);
}

#[test]
fn the_tray_menu_opens_and_exits() {
    let tray = SystemTray::new("7".to_string(), "8".to_string());
    assert_eq!(tray.action(&"7".to_string()), TrayAction::Open);
    assert_eq!(tray.action(&"8".to_string()), TrayAction::Exit);
    assert_eq!(tray.action(&"9".to_string()), TrayAction::Ignore);
}

#[test]
fn a_tray_that_fails_says_where() {
    assert_eq!(tray_failure(TrayStep::OpenEntry, "x"), "menu open: x");
    assert_eq!(tray_failure(TrayStep::ExitEntry, "x"), "menu exit: x");
    assert_eq!(tray_failure(TrayStep::Build, "x"), "tray build: x");
}
