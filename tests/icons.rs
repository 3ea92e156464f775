use ferro_dock::icons::{bitmap_from_bgra, load_png_as_color_image, resample_to_icon, IconBitmap};
use ferro_dock::manifest::{
    find_best_icon, icon_candidates, manifest_path, package_dir, parse_logo_from_manifest,
};

fn png_bytes(width: u32, height: u32) -> (Vec<u8>, Vec<u8>) {
    let mut pixels = Vec::new();
    for i in 0..(width * height) {
        pixels.extend_from_slice(&[(i % 251) as u8, 10, 200, 255]);
    }
    let img = image::RgbaImage::from_raw(width, height, pixels.clone()).unwrap();
    let mut out = std::io::Cursor::new(Vec::new());
    img.write_to(&mut out, image::ImageOutputFormat::Png).unwrap();
    (out.into_inner(), pixels)
}

#[test]
fn bgra_pixels_become_rgba() {
    let bgra = vec![1, 2, 3, 4, 5, 6, 7, 8];
    let b = bitmap_from_bgra(2, 1, &bgra).expect("valid size");
    assert_eq!(b.width, 2);
    assert_eq!(b.height, 1);
    assert_eq!(b.pixels, vec![3, 2, 1, 4, 7, 6, 5, 8]);
}

#[test]
fn bgra_rejects_empty_or_mismatched_sizes() {
    assert!(bitmap_from_bgra(0, 1, &Vec::new()).is_none());
    assert!(bitmap_from_bgra(1, -1, &vec![0, 0, 0, 0]).is_none());
    assert!(bitmap_from_bgra(1, 1, &vec![0, 0, 0]).is_none());
}

#[test]
fn icon_sized_png_decodes_unchanged() {
    let (bytes, pixels) = png_bytes(32, 32);
    let b = load_png_as_color_image(&bytes).expect("decodes");
    assert_eq!((b.width, b.height), (32, 32));
    assert_eq!(b.pixels, pixels);
}

#[test]
fn small_png_is_resampled_to_icon_size() {
    let (bytes, _) = png_bytes(2, 3);
    let b = load_png_as_color_image(&bytes).expect("decodes");
    assert_eq!((b.width, b.height), (32, 32));
    assert_eq!(b.pixels.len(), 32 * 32 * 4);
}

#[test]
fn large_png_is_resampled_to_icon_size() {
    let (bytes, _) = png_bytes(64, 48);
    let b = load_png_as_color_image(&bytes).expect("decodes");
    assert_eq!((b.width, b.height), (32, 32));
    assert_eq!(b.pixels.len(), 4096);
}

#[test]
fn undecodable_bytes_give_no_icon() {
    assert!(load_png_as_color_image(b"not an image").is_none());
    assert!(load_png_as_color_image(&[]).is_none());
}

#[test]
fn resampling_rejects_inconsistent_images() {
    let bad = IconBitmap { width: 2, height: 2, pixels: vec![0; 15] };
    assert!(resample_to_icon(&bad).is_none());
    let empty = IconBitmap { width: 0, height: 2, pixels: Vec::new() };
    assert!(resample_to_icon(&empty).is_none());
    let one = IconBitmap { width: 1, height: 1, pixels: vec![9, 9, 9, 255] };
    let r = resample_to_icon(&one).expect("resampled");
    assert_eq!(r.pixels.len(), 32 * 32 * 4);
}

#[test]
fn manifest_logo_prefers_small_tile() {
    let xml = r#"<Package><VisualElements Square150x150Logo="Assets\Big.png" Square44x44Logo="Assets\Logo.png"/></Package>"#;
    assert_eq!(parse_logo_from_manifest(xml), Some("Assets\\Logo.png".to_string()));
    let xml2 = r#"<Properties><Logo>x</Logo></Properties><VisualElements Square150x150Logo="Assets\Big.png"/>"#;
    assert_eq!(parse_logo_from_manifest(xml2), Some("Assets\\Big.png".to_string()));
    let xml3 = r#"<Identity Logo="Store.png"/>"#;
    assert_eq!(parse_logo_from_manifest(xml3), Some("Store.png".to_string()));
}

#[test]
fn manifest_without_logo_gives_none() {
    assert_eq!(parse_logo_from_manifest("<Package></Package>"), None);
    assert_eq!(parse_logo_from_manifest("Square44x44Logo=\"unterminated"), None);
    assert_eq!(parse_logo_from_manifest(""), None);
}

#[test]
fn package_paths_are_derived_from_the_executable() {
    let exe = "C:\\Program Files\\WindowsApps\\App\\App.exe";
    let dir = package_dir(exe).expect("has a parent");
    assert_eq!(dir, "C:\\Program Files\\WindowsApps\\App");
    assert_eq!(manifest_path(&dir), "C:\\Program Files\\WindowsApps\\App\\AppxManifest.xml");
    assert_eq!(package_dir(""), None);
    assert_eq!(package_dir("App.exe"), Some(String::new()));
}

#[test]
fn candidates_come_in_preference_order() {
    let c = icon_candidates("D:\\Pkg", "Assets\\Logo.png");
    assert_eq!(c.len(), 9);
    assert_eq!(c[0], "D:\\Pkg\\Assets\\Logo.png");
    assert_eq!(c[1], "D:\\Pkg\\Assets\\Logo.scale-200.png");
    assert_eq!(c[4], "D:\\Pkg\\Assets\\Logo.scale-100.png");
    assert_eq!(c[5], "D:\\Pkg\\Assets\\Logo.targetsize-48.png");
    assert_eq!(c[8], "D:\\Pkg\\Assets\\Logo.targetsize-24.png");
    assert_eq!(icon_candidates("D:\\Pkg", "Assets\\").len(), 1);
}

#[test]
fn missing_logo_resolves_to_scale_200_variant() {
    let exe = "C:\\Program Files\\WindowsApps\\App\\App.exe";
    let dir = package_dir(exe).unwrap();
    let logo = parse_logo_from_manifest(r#"<uap:VisualElements Square44x44Logo="Assets\Logo.png" />"#).unwrap();
    let existing = vec![
        "C:\\Program Files\\WindowsApps\\App\\Assets\\Logo.targetsize-24.png".to_string(),
        "C:\\Program Files\\WindowsApps\\App\\Assets\\Logo.scale-200.png".to_string(),
    ];
    assert_eq!(
        find_best_icon(&dir, &logo, &existing),
        Some("C:\\Program Files\\WindowsApps\\App\\Assets\\Logo.scale-200.png".to_string())
    );
}

#[test]
fn existing_logo_file_wins_and_absence_gives_none() {
    let existing = vec![
        "D:\\Pkg\\Assets\\Logo.scale-100.png".to_string(),
        "D:\\Pkg\\Assets\\Logo.png".to_string(),
    ];
    assert_eq!(
        find_best_icon("D:\\Pkg", "Assets\\Logo.png", &existing),
        Some("D:\\Pkg\\Assets\\Logo.png".to_string())
    );
    assert_eq!(find_best_icon("D:\\Pkg", "Assets\\Logo.png", &Vec::new()), None);
    let sized = vec!["D:\\Pkg\\Assets\\Logo.targetsize-32.png".to_string()];
    assert_eq!(
        find_best_icon("D:\\Pkg", "Assets\\Logo.png", &sized),
        Some("D:\\Pkg\\Assets\\Logo.targetsize-32.png".to_string())
    );
}
