//! Dock entries and icon extraction: native icon pixels and decoded image files.

use vstd::prelude::*;

use crate::apps::{is_uwp_app, packaged_path};
use crate::text::{chars_equal, chars_of, ends_with, ends_with_chars};
use crate::windows::{dock_worthy, is_dock_worthy_window, WindowInfo};

verus! {

/// Width and height, in pixels, of the icons shown in the dock.
pub const ICON_SIZE: u32 = 32;

/// One application shown in the dock.
pub struct DockIcon {
    /// Absolute path of the application's executable: the entry's identity.
    pub path: String,
    /// Native icon handle of the application's window.
    pub hicon: isize,
    /// A live window of the application.
    pub hwnd: isize,
}

/// A dock entry as a mathematical value.
pub struct DockIconView {
    pub path: Seq<char>,
    pub hicon: isize,
    pub hwnd: isize,
}

impl View for DockIcon {
    type V = DockIconView;

    open spec fn view(&self) -> DockIconView {
        DockIconView { path: self.path@, hicon: self.hicon, hwnd: self.hwnd }
    }
}

/// The values of a sequence of dock entries.
pub open spec fn views(s: Seq<DockIcon>) -> Seq<DockIconView> {
    s.map_values(|d: DockIcon| d@)
}

/// The paths of a sequence of dock entries, in order.
pub open spec fn paths_of(s: Seq<DockIconView>) -> Seq<Seq<char>> {
    s.map_values(|d: DockIconView| d.path)
}

/// Whether some entry of `items` has the given path.
pub fn contains_path(items: &Vec<DockIcon>, path: &String) -> (r: bool)
    ensures
        r == paths_of(views(items@)).contains(path@),
{
    let mut i: usize = 0;
    while i < items.len()
        invariant
            i <= items.len(),
            forall|k: int| 0 <= k < i ==> items@[k].path@ != path@,
        decreases items.len() - i,
    {
        if items[i].path == *path {
            assert(paths_of(views(items@))[i as int] == path@);
            return true;
        }
        i = i + 1;
    }
    assert(!paths_of(views(items@)).contains(path@)) by {
        if paths_of(views(items@)).contains(path@) {
            let k = choose|k: int| 0 <= k < items.len() && paths_of(views(items@))[k] == path@;
            assert(items@[k].path@ == path@);
        }
    }
    false
}

/// A decoded image: row-major RGBA pixels, four bytes each, alpha not premultiplied.
pub struct IconBitmap {
    pub width: u32,
    pub height: u32,
    pub pixels: Vec<u8>,
}

/// A decoded image as a mathematical value.
pub struct IconBitmapView {
    pub width: u32,
    pub height: u32,
    pub pixels: Seq<u8>,
}

impl View for IconBitmap {
    type V = IconBitmapView;

    open spec fn view(&self) -> IconBitmapView {
        IconBitmapView { width: self.width, height: self.height, pixels: self.pixels@ }
    }
}

/// The byte of a four-channel pixel buffer that lands at position `k` when the
/// first and third channel of every pixel trade places.
pub open spec fn swapped_channel_source(k: int) -> int {
    if k % 4 == 0 {
        k + 2
    } else if k % 4 == 2 {
        k - 2
    } else {
        k
    }
}

/// The buffer with the first and third channel of every pixel exchanged.
pub open spec fn swap_red_blue(b: Seq<u8>) -> Seq<u8> {
    Seq::new(b.len(), |k: int| b[swapped_channel_source(k)])
}

/// The bitmap decoded from a top-down blue-green-red-alpha buffer of the given size.
pub open spec fn bitmap_of_bgra(width: i32, height: i32, bgra: Seq<u8>) -> Option<IconBitmapView> {
    if width <= 0 || height <= 0 || bgra.len() != width * height * 4 {
        None
    } else {
        Some(
            IconBitmapView {
                width: width as u32,
                height: height as u32,
                pixels: swap_red_blue(bgra),
            },
        )
    }
}

/// Turns the pixel buffer read from a native icon into an RGBA bitmap.
pub fn bitmap_from_bgra(width: i32, height: i32, bgra: &Vec<u8>) -> (r: Option<IconBitmap>)
    ensures
        r matches Some(b) ==> bitmap_of_bgra(width, height, bgra@) == Some(b@),
        r is None ==> bitmap_of_bgra(width, height, bgra@) is None,
{
    if width <= 0 || height <= 0 {
        return None;
    }
    let w: u128 = width as u128;
    let h: u128 = height as u128;
    assert(w * h <= 0x4000_0000_0000_0000u128) by (nonlinear_arith)
        requires
            w <= 0x8000_0000u128,
            h <= 0x8000_0000u128,
    ;
    let expected: u128 = w * h * 4;
    if bgra.len() as u128 != expected {
        return None;
    }
    assert(bgra@.len() % 4 == 0);
    let mut pixels: Vec<u8> = Vec::new();
    let mut i: usize = 0;
    while i < bgra.len()
        invariant
            i <= bgra.len(),
            i % 4 == 0,
            bgra@.len() % 4 == 0,
            pixels.len() == i,
            forall|k: int| 0 <= k < i ==> pixels@[k] == bgra@[swapped_channel_source(k)],
        decreases bgra.len() - i,
    {
        pixels.push(bgra[i + 2]);
        pixels.push(bgra[i + 1]);
        pixels.push(bgra[i]);
        pixels.push(bgra[i + 3]);
        i = i + 4;
    }
    let r = IconBitmap { width: width as u32, height: height as u32, pixels };
    assert(r@.pixels =~= swap_red_blue(bgra@));
    Some(r)
}

/// A name for the image that the `image` crate decodes from `bytes`: its width,
/// height and row-major RGBA pixels, or `None` where the bytes hold no image it reads.
pub uninterp spec fn decoded_image(bytes: Seq<u8>) -> Option<(u32, u32, Seq<u8>)>;

/// Relies on `image::load_from_memory`, whose result is converted to RGBA by
/// `DynamicImage::to_rgba8`: the decoded image depends on the bytes alone.
#[verifier::external_body]
fn decode_rgba(bytes: &[u8]) -> (r: Option<IconBitmap>)
    ensures
        r matches Some(b) ==> decoded_image(bytes@) == Some((b.width, b.height, b.pixels@)),
        r is None ==> decoded_image(bytes@) is None,
{
    match image::load_from_memory(bytes) {
        Ok(img) => {
            let rgba = img.to_rgba8();
            Some(IconBitmap { width: rgba.width(), height: rgba.height(), pixels: rgba.into_raw() })
        },
        Err(_) => None,
    }
}

/// Relies on `image::imageops::resize` with `FilterType::Lanczos3`, applied to the
/// buffer that `ImageBuffer::from_raw` accepts when it holds a full image. The
/// result has the new size; an image already of that size comes back as it was.
/// The resampled bytes themselves are left open: the filter's weights are
/// computed in floating point.
#[verifier::external_body]
fn resize_lanczos(img: &IconBitmap, new_width: u32, new_height: u32) -> (r: Option<Vec<u8>>)
    requires
        img.width > 0,
        img.height > 0,
        img.width * new_height * 4 <= usize::MAX,
        new_width * new_height * 4 <= usize::MAX,
    ensures
        img.pixels.len() == img.width * img.height * 4 ==> r is Some,
        r matches Some(px) ==> px.len() == new_width * new_height * 4,
        r matches Some(px) ==> (new_width == img.width && new_height == img.height
            && img.pixels.len() == img.width * img.height * 4 ==> px@ == img.pixels@),
{
    let buf = image::RgbaImage::from_raw(img.width, img.height, img.pixels.clone())?;
    let out = image::imageops::resize(
        &buf,
        new_width,
        new_height,
        image::imageops::FilterType::Lanczos3,
    );
    Some(out.into_raw())
}

/// Whether a decoded image can be resampled to a dock icon: it is not empty, its
/// pixel buffer matches its size, and one of its columns resampled fits in memory.
pub open spec fn resamplable(img: IconBitmapView) -> bool {
    &&& img.width != 0
    &&& img.height != 0
    &&& img.pixels.len() == img.width * img.height * 4
    &&& img.width * ICON_SIZE * 4 <= usize::MAX
}

/// Whether `b` is an icon resampled from `img`: of the dock's icon size, with a full
/// pixel buffer, and holding the pixels of `img` unchanged where `img` already has
/// that size.
pub open spec fn resampled_from(b: IconBitmapView, img: IconBitmapView) -> bool {
    &&& b.width == ICON_SIZE
    &&& b.height == ICON_SIZE
    &&& b.pixels.len() == ICON_SIZE * ICON_SIZE * 4
    &&& (img.width == ICON_SIZE && img.height == ICON_SIZE ==> b.pixels == img.pixels)
}

/// The image that `decoded_image` yields, as a bitmap value.
pub open spec fn decoded_bitmap(bytes: Seq<u8>) -> Option<IconBitmapView> {
    match decoded_image(bytes) {
        None => None,
        Some(d) => Some(IconBitmapView { width: d.0, height: d.1, pixels: d.2 }),
    }
}

/// Resamples a decoded image to the dock's icon size.
pub fn resample_to_icon(img: &IconBitmap) -> (r: Option<IconBitmap>)
    ensures
        r is None <==> !resamplable(img@),
        r matches Some(b) ==> resampled_from(b@, img@),
{
    if img.width == 0 || img.height == 0 {
        return None;
    }
    let w: u128 = img.width as u128;
    let h: u128 = img.height as u128;
    assert(w * h <= 0x1_0000_0000_0000_0000u128) by (nonlinear_arith)
        requires
            w <= 0xffff_ffffu128,
            h <= 0xffff_ffffu128,
    ;
    if img.pixels.len() as u128 != w * h * 4 {
        return None;
    }
    if (img.width as usize).checked_mul(4 * ICON_SIZE as usize).is_none() {
        return None;
    }
    match resize_lanczos(img, ICON_SIZE, ICON_SIZE) {
        Some(pixels) => Some(IconBitmap { width: ICON_SIZE, height: ICON_SIZE, pixels }),
        None => None,
    }
}

/// Decodes the bytes of an image file and resamples the image to the dock's icon size:
/// `None` exactly where the bytes do not decode or the image cannot be resampled.
pub fn load_png_as_color_image(bytes: &[u8]) -> (r: Option<IconBitmap>)
    ensures
        r is None <==> match decoded_bitmap(bytes@) {
            None => true,
            Some(img) => !resamplable(img),
        },
        r matches Some(b) ==> decoded_bitmap(bytes@) matches Some(img) && resampled_from(b@, img),
{
    match decode_rgba(bytes) {
        Some(img) => resample_to_icon(&img),
        None => None,
    }
}

/// Background host processes that pass the window checks but add nothing to a dock.
pub open spec fn background_host(path: Seq<char>) -> bool {
    ||| ends_with(path, "TextInputHost.exe"@)
    ||| ends_with(path, "SearchHost.exe"@)
    ||| ends_with(path, "StartMenuExperienceHost.exe"@)
    ||| ends_with(path, "ShellExperienceHost.exe"@)
    ||| ends_with(path, "LockApp.exe"@)
}

/// Whether the executable path names one of the background host processes.
pub fn is_background_host(path: &Vec<char>) -> (r: bool)
    ensures
        r == background_host(path@),
{
    ends_with_chars(path, &chars_of("TextInputHost.exe"))
        || ends_with_chars(path, &chars_of("SearchHost.exe"))
        || ends_with_chars(path, &chars_of("StartMenuExperienceHost.exe"))
        || ends_with_chars(path, &chars_of("ShellExperienceHost.exe"))
        || ends_with_chars(path, &chars_of("LockApp.exe"))
}

/// The icon handle of a window: its own large icon, else its class icon.
pub open spec fn window_icon(w: WindowInfo) -> isize {
    if w.big_icon != 0 {
        w.big_icon
    } else {
        w.class_icon
    }
}

/// The dock entry that a window stands for, if any.
///
/// The window must belong to a process whose executable path is known, is not
/// `own_path` and is not a background host; it must pass the window checks unless
/// the executable is a packaged application; and it must have an icon.
pub open spec fn resolve_window(w: WindowInfo, own_path: Seq<char>) -> Option<DockIconView> {
    if w.process_id == 0 {
        None
    } else {
        match w.process_path {
            None => None,
            Some(p) => {
                let path = p@;
                if path.len() == 0 || path == own_path || background_host(path) {
                    None
                } else if !packaged_path(path) && !dock_worthy(w) {
                    None
                } else if window_icon(w) == 0 {
                    None
                } else {
                    Some(DockIconView { path, hicon: window_icon(w), hwnd: w.hwnd })
                }
            },
        }
    }
}

/// The dock entry for a window, or `None` where the window does not belong in the dock.
pub fn get_dock_icon_for_window(w: &WindowInfo, own_path: &str) -> (r: Option<DockIcon>)
    ensures
        r matches Some(d) ==> resolve_window(*w, own_path@) == Some(d@),
        r is None ==> resolve_window(*w, own_path@) is None,
{
    if w.process_id == 0 {
        return None;
    }
    let path = match &w.process_path {
        None => {
            return None;
        },
        Some(p) => p,
    };
    let chars = chars_of(path.as_str());
    if chars.len() == 0 || chars_equal(&chars, &chars_of(own_path)) || is_background_host(&chars) {
        return None;
    }
    if !is_uwp_app(path.as_str()) && !is_dock_worthy_window(w) {
        return None;
    }
    let hicon = if w.big_icon != 0 {
        w.big_icon
    } else {
        w.class_icon
    };
    if hicon == 0 {
        return None;
    }
    Some(DockIcon { path: path.clone(), hicon, hwnd: w.hwnd })
}

} // verus!
