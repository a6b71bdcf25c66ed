//! Icons: of the app, of the tray, and the plain square where there is none.

use crate::archive::{
    bundled_file, bytes_view, open_archive, read_bundled, read_entry, zip_opened,
};
use vstd::prelude::*;
use vstd::string::*;

verus! {

/// An image: four bytes for each pixel, row by row.
#[derive(Debug)]
pub struct Pixels {
    pub rgba: Vec<u8>,
    pub width: u32,
    pub height: u32,
}

impl View for Pixels {
    type V = (Seq<u8>, u32, u32);

    open spec fn view(&self) -> (Seq<u8>, u32, u32) {
        (self.rgba@, self.width, self.height)
    }
}

/// An image that may be missing.
pub open spec fn pixels_view(image: Option<Pixels>) -> Option<(Seq<u8>, u32, u32)> {
    match image {
        Some(image) => Some(image@),
        None => None,
    }
}

/// True for an image with four bytes for each of its pixels.
pub open spec fn full_image(image: (Seq<u8>, u32, u32)) -> bool {
    image.0.len() == 4 * (image.1 * image.2)
}

/// `ico::IconDir`: the images of one icon file.
#[verifier::external_type_specification]
#[verifier::external_body]
pub struct ExIconDir(ico::IconDir);

/// The sizes of the images of an icon, width and height, in the order of the
/// file.
pub uninterp spec fn icon_sizes(dir: ico::IconDir) -> Seq<(u32, u32)>;

/// The decoded images of an icon in the order of the file; none for an image
/// that is broken.
pub uninterp spec fn icon_images(dir: ico::IconDir) -> Seq<Option<(Seq<u8>, u32, u32)>>;

/// The bytes of the images of an icon, as they are encoded, in the order of the
/// file.
pub uninterp spec fn icon_codes(dir: ico::IconDir) -> Seq<Seq<u8>>;

/// The sizes, the encoded bytes and the images that `ico::IconDir::read` finds in
/// some bytes, where they are an icon.
pub uninterp spec fn icon_read(bytes: Seq<u8>) -> Option<
    (Seq<(u32, u32)>, Seq<Seq<u8>>, Seq<Option<(Seq<u8>, u32, u32)>>),
>;

/// The image that `image::load_from_memory` finds in some bytes, in four bytes
/// for each pixel.
pub uninterp spec fn image_read(bytes: Seq<u8>) -> Option<(Seq<u8>, u32, u32)>;

/// `ico::IconDir::read`: the icon in some bytes, where they are one.
#[verifier::external_body]
pub(crate) fn read_icon(bytes: &[u8]) -> (r: Option<ico::IconDir>)
    ensures
        match r {
            Some(dir) => icon_read(bytes@) == Some(
                (icon_sizes(dir), icon_codes(dir), icon_images(dir)),
            ),
            None => icon_read(bytes@) is None,
        },
{
    ico::IconDir::read(std::io::Cursor::new(bytes)).ok()
}

/// `ico::IconDir::entries`: how many images there are.
#[verifier::external_body]
pub(crate) fn icon_count(dir: &ico::IconDir) -> (n: usize)
    ensures
        n == icon_sizes(*dir).len(),
        n == icon_codes(*dir).len(),
        n == icon_images(*dir).len(),
{
    dir.entries().len()
}

/// `ico::IconDirEntry::width` and `height` of one image.
#[verifier::external_body]
pub(crate) fn icon_size(dir: &ico::IconDir, index: usize) -> (size: (u32, u32))
    requires
        index < icon_sizes(*dir).len(),
    ensures
        size == icon_sizes(*dir)[index as int],
{
    (dir.entries()[index].width(), dir.entries()[index].height())
}

/// `ico::IconDirEntry::data` of one image: its bytes as they are encoded.
#[verifier::external_body]
pub(crate) fn icon_code(dir: &ico::IconDir, index: usize) -> (code: Vec<u8>)
    requires
        index < icon_codes(*dir).len(),
    ensures
        code@ == icon_codes(*dir)[index as int],
{
    dir.entries()[index].data().to_vec()
}

/// True for an image that is encoded as a PNG; any other is a bitmap.
pub open spec fn is_png(code: Seq<u8>) -> bool {
    seq![0x89u8, 0x50, 0x4E, 0x47].is_prefix_of(code)
}

/// The bits for each pixel that the header of a bitmap states.
pub open spec fn bitmap_bits(code: Seq<u8>) -> int {
    code[14] + 256 * code[15]
}

/// The bytes of the header of a bitmap and of its table of colors. A bitmap with
/// another number of bits for each pixel is refused.
pub open spec fn bitmap_head(bits: int) -> Option<int> {
    if bits == 1 {
        Some(48)
    } else if bits == 4 {
        Some(104)
    } else if bits == 8 {
        Some(1064)
    } else if bits == 16 || bits == 24 || bits == 32 {
        Some(40)
    } else {
        None
    }
}

/// True when the bytes of an image fit in memory in one piece.
pub open spec fn fits_memory(size: (u32, u32)) -> bool {
    4 * (size.0 * size.1) <= isize::MAX
}

/// True when the decoder takes a bitmap as far as its pixels: its head is whole,
/// and the number of its pixels is one of 32 bits.
pub open spec fn has_pixels(size: (u32, u32), code: Seq<u8>) -> bool {
    &&& code.len() >= 40
    &&& bitmap_head(bitmap_bits(code)) matches Some(head) && code.len() >= head
    &&& size.0 * size.1 <= u32::MAX
}

/// True when the places of the pixels of an image, and the bits of a row of a
/// bitmap, fit the numbers that the decoder counts them with. What it refuses
/// before it counts is of any size.
pub open spec fn countable(size: (u32, u32), code: Seq<u8>) -> bool {
    if is_png(code) {
        fits_memory(size)
    } else {
        has_pixels(size, code) ==> fits_memory(size) && size.0 * bitmap_bits(code) + 7 <= u32::MAX
            && 4 * ((size.1 - 1) * size.0) <= u32::MAX
    }
}

/// `ico::IconDirEntry::decode` of one image, where it is not broken: four bytes
/// for each pixel, of the size that the entry states. Images whose pixels it could
/// not count are left out.
#[verifier::external_body]
pub(crate) fn icon_decode(dir: &ico::IconDir, index: usize) -> (r: Option<Pixels>)
    requires
        index < icon_sizes(*dir).len(),
        index < icon_codes(*dir).len(),
        index < icon_images(*dir).len(),
        countable(icon_sizes(*dir)[index as int], icon_codes(*dir)[index as int]),
    ensures
        pixels_view(r) == icon_images(*dir)[index as int],
        r matches Some(image) ==> full_image(image@) && (image.width, image.height) == icon_sizes(
            *dir,
        )[index as int],
{
    let image = dir.entries()[index].decode().ok()?;
    Some(Pixels { rgba: image.rgba_data().to_vec(), width: image.width(), height: image.height() })
}

/// `image::load_from_memory` and `to_rgba8`: four bytes for each pixel.
#[verifier::external_body]
pub(crate) fn load_image(bytes: &[u8]) -> (r: Option<Pixels>)
    ensures
        pixels_view(r) == image_read(bytes@),
        r matches Some(image) ==> full_image(image@),
{
    let rgba = image::load_from_memory(bytes).ok()?.to_rgba8();
    let (width, height) = rgba.dimensions();
    Some(Pixels { rgba: rgba.into_raw(), width, height })
}

/// True when the image at `j` is the widest, and of equally wide ones the last.
pub open spec fn is_widest(sizes: Seq<(u32, u32)>, j: int) -> bool {
    &&& 0 <= j < sizes.len()
    &&& forall|i: int| 0 <= i < sizes.len() ==> (#[trigger] sizes[i]).0 <= sizes[j].0
    &&& forall|i: int| j < i < sizes.len() ==> (#[trigger] sizes[i]).0 < sizes[j].0
}

/// The place of the widest image, and of equally wide ones the last.
pub fn widest(sizes: &[(u32, u32)]) -> (r: Option<usize>)
    ensures
        match r {
            Some(j) => is_widest(sizes@, j as int),
            None => sizes@.len() == 0,
        },
{
    if sizes.len() == 0 {
        return None;
    }
    let mut best: usize = 0;
    let mut i: usize = 1;
    while i < sizes.len()
        invariant
            1 <= i <= sizes.len(),
            best < i,
            forall|k: int| 0 <= k < i ==> (#[trigger] sizes@[k]).0 <= sizes@[best as int].0,
            forall|k: int| best < k < i ==> (#[trigger] sizes@[k]).0 < sizes@[best as int].0,
        decreases sizes.len() - i,
    {
        if sizes[i].0 >= sizes[best].0 {
            best = i;
        }
        i += 1;
    }
    Some(best)
}

/// The sizes of the images of an icon.
fn sizes_of(dir: &ico::IconDir) -> (sizes: Vec<(u32, u32)>)
    ensures
        sizes@ == icon_sizes(*dir),
{
    let count = icon_count(dir);
    let mut sizes: Vec<(u32, u32)> = Vec::new();
    let mut i: usize = 0;
    while i < count
        invariant
            i <= count == icon_sizes(*dir).len(),
            sizes@ == icon_sizes(*dir).take(i as int),
        decreases count - i,
    {
        sizes.push(icon_size(dir, i));
        i += 1;
        assert(sizes@ == icon_sizes(*dir).take(i as int));
    }
    sizes
}

/// True when the pixels of the widest image can be counted.
pub open spec fn widest_fits(sizes: Seq<(u32, u32)>, codes: Seq<Seq<u8>>) -> bool {
    forall|j: int| #[trigger] is_widest(sizes, j) ==> countable(sizes[j], codes[j])
}

/// True when the image that the tray shows of an icon file, the widest, can be
/// decoded or refused.
pub open spec fn widest_countable(bytes: Seq<u8>) -> bool {
    match icon_read(bytes) {
        Some((sizes, codes, _)) => widest_fits(sizes, codes),
        None => true,
    }
}

/// True when the last image of an icon file can be decoded or refused.
pub open spec fn last_countable(bytes: Seq<u8>) -> bool {
    match icon_read(bytes) {
        Some((sizes, codes, _)) => sizes.len() > 0 ==> countable(sizes.last(), codes.last()),
        None => true,
    }
}

/// True when an image, where there is one, has the given width and height.
pub open spec fn has_size(image: Option<(Seq<u8>, u32, u32)>, size: (u32, u32)) -> bool {
    image matches Some(image) ==> (image.1, image.2) == size
}

/// True when `image` is what an icon or image file shows in the tray: the
/// widest image of an icon, in the size that the file states of it, and the image
/// itself of another file.
pub open spec fn tray_image_of(
    bytes: Seq<u8>,
    is_ico: bool,
    image: Option<(Seq<u8>, u32, u32)>,
) -> bool {
    if is_ico {
        match icon_read(bytes) {
            Some((sizes, _, images)) => if sizes.len() == 0 {
                image is None
            } else {
                exists|j: int| #[trigger]
                    is_widest(sizes, j) && image == images[j] && has_size(image, sizes[j])
            },
            None => image is None,
        }
    } else {
        image == image_read(bytes)
    }
}

/// Decodes the icon for the tray: an icon file by its widest image, and any
/// other file as an image.
pub fn decode_tray_icon(bytes: &[u8], is_ico: bool) -> (r: Option<Pixels>)
    requires
        is_ico ==> widest_countable(bytes@),
    ensures
        tray_image_of(bytes@, is_ico, pixels_view(r)),
        r matches Some(image) ==> full_image(image@),
{
    if !is_ico {
        return load_image(bytes);
    }
    match read_icon(bytes) {
        Some(dir) => {
            let sizes = sizes_of(&dir);
            let count = icon_count(&dir);
            match widest(&sizes) {
                Some(j) => {
                    assert(widest_fits(icon_sizes(dir), icon_codes(dir)));
                    assert(is_widest(icon_sizes(dir), j as int));
                    let r = icon_decode(&dir, j);
                    assert(has_size(pixels_view(r), icon_sizes(dir)[j as int]));
                    r
                },
                None => None,
            }
        },
        None => None,
    }
}

fn is_countable(size: (u32, u32), code: &[u8]) -> (r: bool)
    ensures
        r == countable(size, code@),
{
    let width: u64 = size.0 as u64;
    let height: u64 = size.1 as u64;
    assert(width * height <= 0xFFFF_FFFF * 0xFFFF_FFFF) by (nonlinear_arith)
        requires
            width <= 0xFFFF_FFFF,
            height <= 0xFFFF_FFFF,
    ;
    let pixels: u64 = width * height;
    let fits = pixels <= (isize::MAX / 4) as u64;
    assert(fits == fits_memory(size));
    if code.len() >= 4 && code[0] == 0x89 && code[1] == 0x50 && code[2] == 0x4E && code[3] == 0x47 {
        assert(code@.take(4) == seq![0x89u8, 0x50, 0x4E, 0x47]);
        return fits;
    }
    proof {
        if is_png(code@) {
            assert(code@.take(4)[0] == 0x89 && code@.take(4)[1] == 0x50 && code@.take(4)[2] == 0x4E
                && code@.take(4)[3] == 0x47);
        }
    }
    if code.len() < 40 || pixels > 0xFFFF_FFFF {
        return true;
    }
    let bits: u64 = code[14] as u64 + 256 * code[15] as u64;
    let head: usize = if bits == 1 {
        48
    } else if bits == 4 {
        104
    } else if bits == 8 {
        1064
    } else if bits == 16 || bits == 24 || bits == 32 {
        40
    } else {
        return true;
    };
    if code.len() < head {
        return true;
    }
    assert(width * bits <= 0xFFFF_FFFF * 32) by (nonlinear_arith)
        requires
            width <= 0xFFFF_FFFF,
            bits <= 32,
    ;
    let last_row: u64 = if height == 0 {
        assert((size.1 - 1) * size.0 <= 0) by (nonlinear_arith)
            requires
                size.1 == 0,
        ;
        0
    } else {
        assert((height - 1) * width <= width * height) by (nonlinear_arith)
            requires
                height >= 1,
        ;
        (height - 1) * width
    };
    fits && width * bits + 7 <= 0xFFFF_FFFF && last_row <= 0x3FFF_FFFF
}

/// Decodes the icon for the tray, unless it is an icon file whose widest image is
/// too large to count: then nothing is decoded.
pub fn checked_tray_icon(bytes: &[u8], is_ico: bool) -> (r: Result<Option<Pixels>, ()>)
    ensures
        r is Err <==> is_ico && !widest_countable(bytes@),
        r matches Ok(image) ==> tray_image_of(bytes@, is_ico, pixels_view(image)) && (
        image matches Some(image) ==> full_image(image@)),
{
    if is_ico {
        match read_icon(bytes) {
            Some(dir) => {
                let sizes = sizes_of(&dir);
                let count = icon_count(&dir);
                match widest(&sizes) {
                    Some(j) => if !is_countable(sizes[j], &icon_code(&dir, j)) {
                        assert(is_widest(icon_sizes(dir), j as int));
                        assert(!widest_fits(icon_sizes(dir), icon_codes(dir)));
                        return Err(());
                    },
                    None => {},
                }
            },
            None => {},
        }
    }
    Ok(decode_tray_icon(bytes, is_ico))
}

/// True when `image` is the icon of an app: the last image of its icon file, in
/// the size that the file states of it.
pub open spec fn app_image_of(bytes: Seq<u8>, image: Option<(Seq<u8>, u32, u32)>) -> bool {
    match icon_read(bytes) {
        Some((sizes, _, images)) => if images.len() == 0 {
            image is None
        } else {
            image == images.last() && has_size(image, sizes.last())
        },
        None => image is None,
    }
}

/// Decodes the icon of an app, the last image of its icon file, unless that image
/// is too large to count.
pub fn decode_app_icon(bytes: &[u8]) -> (r: Result<Option<Pixels>, ()>)
    ensures
        r is Err <==> !last_countable(bytes@),
        r matches Ok(image) ==> app_image_of(bytes@, pixels_view(image)) && (
        image matches Some(image) ==> full_image(image@)),
{
    match read_icon(bytes) {
        Some(dir) => {
            let count = icon_count(&dir);
            if count == 0 {
                Ok(None)
            } else if is_countable(icon_size(&dir, count - 1), &icon_code(&dir, count - 1)) {
                Ok(icon_decode(&dir, count - 1))
            } else {
                Err(())
            }
        },
        None => Ok(None),
    }
}

/// The bytes of the square that stands for a missing icon.
pub open spec fn plain_square() -> Seq<u8> {
    Seq::new(
        1024,
        |i: int|
            if i % 4 == 0 {
                0x21u8
            } else if i % 4 == 1 {
                0x47u8
            } else if i % 4 == 2 {
                0x71u8
            } else {
                0xFFu8
            },
    )
}

fn make_square() -> (image: Pixels)
    ensures
        image@ == (plain_square(), 16u32, 16u32),
{
    let mut rgba: Vec<u8> = Vec::new();
    let mut n: usize = 0;
    while n < 256
        invariant
            n <= 256,
            rgba@ == plain_square().take(4 * n as int),
        decreases 256 - n,
    {
        rgba.push(0x21);
        rgba.push(0x47);
        rgba.push(0x71);
        rgba.push(0xFF);
        n += 1;
        assert(rgba@ == plain_square().take(4 * n as int));
    }
    assert(plain_square().take(1024) == plain_square());
    Pixels { rgba, width: 16, height: 16 }
}

/// The image in the tray: the custom one, or else that of the app, or else a
/// plain square.
pub fn choose_tray_image(custom: Option<Pixels>, app: Option<Pixels>) -> (image: Pixels)
    ensures
        image@ == match custom {
            Some(image) => image@,
            None => match app {
                Some(image) => image@,
                None => (plain_square(), 16u32, 16u32),
            },
        },
{
    match custom {
        Some(image) => image,
        None => match app {
            Some(image) => image,
            None => make_square(),
        },
    }
}

/// Whatever the files hold, the tray gets an image with four bytes for each
/// pixel.
pub proof fn law_tray_image_is_full(
    custom: Option<(Seq<u8>, u32, u32)>,
    app: Option<(Seq<u8>, u32, u32)>,
)
    requires
        custom matches Some(image) ==> full_image(image),
        app matches Some(image) ==> full_image(image),
    ensures
        full_image(
            match custom {
                Some(image) => image,
                None => match app {
                    Some(image) => image,
                    None => (plain_square(), 16u32, 16u32),
                },
            },
        ),
{
}

/// The file with the custom tray icon of a bundle, and whether it is an icon
/// file: the first of the two names that is there and not empty.
pub open spec fn tray_icon_file(files: Map<Seq<char>, Seq<u8>>) -> Option<(Seq<u8>, bool)> {
    if files.contains_key("_tray_icon.ico"@) && files["_tray_icon.ico"@].len() > 0 {
        Some((files["_tray_icon.ico"@], true))
    } else if files.contains_key("_tray_icon.png"@) && files["_tray_icon.png"@].len() > 0 {
        Some((files["_tray_icon.png"@], false))
    } else {
        None
    }
}

/// Reads the custom tray icon of a bundle: its bytes, and whether it is an icon
/// file. There is none where the bundle does not open.
pub fn bundle_tray_icon(bundle: &[u8]) -> (r: Option<(Vec<u8>, bool)>)
    ensures
        match r {
            Some((bytes, is_ico)) => Some((bytes@, is_ico)),
            None => None,
        } == match zip_opened(bundle@) {
            Some((_, files)) => tray_icon_file(files),
            None => None,
        },
{
    let mut archive = match open_archive(bundle) {
        Some(archive) => archive,
        None => {
            return None;
        },
    };
    match read_entry(&mut archive, "_tray_icon.ico") {
        Some(bytes) => if bytes.len() > 0 {
            return Some((bytes, true));
        },
        None => {},
    }
    match read_entry(&mut archive, "_tray_icon.png") {
        Some(bytes) => if bytes.len() > 0 {
            return Some((bytes, false));
        },
        None => {},
    }
    None
}

/// Reads the icon file of the app in a bundle.
pub fn bundle_app_icon(bundle: &[u8]) -> (r: Option<Vec<u8>>)
    ensures
        bytes_view(r) == bundled_file(bundle@, "_app_icon.ico"@),
{
    read_bundled(bundle, "_app_icon.ico")
}

/// There is a widest image among any, and it is one alone: none is wider, and none
/// behind it is as wide.
pub proof fn law_widest_image(sizes: Seq<(u32, u32)>, j: int, k: int)
    ensures
        0 <= j < sizes.len() && (forall|i: int|
            0 <= i < sizes.len() ==> (#[trigger] sizes[i]).0 <= sizes[j].0 && (i > j ==> sizes[i].0
                < sizes[j].0)) <==> is_widest(sizes, j),
        is_widest(sizes, j) && is_widest(sizes, k) ==> j == k,
        sizes.len() > 0 ==> exists|i: int| is_widest(sizes, i),
    decreases sizes.len(),
{
    if sizes.len() > 0 {
        let shorter = sizes.drop_last();
        let last = sizes.len() - 1;
        law_widest_image(shorter, j, k);
        if shorter.len() == 0 {
            assert(is_widest(sizes, last));
        } else {
            let w = choose|i: int| is_widest(shorter, i);
            assert(sizes[w] == shorter[w]);
            if sizes[last].0 >= sizes[w].0 {
                assert forall|i: int| 0 <= i < sizes.len() implies (#[trigger] sizes[i]).0
                    <= sizes[last].0 by {
                    if i < last {
                        assert(sizes[i] == shorter[i]);
                    }
                }
                assert(is_widest(sizes, last));
            } else {
                assert forall|i: int| 0 <= i < sizes.len() implies (#[trigger] sizes[i]).0
                    <= sizes[w].0 && (i > w ==> sizes[i].0 < sizes[w].0) by {
                    if i < last {
                        assert(sizes[i] == shorter[i]);
                    }
                }
                assert(is_widest(sizes, w));
            }
        }
    }
}

/// The tray shows the widest image of an icon file, and of another file the image
/// itself; the app shows the last image of its icon file. What is no icon shows
/// nothing, and neither does an icon without images.
pub proof fn law_icons_show_one_image(
    bytes: Seq<u8>,
    sizes: Seq<(u32, u32)>,
    codes: Seq<Seq<u8>>,
    images: Seq<Option<(Seq<u8>, u32, u32)>>,
    j: int,
    image: Option<(Seq<u8>, u32, u32)>,
)
    ensures
        tray_image_of(bytes, false, image) ==> image == image_read(bytes),
        tray_image_of(bytes, true, image) && icon_read(bytes) == Some((sizes, codes, images))
            && is_widest(sizes, j) ==> image == images[j] && (image matches Some(found) ==> (
        found.1,
        found.2,
        ) == sizes[j]),
        tray_image_of(bytes, true, image) && (icon_read(bytes) is None || (icon_read(bytes) == Some(
            (sizes, codes, images),
        ) && sizes.len() == 0)) ==> image is None,
        app_image_of(bytes, image) && icon_read(bytes) == Some((sizes, codes, images))
            && images.len() > 0 ==> image == images.last() && (image matches Some(found) ==> (
        found.1,
        found.2,
        ) == sizes.last()),
        app_image_of(bytes, image) && (icon_read(bytes) is None || (icon_read(bytes) == Some(
            (sizes, codes, images),
        ) && images.len() == 0)) ==> image is None,
{
    if tray_image_of(bytes, true, image) && icon_read(bytes) == Some((sizes, codes, images))
        && is_widest(sizes, j) {
        let k = choose|k: int| #[trigger]
            is_widest(sizes, k) && image == images[k] && has_size(image, sizes[k]);
        law_widest_image(sizes, j, k);
    }
}

/// An image of at most 4096 pixels in each direction is never too large, however it
/// is encoded. A larger one in PNG is too large exactly where its pixels do not fit in
/// memory.
pub proof fn law_ordinary_images_are_countable(size: (u32, u32), code: Seq<u8>)
    ensures
        size.0 <= 4096 && size.1 <= 4096 ==> countable(size, code),
        code.len() >= 4 && code[0] == 0x89 && code[1] == 0x50 && code[2] == 0x4E && code[3] == 0x47
            ==> (countable(size, code) <==> 4 * (size.0 * size.1) <= isize::MAX),
        code.len() < 40 && (code.len() == 0 || code[0] != 0x89) ==> countable(size, code),
{
    if code.len() >= 4 && code[0] == 0x89 && code[1] == 0x50 && code[2] == 0x4E && code[3] == 0x47 {
        assert(code.take(4) =~= seq![0x89u8, 0x50, 0x4E, 0x47]);
        assert(is_png(code));
    }
    if code.len() == 0 || code[0] != 0x89 {
        assert(!is_png(code)) by {
            if is_png(code) {
                assert(code[0] == seq![0x89u8, 0x50, 0x4E, 0x47][0]);
            }
        }
    }
    let w = size.0 as int;
    let h = size.1 as int;
    if w <= 4096 && h <= 4096 {
        assert(w * h <= 4096 * 4096) by (nonlinear_arith)
            requires
                0 <= w <= 4096,
                0 <= h <= 4096,
        ;
        assert((h - 1) * w <= 4096 * 4096) by (nonlinear_arith)
            requires
                0 <= w <= 4096,
                0 <= h <= 4096,
        ;
        let bits = bitmap_bits(code);
        if bitmap_head(bits) is Some {
            assert(w * bits <= 4096 * 32) by (nonlinear_arith)
                requires
                    0 <= w <= 4096,
                    0 <= bits <= 32,
            ;
        }
    }
}

/// The square for a missing icon has 16 times 16 pixels of one opaque blue.
pub proof fn law_plain_square(pixel: int)
    requires
        0 <= pixel < 256,
    ensures
        plain_square().len() == 4 * (16 * 16),
        plain_square()[4 * pixel] == 0x21,
        plain_square()[4 * pixel + 1] == 0x47,
        plain_square()[4 * pixel + 2] == 0x71,
        plain_square()[4 * pixel + 3] == 0xFF,
{
}

/// A custom tray icon is the icon file where it is there and not empty, or else the
/// PNG file where that is; and there is no other.
pub proof fn law_icon_file_comes_first(files: Map<Seq<char>, Seq<u8>>, bytes: Seq<u8>)
    ensures
        files.contains_pair("_tray_icon.ico"@, bytes) && bytes.len() > 0 ==> tray_icon_file(files)
            == Some((bytes, true)),
        (!files.contains_key("_tray_icon.ico"@) || files["_tray_icon.ico"@].len() == 0)
            && files.contains_pair("_tray_icon.png"@, bytes) && bytes.len() > 0 ==> tray_icon_file(
            files,
        ) == Some((bytes, false)),
        (!files.contains_key("_tray_icon.ico"@) || files["_tray_icon.ico"@].len() == 0) && (
        !files.contains_key("_tray_icon.png"@) || files["_tray_icon.png"@].len() == 0)
            ==> tray_icon_file(files) is None,
{
}

/// A bitmap is too large exactly where the decoder would come as far as its pixels and
/// could not count them. It comes that far with a whole header of 40 bytes, a number of
/// bits that it knows, a whole table of colors, and a number of pixels of 32 bits.
pub proof fn law_large_bitmaps_are_not_countable(size: (u32, u32), code: Seq<u8>, bits: int)
    requires
        code.len() > 0 ==> code[0] != 0x89,
        code.len() >= 16 ==> bits == code[14] + 256 * code[15],
    ensures
        !countable(size, code) <==> {
            &&& code.len() >= 40
            &&& (bits == 1 && code.len() >= 40 + 4 * 2) || (bits == 4 && code.len() >= 40 + 4 * 16)
                || (bits == 8 && code.len() >= 40 + 4 * 256) || bits == 16 || bits == 24 || bits
                == 32
            &&& size.0 * size.1 <= u32::MAX
            &&& 4 * (size.0 * size.1) > isize::MAX || size.0 * bits + 7 > u32::MAX || 4 * ((size.1
                - 1) * size.0) > u32::MAX
        },
{
    assert(!is_png(code)) by {
        if is_png(code) {
            assert(code[0] == seq![0x89u8, 0x50, 0x4E, 0x47][0]);
        }
    }
}

/// What is asked of an icon file is asked of the image that is shown of it: of the
/// widest in the tray, and of the last for the app. A file that is no icon, or has no
/// image, is never too large.
pub proof fn law_shown_images_are_asked(
    bytes: Seq<u8>,
    sizes: Seq<(u32, u32)>,
    codes: Seq<Seq<u8>>,
    images: Seq<Option<(Seq<u8>, u32, u32)>>,
    j: int,
)
    ensures
        icon_read(bytes) == Some((sizes, codes, images)) && is_widest(sizes, j) ==> (
        widest_countable(bytes) <==> countable(sizes[j], codes[j])),
        icon_read(bytes) == Some((sizes, codes, images)) && sizes.len() > 0 ==> (last_countable(
            bytes,
        ) <==> countable(sizes.last(), codes.last())),
        icon_read(bytes) is None || (icon_read(bytes) == Some((sizes, codes, images)) && sizes.len()
            == 0) ==> widest_countable(bytes) && last_countable(bytes),
{
    if icon_read(bytes) == Some((sizes, codes, images)) && is_widest(sizes, j) {
        assert forall|k: int| #[trigger] is_widest(sizes, k) implies k == j by {
            law_widest_image(sizes, j, k);
        }
    }
}

} // verus!
