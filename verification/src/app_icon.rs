//! The icon of the program, chosen among the frames of an ICO file.

use vstd::prelude::*;

verus! {

/// An icon: four bytes (red, green, blue, alpha) for each pixel, row by row from the top.
#[derive(Clone, Debug, PartialEq, Eq)]
pub struct IconPixels {
    pub rgba: Vec<u8>,
    pub width: u32,
    pub height: u32,
}

impl IconPixels {
    /// Whether there are four bytes for every pixel.
    pub open spec fn wf(self) -> bool {
        self.rgba@.len() == 4 * (self.width * self.height)
    }

    /// Tests whether there are four bytes for every pixel.
    pub fn is_valid_rgba(&self) -> (valid: bool)
        ensures
            valid == self.wf(),
            valid == (self.rgba@.len() == 4 * (self.width * self.height)),
    {
        proof {
            assert(self.width * self.height <= u32::MAX * u32::MAX) by (nonlinear_arith)
                requires
                    0 <= self.width <= u32::MAX,
                    0 <= self.height <= u32::MAX,
            ;
        }
        self.rgba.len() as u128 == 4 * ((self.width as u128) * (self.height as u128))
    }
}

/// The number in two bytes, the lower one first.
pub open spec fn u16_at(bytes: Seq<u8>, at: int) -> int {
    bytes[at] + 0x100 * bytes[at + 1]
}

/// The number in four bytes, the lowest one first.
pub open spec fn u32_at(bytes: Seq<u8>, at: int) -> int {
    u16_at(bytes, at) + 0x1_0000 * u16_at(bytes, at + 2)
}

/// Whether a file has room for the directory that it announces, and for each frame of it.
pub open spec fn has_room(bytes: Seq<u8>) -> bool {
    &&& bytes.len() >= 6
    &&& 6 + 16 * u16_at(bytes, 4) <= bytes.len()
    &&& forall|i: int|
        0 <= i < u16_at(bytes, 4) ==> u32_at(bytes, #[trigger] frame_size_at(i)) <= bytes.len()
}

/// Where the directory holds the size in bytes of frame `i`.
pub open spec fn frame_size_at(i: int) -> int {
    6 + 16 * i + 8
}

fn test_room(bytes: &[u8]) -> (room: bool)
    ensures
        room == has_room(bytes@),
{
    let held: usize = bytes.len();
    if held < 6 {
        return false;
    }
    let count: usize = bytes[4] as usize + 0x100 * (bytes[5] as usize);
    if (held - 6) / 16 < count {
        return false;
    }
    for i in 0..count
        invariant
            held == bytes@.len(),
            count == u16_at(bytes@, 4),
            count <= 0xFFFF,
            6 + 16 * count <= held,
            forall|k: int|
                0 <= k < i ==> u32_at(bytes@, #[trigger] frame_size_at(k)) <= bytes@.len(),
    {
        let at: usize = 6 + 16 * i + 8;
        let low: u64 = bytes[at] as u64 + 0x100 * (bytes[at + 1] as u64);
        let high: u64 = bytes[at + 2] as u64 + 0x100 * (bytes[at + 3] as u64);
        let size: u64 = low + 0x1_0000 * high;
        assert(size == u32_at(bytes@, frame_size_at(i as int)));
        if size > held as u64 {
            return false;
        }
    }
    true
}

/// Width and height of the frames of an ICO or CUR file, in the order of its directory; none
/// where the file is malformed.
pub uninterp spec fn ico_sizes(bytes: Seq<u8>) -> Option<Seq<(u32, u32)>>;

/// `ico::IconDir::read`, with the `width` and `height` of each of its `entries`: they depend on
/// the file alone. A file without room for what it announces is left out, since the space for a
/// frame is set aside before it is read.
#[verifier::external_body]
fn read_icon_sizes(bytes: &[u8]) -> (sizes: Option<Vec<(u32, u32)>>)
    requires
        has_room(bytes@),
    ensures
        sizes is None <==> ico_sizes(bytes@) is None,
        sizes matches Some(s) ==> ico_sizes(bytes@) == Some(s@),
{
    let dir = ico::IconDir::read(std::io::Cursor::new(bytes)).ok()?;
    Some(dir.entries().iter().map(|e| (e.width(), e.height())).collect())
}

/// The pixels of a frame of an ICO or CUR file, four bytes each; none where its data is malformed
/// or in a form that is not supported.
pub uninterp spec fn ico_frame(bytes: Seq<u8>, index: nat) -> Option<Seq<u8>>;

/// `ico::IconDirEntry::decode` on an entry of the directory, with `width`, `height` and
/// `rgba_data` of what it returns. The frame has the size that the directory gives it, and four
/// bytes for every pixel. The bounds on the size keep the arithmetic on rows of pixels within
/// 32 bits and the pixels within memory.
#[verifier::external_body]
fn decode_icon_frame(bytes: &[u8], index: usize) -> (frame: Option<IconPixels>)
    requires
        has_room(bytes@),
        ico_sizes(bytes@) matches Some(sizes) && index < sizes.len() && frame_fits(
            sizes[index as int],
        ),
    ensures
        frame is None <==> ico_frame(bytes@, index as nat) is None,
        frame matches Some(f) ==> ico_frame(bytes@, index as nat) == Some(f.rgba@) && (
            f.width,
            f.height,
        ) == (ico_sizes(bytes@)->0)[index as int] && f.rgba@.len() == 4 * (f.width * f.height),
{
    let dir = ico::IconDir::read(std::io::Cursor::new(bytes)).ok()?;
    let image = dir.entries()[index].decode().ok()?;
    let rgba = image.rgba_data().to_vec();
    Some(IconPixels { rgba, width: image.width(), height: image.height() })
}

/// The pixels of a frame.
pub open spec fn area(size: (u32, u32)) -> int {
    size.0 * size.1
}

/// Whether a frame of that size can be decoded.
pub open spec fn frame_fits(size: (u32, u32)) -> bool {
    &&& 4 * area(size) <= u32::MAX
    &&& 4 * area(size) <= isize::MAX
    &&& 32 * size.0 + 7 <= u32::MAX
}

/// The frame with the most pixels, and the last of them where several have as many.
pub open spec fn best_frame(sizes: Seq<(u32, u32)>) -> int
    decreases sizes.len(),
{
    if sizes.len() <= 1 {
        0
    } else {
        let best = best_frame(sizes.drop_last());
        if area(sizes.last()) >= area(sizes[best]) {
            sizes.len() - 1
        } else {
            best
        }
    }
}

/// The best frame has as many pixels as any other, and more than any after it.
pub proof fn lemma_best_frame(sizes: Seq<(u32, u32)>, i: int)
    requires
        0 <= i < sizes.len(),
    ensures
        0 <= best_frame(sizes) < sizes.len(),
        area(sizes[i]) <= area(sizes[best_frame(sizes)]),
        i > best_frame(sizes) ==> area(sizes[i]) < area(sizes[best_frame(sizes)]),
    decreases sizes.len(),
{
    if sizes.len() > 1 {
        let front = sizes.drop_last();
        lemma_best_frame(front, if i < front.len() { i } else { 0 });
    }
}

/// Whether the frames can be compared by their pixels, and the best of them decoded.
pub open spec fn best_fits(sizes: Seq<(u32, u32)>) -> bool {
    &&& forall|i: int| 0 <= i < sizes.len() ==> area(#[trigger] sizes[i]) <= u32::MAX
    &&& sizes.len() > 0 ==> frame_fits(sizes[best_frame(sizes)])
}

fn test_fits(size: (u32, u32)) -> (fits: bool)
    ensures
        fits == frame_fits(size),
{
    proof {
        assert(size.0 * size.1 <= u32::MAX * u32::MAX) by (nonlinear_arith)
            requires
                0 <= size.0 <= u32::MAX,
                0 <= size.1 <= u32::MAX,
        ;
    }
    let bytes: u128 = 4 * ((size.0 as u128) * (size.1 as u128));
    bytes <= u32::MAX as u128 && bytes <= isize::MAX as u128 && 32 * (size.0 as u64) + 7
        <= u32::MAX as u64
}

/// Finds the frame with the most pixels.
pub fn best_entry(sizes: &Vec<(u32, u32)>) -> (best: Option<usize>)
    requires
        forall|i: int| 0 <= i < sizes@.len() ==> area(#[trigger] sizes@[i]) <= u32::MAX,
    ensures
        best is None <==> sizes@.len() == 0,
        best matches Some(i) ==> i == best_frame(sizes@) && i < sizes@.len(),
{
    if sizes.len() == 0 {
        return None;
    }
    let mut best: usize = 0;
    for i in 1..sizes.len()
        invariant
            1 <= i <= sizes@.len(),
            best < i,
            best == best_frame(sizes@.take(i as int)),
            forall|k: int| 0 <= k < sizes@.len() ==> area(#[trigger] sizes@[k]) <= u32::MAX,
    {
        proof {
            assert(area(sizes@[i as int]) <= u32::MAX);
            assert(area(sizes@[best as int]) <= u32::MAX);
            assert(sizes@.take(i + 1).drop_last() =~= sizes@.take(i as int));
        }
        let challenger: u32 = sizes[i].0 * sizes[i].1;
        let champion: u32 = sizes[best].0 * sizes[best].1;
        if challenger >= champion {
            best = i;
        }
    }
    assert(sizes@.take(sizes@.len() as int) =~= sizes@);
    Some(best)
}

/// The pixels of the best frame of a file, with its size; none where the file or that frame is
/// malformed, or where there is no frame.
pub open spec fn best_pixels(
    bytes: Seq<u8>,
    sizes: Option<Seq<(u32, u32)>>,
    frames: spec_fn(nat) -> Option<Seq<u8>>,
) -> Option<(Seq<u8>, (u32, u32))> {
    match sizes {
        Some(s) if has_room(bytes) && s.len() > 0 => match frames(best_frame(s) as nat) {
            Some(rgba) => Some((rgba, s[best_frame(s)])),
            None => None,
        },
        _ => None,
    }
}

/// The icon in a file: its best frame.
pub open spec fn icon_in(bytes: Seq<u8>) -> Option<(Seq<u8>, (u32, u32))> {
    best_pixels(bytes, ico_sizes(bytes), |i: nat| ico_frame(bytes, i))
}

/// Whether an icon is what was wanted.
pub open spec fn is_icon(icon: Option<IconPixels>, wanted: Option<(Seq<u8>, (u32, u32))>) -> bool {
    match icon {
        Some(i) => i.wf() && wanted == Some((i.rgba@, (i.width, i.height))),
        None => wanted is None,
    }
}

/// Whether the frames of a file are small enough to choose among them and decode the best.
pub open spec fn icon_fits(bytes: Seq<u8>) -> bool {
    has_room(bytes) ==> (ico_sizes(bytes) matches Some(sizes) ==> best_fits(sizes))
}

/// Decodes the largest frame of an ICO file.
pub fn load_best_ico_rgba(bytes: &[u8]) -> (icon: Option<IconPixels>)
    requires
        icon_fits(bytes@),
    ensures
        is_icon(icon, icon_in(bytes@)),
{
    if !test_room(bytes) {
        return None;
    }
    let sizes = read_icon_sizes(bytes)?;
    let best = best_entry(&sizes)?;
    decode_icon_frame(bytes, best)
}

/// The icon of the window, from an ICO file.
pub fn eframe_icon_data(bytes: &[u8]) -> (icon: Option<IconPixels>)
    requires
        icon_fits(bytes@),
    ensures
        is_icon(icon, icon_in(bytes@)),
{
    load_best_ico_rgba(bytes)
}

/// The icon of the system tray, from an ICO file.
pub fn tray_icon(bytes: &[u8]) -> (icon: Option<IconPixels>)
    requires
        icon_fits(bytes@),
    ensures
        is_icon(icon, icon_in(bytes@)),
{
    let icon = load_best_ico_rgba(bytes)?;
    if icon.is_valid_rgba() {
        Some(icon)
    } else {
        None
    }
}

/// The icons of the program.
#[derive(Clone, Debug, PartialEq, Eq)]
pub struct Icons {
    pub window: Option<IconPixels>,
    pub tray: Option<IconPixels>,
}

/// Loads the icons of the program from an ICO file, unless its frames are too large.
pub fn load_icons(bytes: &[u8]) -> (icons: Option<Icons>)
    ensures
        icons is None <==> !icon_fits(bytes@),
        icons matches Some(i) ==> is_icon(i.window, icon_in(bytes@)) && is_icon(
            i.tray,
            icon_in(bytes@),
        ),
{
    if test_room(bytes) {
        if let Some(sizes) = read_icon_sizes(bytes) {
            for i in 0..sizes.len()
                invariant
                    ico_sizes(bytes@) == Some(sizes@),
                    has_room(bytes@),
                    forall|k: int| 0 <= k < i ==> area(#[trigger] sizes@[k]) <= u32::MAX,
            {
                proof {
                    let size = sizes@[i as int];
                    assert(size.0 * size.1 <= u32::MAX * u32::MAX) by (nonlinear_arith)
                        requires
                            0 <= size.0 <= u32::MAX,
                            0 <= size.1 <= u32::MAX,
                    ;
                }
                if (sizes[i].0 as u64) * (sizes[i].1 as u64) > u32::MAX as u64 {
                    assert(area(sizes@[i as int]) > u32::MAX);
                    return None;
                }
            }
            if let Some(best) = best_entry(&sizes) {
                if !test_fits(sizes[best]) {
                    return None;
                }
            }
        }
    }
    Some(Icons { window: eframe_icon_data(bytes), tray: tray_icon(bytes) })
}

/// Numbers are stored with their lowest byte first.
pub proof fn lemma_numbers_are_stored_lowest_first(bytes: Seq<u8>, at: int)
    ensures
        u16_at(bytes, at) == bytes[at] + 256 * bytes[at + 1],
        u32_at(bytes, at) == bytes[at] + 256 * bytes[at + 1] + 65536 * bytes[at + 2] + 16777216
            * bytes[at + 3],
        frame_size_at(0) == 14,
        frame_size_at(at + 1) == frame_size_at(at) + 16,
{
}

/// A frame of ordinary size, up to 8192 by 8192 pixels, can be decoded, whatever its shape.
pub proof fn lemma_ordinary_frames_fit(size: (u32, u32))
    requires
        size.0 <= 8192,
        size.1 <= 8192,
    ensures
        area(size) == size.0 * size.1,
        frame_fits(size),
{
    assert(size.0 * size.1 <= 8192 * 8192) by (nonlinear_arith)
        requires
            size.0 <= 8192,
            size.1 <= 8192,
    ;
}

/// The icon in a file is one of its frames: one with as many pixels as any other has, and more than
/// those behind it have.
pub proof fn lemma_icon_is_the_largest_frame(bytes: Seq<u8>)
    requires
        has_room(bytes),
        ico_sizes(bytes) matches Some(sizes) && sizes.len() > 0,
    ensures
        ({
            let sizes = ico_sizes(bytes)->0;
            exists|i: int|
                0 <= i < sizes.len() && #[trigger] is_largest(sizes, i) && match ico_frame(
                    bytes,
                    i as nat,
                ) {
                    Some(rgba) => icon_in(bytes) == Some((rgba, sizes[i])),
                    None => icon_in(bytes) is None,
                }
        }),
{
    let sizes = ico_sizes(bytes)->0;
    let best = best_frame(sizes);
    lemma_best_frame(sizes, 0);
    assert forall|k: int| 0 <= k < sizes.len() implies ((#[trigger] sizes[k]).0 * sizes[k].1
        <= sizes[best].0 * sizes[best].1) && (k > best ==> sizes[k].0 * sizes[k].1 < sizes[best].0
        * sizes[best].1) by {
        lemma_best_frame(sizes, k);
    }
    assert(is_largest(sizes, best));
}

/// Whether frame `i` has as many pixels as any other, and more than those behind it.
pub open spec fn is_largest(sizes: Seq<(u32, u32)>, i: int) -> bool {
    forall|k: int|
        0 <= k < sizes.len() ==> ((#[trigger] sizes[k]).0 * sizes[k].1 <= sizes[i].0 * sizes[i].1)
            && (k > i ==> sizes[k].0 * sizes[k].1 < sizes[i].0 * sizes[i].1)
}

/// There is no icon where the file announces more than it holds, is malformed, or has no frame.
pub proof fn lemma_files_without_an_icon(bytes: Seq<u8>)
    ensures
        bytes.len() < 6 || 6 + 16 * u16_at(bytes, 4) > bytes.len() ==> icon_in(bytes) is None,
        ico_sizes(bytes) is None ==> icon_in(bytes) is None,
        ico_sizes(bytes) matches Some(sizes) ==> sizes.len() == 0 ==> icon_in(bytes) is None,
{
}

/// An icon is what was wanted where it has its pixels and its size, four bytes a pixel; there is none
/// where none was wanted.
pub proof fn lemma_what_an_icon_is(icon: Option<IconPixels>, wanted: Option<(Seq<u8>, (u32, u32))>)
    requires
        is_icon(icon, wanted),
    ensures
        icon is None <==> wanted is None,
        icon matches Some(i) ==> wanted == Some((i.rgba@, (i.width, i.height))) && i.rgba@.len() == 4
            * (i.width * i.height),
{
}

/// A file has room where its six bytes of heading are there, and sixteen for each frame that the
/// heading announces, and no frame announces more bytes than the whole file has.
pub proof fn lemma_files_with_room(bytes: Seq<u8>)
    ensures
        has_room(bytes) <==> {
            let count = bytes[4] + 256 * bytes[5];
            &&& bytes.len() >= 6 + 16 * count
            &&& bytes.len() >= 6
            &&& forall|i: int|
                0 <= i < count ==> #[trigger] u32_at(bytes, 16 * i + 14) <= bytes.len()
        },
{
    let count = bytes[4] + 256 * bytes[5];
    if has_room(bytes) {
        assert forall|i: int| 0 <= i < count implies #[trigger] u32_at(bytes, 16 * i + 14)
            <= bytes.len() by {
            assert(frame_size_at(i) == 16 * i + 14);
        }
    }
    if bytes.len() >= 6 && bytes.len() >= 6 + 16 * count && forall|i: int|
        0 <= i < count ==> #[trigger] u32_at(bytes, 16 * i + 14) <= bytes.len() {
        assert forall|i: int| 0 <= i < u16_at(bytes, 4) implies u32_at(
            bytes,
            #[trigger] frame_size_at(i),
        ) <= bytes.len() by {
            assert(u32_at(bytes, 16 * i + 14) <= bytes.len());
        }
    }
}

/// Where every frame is of ordinary size, the best can be chosen and decoded.
pub proof fn lemma_ordinary_icons_fit(bytes: Seq<u8>)
    requires
        ico_sizes(bytes) matches Some(sizes) ==> forall|i: int|
            0 <= i < sizes.len() ==> (#[trigger] sizes[i]).0 <= 8192 && sizes[i].1 <= 8192,
    ensures
        icon_fits(bytes),
{
    if let Some(sizes) = ico_sizes(bytes) {
        assert forall|i: int| 0 <= i < sizes.len() implies area(#[trigger] sizes[i]) <= u32::MAX by {
            lemma_ordinary_frames_fit(sizes[i]);
        }
        if sizes.len() > 0 {
            lemma_best_frame(sizes, 0);
            lemma_ordinary_frames_fit(sizes[best_frame(sizes)]);
        }
    }
}

} // verus!
