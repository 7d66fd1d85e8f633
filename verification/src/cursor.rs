use vstd::prelude::*;

verus! {

/// The pointer shapes that an application asks for.
#[derive(Clone, Copy, PartialEq, Eq, Debug, Hash, Structural)]
pub enum CursorStyle {
    Arrow,
    IBeam,
    Crosshair,
    ClosedHand,
    OpenHand,
    PointingHand,
    ResizeLeft,
    ResizeRight,
    ResizeLeftRight,
    ResizeUp,
    ResizeDown,
    ResizeUpDown,
    ResizeUpLeftDownRight,
    ResizeUpRightDownLeft,
    ResizeColumn,
    ResizeRow,
    IBeamCursorForVerticalLayout,
    OperationNotAllowed,
    DragLink,
    DragCopy,
    ContextualMenu,
    /// No pointer is drawn.
    Hidden,
}

/// The shared system cursors that the styles map to.
#[derive(Clone, Copy, PartialEq, Eq, Debug, Hash, Structural)]
pub enum SystemCursor {
    Arrow,
    IBeam,
    Cross,
    Hand,
    SizeWestEast,
    SizeNorthSouth,
    SizeNorthWestSouthEast,
    SizeNorthEastSouthWest,
    No,
}

pub open spec fn spec_system_cursor(style: CursorStyle) -> SystemCursor {
    match style {
        CursorStyle::IBeam | CursorStyle::IBeamCursorForVerticalLayout => SystemCursor::IBeam,
        CursorStyle::Crosshair => SystemCursor::Cross,
        CursorStyle::PointingHand | CursorStyle::DragLink => SystemCursor::Hand,
        CursorStyle::ResizeLeft | CursorStyle::ResizeRight | CursorStyle::ResizeLeftRight
        | CursorStyle::ResizeColumn => SystemCursor::SizeWestEast,
        CursorStyle::ResizeUp | CursorStyle::ResizeDown | CursorStyle::ResizeUpDown
        | CursorStyle::ResizeRow => SystemCursor::SizeNorthSouth,
        CursorStyle::ResizeUpLeftDownRight => SystemCursor::SizeNorthWestSouthEast,
        CursorStyle::ResizeUpRightDownLeft => SystemCursor::SizeNorthEastSouthWest,
        CursorStyle::OperationNotAllowed => SystemCursor::No,
        _ => SystemCursor::Arrow,
    }
}

/// Which styles share each system cursor: the pointing styles show the hand, the text styles
/// the I-beam, each resize direction its double arrow, a forbidden operation the slashed
/// circle, and the styles without a cursor of their own (the grabbing hands, copy, context
/// menu, hidden) the arrow.
pub proof fn lemma_system_cursor_by_style(style: CursorStyle)
    ensures
        (style == CursorStyle::PointingHand || style == CursorStyle::DragLink) <==> spec_system_cursor(style) == SystemCursor::Hand,
        (style == CursorStyle::IBeam || style == CursorStyle::IBeamCursorForVerticalLayout) <==> spec_system_cursor(style)
            == SystemCursor::IBeam,
        style == CursorStyle::Crosshair <==> spec_system_cursor(style) == SystemCursor::Cross,
        (style == CursorStyle::ResizeLeft || style == CursorStyle::ResizeRight || style
            == CursorStyle::ResizeLeftRight || style == CursorStyle::ResizeColumn) <==> spec_system_cursor(style)
            == SystemCursor::SizeWestEast,
        (style == CursorStyle::ResizeUp || style == CursorStyle::ResizeDown || style
            == CursorStyle::ResizeUpDown || style == CursorStyle::ResizeRow) <==> spec_system_cursor(style)
            == SystemCursor::SizeNorthSouth,
        style == CursorStyle::ResizeUpLeftDownRight <==> spec_system_cursor(style) == SystemCursor::SizeNorthWestSouthEast,
        style == CursorStyle::ResizeUpRightDownLeft <==> spec_system_cursor(style) == SystemCursor::SizeNorthEastSouthWest,
        style == CursorStyle::OperationNotAllowed <==> spec_system_cursor(style) == SystemCursor::No,
        (style == CursorStyle::Arrow || style == CursorStyle::ClosedHand || style == CursorStyle::OpenHand
            || style == CursorStyle::DragCopy || style == CursorStyle::ContextualMenu || style
            == CursorStyle::Hidden) <==> spec_system_cursor(style) == SystemCursor::Arrow,
{
}

/// The system cursor shown for a style; the styles without one of their own get the arrow.
pub fn system_cursor(style: CursorStyle) -> (r: SystemCursor)
    ensures
        r == spec_system_cursor(style),
        (style == CursorStyle::PointingHand || style == CursorStyle::DragLink) <==> r == SystemCursor::Hand,
        (style == CursorStyle::IBeam || style == CursorStyle::IBeamCursorForVerticalLayout) <==> r
            == SystemCursor::IBeam,
        style == CursorStyle::Crosshair <==> r == SystemCursor::Cross,
        (style == CursorStyle::ResizeLeft || style == CursorStyle::ResizeRight || style
            == CursorStyle::ResizeLeftRight || style == CursorStyle::ResizeColumn) <==> r
            == SystemCursor::SizeWestEast,
        (style == CursorStyle::ResizeUp || style == CursorStyle::ResizeDown || style
            == CursorStyle::ResizeUpDown || style == CursorStyle::ResizeRow) <==> r
            == SystemCursor::SizeNorthSouth,
        style == CursorStyle::ResizeUpLeftDownRight <==> r == SystemCursor::SizeNorthWestSouthEast,
        style == CursorStyle::ResizeUpRightDownLeft <==> r == SystemCursor::SizeNorthEastSouthWest,
        style == CursorStyle::OperationNotAllowed <==> r == SystemCursor::No,
        (style == CursorStyle::Arrow || style == CursorStyle::ClosedHand || style == CursorStyle::OpenHand
            || style == CursorStyle::DragCopy || style == CursorStyle::ContextualMenu || style
            == CursorStyle::Hidden) <==> r == SystemCursor::Arrow,
{
    match style {
        CursorStyle::IBeam | CursorStyle::IBeamCursorForVerticalLayout => SystemCursor::IBeam,
        CursorStyle::Crosshair => SystemCursor::Cross,
        CursorStyle::PointingHand | CursorStyle::DragLink => SystemCursor::Hand,
        CursorStyle::ResizeLeft | CursorStyle::ResizeRight | CursorStyle::ResizeLeftRight
        | CursorStyle::ResizeColumn => SystemCursor::SizeWestEast,
        CursorStyle::ResizeUp | CursorStyle::ResizeDown | CursorStyle::ResizeUpDown
        | CursorStyle::ResizeRow => SystemCursor::SizeNorthSouth,
        CursorStyle::ResizeUpLeftDownRight => SystemCursor::SizeNorthWestSouthEast,
        CursorStyle::ResizeUpRightDownLeft => SystemCursor::SizeNorthEastSouthWest,
        CursorStyle::OperationNotAllowed => SystemCursor::No,
        _ => SystemCursor::Arrow,
    }
}

/// A cursor image: 8-bit RGBA pixels, rows from the top, and the hotspot in pixels.
#[derive(PartialEq, Eq, Debug)]
pub struct CustomCursorImage {
    pub rgba: Vec<u8>,
    pub width: u32,
    pub height: u32,
    pub hot_x: u32,
    pub hot_y: u32,
}

/// The bitmaps of a native cursor: the color pixels in BGRA order, and an all-zero
/// monochrome mask (its rows padded to 16 bits), with the image's size and hotspot.
pub struct CursorBitmap {
    pub width: i32,
    pub height: i32,
    pub bgra: Vec<u8>,
    pub mask: Vec<u8>,
    pub mask_stride: usize,
    pub hot_x: u32,
    pub hot_y: u32,
}

/// An image can become a native cursor: both sides are positive as 32-bit signed numbers
/// and its pixels cover width × height.
pub open spec fn cursor_image_valid(image: CustomCursorImage) -> bool {
    &&& 0 < image.width <= i32::MAX
    &&& 0 < image.height <= i32::MAX
    &&& image.rgba@.len() >= image.width * image.height * 4
}

/// The bytes of one row of the monochrome mask: the row's bits, padded to a multiple of 16.
pub open spec fn spec_mask_stride(width: int) -> int {
    ((width + 15) / 16) * 2
}

/// A mask row is the fewest whole 16-bit words that hold `width` bits: an even number of bytes
/// whose bits cover the row, one word fewer would not.
pub proof fn lemma_mask_stride_is_tight(width: int)
    requires
        0 < width,
    ensures
        spec_mask_stride(width) % 2 == 0,
        16 * (spec_mask_stride(width) / 2) >= width,
        16 * (spec_mask_stride(width) / 2 - 1) < width,
{
    let q = (width + 15) / 16;
    assert(16 * q <= width + 15 < 16 * q + 16);
    assert(spec_mask_stride(width) == 2 * q);
    assert(spec_mask_stride(width) / 2 == q);
}

/// `bgra` holds the first `count` pixels of `rgba` with red and blue swapped.
pub open spec fn swizzled(rgba: Seq<u8>, bgra: Seq<u8>, count: int) -> bool {
    &&& bgra.len() == count * 4
    &&& forall|p: int|
        #![trigger bgra[4 * p]]
        0 <= p < count ==> {
            &&& bgra[4 * p] == rgba[4 * p + 2]
            &&& bgra[4 * p + 1] == rgba[4 * p + 1]
            &&& bgra[4 * p + 2] == rgba[4 * p]
            &&& bgra[4 * p + 3] == rgba[4 * p + 3]
        }
}

proof fn lemma_i32_cast(x: u32)
    ensures
        (x as i32 <= 0) == (x == 0 || x > i32::MAX),
        x <= i32::MAX ==> x as i32 == x,
{
    assert((x as i32 <= 0) == (x == 0 || x > 0x7fff_ffffu32)) by (bit_vector);
    assert(x <= 0x7fff_ffffu32 ==> x as i32 == x) by (bit_vector);
}

/// The bitmaps of the native cursor for `image`, or `None` when the image cannot be one
/// (a side not positive as a 32-bit signed number, or too few pixels).
pub fn cursor_bitmap(image: &CustomCursorImage) -> (r: Option<CursorBitmap>)
    requires
        cursor_image_valid(*image) ==> image.width * image.height * 4 <= i32::MAX,
    ensures
        !cursor_image_valid(*image) ==> r is None,
        cursor_image_valid(*image) ==> (r matches Some(bitmap) && {
            let count = image.width * image.height;
            &&& bitmap.width == image.width
            &&& bitmap.height == image.height
            &&& swizzled(image.rgba@, bitmap.bgra@, count)
            &&& bitmap.mask_stride == spec_mask_stride(image.width as int)
            &&& bitmap.mask_stride % 2 == 0
            &&& 16 * (bitmap.mask_stride / 2) >= image.width
            &&& 16 * (bitmap.mask_stride / 2 - 1) < image.width
            &&& bitmap.mask@.len() == bitmap.mask_stride * image.height
            &&& forall|i: int| 0 <= i < bitmap.mask@.len() ==> bitmap.mask@[i] == 0
            &&& bitmap.hot_x == image.hot_x
            &&& bitmap.hot_y == image.hot_y
        }),
{
    proof {
        lemma_i32_cast(image.width);
        lemma_i32_cast(image.height);
    }
    let w = #[verifier::truncate] (image.width as i32);
    let h = #[verifier::truncate] (image.height as i32);
    if w <= 0 || h <= 0 {
        return None;
    }
    assert(image.width as u64 * image.height as u64 * 4 <= 0x7fff_ffff * 0x7fff_ffff * 4) by (nonlinear_arith)
        requires
            image.width <= 0x7fff_ffff,
            image.height <= 0x7fff_ffff,
    ;
    if (image.rgba.len() as u64) < image.width as u64 * image.height as u64 * 4 {
        return None;
    }
    assert(w == image.width && h == image.height);
    assert(cursor_image_valid(*image));
    assert(w * h * 4 <= i32::MAX);
    assert(w * h <= w * h * 4) by (nonlinear_arith)
        requires
            0 < w,
            0 < h,
    ;
    assert(w * 4 <= w * h * 4) by (nonlinear_arith)
        requires
            0 < w,
            0 < h,
    ;
    let mask_stride = (((w + 15) / 16) * 2) as usize;
    assert(mask_stride <= 4 * w);
    assert(mask_stride * h <= i32::MAX) by (nonlinear_arith)
        requires
            mask_stride <= 4 * w,
            0 < w,
            0 < h,
            w * h * 4 <= i32::MAX,
    ;
    let mask = vec![0u8; mask_stride * h as usize];
    let count = (w * h) as usize;
    let mut bgra: Vec<u8> = Vec::with_capacity((w * h * 4) as usize);
    let mut i: usize = 0;
    while i < count
        invariant
            count == image.width * image.height,
            image.rgba@.len() >= count * 4,
            count * 4 <= i32::MAX,
            i <= count,
            swizzled(image.rgba@, bgra@, i as int),
        decreases count - i,
    {
        let o = i * 4;
        bgra.push(image.rgba[o + 2]);
        bgra.push(image.rgba[o + 1]);
        bgra.push(image.rgba[o]);
        bgra.push(image.rgba[o + 3]);
        i = i + 1;
        assert forall|p: int| #![trigger bgra@[4 * p]] 0 <= p < i implies {
            &&& bgra@[4 * p] == image.rgba@[4 * p + 2]
            &&& bgra@[4 * p + 1] == image.rgba@[4 * p + 1]
            &&& bgra@[4 * p + 2] == image.rgba@[4 * p]
            &&& bgra@[4 * p + 3] == image.rgba@[4 * p + 3]
        } by {
            if p < i - 1 {
                assert(bgra@[4 * p] == image.rgba@[4 * p + 2]);
            }
        }
    }
    Some(CursorBitmap {
        width: w,
        height: h,
        bgra,
        mask,
        mask_stride,
        hot_x: image.hot_x,
        hot_y: image.hot_y,
    })
}

/// The PNG file that the `image` crate writes for an 8-bit RGBA buffer of the given size, or
/// `None` when it writes none.
pub uninterp spec fn png_from_rgba(width: u32, height: u32, rgba: Seq<u8>) -> Option<Seq<u8>>;

/// Wraps the pixels with `image::RgbaImage::from_raw` and writes them with
/// `DynamicImage::write_to` in `ImageFormat::Png`.
///
/// Claimed: the result is `png_from_rgba` of the arguments, a function of them alone (the
/// encoder has no state and no randomness); `from_raw` refuses a buffer shorter than
/// width × height × 4 bytes, so such a buffer gives `None`. What the PNG bytes are is left to
/// the name: the encoding takes pages to state. `from_raw` accepts a longer buffer, but the PNG
/// encoder then asserts that the buffer is exactly width × height × 4 bytes, hence the
/// `requires`.
#[verifier::external_body]
fn encode_rgba_png(width: u32, height: u32, rgba: Vec<u8>) -> (r: Option<Vec<u8>>)
    requires
        rgba@.len() <= width * height * 4,
    ensures
        r matches Some(png) ==> png_from_rgba(width, height, rgba@) == Some(png@),
        r is None ==> png_from_rgba(width, height, rgba@) is None,
        rgba@.len() < width * height * 4 ==> r is None,
{
    let pixels = image::RgbaImage::from_raw(width, height, rgba)?;
    let mut png: Vec<u8> = Vec::new();
    image::DynamicImage::ImageRgba8(pixels)
        .write_to(&mut std::io::Cursor::new(&mut png), image::ImageFormat::Png)
        .ok()?;
    Some(png)
}

/// The cursor image as a PNG file, the form in which the native image type takes it. The
/// pixels must not run past width × height.
pub fn cursor_png(image: &CustomCursorImage) -> (r: Option<Vec<u8>>)
    requires
        image.rgba@.len() <= image.width * image.height * 4,
    ensures
        r matches Some(png) ==> png_from_rgba(image.width, image.height, image.rgba@) == Some(png@),
        r is None ==> png_from_rgba(image.width, image.height, image.rgba@) is None,
        image.rgba@.len() < image.width * image.height * 4 ==> r is None,
{
    encode_rgba_png(image.width, image.height, image.rgba.clone())
}

} // verus!
