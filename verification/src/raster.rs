//! Pictures: rows of red-green-blue-alpha pixels, held by the `image` crate.

use vstd::prelude::*;

verus! {

/// A picture of the `image` crate: eight bits for each of red, green, blue
/// and alpha.
#[verifier::external_body]
pub struct Picture {
    pixels: image::RgbaImage,
}

/// The rows of a picture from top to bottom, each from left to right.
pub uninterp spec fn rows_of(picture: Picture) -> Seq<Seq<[u8; 4]>>;

/// The number of pixels in each row of a picture.
pub uninterp spec fn width_of(picture: Picture) -> nat;

/// `ImageBuffer::from_pixel`: a buffer of the given size with every pixel set
/// to `pixel`. It counts the bytes of one row first and then those of all
/// rows, and panics when either count overflows a machine word or the buffer
/// would be larger than a vector can be; the `requires` leaves both out.
#[verifier::external_body]
fn picture_from_pixel(width: u32, height: u32, pixel: [u8; 4]) -> (picture: Picture)
    requires
        4 * width <= usize::MAX,
        4 * width * height <= isize::MAX,
    ensures
        width_of(picture) == width,
        rows_of(picture).len() == height,
        forall|y: int|
            0 <= y < height ==> (#[trigger] rows_of(picture)[y]).len() == width && forall|x: int|
                0 <= x < width ==> rows_of(picture)[y][x] == pixel,
{
    Picture { pixels: image::RgbaImage::from_pixel(width, height, image::Rgba(pixel)) }
}

/// The four bytes that stand for the pixel in column `x` of row `y` where
/// the rows of a picture lie one behind the other, `width` pixels each.
pub open spec fn pixel_bytes(bytes: Seq<u8>, width: nat, x: int, y: int) -> Seq<u8> {
    bytes.subrange(4 * (y * width + x), 4 * (y * width + x) + 4)
}

/// Whether the picture has the given size and its pixels are those that
/// `bytes` spells row by row: red, green, blue and alpha for each pixel.
pub open spec fn spelled_by(picture: Picture, width: nat, height: nat, bytes: Seq<u8>) -> bool {
    &&& width_of(picture) == width
    &&& rows_of(picture).len() == height
    &&& forall|y: int|
        0 <= y < height ==> (#[trigger] rows_of(picture)[y]).len() == width && forall|x: int|
            0 <= x < width ==> (#[trigger] rows_of(picture)[y][x])@ == pixel_bytes(
                bytes,
                width,
                x,
                y,
            )
}

/// `ImageBuffer::from_raw`: a buffer of the given size over `bytes`, which
/// hold the pixels row by row; nothing when the bytes are too few for that
/// size, or when the bytes of one row cannot be counted in a machine word.
#[verifier::external_body]
fn picture_from_raw(width: u32, height: u32, bytes: Vec<u8>) -> (picture: Option<Picture>)
    ensures
        picture is Some <==> (4 * width <= usize::MAX && 4 * width * height <= bytes.len()),
        picture matches Some(p) ==> spelled_by(p, width as nat, height as nat, bytes@),
{
    match image::RgbaImage::from_raw(width, height, bytes) {
        Some(pixels) => Some(Picture { pixels }),
        None => None,
    }
}

/// `ImageBuffer::into_raw`: the bytes that the buffer lies over, which hold
/// its pixels row by row and may go on behind them.
#[verifier::external_body]
fn picture_into_raw(picture: Picture) -> (bytes: Vec<u8>)
    ensures
        4 * width_of(picture) * rows_of(picture).len() <= bytes.len(),
        spelled_by(picture, width_of(picture), rows_of(picture).len(), bytes@),
{
    picture.pixels.into_raw()
}

/// `ImageBuffer::width`: the width that the buffer was made with; every row
/// of the buffer has that many pixels.
#[verifier::external_body]
fn picture_width(picture: &Picture) -> (width: u32)
    ensures
        width == width_of(*picture),
        forall|y: int|
            0 <= y < rows_of(*picture).len() ==> (#[trigger] rows_of(*picture)[y]).len() == width,
{
    picture.pixels.width()
}

/// `ImageBuffer::height`: the number of rows of the buffer.
#[verifier::external_body]
fn picture_height(picture: &Picture) -> (height: u32)
    ensures
        height == rows_of(*picture).len(),
{
    picture.pixels.height()
}

/// `ImageBuffer::get_pixel`: the pixel in column `x` of row `y`. It panics
/// outside the buffer, which the `requires` leaves out.
#[verifier::external_body]
fn picture_get_pixel(picture: &Picture, x: u32, y: u32) -> (pixel: [u8; 4])
    requires
        x < width_of(*picture),
        y < rows_of(*picture).len(),
    ensures
        pixel == rows_of(*picture)[y as int][x as int],
{
    picture.pixels.get_pixel(x, y).0
}

/// `ImageBuffer::put_pixel`: sets the pixel in column `x` of row `y` and
/// leaves every other pixel and the size as they are. It panics outside the
/// buffer, which the `requires` leaves out.
#[verifier::external_body]
fn picture_put_pixel(picture: &mut Picture, x: u32, y: u32, pixel: [u8; 4])
    requires
        x < width_of(*old(picture)),
        y < rows_of(*old(picture)).len(),
    ensures
        width_of(*final(picture)) == width_of(*old(picture)),
        rows_of(*final(picture)) == rows_of(*old(picture)).update(
            y as int,
            rows_of(*old(picture))[y as int].update(x as int, pixel),
        ),
{
    picture.pixels.put_pixel(x, y, image::Rgba(pixel));
}

/// Whether a picture of the given size can be made: the bytes of one row can
/// be counted in a machine word, and all its bytes together are no more than
/// a vector can hold.
pub open spec fn can_hold(width: u32, height: u32) -> bool {
    4 * width <= usize::MAX && 4 * width * height <= isize::MAX
}

/// Whether a pixel shows: its alpha is not zero.
pub open spec fn shows(pixel: [u8; 4]) -> bool {
    pixel[3] > 0
}

/// Whether the layer covers the place `(x, y)` with a pixel that shows.
pub open spec fn covers(layer: Seq<Seq<[u8; 4]>>, x: int, y: int) -> bool {
    0 <= y < layer.len() && 0 <= x < layer[y].len() && shows(layer[y][x])
}

/// The picture `base` with `layer` laid over it, as far as the layer has
/// been worked through: the rows above `row` and, in `row`, the columns left
/// of `column`. A pixel of the layer that shows replaces the pixel under it.
pub open spec fn overlaid_upto(
    base: Seq<Seq<[u8; 4]>>,
    layer: Seq<Seq<[u8; 4]>>,
    row: int,
    column: int,
) -> Seq<Seq<[u8; 4]>> {
    Seq::new(
        base.len(),
        |y: int|
            Seq::new(
                base[y].len(),
                |x: int|
                    if (y < row || (y == row && x < column)) && covers(layer, x, y) {
                        layer[y][x]
                    } else {
                        base[y][x]
                    },
            ),
    )
}

/// The picture `base` with `layer` laid over it: where the layer has a pixel
/// that shows, that pixel; everywhere else the pixel of `base`.
pub open spec fn overlaid(base: Seq<Seq<[u8; 4]>>, layer: Seq<Seq<[u8; 4]>>) -> Seq<Seq<[u8; 4]>> {
    Seq::new(
        base.len(),
        |y: int|
            Seq::new(
                base[y].len(),
                |x: int|
                    if covers(layer, x, y) {
                        layer[y][x]
                    } else {
                        base[y][x]
                    },
            ),
    )
}

impl Picture {
    /// A picture of one colour, unless a picture of that size cannot be
    /// made.
    pub fn blank(width: u32, height: u32, pixel: [u8; 4]) -> (picture: Option<Picture>)
        ensures
            picture is Some <==> can_hold(width, height),
            picture matches Some(p) ==> {
                &&& width_of(p) == width
                &&& rows_of(p).len() == height
                &&& forall|y: int|
                    0 <= y < height ==> (#[trigger] rows_of(p)[y]).len() == width && forall|x: int|
                        0 <= x < width ==> rows_of(p)[y][x] == pixel
            },
    {
        assert(width * height <= 0xffff_ffff * 0xffff_ffff) by (nonlinear_arith)
            requires
                0 <= width <= 0xffff_ffff,
                0 <= height <= 0xffff_ffff,
        ;
        let area: u64 = (width as u64) * (height as u64);
        let bytes: u128 = 4 * (area as u128);
        assert(bytes == 4 * width * height) by (nonlinear_arith)
            requires
                bytes == 4 * area,
                area == width * height,
        ;
        let row: u128 = 4 * (width as u128);
        if row <= usize::MAX as u128 && bytes <= isize::MAX as u128 {
            Some(picture_from_pixel(width, height, pixel))
        } else {
            None
        }
    }

    /// The picture of the given size whose pixels `bytes` spells row by row,
    /// four bytes for each pixel; nothing when the bytes are too few, or
    /// when the bytes of one row cannot be counted in a machine word.
    pub fn from_bytes(width: u32, height: u32, bytes: Vec<u8>) -> (picture: Option<Picture>)
        ensures
            picture is Some <==> (4 * width <= usize::MAX && 4 * width * height <= bytes.len()),
            picture matches Some(p) ==> spelled_by(p, width as nat, height as nat, bytes@),
    {
        picture_from_raw(width, height, bytes)
    }

    /// The bytes that spell the picture row by row, four for each pixel;
    /// more bytes may follow them.
    pub fn into_bytes(self) -> (bytes: Vec<u8>)
        ensures
            4 * width_of(self) * rows_of(self).len() <= bytes.len(),
            spelled_by(self, width_of(self), rows_of(self).len(), bytes@),
    {
        picture_into_raw(self)
    }

    /// The number of pixels in each row.
    pub fn width(&self) -> (width: u32)
        ensures
            width == width_of(*self),
    {
        picture_width(self)
    }

    /// The number of rows.
    pub fn height(&self) -> (height: u32)
        ensures
            height == rows_of(*self).len(),
    {
        picture_height(self)
    }

    /// The pixel in column `x` of row `y`, if the picture has one there.
    pub fn pixel(&self, x: u32, y: u32) -> (pixel: Option<[u8; 4]>)
        ensures
            pixel == (if x < width_of(*self) && y < rows_of(*self).len() {
                Some(rows_of(*self)[y as int][x as int])
            } else {
                None
            }),
    {
        if x < picture_width(self) && y < picture_height(self) {
            Some(picture_get_pixel(self, x, y))
        } else {
            None
        }
    }

    /// Lays `layer` over this picture, the top left corners together: every
    /// pixel of the layer that shows replaces the pixel under it, and what
    /// of the layer lies outside this picture is left out.
    pub fn overlay(&mut self, layer: &Picture)
        ensures
            width_of(*final(self)) == width_of(*old(self)),
            rows_of(*final(self)) == overlaid(rows_of(*old(self)), rows_of(*layer)),
    {
        let ghost base = rows_of(*self);
        let ghost top = rows_of(*layer);
        let width = picture_width(self);
        let height = picture_height(self);
        let layer_width = picture_width(layer);
        let layer_height = picture_height(layer);
        let mut y: u32 = 0;
        assert(base =~= overlaid_upto(base, top, 0, 0)) by {
            assert forall|r: int| 0 <= r < base.len() implies base[r] =~= overlaid_upto(
                base,
                top,
                0,
                0,
            )[r] by {}
        }
        while y < layer_height && y < height
            invariant
                base == rows_of(*old(self)),
                top == rows_of(*layer),
                width == width_of(*self),
                height == base.len(),
                layer_width == width_of(*layer),
                layer_height == top.len(),
                forall|r: int| 0 <= r < base.len() ==> (#[trigger] base[r]).len() == width,
                forall|r: int| 0 <= r < top.len() ==> (#[trigger] top[r]).len() == layer_width,
                rows_of(*self) == overlaid_upto(base, top, y as int, 0),
            decreases height - y,
        {
            let mut x: u32 = 0;
            while x < layer_width && x < width
                invariant
                    y < layer_height,
                    y < height,
                    base == rows_of(*old(self)),
                    top == rows_of(*layer),
                    width == width_of(*self),
                    height == base.len(),
                    layer_width == width_of(*layer),
                    layer_height == top.len(),
                    forall|r: int| 0 <= r < base.len() ==> (#[trigger] base[r]).len() == width,
                    forall|r: int| 0 <= r < top.len() ==> (#[trigger] top[r]).len() == layer_width,
                    rows_of(*self) == overlaid_upto(base, top, y as int, x as int),
                decreases width - x,
            {
                let pixel = picture_get_pixel(layer, x, y);
                let ghost before = rows_of(*self);
                if pixel[3] > 0 {
                    picture_put_pixel(self, x, y, pixel);
                }
                proof {
                    let after = rows_of(*self);
                    let goal = overlaid_upto(base, top, y as int, x + 1);
                    assert(after.len() == goal.len());
                    assert forall|r: int| 0 <= r < after.len() implies after[r] =~= goal[r] by {
                        assert(before[r].len() == base[r].len());
                    }
                    assert(after =~= goal);
                }
                x += 1;
            }
            proof {
                let now = rows_of(*self);
                let goal = overlaid_upto(base, top, y + 1, 0);
                assert forall|r: int| 0 <= r < now.len() implies now[r] =~= goal[r] by {}
                assert(now =~= goal);
            }
            y += 1;
        }
        proof {
            let now = rows_of(*self);
            let goal = overlaid(base, top);
            assert forall|r: int| 0 <= r < now.len() implies now[r] =~= goal[r] by {}
            assert(now =~= goal);
        }
    }
}

/// The rows of a picture of one colour.
pub open spec fn plain(width: nat, height: nat, pixel: [u8; 4]) -> Seq<Seq<[u8; 4]>> {
    Seq::new(height, |y: int| Seq::new(width, |x: int| pixel))
}

/// The picture `base` with the layers laid over it one after the other, the
/// first layer lowest.
pub open spec fn stacked(base: Seq<Seq<[u8; 4]>>, layers: Seq<Seq<Seq<[u8; 4]>>>) -> Seq<Seq<[u8; 4]>>
    decreases layers.len(),
{
    if layers.len() == 0 {
        base
    } else {
        overlaid(stacked(base, layers.drop_last()), layers.last())
    }
}

/// The rows of each of a list of pictures.
pub open spec fn all_rows(pictures: Seq<Picture>) -> Seq<Seq<Seq<[u8; 4]>>> {
    pictures.map_values(|p: Picture| rows_of(p))
}

/// A picture of the given size and colour with the layers laid over it, the
/// first layer lowest; nothing when a picture of that size cannot be made.
pub fn compose(width: u32, height: u32, background: [u8; 4], layers: &Vec<Picture>) -> (picture:
    Option<Picture>)
    ensures
        picture is Some <==> can_hold(width, height),
        picture matches Some(p) ==> width_of(p) == width && rows_of(p) == stacked(
            plain(width as nat, height as nat, background),
            all_rows(layers@),
        ),
{
    match Picture::blank(width, height, background) {
        Some(blank) => {
            let mut picture = blank;
            let ghost base = plain(width as nat, height as nat, background);
            let ghost tops = all_rows(layers@);
            proof {
                let rows = rows_of(picture);
                assert forall|y: int| 0 <= y < rows.len() implies rows[y] =~= base[y] by {}
                assert(rows =~= base);
                assert(tops.take(0) =~= Seq::<Seq<Seq<[u8; 4]>>>::empty());
            }
            let mut k: usize = 0;
            while k < layers.len()
                invariant
                    k <= layers.len(),
                    tops == all_rows(layers@),
                    width_of(picture) == width,
                    rows_of(picture) == stacked(base, tops.take(k as int)),
                decreases layers.len() - k,
            {
                proof {
                    assert(tops.take(k + 1).drop_last() =~= tops.take(k as int));
                    assert(tops.take(k + 1).last() == rows_of(layers@[k as int]));
                }
                picture.overlay(&layers[k]);
                k += 1;
            }
            assert(tops.take(k as int) =~= tops);
            Some(picture)
        },
        None => None,
    }
}

} // verus!
