//! Pixel grid to plot expressions: one unit-square rectangle per pixel.
use vstd::prelude::*;
use vstd::string::StringExecFns;
use crate::text::{chars_of, decimal, signed_decimal, push_decimal, push_signed_decimal};

verus! {

/// A decoded image: `width` x `height` pixels, four bytes (red, green, blue,
/// alpha) each, rows from top to bottom, each row from left to right.
pub struct Raster {
    pub width: u32,
    pub height: u32,
    pub rgba: Vec<u8>,
}

impl Raster {
    pub open spec fn wf(&self) -> bool {
        self.rgba@.len() == 4 * (self.width as int) * (self.height as int)
    }

    /// Number of pixels.
    pub open spec fn size(&self) -> int {
        (self.width as int) * (self.height as int)
    }

    /// Red, green and blue channels of the pixel at scan position `i`.
    pub open spec fn red(&self, i: int) -> u8 {
        self.rgba@[4 * i]
    }

    pub open spec fn green(&self, i: int) -> u8 {
        self.rgba@[4 * i + 1]
    }

    pub open spec fn blue(&self, i: int) -> u8 {
        self.rgba@[4 * i + 2]
    }
}

/// One rectangle plot covering a unit cell; `id` is its position in scan order.
#[derive(Debug)]
pub struct Expression {
    pub kind: String,
    pub id: usize,
    pub color: String,
    pub latex: String,
    pub fill_opacity: String,
    pub line_opacity: String,
    pub line_width: String,
}

/// Kind, id, color, shape, fill opacity, line opacity, line width.
pub type ExpressionModel = (Seq<char>, usize, Seq<char>, Seq<char>, Seq<char>, Seq<char>, Seq<char>);

impl View for Expression {
    type V = ExpressionModel;

    open spec fn view(&self) -> ExpressionModel {
        (self.kind@, self.id, self.color@, self.latex@, self.fill_opacity@, self.line_opacity@, self.line_width@)
    }
}

/// The color text `rgb(r, g, b)` with decimal channel values.
pub open spec fn rgb_text(r: u8, g: u8, b: u8) -> Seq<char> {
    "rgb("@ + decimal(r as nat) + ", "@ + decimal(g as nat) + ", "@ + decimal(b as nat) + ")"@
}

/// The unit cell of pixel column `x` and row `y`: `x <= X <= x+1` and
/// `-(y+1) <= Y <= -y`, so that row 0, the top row of the image, is plotted on top.
pub open spec fn cell_text(x: nat, y: nat) -> Seq<char> {
    decimal(x) + "\\le x\\le"@ + decimal(x + 1) + "\\left\\{"@ + signed_decimal(-(y + 1))
        + "\\le y\\le"@ + signed_decimal(-(y as int)) + "\\right\\}"@
}

/// `e` is the expression for the pixel at scan position `i` of `image`.
pub open spec fn expression_for(e: Expression, image: &Raster, i: int) -> bool {
    &&& e.kind@ == "expression"@
    &&& e.id == i
    &&& e.color@ == rgb_text(image.red(i), image.green(i), image.blue(i))
    &&& e.latex@ == cell_text((i % image.width as int) as nat, (i / image.width as int) as nat)
    &&& e.fill_opacity@ == Seq::<char>::empty()
    &&& e.line_opacity@ == Seq::<char>::empty()
    &&& e.line_width@ == Seq::<char>::empty()
}

/// Builds the expression for pixel (`x`, `y`) with channels `r`, `g`, `b`.
pub fn pixel_expression(id: usize, x: u32, y: u32, r: u8, g: u8, b: u8) -> (e: Expression)
    ensures
        e.kind@ == "expression"@,
        e.id == id,
        e.color@ == rgb_text(r, g, b),
        e.latex@ == cell_text(x as nat, y as nat),
        e.fill_opacity@ == Seq::<char>::empty(),
        e.line_opacity@ == Seq::<char>::empty(),
        e.line_width@ == Seq::<char>::empty(),
{
    let mut color = String::new();
    color.append("rgb(");
    push_decimal(&mut color, r as u64);
    color.append(", ");
    push_decimal(&mut color, g as u64);
    color.append(", ");
    push_decimal(&mut color, b as u64);
    color.append(")");
    let mut latex = String::new();
    push_decimal(&mut latex, x as u64);
    latex.append("\\le x\\le");
    push_decimal(&mut latex, x as u64 + 1);
    latex.append("\\left\\{");
    push_signed_decimal(&mut latex, -(y as i64 + 1));
    latex.append("\\le y\\le");
    push_signed_decimal(&mut latex, -(y as i64));
    latex.append("\\right\\}");
    assert(color@ =~= rgb_text(r, g, b));
    assert(latex@ =~= cell_text(x as nat, y as nat));
    Expression {
        kind: String::from_str("expression"),
        id,
        color,
        latex,
        fill_opacity: String::new(),
        line_opacity: String::new(),
        line_width: String::new(),
    }
}

/// One expression per pixel, in row-major scan order from the top row.
pub fn parse_image(image: &Raster) -> (r: Vec<Expression>)
    requires
        image.wf(),
    ensures
        r@.len() == image.size(),
        forall|i: int| 0 <= i < r@.len() ==> expression_for(#[trigger] r@[i], image, i),
{
    let w = image.width;
    let h = image.height;
    let mut out: Vec<Expression> = Vec::new();
    let mut y: u32 = 0;
    while y < h
        invariant
            image.wf(),
            w == image.width,
            h == image.height,
            y <= h,
            out@.len() == (y as int) * (w as int),
            forall|i: int| 0 <= i < out@.len() ==> expression_for(#[trigger] out@[i], image, i),
        decreases h - y,
    {
        let mut x: u32 = 0;
        while x < w
            invariant
                image.wf(),
                w == image.width,
                h == image.height,
                y < h,
                x <= w,
                out@.len() == (y as int) * (w as int) + x,
                forall|i: int| 0 <= i < out@.len() ==> expression_for(#[trigger] out@[i], image, i),
            decreases w - x,
        {
            let ghost i: int = (y as int) * (w as int) + x;
            proof {
                assert(i < (h as int) * (w as int)) by (nonlinear_arith)
                    requires i == (y as int) * (w as int) + x, x < w, y < h;
                assert((h as int) * (w as int) == (w as int) * (h as int)) by (nonlinear_arith);
                assert(4 * i + 3 <= 4 * (w as int) * (h as int)) by (nonlinear_arith)
                    requires i < (w as int) * (h as int);
                assert(i % (w as int) == x as int && i / (w as int) == y as int) by {
                    vstd::arithmetic::div_mod::lemma_fundamental_div_mod_converse(
                        i, w as int, y as int, x as int);
                }
            }
            let n = out.len();
            let _len = image.rgba.len();
            let r = image.rgba[4 * n];
            let g = image.rgba[4 * n + 1];
            let b = image.rgba[4 * n + 2];
            let e = pixel_expression(n, x, y, r, g, b);
            out.push(e);
            x = x + 1;
        }
        proof {
            assert((y as int + 1) * (w as int) == (y as int) * (w as int) + w) by (nonlinear_arith);
        }
        y = y + 1;
    }
    proof {
        assert((h as int) * (w as int) == (w as int) * (h as int)) by (nonlinear_arith);
    }
    out
}

/// Largest accepted input file, in bytes.
pub const MAX_FILE_SIZE: u64 = 5000000;

/// Why an input file is not converted.
#[derive(Debug, PartialEq, Eq, Structural, Clone, Copy)]
pub enum ConvertError {
    /// The file name does not end in the extension `png`.
    NotPng,
    /// The file is larger than `MAX_FILE_SIZE` bytes.
    TooLarge,
    /// The bytes are not a PNG image the decoder can read.
    Decode,
}

/// What decoding `bytes` as a PNG image gives: width, height and RGBA bytes,
/// or `None` where the decoder reports an error.
pub uninterp spec fn png_decode_of(bytes: Seq<u8>) -> Option<(u32, u32, Seq<u8>)>;

/// Relies on `image::load_from_memory_with_format` with the PNG format, then
/// `DynamicImage::to_rgba8` and `ImageBuffer::into_raw`: the result depends on
/// the bytes alone.
#[verifier::external_body]
fn decode_png_rgba(bytes: &[u8]) -> (r: Option<(u32, u32, Vec<u8>)>)
    ensures
        r is Some <==> png_decode_of(bytes@) is Some,
        r matches Some(t) ==> png_decode_of(bytes@) == Some((t.0, t.1, t.2@)),
{
    match image::load_from_memory_with_format(bytes, image::ImageFormat::Png) {
        Ok(img) => {
            let rgba = img.to_rgba8();
            Some((rgba.width(), rgba.height(), rgba.into_raw()))
        },
        Err(_) => None,
    }
}

/// The decoded raster of `bytes`, where the decoder succeeds with a pixel
/// buffer of the size its dimensions give.
pub open spec fn decoded_raster(bytes: Seq<u8>) -> Option<(u32, u32, Seq<u8>)> {
    match png_decode_of(bytes) {
        Some(t) => if t.2.len() == 4 * (t.0 as int) * (t.1 as int) {
            Some(t)
        } else {
            None
        },
        None => None,
    }
}

/// Decodes PNG bytes into a raster.
pub fn decode_png(bytes: &[u8]) -> (r: Result<Raster, ConvertError>)
    ensures
        r is Err <==> decoded_raster(bytes@) is None,
        r is Err ==> r == Err::<Raster, ConvertError>(ConvertError::Decode),
        r matches Ok(img) ==> img.wf() && decoded_raster(bytes@) == Some(
            (img.width, img.height, img.rgba@),
        ),
{
    match decode_png_rgba(bytes) {
        Some((w, h, v)) => {
            proof {
                assert((w as int) * (h as int) <= 0xffff_ffff * 0xffff_ffff) by (nonlinear_arith)
                    requires w <= 0xffff_ffffu32, h <= 0xffff_ffffu32;
                assert(4 * ((w as int) * (h as int)) == 4 * (w as int) * (h as int)) by (nonlinear_arith);
            }
            let need: u128 = 4 * ((w as u128) * (h as u128));
            if v.len() as u128 == need {
                Ok(Raster { width: w, height: h, rgba: v })
            } else {
                Err(ConvertError::Decode)
            }
        },
        None => Err(ConvertError::Decode),
    }
}

/// `a` and `b` hold the same characters.
pub fn same_text(a: &str, b: &str) -> (r: bool)
    ensures
        r == (a@ == b@),
{
    let x = chars_of(a);
    let y = chars_of(b);
    if x.len() != y.len() {
        return false;
    }
    let mut i: usize = 0;
    while i < x.len()
        invariant
            x@ == a@,
            y@ == b@,
            x@.len() == y@.len(),
            i <= x@.len(),
            forall|j: int| 0 <= j < i ==> x@[j] == y@[j],
        decreases x@.len() - i,
    {
        if x[i] != y[i] {
            return false;
        }
        i = i + 1;
    }
    assert(x@ =~= y@);
    true
}

/// The input checks made before any decoding: the extension must be exactly
/// `png` and the size at most `MAX_FILE_SIZE`.
pub open spec fn input_check(extension: Seq<char>, size: u64) -> Result<(), ConvertError> {
    if extension != "png"@ {
        Err(ConvertError::NotPng)
    } else if size > MAX_FILE_SIZE {
        Err(ConvertError::TooLarge)
    } else {
        Ok(())
    }
}

/// Checks a file's extension and size.
pub fn check_input(extension: &str, size: u64) -> (r: Result<(), ConvertError>)
    ensures
        r == input_check(extension@, size),
{
    if !same_text(extension, "png") {
        Err(ConvertError::NotPng)
    } else if size > MAX_FILE_SIZE {
        Err(ConvertError::TooLarge)
    } else {
        Ok(())
    }
}

/// Checks the file's extension and size, then decodes its bytes and converts
/// every pixel. A file that fails the checks is refused whatever its bytes.
pub fn convert_png(extension: &str, size: u64, bytes: &[u8]) -> (r: Result<
    Vec<Expression>,
    ConvertError,
>)
    ensures
        input_check(extension@, size) matches Err(e) ==> r == Err::<Vec<Expression>, ConvertError>(e),
        input_check(extension@, size) is Ok ==> (r is Ok <==> decoded_raster(bytes@) is Some),
        input_check(extension@, size) is Ok && decoded_raster(bytes@) is None ==> r == Err::<
            Vec<Expression>,
            ConvertError,
        >(ConvertError::Decode),
        r matches Ok(v) ==> exists|img: Raster|
            img.wf() && decoded_raster(bytes@) == Some((img.width, img.height, img.rgba@))
                && v@.len() == img.size() && forall|i: int|
                0 <= i < v@.len() ==> expression_for(#[trigger] v@[i], &img, i),
{
    match check_input(extension, size) {
        Err(e) => Err(e),
        Ok(()) => {
            let img = decode_png(bytes)?;
            let v = parse_image(&img);
            Ok(v)
        },
    }
}

} // verus!
