//! The icon of the window.

use vstd::prelude::*;

verus! {

/// `image::ImageError`, which says why an image cannot be decoded.
#[verifier::external_type_specification]
#[verifier::external_body]
pub struct ExImageError(image::ImageError);

/// An image of pixels, four bytes each: red, green, blue and opacity, row by row.
#[derive(Debug)]
pub struct Pixels {
    pub width: u32,
    pub height: u32,
    pub rgba: Vec<u8>,
}

/// What there is to an image.
pub struct PixelModel {
    pub width: u32,
    pub height: u32,
    pub rgba: Seq<u8>,
}

impl View for Pixels {
    type V = PixelModel;

    open spec fn view(&self) -> PixelModel {
        PixelModel { width: self.width, height: self.height, rgba: self.rgba@ }
    }
}

/// What `image::load_from_memory` decodes from the bytes of an image file, turned into pixels of
/// eight bits for each of red, green, blue and opacity.
pub uninterp spec fn decoded(bytes: Seq<u8>) -> Option<PixelModel>;

/// `image::load_from_memory`, with `DynamicImage::into_rgba8` for the form of the pixels: the
/// format is guessed from the bytes alone, and so is what they decode to, as long as no decoder of
/// the program's own has been registered with the crate, which this program does not do. That the
/// named result is `None` exactly where decoding fails is all that is claimed of a failure.
#[verifier::external_body]
fn decode(bytes: &[u8]) -> (r: Result<Pixels, image::ImageError>)
    ensures
        match r {
            Ok(pixels) => decoded(bytes@) == Some(pixels@),
            Err(_) => decoded(bytes@) is None,
        },
{
    let image = image::load_from_memory(bytes)?.into_rgba8();
    let (width, height) = image.dimensions();
    Ok(Pixels { width, height, rgba: image.into_raw() })
}

/// Why there is no icon.
#[derive(Clone, Copy, Debug, PartialEq, Eq, Structural)]
pub enum IconError {
    /// The bytes are no image.
    Undecodable,
    /// The bytes of the pixels do not come in fours.
    PartOfPixel,
    /// There are not as many pixels as the sides ask for.
    WrongPixelCount,
}

/// The icon that an image makes, if its pixels fill its sides.
pub open spec fn icon_of(p: PixelModel) -> Result<PixelModel, IconError> {
    if p.rgba.len() % 4 != 0 {
        Err(IconError::PartOfPixel)
    } else if p.rgba.len() / 4 != p.width * p.height {
        Err(IconError::WrongPixelCount)
    } else {
        Ok(p)
    }
}

/// The icon that an image makes, if its pixels fill its sides.
pub fn checked_icon(pixels: Pixels) -> (r: Result<Pixels, IconError>)
    ensures
        match r {
            Ok(icon) => icon_of(pixels@) == Ok::<PixelModel, IconError>(icon@),
            Err(e) => icon_of(pixels@) == Err::<PixelModel, IconError>(e),
        },
{
    let count: usize = pixels.rgba.len();
    if count % 4 != 0 {
        return Err(IconError::PartOfPixel);
    }
    assert(pixels.width * pixels.height <= 0xFFFF_FFFF * 0xFFFF_FFFF) by (nonlinear_arith)
        requires
            pixels.width <= 0xFFFF_FFFF,
            pixels.height <= 0xFFFF_FFFF,
    ;
    let area: u64 = pixels.width as u64 * pixels.height as u64;
    if (count / 4) as u64 != area {
        return Err(IconError::WrongPixelCount);
    }
    Ok(pixels)
}

/// The icon that the bytes of an image file make.
pub fn load_icon_iced(bytes: &[u8]) -> (r: Result<Pixels, IconError>)
    ensures
        match decoded(bytes@) {
            Some(p) => match r {
                Ok(icon) => icon_of(p) == Ok::<PixelModel, IconError>(icon@),
                Err(e) => icon_of(p) == Err::<PixelModel, IconError>(e),
            },
            None => r is Err && r->Err_0 == IconError::Undecodable,
        },
{
    match decode(bytes) {
        Ok(pixels) => checked_icon(pixels),
        Err(_) => Err(IconError::Undecodable),
    }
}

/// An image makes an icon, and just the icon that it is, if it has four bytes for each pixel of its
/// sides, and none otherwise.
pub proof fn icons_fill_their_sides(p: PixelModel)
    ensures
        icon_of(p) is Ok <==> p.rgba.len() == 4 * (p.width * p.height),
        icon_of(p) matches Ok(icon) ==> icon == p,
        p.rgba.len() % 4 != 0 ==> icon_of(p) == Err::<PixelModel, IconError>(
            IconError::PartOfPixel,
        ),
{
}

} // verus!
