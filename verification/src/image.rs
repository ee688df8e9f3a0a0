//! Rasters and the overlay renderer. The raster type, its PNG decoding and
//! its drawing primitives come from the `ril` crate. Of a raster the
//! library tracks its dimensions, which drawing never changes, and what
//! was stamped onto it: each drawing result is named as a function of the
//! raster and the drawing's arguments, so that the overlay's contract
//! pins down exactly which banner and label every saved card carries.

use vstd::prelude::*;
use crate::error::ErrV;
use crate::error::PipelineError;
use crate::sanitize::sanitize_with_prefix;
use crate::sanitize::sanitized_with_prefix;

verus! {

#[verifier::external_type_specification]
#[verifier::external_body]
pub struct ExFont(ril::Font);

/// An RGB raster. It holds `ril`'s image type, which Verus cannot see
/// into; the library tracks only its dimensions, through `image_dims`.
#[verifier::external_body]
pub struct Raster {
    pub inner: ril::Image<ril::Rgb>,
}

/// The width and height of a raster, as `ril` keeps them.
pub uninterp spec fn image_dims(img: Raster) -> (nat, nat);

/// What PNG decoding makes of a byte string — a function of the bytes
/// alone: the raster they decode to, or nothing when they are no PNG.
pub uninterp spec fn png_decoded(bytes: Seq<u8>) -> Option<Raster>;

/// What drawing a filled rectangle makes of a raster — a function of the
/// raster and the rectangle's position, size and color alone.
pub uninterp spec fn rect_stamp(
    img: Raster,
    x: u32,
    y: u32,
    w: u32,
    h: u32,
    red: u8,
    green: u8,
    blue: u8,
) -> Raster;

/// What drawing a centered text label makes of a raster — a function of
/// the raster, the font, the text, and the label's position and color
/// alone: `ril`'s rendering is deterministic.
pub uninterp spec fn label_stamp(
    img: Raster,
    font: ril::Font,
    label: Seq<char>,
    x: u32,
    y: u32,
    red: u8,
    green: u8,
    blue: u8,
) -> Raster;

/// Relies on `ril::Image::from_bytes` with the PNG format: decoding
/// depends on the bytes alone; `png_decoded` names its outcome.
#[verifier::external_body]
fn decode_png(bytes: &[u8]) -> (r: Option<Raster>)
    ensures
        r == png_decoded(bytes@),
{
    match ril::Image::from_bytes(ril::ImageFormat::Png, bytes) {
        Ok(inner) => Some(Raster { inner }),
        Err(_) => None,
    }
}

/// Relies on `ril::Image::width`: the image's width in pixels.
#[verifier::external_body]
fn image_width(img: &Raster) -> (w: u32)
    ensures
        w as nat == image_dims(*img).0,
{
    img.inner.width()
}

/// Relies on `ril::Image::height`: the image's height in pixels.
#[verifier::external_body]
fn image_height(img: &Raster) -> (h: u32)
    ensures
        h as nat == image_dims(*img).1,
{
    img.inner.height()
}

/// Relies on `ril::Image::draw` with a filled `Rectangle`: the result is
/// a function of the raster and the rectangle alone (`rect_stamp` names
/// it); drawing writes pixels and leaves the image's dimensions unchanged.
/// `ril` refuses a rectangle with no extent in either direction, hence the
/// requirement.
#[verifier::external_body]
fn draw_filled_rect(
    img: &mut Raster,
    x: u32,
    y: u32,
    w: u32,
    h: u32,
    red: u8,
    green: u8,
    blue: u8,
)
    requires
        x + w <= u32::MAX,
        y + h <= u32::MAX,
        w > 0 || h > 0,
    ensures
        *final(img) == rect_stamp(*old(img), x, y, w, h, red, green, blue),
        image_dims(*final(img)) == image_dims(*old(img)),
{
    let rect = ril::Rectangle::at(x, y).with_size(w, h).with_fill(
        ril::Rgb::new(red, green, blue),
    );
    img.inner.draw(&rect);
}

/// Relies on `ril::Image::draw` with a `TextLayout`: the result is a
/// function of the raster, font, text, position and color alone
/// (`label_stamp` names it); drawing writes pixels and leaves the image's
/// dimensions unchanged.
#[verifier::external_body]
fn draw_centered_label(
    img: &mut Raster,
    font: &ril::Font,
    label: &str,
    x: u32,
    y: u32,
    red: u8,
    green: u8,
    blue: u8,
)
    ensures
        *final(img) == label_stamp(*old(img), *font, label@, x, y, red, green, blue),
        image_dims(*final(img)) == image_dims(*old(img)),
{
    let layout = ril::TextLayout::new().with_position(x, y).with_basic_text(
        font,
        label,
        ril::Rgb::new(red, green, blue),
    ).with_horizontal_anchor(ril::HorizontalAnchor::Center).with_align(ril::TextAlign::Center);
    img.inner.draw(&layout);
}

/// The banner bar's top edge, in pixels from the image's top.
pub const BANNER_TOP: u32 = 250;

/// The banner bar's height in pixels.
pub const BANNER_HEIGHT: u32 = 200;

/// How far below the banner's top edge the label sits.
pub const LABEL_OFFSET: u32 = 36;

/// One loaded card copy: its ordinal prefix, its (face) name, and the
/// raster it owns from decoding until the file is written.
pub struct LoadedCard {
    pub prefix: String,
    pub name: String,
    pub image: Raster,
}

/// Decodes fetched artwork bytes into a loaded card. The bytes decode as
/// a PNG if and only if the card is handed back, and its raster is
/// exactly what they decode to; otherwise the decode error names the
/// card.
pub fn decode_artwork(prefix: String, name: String, bytes: &[u8]) -> (r: Result<
    LoadedCard,
    PipelineError,
>)
    ensures
        match r {
            Ok(c) => {
                &&& png_decoded(bytes@) is Some
                &&& c.prefix == prefix
                &&& c.name == name
                &&& Some(c.image) == png_decoded(bytes@)
            },
            Err(e) => png_decoded(bytes@) is None && e@ == (ErrV::Decode { name: name@ }),
        },
{
    match decode_png(bytes) {
        Some(image) => Ok(LoadedCard { prefix, name, image }),
        None => Err(PipelineError::Decode { name }),
    }
}

impl LoadedCard {
    /// The file name this card is written under: its ordinal prefix, an
    /// underscore, its sanitized name, and `.png`.
    pub fn sanitized_name(&self) -> (r: String)
        ensures
            r@ == sanitized_with_prefix(self.prefix@, self.name@),
    {
        sanitize_with_prefix(self.prefix.as_str(), self.name.as_str())
    }

    /// Stamps the playtest banner onto the raster: an opaque black bar of
    /// fixed height across the full width at a fixed offset, then the red
    /// "PLAYTEST" label centered about the middle of the width, a fixed
    /// way below the bar's top edge. The contract pins the result down as
    /// exactly those two stamps, in that order and with those arguments;
    /// a pure raster mutation, so the card's identity and the image's
    /// dimensions stay as they were.
    pub fn add_text(&mut self, font: &ril::Font)
        ensures
            final(self).prefix == old(self).prefix,
            final(self).name == old(self).name,
            image_dims(final(self).image) == image_dims(old(self).image),
            final(self).image == label_stamp(
                rect_stamp(
                    old(self).image,
                    0,
                    BANNER_TOP,
                    image_dims(old(self).image).0 as u32,
                    BANNER_HEIGHT,
                    0,
                    0,
                    0,
                ),
                *font,
                "PLAYTEST"@,
                (image_dims(old(self).image).0 as u32 / 2) as u32,
                (BANNER_TOP + LABEL_OFFSET) as u32,
                255,
                0,
                0,
            ),
    {
        let w = image_width(&self.image);
        proof {
            assert(image_dims(self.image).0 as u32 == w);
        }
        draw_filled_rect(&mut self.image, 0, BANNER_TOP, w, BANNER_HEIGHT, 0, 0, 0);
        draw_centered_label(
            &mut self.image,
            font,
            "PLAYTEST",
            w / 2,
            BANNER_TOP + LABEL_OFFSET,
            255,
            0,
            0,
        );
    }

    /// The raster's width and height in pixels.
    pub fn dimensions(&self) -> (d: (u32, u32))
        ensures
            (d.0 as nat, d.1 as nat) == image_dims(self.image),
    {
        (image_width(&self.image), image_height(&self.image))
    }
}

} // verus!
