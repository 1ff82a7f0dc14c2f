//! Pictures out of a video stream, and JPEG files out of pictures. The
//! `openh264` crate decodes and the `image` crate encodes; what is believed of
//! them stands at the functions that call them.

use vstd::prelude::*;
use image::codecs::jpeg::JpegEncoder;
use image::ExtendedColorType;
use openh264::decoder::Decoder;
use openh264::formats::YUVSource;

verus! {

/// A decoder of the `openh264` crate.
#[verifier::external_type_specification]
#[verifier::external_body]
pub struct ExDecoder(Decoder);

/// What the `openh264` crate says of a stream that it cannot decode.
#[verifier::external_type_specification]
#[verifier::external_body]
pub struct ExOpenH264Error(openh264::Error);

/// The units that were handed to a decoder since it was made, in order.
pub uninterp spec fn units_taken(decoder: Decoder) -> Seq<Seq<u8>>;

/// `openh264::decoder::Decoder::new`: a decoder that was handed nothing yet.
/// Whether one can be made is up to the codec underneath.
#[verifier::external_body]
fn new_decoder() -> (r: Result<Decoder, openh264::Error>)
    ensures
        r matches Ok(d) ==> units_taken(d).len() == 0,
{
    Decoder::new()
}

/// `openh264::decoder::Decoder::decode`, with the picture that comes out of it
/// written by `DecodedYUV::write_rgb8` into a buffer of the size that
/// `YUVSource::estimate_rgb_u8_size` gives: three bytes for each pixel of the
/// picture's `dimensions`. The decoder takes the unit, whatever comes of it.
/// Which picture comes out is not stated: it rests on the units before, and its
/// colours on how the machine rounds.
#[verifier::external_body]
fn decode_unit(decoder: &mut Decoder, nal: &[u8]) -> (r: Result<Option<Picture>, openh264::Error>)
    ensures
        units_taken(*final(decoder)) == units_taken(*old(decoder)).push(nal@),
        r matches Ok(Some(p)) ==> p.wf(),
{
    match decoder.decode(nal)? {
        Some(image) => {
            let mut rgb: Vec<u8> = vec![0; image.estimate_rgb_u8_size()];
            image.write_rgb8(&mut rgb);
            let (width, height) = image.dimensions();
            Ok(Some(Picture { rgb, width: width as u32, height: height as u32 }))
        },
        None => Ok(None),
    }
}

/// The file that `image::codecs::jpeg::JpegEncoder` makes of a picture at a
/// quality, if it makes one.
pub uninterp spec fn jpeg_of(rgb: Seq<u8>, width: u32, height: u32, quality: u8) -> Option<
    Seq<u8>,
>;

/// The sizes that a JPEG file can express.
pub open spec fn jpeg_fits(width: u32, height: u32) -> bool {
    1 <= width <= 0xFFFF && 1 <= height <= 0xFFFF
}

/// `image::codecs::jpeg::JpegEncoder::encode`, into memory. It fails exactly on
/// a picture without pixels or with a side of more than sixteen bits.
#[verifier::external_body]
fn jpeg_bytes(rgb: &[u8], width: u32, height: u32, quality: u8) -> (r: Option<Vec<u8>>)
    requires
        rgb@.len() == width * height * 3,
    ensures
        r matches Some(v) ==> jpeg_of(rgb@, width, height, quality) == Some(v@),
        r is None ==> jpeg_of(rgb@, width, height, quality) is None,
        r is Some <==> jpeg_fits(width, height),
{
    let mut out: Vec<u8> = Vec::new();
    let mut encoder = JpegEncoder::new_with_quality(&mut out, quality);
    encoder.encode(rgb, width, height, ExtendedColorType::Rgb8).ok()?;
    Some(out)
}

/// A picture, row by row, in red, green and blue.
#[derive(Debug, Clone, PartialEq, Eq)]
pub struct Picture {
    pub rgb: Vec<u8>,
    pub width: u32,
    pub height: u32,
}

impl Picture {
    /// Each pixel has its three bytes.
    pub open spec fn wf(self) -> bool {
        self.rgb@.len() == self.width * self.height * 3
    }

    pub open spec fn as_jpeg(self, quality: u8) -> Option<Seq<u8>> {
        jpeg_of(self.rgb@, self.width, self.height, quality)
    }

    /// The picture as a JPEG file; `None` exactly if a JPEG file cannot express
    /// its size.
    pub fn encode_jpeg(&self, quality: u8) -> (r: Option<Vec<u8>>)
        requires
            self.wf(),
        ensures
            r is Some <==> jpeg_fits(self.width, self.height),
            match r {
                Some(v) => self.as_jpeg(quality) == Some(v@),
                None => self.as_jpeg(quality) is None,
            },
    {
        jpeg_bytes(self.rgb.as_slice(), self.width, self.height, quality)
    }
}

/// Something that the codec refused.
#[derive(Debug, Clone, Copy, PartialEq, Eq, Structural)]
pub struct CodecFailure;

/// Turns the units of a stream into pictures. Units refer to the ones before,
/// so that all of them have to pass through, in order.
pub struct UnitDecoder {
    decoder: Decoder,
}

impl UnitDecoder {
    /// The units that it was handed, in order.
    pub closed spec fn taken(&self) -> Seq<Seq<u8>> {
        units_taken(self.decoder)
    }

    pub fn new() -> (r: Result<Self, CodecFailure>)
        ensures
            r matches Ok(d) ==> d.taken() == Seq::<Seq<u8>>::empty(),
    {
        match new_decoder() {
            Ok(decoder) => Ok(UnitDecoder { decoder }),
            Err(_) => Err(CodecFailure),
        }
    }

    /// Decodes the next unit: the picture that it completes, or nothing yet.
    pub fn decode(&mut self, nal: &[u8]) -> (r: Result<Option<Picture>, CodecFailure>)
        ensures
            final(self).taken() == old(self).taken().push(nal@),
            r matches Ok(Some(p)) ==> p.wf(),
    {
        match decode_unit(&mut self.decoder, nal) {
            Ok(picture) => Ok(picture),
            Err(_) => Err(CodecFailure),
        }
    }
}

} // verus!
