//! Frames of a video, as the decoder hands them over.
use vstd::prelude::*;

verus! {

/// A picture, four bytes of red, green, blue and alpha to the pixel, row by row.
pub struct Frame {
    pub width: u32,
    pub height: u32,
    pub rgba: Vec<u8>,
}

/// Why there is no frame.
#[derive(Clone, Copy, PartialEq, Eq, Structural, Debug)]
pub enum FrameError {
    /// The decoder failed, or had nothing to say.
    NoFrame,
    /// What it said is no picture.
    Undecodable,
}

/// The size and the pixels of an encoded picture, `None` where it is none.
pub uninterp spec fn decoded_picture(bytes: Seq<u8>) -> Option<(u32, u32, Seq<u8>)>;

/// A frame, as contracts speak of it.
pub open spec fn frame_view(frame: Option<Frame>) -> Option<(u32, u32, Seq<u8>)> {
    match frame {
        Some(f) => Some((f.width, f.height, f.rgba@)),
        None => None,
    }
}

/// `image::load_from_memory` and `to_rgba8`: the picture that bytes encode. What it shows is
/// left to the name [`decoded_picture`]; it has four bytes to the pixel.
#[verifier::external_body]
fn decode_picture(bytes: &[u8]) -> (r: Option<Frame>)
    ensures
        frame_view(r) == decoded_picture(bytes@),
        r is Some ==> r.unwrap().rgba@.len() == 4 * r.unwrap().width * r.unwrap().height,
{
    let picture = image::load_from_memory(bytes).ok()?.to_rgba8();
    let (width, height) = picture.dimensions();
    Some(Frame { width, height, rgba: picture.into_raw() })
}

/// The frame that the decoder wrote, if it succeeded and wrote one.
pub fn frame_from(succeeded: bool, output: &[u8]) -> (r: Result<Frame, FrameError>)
    ensures
        r == Err::<Frame, FrameError>(FrameError::NoFrame) <==> !succeeded || output@.len() == 0,
        r == Err::<Frame, FrameError>(FrameError::Undecodable) <==> succeeded && output@.len() > 0
            && decoded_picture(output@) is None,
        match r {
            Ok(f) => frame_view(Some(f)) == decoded_picture(output@) && f.rgba@.len() == 4 * f.width
                * f.height,
            Err(_) => true,
        },
{
    if !succeeded || output.len() == 0 {
        return Err(FrameError::NoFrame);
    }
    match decode_picture(output) {
        Some(f) => Ok(f),
        None => Err(FrameError::Undecodable),
    }
}

} // verus!
