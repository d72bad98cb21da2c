//! Raster images converted natively through the `image` crate: decoded from
//! the input's bytes and encoded in the target's format.
use vstd::prelude::*;

use crate::adapters::native_text::Written;
use crate::error::ConverterError;
use crate::serial::{image_recoded, recode_image};
use crate::text::{push_str, str_is};

verus! {

/// What converting the image bytes `raw` from `from` to `to` gives: the
/// input itself for the same format, else the re-encoded bytes, with the
/// decoding or encoding error as a parse error.
pub open spec fn image_conversion(
    from: Seq<char>,
    to: Seq<char>,
    raw: Seq<u8>,
    r: Result<Written, ConverterError>,
) -> bool {
    if from == to {
        r matches Ok(Written::CopyInput)
    } else {
        match image_recoded(raw, to) {
            Ok(Ok(b)) => r matches Ok(Written::Bytes(x)) && x@ == b,
            Ok(Err(e)) => r matches Err(ConverterError::Parse(m)) && m@ == "cannot encode as "@ + to + ": "@ + e,
            Err(e) => r matches Err(ConverterError::Parse(m)) && m@ == "cannot decode image: "@ + e,
        }
    }
}

/// Converts image bytes from `from` to `to`.
pub fn convert(from: &str, to: &str, raw: &Vec<u8>) -> (r: Result<Written, ConverterError>)
    ensures
        image_conversion(from@, to@, raw@, r),
{
    if str_is(from, to) {
        return Ok(Written::CopyInput);
    }
    match recode_image(raw.as_slice(), to) {
        Ok(Ok(b)) => Ok(Written::Bytes(b)),
        Ok(Err(e)) => {
            let mut m = String::new();
            push_str(&mut m, "cannot encode as ");
            push_str(&mut m, to);
            push_str(&mut m, ": ");
            push_str(&mut m, e.as_str());
            Err(ConverterError::Parse(m))
        },
        Err(e) => {
            let mut m = String::new();
            push_str(&mut m, "cannot decode image: ");
            push_str(&mut m, e.as_str());
            Err(ConverterError::Parse(m))
        },
    }
}

} // verus!
