//! The pipeline's collaborators: image decoding and the ASCII-art renderer,
//! reached through one trusted wrapper, and the UTF-8 check on a selected
//! URL.
//!
//! The wrappers here are the only places where the library leans on code it
//! has not verified; each doc comment names the functions relied on.

use vstd::prelude::*;
use vstd::utf8::decode_utf8;
use vstd::utf8::valid_utf8;

verus! {

/// Whether the bytes decode as an image of a supported format with nonzero
/// width and height. Decoding is a function of the bytes alone; this names
/// its success, which no short statement can pin down. Zero-area images are
/// excluded on purpose: the renderer's dimension arithmetic does not take
/// them.
pub uninterp spec fn image_decodes(bytes: Seq<u8>) -> bool;

/// The ASCII-art document rendered from the image the bytes decode to,
/// under the fixed configuration. Decoding is a function of the bytes and
/// rendering a function of the decoded image and the configuration, so the
/// document is a function of the bytes alone; its content has no short
/// statement, so it is named.
pub uninterp spec fn art_of(bytes: Seq<u8>) -> Seq<char>;

/// Relies on image::load_from_memory, which guesses the format from the
/// bytes and decodes them deterministically, and on artem::convert with the
/// HTML-file target and colored output, a pure function of the image and
/// the configuration that always prepends the fixed HTML preamble opening
/// with the document type declaration. Images with zero width or height are
/// turned away here, because artem's dimension calculation divides by the
/// column count, which such an image makes zero.
#[verifier::external_body]
pub fn decode_and_render(bytes: &Vec<u8>) -> (r: Option<String>)
    ensures
        r is Some <==> image_decodes(bytes@),
        r matches Some(t) ==> t@ == art_of(bytes@) && t@.len() >= 15 && t@.subrange(0, 15)
            == "<!DOCTYPE html>"@,
{
    let img = match image::load_from_memory(bytes.as_slice()) {
        Ok(img) => img,
        Err(_) => return None,
    };
    if img.width() == 0 || img.height() == 0 {
        return None;
    }
    let mut builder = artem::config::ConfigBuilder::new();
    builder.target(artem::config::TargetType::HtmlFile);
    builder.color(true);
    builder.background_color(true);
    Some(artem::convert(img, &builder.build()))
}

/// Relies on String::from_utf8: succeeds exactly on valid UTF-8 and then
/// carries those bytes as a string, decoded as UTF-8.
#[verifier::external_body]
pub fn utf8_to_string(bytes: Vec<u8>) -> (r: Option<String>)
    ensures
        r is Some <==> valid_utf8(bytes@),
        r matches Some(t) ==> t@ == decode_utf8(bytes@),
{
    String::from_utf8(bytes).ok()
}

} // verus!
