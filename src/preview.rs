//! One-line previews of stored payloads.
use crate::text::{collapse_whitespace, collapse_ws, dec_str, dec_string, human_size, size_str, trunc, trunc_spec};
use vstd::prelude::*;

verus! {

/// What image sniffing finds in `data`: the format's name in lower case, the
/// width and the height; nothing where `data` does not decode as an image.
pub uninterp spec fn image_info(data: Seq<u8>) -> Option<(Seq<char>, u32, u32)>;

/// The text that lossy UTF-8 decoding makes of `data`.
pub uninterp spec fn utf8_lossy(data: Seq<u8>) -> Seq<char>;

/// The view of a sniffing result.
pub open spec fn info_view(r: Option<(String, u32, u32)>) -> Option<(Seq<char>, u32, u32)> {
    match r {
        Some(t) => Some((t.0@, t.1, t.2)),
        None => None,
    }
}

/// Relies on `image::ImageReader`: `with_guessed_format` picks the format from the
/// leading bytes, `format` names it, and `decode` yields the pixel dimensions.
#[verifier::external_body]
fn sniff_image(data: &[u8]) -> (r: Option<(String, u32, u32)>)
    ensures
        info_view(r) == image_info(data@),
{
    let reader = image::ImageReader::new(std::io::Cursor::new(data)).with_guessed_format().ok()?;
    let format = match reader.format() {
        Some(f) => format!("{:?}", f).to_lowercase(),
        None => String::from("unknown"),
    };
    let img = reader.decode().ok()?;
    Some((format, img.width(), img.height()))
}

/// Relies on `String::from_utf8_lossy`: decodes UTF-8, replacing invalid sequences.
#[verifier::external_body]
fn decode_lossy(data: &[u8]) -> (r: String)
    ensures
        r@ == utf8_lossy(data@),
{
    String::from_utf8_lossy(data).into_owned()
}

/// The suffix that marks a truncated preview.
pub open spec fn ellipsis() -> Seq<char> {
    seq!['\u{2026}']
}

/// The start of every preview line: the id and a tab.
pub open spec fn line_head(id: u64) -> Seq<char> {
    dec_str(id as nat).push('\t')
}

/// The preview line of an image of `size` bytes.
pub open spec fn image_line_spec(id: u64, size: nat, format: Seq<char>, w: u32, h: u32) -> Seq<
    char,
> {
    line_head(id) + "[[ binary data "@ + human_size(size) + " "@ + format + " "@ + dec_str(
        w as nat,
    ) + "x"@ + dec_str(h as nat) + " ]]"@
}

/// The preview line of a text: whitespace collapsed, cut to `width` characters.
pub open spec fn text_line_spec(id: u64, text: Seq<char>, width: nat) -> Seq<char> {
    line_head(id) + trunc_spec(collapse_ws(text), width, ellipsis())
}

/// The preview line of entry `id` holding `data`: an image descriptor where
/// sniffing finds an image, else the payload's text.
pub open spec fn preview_spec(id: u64, data: Seq<u8>, width: nat) -> Seq<char> {
    match image_info(data) {
        Some((format, w, h)) => image_line_spec(id, data.len(), format, w, h),
        None => text_line_spec(id, utf8_lossy(data), width),
    }
}

fn head_string(id: u64) -> (r: String)
    ensures
        r@ == line_head(id),
{
    let mut head = dec_string(id);
    head.append("\t");
    proof {
        reveal_strlit("\t");
        assert(head@ =~= line_head(id));
    }
    head
}

/// Describes an image of `size` bytes in format `format`, `w` by `h` pixels.
pub fn image_line(id: u64, size: usize, format: &str, w: u32, h: u32) -> (r: String)
    ensures
        r@ == image_line_spec(id, size as nat, format@, w, h),
{
    head_string(id).concat("[[ binary data ").concat(size_str(size).as_str()).concat(" ").concat(
        format,
    ).concat(" ").concat(dec_string(w as u64).as_str()).concat("x").concat(
        dec_string(h as u64).as_str(),
    ).concat(" ]]")
}

/// Renders `text` on one line: trimmed, each run of whitespace made one space, and
/// cut to `width` characters with an ellipsis where it is longer.
pub fn text_line(id: u64, text: &str, width: u64) -> (r: String)
    ensures
        r@ == text_line_spec(id, text@, width as nat),
{
    let cleaned = collapse_whitespace(text);
    let n = cleaned.as_str().unicode_len();
    let w: usize = if width as u128 >= n as u128 {
        n
    } else {
        width as usize
    };
    let mut suffix = String::new();
    suffix.append("\u{2026}");
    proof {
        reveal_strlit("\u{2026}");
    }
    let t = trunc(cleaned.as_str(), w, suffix.as_str());
    assert(t@ =~= trunc_spec(cleaned@, width as nat, ellipsis()));
    head_string(id).concat(t.as_str())
}

/// Renders entry `id` holding `data` as one line of at most `width` text characters.
pub fn preview(id: u64, data: &[u8], width: u64) -> (r: String)
    ensures
        r@ == preview_spec(id, data@, width as nat),
{
    match sniff_image(data) {
        Some((format, w, h)) => image_line(id, data.len(), format.as_str(), w, h),
        None => {
            let text = decode_lossy(data);
            text_line(id, text.as_str(), width)
        },
    }
}

} // verus!
