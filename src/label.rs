use vstd::prelude::*;
use vstd::string::StringExecFns;

verus! {

/// The text that base64's standard engine makes of `bytes`.
pub uninterp spec fn base64_standard(bytes: Seq<u8>) -> Seq<char>;

/// Relies on `base64::Engine::encode` with the `STANDARD` engine (standard
/// alphabet, with padding): the text depends on the bytes alone. It panics
/// only where the encoded length overflows `usize`, which the bound on the
/// input rules out.
#[verifier::external_body]
fn encode_base64(bytes: &[u8]) -> (r: String)
    requires
        bytes@.len() <= usize::MAX / 2,
    ensures
        r@ == base64_standard(bytes@),
{
    base64::Engine::encode(&base64::prelude::BASE64_STANDARD, bytes)
}

/// The inline style that shows a PNG image, given as base64 text, as the
/// background of a label cell.
pub fn background_style(data: &str) -> (r: String)
    ensures
        r@ == "background-image: url(data:image/png;base64,"@ + data@ + ")"@,
{
    let mut r = String::from_str("background-image: url(data:image/png;base64,");
    r.append(data);
    r.append(")");
    r
}

/// The inline style of the cell that shows the label image `png`.
pub fn label_style(png: &[u8]) -> (r: String)
    requires
        png@.len() <= usize::MAX / 2,
    ensures
        r@ == "background-image: url(data:image/png;base64,"@ + base64_standard(png@) + ")"@,
{
    let data = encode_base64(png);
    background_style(data.as_str())
}

} // verus!
