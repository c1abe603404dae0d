//! The shareable URL rendered as a scannable character grid.

use vstd::prelude::*;

verus! {

/// The character grid that the visual-code renderer produces for a text,
/// with modules two glyphs wide and one line tall: dark cells as `█` pairs,
/// light cells as spaces.
pub uninterp spec fn qr_grid_of(data: Seq<char>) -> Seq<char>;

/// Whether a text fits a QR code at the renderer's error-correction level:
/// encoding succeeds or fails on the data alone.
pub uninterp spec fn qr_encodable(data: Seq<char>) -> bool;

/// Relies on qrcode's `QrCode::new` and its string renderer: both are
/// functions of the encoded text alone — encoding fails exactly when the
/// data does not fit any QR code version, and the render is deterministic.
#[verifier::external_body]
fn render_qr(data: &String) -> (r: Option<String>)
    ensures
        r is Some <==> qr_encodable(data@),
        r matches Some(g) ==> g@ == qr_grid_of(data@),
{
    match qrcode::QrCode::new(data.as_str()) {
        Ok(code) => Some(
            code.render().light_color(" ").dark_color("\u{2588}").module_dimensions(2, 1).build(),
        ),
        Err(_) => None,
    }
}

/// Renders the text of a scannable code for `data`: the grid whenever the
/// data is encodable, and nothing otherwise.
pub fn create_qr_code(data: String) -> (r: Option<String>)
    ensures
        r is Some <==> qr_encodable(data@),
        r matches Some(g) ==> g@ == qr_grid_of(data@),
{
    render_qr(&data)
}

} // verus!
