//! The boundary to the markup-to-text collaborator: a section's raw payload
//! is turned into plain text wrapped at a rendering width.

use vstd::prelude::*;

verus! {

/// The plain text that the markup renderer produces for `raw` at `width`
/// columns, when it produces one.
pub uninterp spec fn rendered_of(raw: Seq<u8>, width: nat) -> Seq<char>;

/// Whether the markup renderer handles `raw` at `width` columns: reading
/// from an in-memory slice, both the outcome and the text depend on the
/// payload and the width alone.
pub uninterp spec fn renders(raw: Seq<u8>, width: nat) -> bool;

/// Relies on `html2text::from_read`: rendering a markup payload to plain
/// text wrapped at `width` columns is deterministic in the payload and the
/// width, and reading from an in-memory slice admits no I/O failure, so
/// whether the call succeeds depends on the payload and the width alone. A
/// payload or width the renderer cannot handle yields `None`.
#[verifier::external_body]
pub(crate) fn render_text(raw: &Vec<u8>, width: usize) -> (r: Option<String>)
    requires
        width >= 1,
    ensures
        r is Some <==> renders(raw@, width as nat),
        r matches Some(s) ==> s@ == rendered_of(raw@, width as nat),
{
    match html2text::from_read(raw.as_slice(), width) {
        Ok(s) => Some(s),
        Err(_) => None,
    }
}

} // verus!
