use vstd::prelude::*;

verus! {

/// Width of the left gutter that the rendered view reserves for line numbers.
pub const LINE_NUMBERS_WIDTH: u16 = 5;

/// Height of the footer under the text area in the rendered view.
pub const FOOTER_SIZE: u16 = 2;

/// The vertical scroll offset for a viewport of the given height: zero until
/// the cursor's line falls below the text area, then just enough to keep it
/// on the last visible row.
pub fn scroll_offset(current_line: u16, viewport_height: u16) -> (offset: u16)
    requires
        viewport_height > FOOTER_SIZE,
    ensures
        offset == if current_line > viewport_height - FOOTER_SIZE - 1 {
            current_line - (viewport_height - FOOTER_SIZE - 1)
        } else {
            0
        },
{
    let visible = viewport_height - FOOTER_SIZE - 1;
    if current_line > visible {
        current_line - visible
    } else {
        0
    }
}

} // verus!
