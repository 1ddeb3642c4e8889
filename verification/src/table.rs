//! Boxed text tables, drawn by comfy-table.

use comfy_table::presets::UTF8_FULL;
use comfy_table::Table;
use vstd::prelude::*;

verus! {

/// What comfy-table draws for a table with the `UTF8_FULL` preset, this header and
/// these rows, cells holding the given texts.
pub uninterp spec fn spec_table_text(header: Seq<Seq<char>>, rows: Seq<Seq<Seq<char>>>) -> Seq<char>;

/// comfy-table's `Table::new()`, `load_preset(UTF8_FULL)`, `set_header`, one `add_row`
/// per row, then `to_string()`. Claimed: the text is the named drawing of the header and
/// rows. The layout (column widths from Unicode display widths, borders, padding) is not
/// stated. With the default content arrangement the layout does not depend on the
/// terminal, and unstyled cells are drawn without escape codes, so the drawing is a
/// function of the texts alone.
#[verifier::external_body]
pub(crate) fn render_table(header: &Vec<String>, rows: &Vec<Vec<String>>) -> (r: String)
    ensures
        r@ == spec_table_text(header.deep_view(), rows.deep_view()),
{
    let mut table = Table::new();
    table.load_preset(UTF8_FULL);
    table.set_header(header.clone());
    for row in rows {
        table.add_row(row.clone());
    }
    table.to_string()
}

} // verus!
