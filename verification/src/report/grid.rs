//! Tables for a terminal, drawn by `tabled`.
use tabled::builder::Builder;
use tabled::settings::Style;
use vstd::prelude::*;

verus! {

pub open spec fn row_view(row: Vec<String>) -> Seq<Seq<char>> {
    row@.map_values(|s: String| s@)
}

pub open spec fn row_views(rows: Seq<Vec<String>>) -> Seq<Seq<Seq<char>>> {
    rows.map_values(|r: Vec<String>| row_view(r))
}

/// A table with the given rows, as `tabled` draws it with round corners.
pub uninterp spec fn grid_text(rows: Seq<Seq<Seq<char>>>) -> Seq<char>;

/// `Builder::from_iter`, which pushes one record for each row, `Builder::build`,
/// `Table::with` the style `Style::rounded`, and `Display` of `Table`: named, not
/// spelled out.
#[verifier::external_body]
pub(crate) fn draw(rows: &Vec<Vec<String>>) -> (r: String)
    ensures
        r@ == grid_text(row_views(rows@)),
{
    let mut table = Builder::from_iter(rows.iter().cloned()).build();
    table.with(Style::rounded());
    table.to_string()
}

} // verus!
