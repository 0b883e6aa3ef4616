//! Wikidata-driven list generation: column descriptors, query bindings,
//! the row model, the patch stages, sorting and rendering.

use vstd::prelude::*;

pub mod column;
pub mod config;
pub mod dict;
pub mod entity;
pub mod json;
pub mod listeria_list;
pub mod listeria_page;
pub mod lookup;
pub mod model;
pub mod order;
pub mod params;
pub mod patch;
pub mod pipeline;
pub mod render_tabbed_data;
pub mod render_wikitext;
pub mod result;
pub mod result_row;
pub mod section;
pub mod shadow;
pub mod sort;
pub mod sparql;
pub mod text;
pub mod xml;

pub use crate::column::{Column, ColumnType};
pub use crate::config::{Configuration, NamespaceGroup};
pub use crate::entity::LatLon;
pub use crate::listeria_list::ListeriaList;
pub use crate::listeria_page::{ListeriaPage, PageParams};
pub use crate::params::{LinksType, SectionType, SortMode, Template, TemplateParams};
pub use crate::render_tabbed_data::RendererTabbedData;
pub use crate::render_wikitext::RendererWikitext;
pub use crate::result::{ResultCell, ResultCellPart};
pub use crate::result_row::ResultRow;
pub use crate::sparql::SparqlValue;

verus! {

/// A way of writing a finished list. A renderer reads the list and changes
/// nothing in it.
pub trait Renderer: Sized {
    fn new() -> Self;

    fn render(&mut self, page: &ListeriaList) -> Result<String, String>;
}

} // verus!
