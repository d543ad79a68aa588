//! GDSII import and export for raw layout.
//!
//! [`export::GdsExporter`] turns a [`layout::Library`] into a [`gdsii::GdsLibrary`], and
//! [`import::GdsImporter`] a [`gdsii::GdsLibrary`] into a [`layout::Library`].

pub mod error;
pub mod export;
pub mod gdsii;
pub mod geom;
pub mod import;
pub mod import_cell;
pub mod import_lib;
pub mod laws_cells;
pub mod laws_elements;
pub mod laws_export;
pub mod laws_geom;
pub mod laws_import;
pub mod laws_labels;
pub mod laws_layers;
pub mod laws_shapes;
pub mod laws_text;
pub mod laws_written;
pub mod layers;
pub mod layout;
pub mod round_trip;
pub mod slots;
pub mod text;
pub mod views;
