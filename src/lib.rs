//! A codec between tables of optional text cells and the RSV byte format,
//! where three reserved bytes end values, end rows and mark absent values.

pub mod json;
pub mod laws;
pub mod model;
pub mod rsv_reader;
pub mod rsv_writer;

pub use json::{json_text_to_table, table_to_json_text, JsonError};
pub use model::{EOR, EOV, NULL};
pub use rsv_reader::{convert_rsv_to_vec, DecodeError};
pub use rsv_writer::convert_vec_to_rsv;
