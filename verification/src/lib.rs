//! Plain-text extraction for Ichitaro (JTD) documents.
pub mod cli;
pub mod container;
pub mod document_text;
pub mod error;
pub mod export;
pub mod header_text;
pub mod layout_box_text;
pub mod limits;
pub mod model;
pub mod record;
pub mod sheet;
pub mod strings;
pub mod text;
pub mod units;
pub mod utf16;

pub use error::Error;
pub use limits::{DecompressionBudget, ParseLimits, ResourceBudget};
