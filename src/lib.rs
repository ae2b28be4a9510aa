//! Extraction of table cells from rich-text QC reports and judgement of
//! whether such a report shows full agreement between two datasets.

pub mod compare;
pub mod error;
pub mod extract;
pub mod judge;
pub mod text;
