//! Verified core of a batch extractor that reads invoice QR codes out of PDF
//! files and writes them, in list order, to a UTF-8 CSV file with a BOM.

pub mod text;
pub mod paths;
pub mod sorting;
pub mod extract;
pub mod batch;
pub mod csv_out;
pub mod state;
pub mod list_laws;
