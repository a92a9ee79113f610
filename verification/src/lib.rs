//! The core of an image-corpus indexer: which files of a directory walk are
//! images to keep, what each image measures, and how the table of results is
//! laid out. The library touches no file: its callers walk, read and write,
//! and hand it what they found.

pub mod csv_handler;
pub mod decimal;
pub mod errors;
pub mod image_processor;
pub mod paths;
pub mod scanner;
pub mod text;

pub use csv_handler::CsvHandler;
pub use errors::SemantiXelError;
pub use image_processor::{
    BatchStatistics, BatchTotals, ColorModel, FileProbe, ImageFile, ImageMetadata, ImageProcessor,
};
pub use scanner::{DirectoryScanner, RootWalk, ScanResult, WalkEntry};
