//! A single-window image viewer: the catalog of image files in a directory,
//! the orders it can be sorted in, the window-fit sizing rule and the
//! decisions of the viewer's event loop.

pub mod config;
pub mod ordering;
pub mod catalog;
pub mod sizing;
pub mod session;

pub use config::{Config, SortAlgorithm};
pub use ordering::{natural_sort_compare, compare_digit_runs, digit_run_end, name_compare};
pub use catalog::{ImageFile, ImageHandler, compare_files, sort_files, is_psd_file};
pub use sizing::fitted_window_size;
pub use session::{Key, WindowInput, RenderFailure, Response, ViewerSession, window_title};
