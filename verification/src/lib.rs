//! Image-search bot logic: query analysis, result extraction and merging,
//! engine health bookkeeping and local asset matching.

pub mod unicode;
pub mod text;
pub mod imgur_handler;
pub mod local_image_finder;
pub mod image_search;
pub mod json;
pub mod pattern;
pub mod google_image_searcher;
pub mod inline_query_handler;
pub mod message_handler;
pub mod laws;
