//! A verified model of a metadata-harvesting pipeline: work items pending a
//! remote document are read from a catalog, resolved to repository paths,
//! fetched with bounded retry, and persisted in batches with a row-by-row
//! fallback when a bulk write fails.

pub mod fetch;
pub mod item;
pub mod pipeline;
pub mod queue;
pub mod repo_path;
pub mod store;
