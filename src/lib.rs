//! Aggregation and rendering of application compatibility records into a
//! single document grouped by leading letter.
pub mod answers;
pub mod app_compat_app;
pub mod app_compat_list;
pub mod app_output_md_file_config;
pub mod bool_or_none;
pub mod error;
pub mod string_or_none;
pub mod text;
