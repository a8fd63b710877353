//! The background daemon: it keeps a registry of the configured applications,
//! watches which of them run, and uploads an application's save file to
//! Dropbox when the application closes.
pub mod apps;
pub mod dropbox_foldering;
pub mod upload_map;
pub mod processes;
pub mod dropbox_uploader;
