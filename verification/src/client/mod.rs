//! The desktop client: it lets the user sign in to Dropbox and edit the list
//! of applications whose save files the daemon uploads.
pub mod apps;
pub mod auth;
pub mod startup;
pub mod ui_builder;
