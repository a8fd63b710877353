//! Save manager: keeps the save files of desktop applications in Dropbox.
//!
//! The verified library holds the decisions of the three programs that make
//! up the save manager: the authorization server, the desktop client and the
//! background daemon that uploads save files when an application closes.
pub mod path;
pub mod text;
pub mod daemon;
pub mod auth_server;
pub mod client;
