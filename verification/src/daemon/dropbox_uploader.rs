//! Where in Dropbox the uploader puts a save file.
use vstd::prelude::*;
use crate::path::file_name;
use crate::daemon::dropbox_foldering::{get_file_name, get_upload_path, upload_path_of};

verus! {

/// The Dropbox path to which the save file `full_path` of the application
/// `app_name` is uploaded: `/<app_name>/<file name>`; none where the path has
/// no final component, and then the upload is skipped.
pub fn upload_destination(full_path: String, app_name: &String) -> (r: Option<String>)
    ensures
        match file_name(full_path@) {
            Some(f) => r matches Some(p) && p@ == upload_path_of(f, app_name@),
            None => r is None,
        },
{
    match get_file_name(full_path) {
        Some(f) => Some(get_upload_path(&f, app_name)),
        None => None,
    }
}

} // verus!
