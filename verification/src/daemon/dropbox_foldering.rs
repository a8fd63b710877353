//! Names of the files and folders that the daemon writes in Dropbox.
use vstd::prelude::*;
use vstd::string::*;
use crate::path::{
    file_name, file_name_chars, is_plain_component, is_separator, is_verbatim, prefix_end, component_end,
    lemma_component_end, lemma_file_name_of_child,
};
use crate::text::{chars_of, string_from_chars};

verus! {

/// The path in Dropbox of the file `file` of the application `app`:
/// `/<app>/<file>`.
pub open spec fn upload_path_of(file: Seq<char>, app: Seq<char>) -> Seq<char> {
    seq!['/'] + app + seq!['/'] + file
}

/// The Dropbox folder that holds the files of the application `app`: `/<app>`.
pub open spec fn folder_path_of(app: Seq<char>) -> Seq<char> {
    seq!['/'] + app
}

/// The final component of `path`, if it has one.
pub fn get_file_name(path: String) -> (r: Option<String>)
    ensures
        match r {
            Some(s) => file_name(path@) == Some(s@),
            None => file_name(path@) is None,
        },
{
    let chars = chars_of(path.as_str());
    match file_name_chars(&chars) {
        Some(comp) => Some(string_from_chars(&comp)),
        None => None,
    }
}

/// The path in Dropbox under which the file `file_name` of the application
/// `app_name` is uploaded.
pub fn get_upload_path(file_name: &String, app_name: &String) -> (r: String)
    ensures
        r@ == upload_path_of(file_name@, app_name@),
{
    let mut r = String::new();
    r.append("/");
    r.append(app_name.as_str());
    r.append("/");
    r.append(file_name.as_str());
    proof {
        reveal_strlit("/");
    }
    r
}

/// The Dropbox folder of the application `app_name`.
pub fn folder_path(app_name: &String) -> (r: String)
    ensures
        r@ == folder_path_of(app_name@),
{
    let mut r = String::new();
    r.append("/");
    r.append(app_name.as_str());
    proof {
        reveal_strlit("/");
    }
    r
}

/// An uploaded save file keeps its name in Dropbox: the file name of the
/// upload path of `file` is `file`, for every file name that can stand as the
/// final component of a path and every application name that does not start
/// with a separator (one that does makes the path a share, `//app/...`).
pub proof fn lemma_upload_path_keeps_file_name(file: Seq<char>, app: Seq<char>)
    requires
        is_plain_component(file),
        !(app.len() > 0 && is_separator(app[0])),
    ensures
        file_name(upload_path_of(file, app)) == Some(file),
{
    let dir = seq!['/'] + app + seq!['/'];
    let p = dir + file;
    assert(upload_path_of(file, app) =~= p);
    assert(!is_verbatim(p));
    if app.len() == 0 {
        assert(p =~= seq!['/', '/'] + file);
        lemma_component_end(p, 2, false);
        if component_end(p, 2, false) < p.len() {
            assert(p[component_end(p, 2, false)] == file[component_end(p, 2, false) - 2]);
        }
        if p.len() >= 4 && p[2] == '.' {
            assert(p[3] == file[1]);
        }
    } else {
        assert(p[1] == app[0]);
    }
    assert(prefix_end(p) == 0);
    lemma_file_name_of_child(dir, file);
}

} // verus!
