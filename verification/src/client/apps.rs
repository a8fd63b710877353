//! The applications that the user configured, and the names of their
//! configuration files.
use vstd::prelude::*;
use vstd::string::*;
use crate::text::{replace, replace_all, swap_char, lemma_replace_one_char};
use crate::daemon::apps::{app_name_of_file, space, underscore, App as DaemonApp};
use crate::daemon::upload_map::without_app;

verus! {

/// The name of the configuration file of the application `name`: each space
/// made an underscore.
pub open spec fn config_file_name(name: Seq<char>) -> Seq<char> {
    replace_all(name, space(), underscore())
}

/// An application whose save file is kept in Dropbox.
pub struct App {
    /// The application's name.
    pub name: String,
    /// The path of its executable.
    pub executable: String,
    /// The path of its save file.
    pub upload_path: String,
}

/// All configured applications, in the order in which they are listed.
pub struct Apps(pub Vec<App>);

/// The name of the configuration file of the application `name`.
pub fn get_filename(name: &String) -> (r: String)
    ensures
        r@ == config_file_name(name@),
{
    proof {
        reveal_strlit(" ");
        reveal_strlit("_");
        assert(" "@ =~= space());
        assert("_"@ =~= underscore());
    }
    replace(name.as_str(), " ", "_")
}

impl App {
    /// The name of this application's configuration file.
    pub fn config_file_name(&self) -> (r: String)
        ensures
            r@ == config_file_name(self.name@),
    {
        get_filename(&self.name)
    }
}

/// The daemon finds an application again from its configuration file name:
/// reading each `_` of the file name as a space gives back the application's
/// name, for every name without an underscore.
pub proof fn lemma_config_file_name_roundtrip(name: Seq<char>)
    requires
        forall|i: int| 0 <= i < name.len() ==> name[i] != '_',
    ensures
        app_name_of_file(config_file_name(name)) == name,
{
    let file = config_file_name(name);
    lemma_replace_one_char(name, ' ', '_', 0);
    assert(name.subrange(0, name.len() as int) =~= name);
    assert(file == swap_char(name, ' ', '_'));
    lemma_replace_one_char(file, '_', ' ', 0);
    assert(file.subrange(0, file.len() as int) =~= file);
    assert(swap_char(file, '_', ' ') =~= name);
}

/// Removing an application's configuration file undoes its registration:
/// after the daemon registered the application and then forgot the file that
/// the client wrote for it, the registry no longer holds the application's
/// key, and every entry of another application is as it was; for every name
/// without an underscore.
pub proof fn lemma_removed_config_forgets_app(m: Map<Seq<char>, (Seq<char>, Seq<char>)>, app: DaemonApp, key: Seq<char>)
    requires
        forall|i: int| 0 <= i < app.name@.len() ==> app.name@[i] != '_',
    ensures
        !without_app(m.insert(app.key(), app.entry()), app_name_of_file(config_file_name(app.name@))).contains_key(app.key()),
        m.contains_key(key) && m[key].1 != app.name@ && key != app.key() ==> without_app(
            m.insert(app.key(), app.entry()),
            app_name_of_file(config_file_name(app.name@)),
        ).contains_key(key) && without_app(
            m.insert(app.key(), app.entry()),
            app_name_of_file(config_file_name(app.name@)),
        )[key] == m[key],
{
    lemma_config_file_name_roundtrip(app.name@);
}

} // verus!
