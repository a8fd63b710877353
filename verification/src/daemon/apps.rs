//! The applications that the daemon watches, as read from their
//! configuration files, and how they enter and leave the registry.
use vstd::prelude::*;
use vstd::string::*;
use crate::path::file_name;
use crate::text::{
    replace, replace_all, replace_from, occurs_at, contains_pattern, lemma_replace_copies, lemma_replace_shift,
    lemma_replace_absent,
};
use crate::daemon::dropbox_foldering::{get_file_name, folder_path, folder_path_of};
use crate::daemon::upload_map::{UploadMap, SaveTarget, entry_view, without_app};
use crate::text::views;

verus! {

/// `%20`, a space as URIs write it.
pub open spec fn encoded_space() -> Seq<char> {
    seq!['%', '2', '0']
}

/// A space.
pub open spec fn space() -> Seq<char> {
    seq![' ']
}

/// An underscore.
pub open spec fn underscore() -> Seq<char> {
    seq!['_']
}

/// The registry key of an executable path: its file name, with `%20` read
/// as a space.
pub open spec fn executable_key(executable: Seq<char>) -> Seq<char> {
    replace_all(file_name(executable).unwrap(), encoded_space(), space())
}

/// Reading `%20` as a space in `a + "%20" + b`, where `a` holds no `%`,
/// keeps `a`, makes that `%20` a space, and goes on in `b`.
pub proof fn lemma_decode_after_plain_prefix(a: Seq<char>, b: Seq<char>)
    requires
        forall|i: int| 0 <= i < a.len() ==> a[i] != '%',
    ensures
        replace_all(a + encoded_space() + b, encoded_space(), space()) == a + space() + replace_all(b, encoded_space(), space()),
{
    let enc = encoded_space();
    let x = a + enc;
    let t = x + b;
    assert(a + enc + b =~= t);
    assert forall|q: int| 0 <= q < a.len() implies !occurs_at(t, enc, q) by {
        if occurs_at(t, enc, q) {
            assert(t.subrange(q, q + 3)[0] == t[q]);
            assert(t[q] == a[q]);
        }
    }
    lemma_replace_copies(t, enc, space(), 0, a.len());
    assert(t.subrange(0, a.len() as int) =~= a);
    assert(t.subrange(a.len() as int, a.len() as int + 3) =~= enc);
    assert(occurs_at(t, enc, a.len() as int));
    lemma_replace_shift(x, b, enc, space(), 0);
    assert(x.len() + 0 == a.len() + enc.len());
    assert(replace_from(t, enc, space(), a.len()) == space() + replace_from(t, enc, space(), a.len() + enc.len()));
    assert(a + (space() + replace_all(b, enc, space())) =~= a + space() + replace_all(b, enc, space()));
}

/// What reading `%20` as a space makes of `s` from position `i` holds no
/// `%20`.
proof fn lemma_decoded_rest_is_clean(s: Seq<char>, i: nat)
    ensures
        forall|j: int| !occurs_at(replace_from(s, encoded_space(), space(), i), encoded_space(), j),
    decreases s.len() - i,
{
    let enc = encoded_space();
    let ii: int = i as int;
    let r = replace_from(s, enc, space(), i);
    if i >= s.len() {
        assert(r.len() == 0);
    } else if occurs_at(s, enc, ii) {
        lemma_decoded_rest_is_clean(s, i + 3);
        let rest = replace_from(s, enc, space(), i + 3);
        assert(r == space() + rest);
        assert forall|j: int| !occurs_at(r, enc, j) by {
            if occurs_at(r, enc, j) {
                if j == 0 {
                    assert(r.subrange(0, 3)[0] == r[0]);
                } else {
                    assert(r.subrange(j, j + 3) =~= rest.subrange(j - 1, j + 2));
                    assert(occurs_at(rest, enc, j - 1));
                }
            }
        }
    } else {
        lemma_decoded_rest_is_clean(s, i + 1);
        let rest = replace_from(s, enc, space(), i + 1);
        assert(r == seq![s[ii]] + rest);
        assert forall|j: int| !occurs_at(r, enc, j) by {
            if occurs_at(r, enc, j) {
                if j == 0 {
                    assert(r.subrange(0, 3) == enc);
                    assert(r[0] == r.subrange(0, 3)[0] && r[1] == r.subrange(0, 3)[1] && r[2] == r.subrange(0, 3)[2]);
                    assert(s[ii] == '%');
                    assert(rest[0] == '2' && rest[1] == '0');
                    assert(i + 1 < s.len());
                    assert(!occurs_at(s, enc, ii + 1)) by {
                        if occurs_at(s, enc, ii + 1) {
                            assert(rest == space() + replace_from(s, enc, space(), i + 4));
                        }
                    }
                    let rest2 = replace_from(s, enc, space(), i + 2);
                    assert(rest == seq![s[ii + 1]] + rest2);
                    assert(s[ii + 1] == '2');
                    assert(rest2[0] == '0');
                    assert(i + 2 < s.len());
                    assert(!occurs_at(s, enc, ii + 2)) by {
                        if occurs_at(s, enc, ii + 2) {
                            assert(rest2 == space() + replace_from(s, enc, space(), i + 5));
                        }
                    }
                    assert(rest2 == seq![s[ii + 2]] + replace_from(s, enc, space(), i + 3));
                    assert(s[ii + 2] == '0');
                    assert(s.subrange(ii, ii + 3) =~= enc);
                } else {
                    assert(r.subrange(j, j + 3) =~= rest.subrange(j - 1, j + 2));
                    assert(occurs_at(rest, enc, j - 1));
                }
            }
        }
    }
}

/// Every `%20` of an executable's file name is read as a space, and nothing
/// else changes: the registry key holds no `%20`; a file name without `%`
/// is its own key; and a file name `a + "%20" + b`, where `a` holds no `%`,
/// has the key `a + " "` followed by the key that `b` alone would have.
pub proof fn lemma_key_decodes_every_space(executable: Seq<char>)
    requires
        file_name(executable) is Some,
    ensures
        !contains_pattern(executable_key(executable), encoded_space()),
        (forall|i: int| 0 <= i < file_name(executable).unwrap().len() ==> file_name(executable).unwrap()[i] != '%')
            ==> executable_key(executable) == file_name(executable).unwrap(),
        forall|a: Seq<char>, b: Seq<char>|
            file_name(executable) == Some(a + encoded_space() + b) && (forall|i: int| 0 <= i < a.len() ==> a[i] != '%')
                ==> executable_key(executable) == a + space() + replace_all(b, encoded_space(), space()),
{
    let f = file_name(executable).unwrap();
    lemma_decoded_rest_is_clean(f, 0);
    if forall|i: int| 0 <= i < f.len() ==> f[i] != '%' {
        assert forall|j: int| 0 <= j implies !occurs_at(f, encoded_space(), j) by {
            if occurs_at(f, encoded_space(), j) {
                assert(f.subrange(j, j + 3)[0] == f[j]);
            }
        }
        lemma_replace_absent(f, encoded_space(), space(), 0);
        assert(f.subrange(0, f.len() as int) =~= f);
    }
    assert forall|a: Seq<char>, b: Seq<char>|
        file_name(executable) == Some(a + encoded_space() + b) && (forall|i: int| 0 <= i < a.len() ==> a[i] != '%')
        implies executable_key(executable) == a + space() + replace_all(b, encoded_space(), space()) by {
        lemma_decode_after_plain_prefix(a, b);
    }
}

/// The application name that a configuration file name stands for: each
/// `_` read as a space.
pub open spec fn app_name_of_file(app_file: Seq<char>) -> Seq<char> {
    replace_all(app_file, underscore(), space())
}

/// An application that the daemon watches.
pub struct App {
    /// The path of the application's executable.
    pub executable: String,
    /// The path of the save file to upload.
    pub upload_path: String,
    /// The application's name.
    pub name: String,
}

impl App {
    /// The executable's path has a final component, so the application can
    /// be registered.
    pub open spec fn registrable(self) -> bool {
        file_name(self.executable@) is Some
    }

    /// The key under which the application is registered.
    pub open spec fn key(self) -> Seq<char> {
        executable_key(self.executable@)
    }

    /// The value registered for the application.
    pub open spec fn entry(self) -> (Seq<char>, Seq<char>) {
        (self.upload_path@, self.name@)
    }

    /// The Dropbox folder that holds this application's files: `/<name>`.
    pub fn folder_path(&self) -> (r: String)
        ensures
            r@ == folder_path_of(self.name@),
    {
        folder_path(&self.name)
    }

    /// The registry key and value of this application: the file name of the
    /// executable with `%20` read as a space, and the save file with the name.
    pub fn into_key_value(self) -> (kv: (String, SaveTarget))
        requires
            self.registrable(),
        ensures
            kv.0@ == self.key(),
            entry_view(kv.1) == self.entry(),
            !contains_pattern(kv.0@, encoded_space()),
    {
        proof {
            lemma_key_decodes_every_space(self.executable@);
        }
        let exe_name = get_file_name(self.executable);
        match exe_name {
            Some(n) => {
                proof {
                    reveal_strlit("%20");
                    reveal_strlit(" ");
                    assert("%20"@ =~= encoded_space());
                    assert(" "@ =~= space());
                }
                let key = replace(n.as_str(), "%20", " ");
                (key, SaveTarget { save_path: self.upload_path, app_name: self.name })
            },
            None => vstd::pervasive::unreached(),
        }
    }

    /// Registers this application, in place of what its key had.
    pub fn to_dashmap(self, map: &mut UploadMap)
        requires
            self.registrable(),
        ensures
            final(map)@ == old(map)@.insert(self.key(), self.entry()),
            final(map)@.dom().finite(),
    {
        let (k, v) = self.into_key_value();
        map.insert(k, v);
    }
}

/// The registry `m` after each of `apps` was registered in turn.
pub open spec fn register_all(m: Map<Seq<char>, (Seq<char>, Seq<char>)>, apps: Seq<App>) -> Map<Seq<char>, (Seq<char>, Seq<char>)>
    decreases apps.len(),
{
    if apps.len() == 0 {
        m
    } else {
        register_all(m, apps.drop_last()).insert(apps.last().key(), apps.last().entry())
    }
}

/// Loading registers every application and keeps what it does not touch:
/// each key of the loaded applications is registered, with the entry of the
/// last application in the list that has that key; every other key keeps its
/// entry, or stays absent.
pub proof fn lemma_load_registers_every_app(m: Map<Seq<char>, (Seq<char>, Seq<char>)>, apps: Seq<App>, k: Seq<char>)
    ensures
        forall|i: int| 0 <= i < apps.len() ==> register_all(m, apps).contains_key(#[trigger] apps[i].key()),
        forall|i: int| 0 <= i < apps.len() && (forall|j: int| i < j < apps.len() ==> apps[j].key() != apps[i].key())
            ==> register_all(m, apps)[#[trigger] apps[i].key()] == apps[i].entry(),
        (forall|i: int| 0 <= i < apps.len() ==> apps[i].key() != k) ==> (register_all(m, apps).contains_key(k)
            == m.contains_key(k) && (m.contains_key(k) ==> register_all(m, apps)[k] == m[k])),
        register_all(m, apps).contains_key(k) ==> m.contains_key(k) || exists|i: int| 0 <= i < apps.len() && apps[i].key() == k,
    decreases apps.len(),
{
    if apps.len() > 0 {
        let init = apps.drop_last();
        let last = apps.last();
        lemma_load_registers_every_app(m, init, k);
        lemma_load_registers_every_app(m, init, last.key());
        let r = register_all(m, apps);
        assert(r == register_all(m, init).insert(last.key(), last.entry()));
        assert forall|i: int| 0 <= i < apps.len() implies r.contains_key(#[trigger] apps[i].key()) by {
            if i < apps.len() - 1 {
                assert(apps[i] == init[i]);
                lemma_load_registers_every_app(m, init, apps[i].key());
            }
        }
        assert forall|i: int| 0 <= i < apps.len() && (forall|j: int| i < j < apps.len() ==> apps[j].key() != apps[i].key())
            implies r[#[trigger] apps[i].key()] == apps[i].entry() by {
            if i < apps.len() - 1 {
                assert(apps[i] == init[i]);
                assert(apps[apps.len() - 1].key() != apps[i].key());
                assert forall|j: int| i < j < init.len() implies init[j].key() != init[i].key() by {
                    assert(init[j] == apps[j]);
                }
                lemma_load_registers_every_app(m, init, apps[i].key());
            }
        }
        if forall|i: int| 0 <= i < apps.len() ==> apps[i].key() != k {
            assert(last.key() != k);
            assert forall|i: int| 0 <= i < init.len() implies init[i].key() != k by {
                assert(init[i] == apps[i]);
            }
        }
        if r.contains_key(k) && !m.contains_key(k) {
            if k == last.key() {
                assert(apps[apps.len() - 1].key() == k);
            } else {
                assert(register_all(m, init).contains_key(k));
                let i = choose|i: int| 0 <= i < init.len() && init[i].key() == k;
                assert(apps[i] == init[i]);
            }
        }
    }
}

/// Registers each of `apps`, in order.
pub fn load_files_into_hashmap(apps: Vec<App>, map: &mut UploadMap)
    requires
        forall|i: int| 0 <= i < apps.len() ==> (#[trigger] apps@[i]).registrable(),
    ensures
        final(map)@ == register_all(old(map)@, apps@),
        final(map)@.dom().finite(),
        forall|i: int| 0 <= i < apps.len() ==> final(map)@.contains_key(#[trigger] apps@[i].key()),
        forall|i: int| 0 <= i < apps.len() && (forall|j: int| i < j < apps.len() ==> apps@[j].key() != apps@[i].key())
            ==> final(map)@[#[trigger] apps@[i].key()] == apps@[i].entry(),
{
    proof {
        lemma_load_registers_every_app(old(map)@, apps@, Seq::empty());
    }
    let ghost all = apps@;
    let mut rest = apps;
    let mut done: usize = 0;
    let total = rest.len();
    assert(total == all.len());
    assert(all.skip(0) =~= all);
    assert(all.take(0) =~= Seq::<App>::empty());
    while rest.len() > 0
        invariant
            done + rest.len() == all.len(),
            all.len() <= usize::MAX,
            rest@ == all.skip(done as int),
            map@ == register_all(old(map)@, all.take(done as int)),
            forall|i: int| 0 <= i < all.len() ==> (#[trigger] all[i]).registrable(),
        decreases rest.len(),
    {
        let app = rest.remove(0);
        assert(app == all[done as int]);
        app.to_dashmap(map);
        assert(all.take(done + 1).drop_last() =~= all.take(done as int));
        assert(rest@ =~= all.skip(done + 1));
        done = done + 1;
    }
    assert(all.take(all.len() as int) =~= all);
    proof {
        use_type_invariant(&*map);
    }
}

/// Forgets the application whose configuration file is named `app_file`:
/// every registry entry of the application named as `app_file` with each `_`
/// read as a space goes, and the other entries stay.
pub fn find_deleted_app(app_file: String, map: &mut UploadMap)
    ensures
        final(map)@ == without_app(old(map)@, app_name_of_file(app_file@)),
        final(map)@.dom().finite(),
{
    proof {
        reveal_strlit("_");
        reveal_strlit(" ");
        assert("_"@ =~= underscore());
        assert(" "@ =~= space());
    }
    let real_name = replace(app_file.as_str(), "_", " ");
    map.remove_app(&real_name);
}

/// The registry `m` after the configuration files at each of `paths` were
/// removed in turn.
pub open spec fn forget_all(m: Map<Seq<char>, (Seq<char>, Seq<char>)>, paths: Seq<Seq<char>>) -> Map<Seq<char>, (Seq<char>, Seq<char>)>
    decreases paths.len(),
{
    if paths.len() == 0 {
        m
    } else {
        without_app(forget_all(m, paths.drop_last()), app_name_of_file(file_name(paths.last()).unwrap()))
    }
}

/// Forgets the application of each removed configuration file at `paths`,
/// in order.
pub fn forget_removed_configs(paths: &Vec<String>, map: &mut UploadMap)
    requires
        forall|i: int| 0 <= i < paths.len() ==> (file_name(#[trigger] paths@[i]@) is Some),
    ensures
        final(map)@ == forget_all(old(map)@, views(paths@)),
        final(map)@.dom().finite(),
{
    let mut i: usize = 0;
    while i < paths.len()
        invariant
            i <= paths.len(),
            forall|j: int| 0 <= j < paths.len() ==> (file_name(#[trigger] paths@[j]@) is Some),
            map@ == forget_all(old(map)@, views(paths@.take(i as int))),
        decreases paths.len() - i,
    {
        assert(views(paths@.take(i + 1)).drop_last() =~= views(paths@.take(i as int)));
        assert(views(paths@.take(i + 1)).last() == paths@[i as int]@);
        assert(file_name(paths@[i as int]@) is Some);
        match get_file_name(paths[i].clone()) {
            Some(file) => find_deleted_app(file, map),
            None => {},
        }
        i = i + 1;
    }
    assert(paths@.take(paths.len() as int) =~= paths@);
    proof {
        use_type_invariant(&*map);
    }
}

/// A kind of change to a configuration file, as the file watcher reports it.
pub enum ConfigChange {
    /// The contents changed (a modification of no finer kind).
    ModifiedAny,
    /// A file was removed.
    RemovedFile,
    /// Any other change.
    Other,
}

/// What the daemon does on a change to configuration files.
pub enum ConfigAction {
    /// Read the changed files and register their applications.
    Register,
    /// Forget the applications of the removed files.
    Forget,
    /// Nothing.
    Ignore,
}

/// The daemon's answer to a change to configuration files: a modified file
/// is read and registered, a removed one forgotten, nothing else acted on.
pub fn config_action(change: ConfigChange) -> (a: ConfigAction)
    ensures
        change is ModifiedAny <==> a is Register,
        change is RemovedFile <==> a is Forget,
        change is Other <==> a is Ignore,
{
    match change {
        ConfigChange::ModifiedAny => ConfigAction::Register,
        ConfigChange::RemovedFile => ConfigAction::Forget,
        ConfigChange::Other => ConfigAction::Ignore,
    }
}

/// A registered application is found: after `to_dashmap`, the registry holds
/// the application's key, with the application's save file and name.
pub proof fn lemma_registered_app_is_found(m: Map<Seq<char>, (Seq<char>, Seq<char>)>, app: App)
    ensures
        m.insert(app.key(), app.entry()).contains_key(app.key()),
        m.insert(app.key(), app.entry())[app.key()] == app.entry(),
{
}

/// Removing a configuration file forgets its application: after
/// `find_deleted_app`, no entry belongs to the application that the file
/// stands for, and every entry of another application stays as it was.
pub proof fn lemma_forgotten_app_is_absent(m: Map<Seq<char>, (Seq<char>, Seq<char>)>, app_file: Seq<char>, key: Seq<char>)
    ensures
        without_app(m, app_name_of_file(app_file)).contains_key(key) ==> without_app(m, app_name_of_file(app_file))[key].1 != app_name_of_file(app_file),
        m.contains_key(key) && m[key].1 != app_name_of_file(app_file) ==> without_app(m, app_name_of_file(app_file)).contains_key(key)
            && without_app(m, app_name_of_file(app_file))[key] == m[key],
        without_app(m, app_name_of_file(app_file)).contains_key(key) ==> m.contains_key(key),
{
}

} // verus!
