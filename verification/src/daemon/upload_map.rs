//! The registry of the daemon: for each executable file name, the save file
//! to upload and the name of the application. It is held in a `DashMap`.
use vstd::prelude::*;
use dashmap::DashMap;
use std::collections::hash_map::RandomState;

verus! {

#[verifier::external_type_specification]
#[verifier::external_body]
#[verifier::reject_recursive_types(K)]
#[verifier::reject_recursive_types(V)]
#[verifier::reject_recursive_types(S)]
pub struct ExDashMap<K, V, S>(DashMap<K, V, S>);

/// The entries of a registry map, keys and values taken by their characters.
pub uninterp spec fn dashmap_entries(m: DashMap<String, SaveTarget, RandomState>) -> Map<Seq<char>, (Seq<char>, Seq<char>)>;

/// Where the save file of an application lies, and the application's name.
#[derive(Clone, Debug)]
pub struct SaveTarget {
    pub save_path: String,
    pub app_name: String,
}

/// The characters of a registry value.
pub open spec fn entry_view(v: SaveTarget) -> (Seq<char>, Seq<char>) {
    (v.save_path@, v.app_name@)
}

/// Calls `DashMap::new`, which makes a map with no entries.
#[verifier::external_body]
fn dashmap_new() -> (fresh: DashMap<String, SaveTarget, RandomState>)
    ensures
        dashmap_entries(fresh) =~= Map::empty(),
{
    DashMap::new()
}

/// Calls `DashMap::insert`: afterwards `key` maps to `value`, the other entries
/// stay; the value that `key` had before comes back.
#[verifier::external_body]
fn dashmap_insert(m: &mut DashMap<String, SaveTarget, RandomState>, key: String, value: SaveTarget) -> (prev: Option<SaveTarget>)
    ensures
        dashmap_entries(*final(m)) == dashmap_entries(*old(m)).insert(key@, entry_view(value)),
        prev is Some <==> dashmap_entries(*old(m)).contains_key(key@),
        prev matches Some(p) ==> entry_view(p) == dashmap_entries(*old(m))[key@],
{
    m.insert(key, value)
}

/// Calls `DashMap::remove`: afterwards `key` has no entry, the other entries
/// stay; the removed entry comes back.
#[verifier::external_body]
fn dashmap_remove(m: &mut DashMap<String, SaveTarget, RandomState>, key: &String) -> (prev: Option<(String, SaveTarget)>)
    ensures
        dashmap_entries(*final(m)) == dashmap_entries(*old(m)).remove(key@),
        prev is Some <==> dashmap_entries(*old(m)).contains_key(key@),
        prev matches Some(p) ==> p.0@ == key@ && entry_view(p.1) == dashmap_entries(*old(m))[key@],
{
    m.remove(key)
}

/// Calls `DashMap::contains_key`: whether `key` has an entry.
#[verifier::external_body]
fn dashmap_contains_key(m: &DashMap<String, SaveTarget, RandomState>, key: &String) -> (b: bool)
    ensures
        b == dashmap_entries(*m).contains_key(key@),
{
    m.contains_key(key)
}

/// Calls `DashMap::get` and clones the value that it refers to.
#[verifier::external_body]
fn dashmap_get(m: &DashMap<String, SaveTarget, RandomState>, key: &String) -> (v: Option<SaveTarget>)
    ensures
        v is Some <==> dashmap_entries(*m).contains_key(key@),
        v matches Some(v) ==> entry_view(v) == dashmap_entries(*m)[key@],
{
    match m.get(key) {
        Some(r) => Some(r.value().clone()),
        None => None,
    }
}

/// Whether `target` belongs to an application other than `app_name`.
pub fn is_other_app(target: &SaveTarget, app_name: &String) -> (b: bool)
    ensures
        b == (target.app_name@ != app_name@),
{
    !(target.app_name == *app_name)
}

/// `m` without the entries whose application is named `app_name`.
pub open spec fn without_app(m: Map<Seq<char>, (Seq<char>, Seq<char>)>, app_name: Seq<char>) -> Map<Seq<char>, (Seq<char>, Seq<char>)> {
    m.restrict(m.dom().filter(|k: Seq<char>| m[k].1 != app_name))
}

/// Calls `DashMap::retain` with a closure that keeps an entry where
/// `is_other_app` says that it belongs to an application other than
/// `app_name`: the entries of `app_name` go, the others stay.
#[verifier::external_body]
fn dashmap_retain_other_apps(m: &mut DashMap<String, SaveTarget, RandomState>, app_name: &String)
    ensures
        dashmap_entries(*final(m)) == without_app(dashmap_entries(*old(m)), app_name@),
{
    m.retain(|_, v| is_other_app(v, app_name))
}

/// The registry of the daemon, keyed by the file name of an application's
/// executable; each value holds the path of the save file and the
/// application's name.
pub struct UploadMap {
    entries: DashMap<String, SaveTarget, RandomState>,
}

impl View for UploadMap {
    type V = Map<Seq<char>, (Seq<char>, Seq<char>)>;

    closed spec fn view(&self) -> Map<Seq<char>, (Seq<char>, Seq<char>)> {
        dashmap_entries(self.entries)
    }
}

impl UploadMap {
    /// The registry holds finitely many entries.
    #[verifier::type_invariant]
    pub(crate) open spec fn finite_entries(self) -> bool {
        self@.dom().finite()
    }

    /// An empty registry.
    pub fn new() -> (m: UploadMap)
        ensures
            m@ == Map::<Seq<char>, (Seq<char>, Seq<char>)>::empty(),
            m@.dom().finite(),
    {
        let entries = dashmap_new();
        assert(dashmap_entries(entries).dom() =~= Set::<Seq<char>>::empty());
        UploadMap { entries }
    }

    /// Registers `value` under `key`, in place of what `key` had.
    pub fn insert(&mut self, key: String, value: SaveTarget)
        ensures
            final(self)@ == old(self)@.insert(key@, entry_view(value)),
            final(self)@.dom().finite(),
    {
        proof {
            use_type_invariant(&*self);
        }
        let mut entries = dashmap_new();
        assert(dashmap_entries(entries).dom() =~= Set::<Seq<char>>::empty());
        std::mem::swap(&mut entries, &mut self.entries);
        let _ = dashmap_insert(&mut entries, key, value);
        self.entries = entries;
    }

    /// Forgets the entry of `key`, if there is one.
    pub fn remove(&mut self, key: &String)
        ensures
            final(self)@ == old(self)@.remove(key@),
            final(self)@.dom().finite(),
    {
        proof {
            use_type_invariant(&*self);
        }
        let mut entries = dashmap_new();
        assert(dashmap_entries(entries).dom() =~= Set::<Seq<char>>::empty());
        std::mem::swap(&mut entries, &mut self.entries);
        let _ = dashmap_remove(&mut entries, key);
        self.entries = entries;
    }

    /// Forgets every entry whose application is named `app_name`.
    pub fn remove_app(&mut self, app_name: &String)
        ensures
            final(self)@ == without_app(old(self)@, app_name@),
            final(self)@.dom().finite(),
    {
        proof {
            use_type_invariant(&*self);
        }
        let mut entries = dashmap_new();
        assert(dashmap_entries(entries).dom() =~= Set::<Seq<char>>::empty());
        std::mem::swap(&mut entries, &mut self.entries);
        let ghost before = dashmap_entries(entries);
        dashmap_retain_other_apps(&mut entries, app_name);
        proof {
            assert(dashmap_entries(entries).dom().subset_of(before.dom()));
            vstd::set_lib::lemma_len_subset(dashmap_entries(entries).dom(), before.dom());
        }
        self.entries = entries;
    }

    /// Whether `key` is registered.
    pub fn contains_key(&self, key: &String) -> (b: bool)
        ensures
            b == self@.contains_key(key@),
            self@.dom().finite(),
    {
        proof {
            use_type_invariant(self);
        }
        dashmap_contains_key(&self.entries, key)
    }

    /// The value registered under `key`, if any.
    pub fn get(&self, key: &String) -> (v: Option<SaveTarget>)
        ensures
            v is Some <==> self@.contains_key(key@),
            v matches Some(v) ==> entry_view(v) == self@[key@],
            self@.dom().finite(),
    {
        proof {
            use_type_invariant(self);
        }
        dashmap_get(&self.entries, key)
    }
}

} // verus!
