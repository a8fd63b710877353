//! The logic of the application list window: its rows, the application that
//! a row shows, and how the settings form saves an application.
use vstd::prelude::*;
use vstd::string::*;
use crate::text::{join_strs, replace, replace_all, contains_pattern, lemma_remove_prefix};
use crate::client::apps::{App, Apps};

verus! {

/// `file:///`, the start of the URI of a local file.
pub open spec fn file_uri_prefix() -> Seq<char> {
    seq!['f', 'i', 'l', 'e', ':', '/', '/', '/']
}

/// The URI under which the file chooser shows the local file `path`.
pub open spec fn file_uri_of(path: Seq<char>) -> Seq<char> {
    file_uri_prefix() + path
}

/// The path that the settings form stores for the chosen URI `uri`: the URI
/// with each `file:///` taken out.
pub open spec fn path_of_uri(uri: Seq<char>) -> Seq<char> {
    replace_all(uri, file_uri_prefix(), Seq::empty())
}

/// The URI of the local file `path`.
pub fn file_uri(path: &String) -> (r: String)
    ensures
        r@ == file_uri_of(path@),
{
    proof {
        reveal_strlit("file:///");
        assert("file:///"@ =~= file_uri_prefix());
    }
    join_strs("file:///", path.as_str())
}

/// The path stored for the chosen URI `uri`.
pub fn path_from_uri(uri: &String) -> (r: String)
    ensures
        r@ == path_of_uri(uri@),
{
    proof {
        reveal_strlit("file:///");
        reveal_strlit("");
        assert("file:///"@ =~= file_uri_prefix());
        assert(""@ =~= Seq::<char>::empty());
    }
    replace(uri.as_str(), "file:///", "")
}

/// Showing an application and saving it unchanged keeps its paths: the path
/// read back from a file's URI is the file's path, for every path in which
/// `file:///` does not occur.
pub proof fn lemma_path_uri_roundtrip(path: Seq<char>)
    requires
        !contains_pattern(path, file_uri_prefix()),
    ensures
        path_of_uri(file_uri_of(path)) == path,
{
    lemma_remove_prefix(file_uri_prefix(), path);
}

/// A row of the application list: its number, from 1, and the name shown.
pub struct Row {
    pub id: u32,
    pub name: String,
}

/// How saving the settings form changed the list.
pub enum SaveOutcome {
    /// The application of the selected row was replaced.
    Replaced,
    /// The application was added to the list; `row` is the new row to show.
    Appended { row: Row },
}

/// A row as its number and the characters of its name.
pub open spec fn row_view(r: Row) -> (u32, Seq<char>) {
    (r.id, r.name@)
}

/// The rows shown match the list: each row's number is a position of the
/// list, counted from 1, whose application has the row's name; no two rows
/// share a number.
pub open spec fn rows_match(rows: Seq<(u32, Seq<char>)>, apps: Seq<App>) -> bool {
    &&& forall|i: int| 0 <= i < rows.len() ==> 1 <= (#[trigger] rows[i]).0 <= apps.len()
        && apps[rows[i].0 - 1].name@ == rows[i].1
    &&& forall|i: int, j: int| 0 <= i < j < rows.len() ==> (#[trigger] rows[i]).0 != (#[trigger] rows[j]).0
}

/// The rows shown after saving `app` with `selected` chosen: a replaced
/// application keeps its row; an appended one gets a new last row.
pub open spec fn rows_after_save(rows: Seq<(u32, Seq<char>)>, apps: Seq<App>, selected: Option<u32>, app: App) -> Seq<(u32, Seq<char>)> {
    if replaces_row(apps, selected) {
        rows
    } else {
        rows.push(((apps.len() + 1) as u32, app.name@))
    }
}

/// The application that the row numbered `row_id` shows, if any.
pub open spec fn app_at_row(apps: Seq<App>, row_id: u32) -> Option<App> {
    if 1 <= row_id && row_id - 1 < apps.len() {
        Some(apps[row_id - 1])
    } else {
        None
    }
}

/// Saving with `selected` replaces an application, rather than appending one.
pub open spec fn replaces_row(apps: Seq<App>, selected: Option<u32>) -> bool {
    selected matches Some(r) && app_at_row(apps, r) is Some
}

/// The list after saving `app` with the row `selected` chosen.
pub open spec fn saved_apps(apps: Seq<App>, selected: Option<u32>, app: App) -> Seq<App> {
    if replaces_row(apps, selected) {
        apps.update(selected.unwrap() - 1, app)
    } else {
        apps.push(app)
    }
}

/// The number of the row that shows `app` after it was saved.
pub open spec fn saved_row(apps: Seq<App>, selected: Option<u32>) -> int {
    if replaces_row(apps, selected) {
        selected.unwrap() as int
    } else {
        apps.len() as int + 1
    }
}

impl App {
    /// The application described by the settings form: its name, and the
    /// paths of the chosen executable and save file.
    pub fn from_form(name: String, executable_uri: &String, upload_uri: &String) -> (a: App)
        ensures
            a.name@ == name@,
            a.executable@ == path_of_uri(executable_uri@),
            a.upload_path@ == path_of_uri(upload_uri@),
    {
        App {
            name,
            executable: path_from_uri(executable_uri),
            upload_path: path_from_uri(upload_uri),
        }
    }

    /// The URI under which the form shows the executable.
    pub fn executable_uri(&self) -> (r: String)
        ensures
            r@ == file_uri_of(self.executable@),
    {
        file_uri(&self.executable)
    }

    /// The URI under which the form shows the save file.
    pub fn upload_uri(&self) -> (r: String)
        ensures
            r@ == file_uri_of(self.upload_path@),
    {
        file_uri(&self.upload_path)
    }
}

impl Apps {
    /// The rows of the list: the application at position `i` on the row
    /// numbered `i + 1`.
    pub fn rows(&self) -> (rows: Vec<Row>)
        requires
            self.0.len() <= u32::MAX,
        ensures
            rows.len() == self.0.len(),
            forall|i: int| 0 <= i < rows.len() ==> (#[trigger] rows@[i]).id == i + 1 && rows@[i].name@ == self.0@[i].name@,
            rows_match(rows@.map_values(|r: Row| row_view(r)), self.0@),
    {
        let mut rows: Vec<Row> = Vec::new();
        let mut i: usize = 0;
        while i < self.0.len()
            invariant
                i <= self.0.len(),
                self.0.len() <= u32::MAX,
                rows.len() == i,
                forall|k: int| 0 <= k < i ==> (#[trigger] rows@[k]).id == k + 1 && rows@[k].name@ == self.0@[k].name@,
            decreases self.0.len() - i,
        {
            rows.push(Row { id: i as u32 + 1, name: self.0[i].name.clone() });
            i = i + 1;
        }
        let ghost shown = rows@.map_values(|r: Row| row_view(r));
        assert forall|a: int, b: int| 0 <= a < b < shown.len() implies (#[trigger] shown[a]).0 != (#[trigger] shown[b]).0 by {
            assert(shown[a] == row_view(rows@[a]));
            assert(shown[b] == row_view(rows@[b]));
        }
        assert forall|a: int| 0 <= a < shown.len() implies 1 <= (#[trigger] shown[a]).0 <= self.0@.len()
            && self.0@[shown[a].0 - 1].name@ == shown[a].1 by {
            assert(shown[a] == row_view(rows@[a]));
        }
        rows
    }

    /// The application that the row numbered `row_id` shows, if any.
    pub fn selected(&self, row_id: u32) -> (r: Option<&App>)
        requires
            row_id >= 1,
        ensures
            match r {
                Some(a) => app_at_row(self.0@, row_id) == Some(*a),
                None => app_at_row(self.0@, row_id) is None,
            },
    {
        let index = (row_id - 1) as usize;
        if index < self.0.len() {
            Some(&self.0[index])
        } else {
            None
        }
    }

    /// Saves `app` from the settings form: it replaces the application of the
    /// selected row, or, where no row is selected or the selected row shows
    /// none, it is added as a new last row.
    pub fn save(&mut self, selected: Option<u32>, app: App) -> (o: SaveOutcome)
        requires
            selected matches Some(r) ==> r >= 1,
            !replaces_row(old(self).0@, selected) ==> old(self).0.len() < u32::MAX,
        ensures
            final(self).0@ == saved_apps(old(self).0@, selected, app),
            replaces_row(old(self).0@, selected) ==> o is Replaced,
            !replaces_row(old(self).0@, selected) ==> (o matches SaveOutcome::Appended { row }
                && row_view(row) == ((old(self).0.len() + 1) as u32, app.name@)),
            forall|r: u32| selected == Some(r) && 1 <= r <= old(self).0.len() ==> (o is Replaced
                && final(self).0@ == old(self).0@.update(r - 1, app)),
            !(selected matches Some(r) && 1 <= r <= old(self).0.len()) ==> (o is Appended
                && final(self).0@ == old(self).0@.push(app)),
    {
        proof {
            lemma_save_replaces_selected_row(old(self).0@, selected, app);
        }
        if let Some(r) = selected {
            let index = (r - 1) as usize;
            if index < self.0.len() {
                self.0.set(index, app);
                return SaveOutcome::Replaced;
            }
        }
        let row = Row { id: self.0.len() as u32 + 1, name: app.name.clone() };
        self.0.push(app);
        SaveOutcome::Appended { row }
    }
}

/// Saving with a selected row that shows an application replaces that
/// application in place, keeping the number of applications; saving with no
/// row selected, or with a row past the end, adds the application after the
/// last one.
pub proof fn lemma_save_replaces_selected_row(apps: Seq<App>, selected: Option<u32>, app: App)
    ensures
        forall|r: u32| selected == Some(r) && 1 <= r <= apps.len() ==> replaces_row(apps, selected)
            && saved_apps(apps, selected, app).len() == apps.len()
            && saved_apps(apps, selected, app)[r - 1] == app
            && forall|i: int| 0 <= i < apps.len() && i != r - 1 ==> #[trigger] saved_apps(apps, selected, app)[i] == apps[i],
        !(selected matches Some(r) && 1 <= r <= apps.len()) ==> !replaces_row(apps, selected)
            && saved_apps(apps, selected, app).len() == apps.len() + 1
            && saved_apps(apps, selected, app)[apps.len() as int] == app
            && forall|i: int| 0 <= i < apps.len() ==> #[trigger] saved_apps(apps, selected, app)[i] == apps[i],
{
}

/// A saved application is found again on its row: after a save, the row of
/// the saved application shows it.
pub proof fn lemma_saved_app_is_shown(apps: Seq<App>, selected: Option<u32>, app: App)
    requires
        !replaces_row(apps, selected) ==> apps.len() < u32::MAX,
    ensures
        app_at_row(saved_apps(apps, selected, app), saved_row(apps, selected) as u32) == Some(app),
{
}

/// Saving changes one row only: every other row shows what it showed before.
pub proof fn lemma_save_keeps_other_rows(apps: Seq<App>, selected: Option<u32>, app: App, row_id: u32)
    requires
        !replaces_row(apps, selected) ==> apps.len() < u32::MAX,
        row_id != saved_row(apps, selected),
    ensures
        app_at_row(saved_apps(apps, selected, app), row_id) == app_at_row(apps, row_id),
{
}

/// Saving keeps the rows matching the list, where a replaced application
/// keeps its name (the form shows the name of a selected application read
/// only).
pub proof fn lemma_save_keeps_rows_matching(rows: Seq<(u32, Seq<char>)>, apps: Seq<App>, selected: Option<u32>, app: App)
    requires
        rows_match(rows, apps),
        !replaces_row(apps, selected) ==> apps.len() < u32::MAX,
        replaces_row(apps, selected) ==> app.name@ == apps[selected.unwrap() - 1].name@,
    ensures
        rows_match(rows_after_save(rows, apps, selected, app), saved_apps(apps, selected, app)),
{
    let after = rows_after_save(rows, apps, selected, app);
    let list = saved_apps(apps, selected, app);
    assert forall|i: int| 0 <= i < after.len() implies 1 <= (#[trigger] after[i]).0 <= list.len()
        && list[after[i].0 - 1].name@ == after[i].1 by {
        if i < rows.len() {
            assert(after[i] == rows[i]);
        }
    }
    assert forall|i: int, j: int| 0 <= i < j < after.len() implies (#[trigger] after[i]).0 != (#[trigger] after[j]).0 by {
        if j < rows.len() {
            assert(after[i] == rows[i] && after[j] == rows[j]);
        } else {
            assert(after[i] == rows[i]);
        }
    }
}

/// Taking a row off the view keeps the rows matching the list.
pub proof fn lemma_remove_row_keeps_rows_matching(rows: Seq<(u32, Seq<char>)>, apps: Seq<App>, k: int)
    requires
        rows_match(rows, apps),
        0 <= k < rows.len(),
    ensures
        rows_match(rows.remove(k), apps),
{
    let after = rows.remove(k);
    assert forall|i: int| 0 <= i < after.len() implies 1 <= (#[trigger] after[i]).0 <= apps.len()
        && apps[after[i].0 - 1].name@ == after[i].1 by {
        if i < k {
            assert(after[i] == rows[i]);
        } else {
            assert(after[i] == rows[i + 1]);
        }
    }
    assert forall|i: int, j: int| 0 <= i < j < after.len() implies (#[trigger] after[i]).0 != (#[trigger] after[j]).0 by {
        let ii = if i < k { i } else { i + 1 };
        let jj = if j < k { j } else { j + 1 };
        assert(after[i] == rows[ii] && after[j] == rows[jj]);
    }
}

} // verus!
