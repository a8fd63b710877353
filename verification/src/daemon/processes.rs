//! Which registered applications run, and which have just closed.
use vstd::prelude::*;
use crate::text::views;
use crate::daemon::upload_map::{UploadMap, SaveTarget, entry_view};

verus! {

/// The names among `names` that the registry `m` has, in order and with
/// repetitions.
pub open spec fn running_apps(names: Seq<Seq<char>>, m: Map<Seq<char>, (Seq<char>, Seq<char>)>) -> Seq<Seq<char>>
    decreases names.len(),
{
    if names.len() == 0 {
        Seq::empty()
    } else {
        let r = running_apps(names.drop_last(), m);
        if m.contains_key(names.last()) {
            r.push(names.last())
        } else {
            r
        }
    }
}

/// The names of `previous` that `running` does not hold, in order and with
/// repetitions.
pub open spec fn closed_apps(previous: Seq<Seq<char>>, running: Seq<Seq<char>>) -> Seq<Seq<char>>
    decreases previous.len(),
{
    if previous.len() == 0 {
        Seq::empty()
    } else {
        let r = closed_apps(previous.drop_last(), running);
        if running.contains(previous.last()) {
            r
        } else {
            r.push(previous.last())
        }
    }
}

/// The registry values of `names`.
pub open spec fn registered_values(names: Seq<Seq<char>>, m: Map<Seq<char>, (Seq<char>, Seq<char>)>) -> Seq<(Seq<char>, Seq<char>)> {
    names.map_values(|k: Seq<char>| m[k])
}

/// The characters of each registry value.
pub open spec fn target_views(v: Seq<SaveTarget>) -> Seq<(Seq<char>, Seq<char>)> {
    v.map_values(|t: SaveTarget| entry_view(t))
}

fn contains_string(v: &Vec<String>, s: &String) -> (b: bool)
    ensures
        b == views(v@).contains(s@),
{
    let mut i: usize = 0;
    while i < v.len()
        invariant
            i <= v.len(),
            forall|j: int| 0 <= j < i ==> v@[j]@ != s@,
        decreases v.len() - i,
    {
        if v[i] == *s {
            assert(views(v@)[i as int] == s@);
            return true;
        }
        i = i + 1;
    }
    assert forall|j: int| 0 <= j < views(v@).len() implies views(v@)[j] != s@ by {
        assert(views(v@)[j] == v@[j]@);
    }
    false
}

/// The registered applications seen running at the last check.
pub struct ProcessWatch {
    /// The names of the registered executables that ran at the last check.
    pub previous: Vec<String>,
}

impl ProcessWatch {
    /// A watch that has seen nothing run yet.
    pub fn new() -> (w: ProcessWatch)
        ensures
            w.previous@.len() == 0,
    {
        ProcessWatch { previous: Vec::new() }
    }

    /// One check of the running processes, named `process_names`: the
    /// registered ones among them are kept as running, and for each
    /// executable that ran at the last check and runs no more, in order, the
    /// registry value comes back, for its save file to be uploaded.
    pub fn check(&mut self, process_names: &Vec<String>, map: &UploadMap) -> (uploads: Vec<SaveTarget>)
        requires
            forall|i: int| 0 <= i < old(self).previous.len() ==> map@.contains_key(#[trigger] old(self).previous@[i]@),
        ensures
            views(final(self).previous@) == running_apps(views(process_names@), map@),
            target_views(uploads@) == registered_values(
                closed_apps(views(old(self).previous@), views(final(self).previous@)),
                map@,
            ),
            views(final(self).previous@) == views(process_names@).filter(|x: Seq<char>| map@.contains_key(x)),
            target_views(uploads@) == registered_values(
                views(old(self).previous@).filter(|x: Seq<char>| !views(final(self).previous@).contains(x)),
                map@,
            ),
    {
        let ghost old_previous = views(self.previous@);
        let mut running: Vec<String> = Vec::new();
        let mut i: usize = 0;
        while i < process_names.len()
            invariant
                i <= process_names.len(),
                views(running@) == running_apps(views(process_names@.take(i as int)), map@),
            decreases process_names.len() - i,
        {
            let name = &process_names[i];
            assert(views(process_names@.take(i + 1)).drop_last() =~= views(process_names@.take(i as int)));
            assert(views(process_names@.take(i + 1)).last() == name@);
            if map.contains_key(name) {
                running.push(name.clone());
                assert(views(running@) =~= running_apps(views(process_names@.take(i as int)), map@).push(name@));
            }
            i = i + 1;
        }
        assert(process_names@.take(process_names.len() as int) =~= process_names@);
        let ghost prev = views(self.previous@);
        let mut uploads: Vec<SaveTarget> = Vec::new();
        let mut j: usize = 0;
        while j < self.previous.len()
            invariant
                j <= self.previous.len(),
                prev == views(self.previous@),
                forall|i: int| 0 <= i < self.previous.len() ==> map@.contains_key(#[trigger] self.previous@[i]@),
                target_views(uploads@) == registered_values(
                    closed_apps(views(self.previous@.take(j as int)), views(running@)),
                    map@,
                ),
            decreases self.previous.len() - j,
        {
            let name = &self.previous[j];
            assert(views(self.previous@.take(j + 1)).drop_last() =~= views(self.previous@.take(j as int)));
            assert(views(self.previous@.take(j + 1)).last() == name@);
            if !contains_string(&running, name) {
                let ghost before = uploads@;
                assert(map@.contains_key(self.previous@[j as int]@));
                match map.get(name) {
                    Some(target) => {
                        uploads.push(target);
                        assert(target_views(uploads@) =~= target_views(before).push(map@[name@]));
                        assert(registered_values(
                            closed_apps(views(self.previous@.take(j + 1)), views(running@)),
                            map@,
                        ) =~= registered_values(
                            closed_apps(views(self.previous@.take(j as int)), views(running@)),
                            map@,
                        ).push(map@[name@]));
                    },
                    None => {},
                }
            }
            j = j + 1;
        }
        assert(self.previous@.take(self.previous.len() as int) =~= self.previous@);
        self.previous = running;
        proof {
            lemma_running_apps_filters_names(views(process_names@), map@);
            lemma_closed_apps_filters_previous(old_previous, views(self.previous@));
        }
        uploads
    }
}

/// Every name of `previous` that `running` holds yields no upload.
pub proof fn lemma_closed_apps_of_running(previous: Seq<Seq<char>>, running: Seq<Seq<char>>)
    requires
        forall|i: int| 0 <= i < previous.len() ==> running.contains(#[trigger] previous[i]),
    ensures
        closed_apps(previous, running).len() == 0,
    decreases previous.len(),
{
    if previous.len() > 0 {
        assert(running.contains(previous[previous.len() - 1]));
        lemma_closed_apps_of_running(previous.drop_last(), running);
    }
}

/// An application that keeps running is not uploaded: a check that sees the
/// same processes as the one before it asks for no upload.
pub proof fn lemma_no_upload_while_running(names: Seq<Seq<char>>, m: Map<Seq<char>, (Seq<char>, Seq<char>)>)
    ensures
        closed_apps(running_apps(names, m), running_apps(names, m)).len() == 0,
{
    let r = running_apps(names, m);
    assert forall|i: int| 0 <= i < r.len() implies r.contains(#[trigger] r[i]) by {}
    lemma_closed_apps_of_running(r, r);
}

/// The names that a check reports as closed are exactly the names of
/// `previous` that `running` does not hold, in the order and with the
/// repetitions of `previous`.
pub proof fn lemma_closed_apps_filters_previous(previous: Seq<Seq<char>>, running: Seq<Seq<char>>)
    ensures
        closed_apps(previous, running) == previous.filter(|x: Seq<char>| !running.contains(x)),
    decreases previous.len(),
{
    reveal(Seq::filter);
    if previous.len() > 0 {
        lemma_closed_apps_filters_previous(previous.drop_last(), running);
    }
}

/// The names that a check keeps as running are exactly the registered names
/// among the process names, in order and with repetitions.
pub proof fn lemma_running_apps_filters_names(names: Seq<Seq<char>>, m: Map<Seq<char>, (Seq<char>, Seq<char>)>)
    ensures
        running_apps(names, m) == names.filter(|x: Seq<char>| m.contains_key(x)),
    decreases names.len(),
{
    reveal(Seq::filter);
    if names.len() > 0 {
        lemma_running_apps_filters_names(names.drop_last(), m);
    }
}

/// Every application that ran at the last check and runs no more is
/// uploaded, and no other: a name is among the closed names exactly when it
/// is among `previous` and not among `running`; and as many uploads come as
/// there are such entries of `previous`.
pub proof fn lemma_every_closed_app_is_uploaded(previous: Seq<Seq<char>>, running: Seq<Seq<char>>, x: Seq<char>)
    ensures
        closed_apps(previous, running).contains(x) <==> (previous.contains(x) && !running.contains(x)),
        closed_apps(previous, running).len() <= previous.len(),
        (forall|i: int| 0 <= i < previous.len() ==> !running.contains(#[trigger] previous[i]))
            ==> closed_apps(previous, running) == previous,
    decreases previous.len(),
{
    lemma_closed_apps_filters_previous(previous, running);
    let pred = |y: Seq<char>| !running.contains(y);
    previous.lemma_filter_len(pred);
    if previous.contains(x) && !running.contains(x) {
        let i = choose|i: int| 0 <= i < previous.len() && previous[i] == x;
        previous.lemma_filter_contains(pred, i);
    }
    if closed_apps(previous, running).contains(x) {
        previous.lemma_filter_contains_rev(pred, x);
    }
    if forall|i: int| 0 <= i < previous.len() ==> !running.contains(#[trigger] previous[i]) {
        if previous.len() > 0 {
            lemma_every_closed_app_is_uploaded(previous.drop_last(), running, x);
            assert(forall|i: int| 0 <= i < previous.drop_last().len() ==> !running.contains(#[trigger] previous.drop_last()[i]) ) by {
                assert forall|i: int| 0 <= i < previous.drop_last().len() implies !running.contains(#[trigger] previous.drop_last()[i]) by {
                    assert(previous.drop_last()[i] == previous[i]);
                }
            }
            assert(!running.contains(previous[previous.len() - 1]));
            assert(previous.drop_last().push(previous.last()) =~= previous);
        } else {
            assert(closed_apps(previous, running) =~= previous);
        }
    }
}

} // verus!
