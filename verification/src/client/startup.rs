//! What the client shows when it starts.
use vstd::prelude::*;
use vstd::string::*;
use crate::text::views;

verus! {

/// The process name under which the daemon runs.
pub open spec fn daemon_process_name() -> Seq<char> {
    "save_deamon.exe"@
}

/// Whether a process named as the daemon is among `process_names`.
pub fn is_daemon_running(process_names: &Vec<String>) -> (b: bool)
    ensures
        b == views(process_names@).contains(daemon_process_name()),
{
    let daemon = String::from_str("save_deamon.exe");
    let mut i: usize = 0;
    while i < process_names.len()
        invariant
            i <= process_names.len(),
            daemon@ == daemon_process_name(),
            forall|j: int| 0 <= j < i ==> process_names@[j]@ != daemon_process_name(),
        decreases process_names.len() - i,
    {
        if process_names[i] == daemon {
            assert(views(process_names@)[i as int] == daemon_process_name());
            return true;
        }
        i = i + 1;
    }
    assert forall|j: int| 0 <= j < views(process_names@).len() implies views(process_names@)[j] != daemon_process_name() by {
        assert(views(process_names@)[j] == process_names@[j]@);
    }
    false
}

/// The first window of the client.
pub enum StartScreen {
    /// The sign-in window, where no token was saved yet.
    SignIn,
    /// The list of applications.
    Main,
}

/// The first window: sign-in until a token is saved, then the application list.
pub fn start_screen(token_saved: bool) -> (s: StartScreen)
    ensures
        token_saved ==> s is Main,
        !token_saved ==> s is SignIn,
{
    if !token_saved {
        StartScreen::SignIn
    } else {
        StartScreen::Main
    }
}

} // verus!
