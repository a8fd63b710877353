//! Signing in: the addresses of the authorization server, and what an answer
//! of that server means.
use vstd::prelude::*;
use crate::text::join_strs;

verus! {

/// The page that starts the Dropbox sign-in, on the server at `api_url`.
pub fn get_dropbox_oauth_link(api_url: &String) -> (r: String)
    ensures
        r@ == api_url@ + "/generate_dropbox_auth"@,
{
    join_strs(api_url.as_str(), "/generate_dropbox_auth")
}

/// The address at which the server at `api_url` exchanges a code for a token.
pub fn exchange_code_uri(api_url: &String) -> (r: String)
    ensures
        r@ == api_url@ + "/exchange_code"@,
{
    join_strs(api_url.as_str(), "/exchange_code")
}

/// What came of sending a code to the authorization server.
pub enum ExchangeReply {
    /// The request could not be sent.
    Unsent,
    /// The server answered with `status`; `body` is the text of the answer,
    /// read where the status is 200.
    Answered { status: u16, body: Option<String> },
}

/// The token, or why there is none: `Err(true)` where the server refused the
/// code (status 406), `Err(false)` where the request failed otherwise.
pub fn exchange_result(reply: ExchangeReply) -> (r: Result<String, bool>)
    requires
        reply matches ExchangeReply::Answered { status, body } ==> (status == 200 ==> body is Some),
    ensures
        match reply {
            ExchangeReply::Unsent => r == Err::<String, bool>(false),
            ExchangeReply::Answered { status, body } => if status == 200 {
                r matches Ok(t) && body matches Some(b) && t@ == b@
            } else if status == 406 {
                r == Err::<String, bool>(true)
            } else {
                r == Err::<String, bool>(false)
            },
        },
{
    match reply {
        ExchangeReply::Unsent => Err(false),
        ExchangeReply::Answered { status, body } => {
            if status == 200 {
                match body {
                    Some(b) => Ok(b),
                    None => vstd::pervasive::unreached(),
                }
            } else if status == 406 {
                Err(true)
            } else {
                Err(false)
            }
        },
    }
}

/// What the sign-in window does once a code was submitted.
pub enum SubmitAction {
    /// Save the token, ask for a restart and close the window.
    StoreToken(String),
    /// Show that the code was wrong.
    ShowWrongCode,
    /// Leave the window as it is.
    Nothing,
}

/// The sign-in window's answer to the outcome of an exchange.
pub fn on_code_submitted(result: Result<String, bool>) -> (a: SubmitAction)
    ensures
        match result {
            Ok(t) => a matches SubmitAction::StoreToken(s) && s@ == t@,
            Err(true) => a is ShowWrongCode,
            Err(false) => a is Nothing,
        },
{
    match result {
        Ok(token) => SubmitAction::StoreToken(token),
        Err(was_wrong) => if was_wrong {
            SubmitAction::ShowWrongCode
        } else {
            SubmitAction::Nothing
        },
    }
}

} // verus!
