//! The answers of the authorization server: it sends users to the Dropbox
//! authorization page, and exchanges the code that Dropbox gave them for a
//! token.
use vstd::prelude::*;
use vstd::string::*;
use crate::text::{join_strs, push_char};

verus! {

/// HTTP status 200 OK.
pub const STATUS_OK: u16 = 200;
/// HTTP status 308 Permanent Redirect.
pub const STATUS_PERMANENT_REDIRECT: u16 = 308;
/// HTTP status 400 Bad Request.
pub const STATUS_BAD_REQUEST: u16 = 400;
/// HTTP status 406 Not Acceptable.
pub const STATUS_NOT_ACCEPTABLE: u16 = 406;

/// An HTTP answer: a status, an optional `Location` header, and a body.
pub struct SimpleResponse {
    pub status: u16,
    pub location: Option<String>,
    pub body: String,
}

/// A byte that a header value may hold for it to read as text: visible
/// ASCII or a tab.
pub open spec fn is_visible_ascii(b: u8) -> bool {
    (32 <= b && b < 127) || b == 9
}

/// The text of a header value whose bytes are all visible ASCII.
pub open spec fn header_text(bytes: Seq<u8>) -> Seq<char> {
    Seq::new(bytes.len(), |i: int| bytes[i] as char)
}

/// The code that a header value carries: its text where every byte is
/// visible ASCII or a tab, else the empty text.
pub open spec fn code_of(bytes: Seq<u8>) -> Seq<char> {
    if forall|i: int| 0 <= i < bytes.len() ==> is_visible_ascii(#[trigger] bytes[i]) {
        header_text(bytes)
    } else {
        Seq::empty()
    }
}

fn all_visible_ascii(bytes: &Vec<u8>) -> (b: bool)
    ensures
        b == forall|i: int| 0 <= i < bytes.len() ==> is_visible_ascii(#[trigger] bytes@[i]),
{
    let mut i: usize = 0;
    while i < bytes.len()
        invariant
            i <= bytes.len(),
            forall|j: int| 0 <= j < i ==> is_visible_ascii(#[trigger] bytes@[j]),
        decreases bytes.len() - i,
    {
        let b = bytes[i];
        if !((32 <= b && b < 127) || b == 9) {
            assert(!is_visible_ascii(bytes@[i as int]));
            return false;
        }
        i = i + 1;
    }
    true
}

/// A header value of visible ASCII and tabs gives its text as the code, byte
/// for byte; a value with any other byte gives the empty code.
pub proof fn lemma_header_code(bytes: Seq<u8>)
    ensures
        (forall|i: int| 0 <= i < bytes.len() ==> (32 <= #[trigger] bytes[i] <= 126 || bytes[i] == 9))
            ==> code_of(bytes) == Seq::new(bytes.len(), |i: int| bytes[i] as char),
        (exists|i: int| 0 <= i < bytes.len() && !(32 <= #[trigger] bytes[i] <= 126 || bytes[i] == 9))
            ==> code_of(bytes) == Seq::<char>::empty(),
{
    if forall|i: int| 0 <= i < bytes.len() ==> (32 <= #[trigger] bytes[i] <= 126 || bytes[i] == 9) {
        assert forall|i: int| 0 <= i < bytes.len() implies is_visible_ascii(#[trigger] bytes[i]) by {
            assert(32 <= bytes[i] <= 126 || bytes[i] == 9);
        }
    }
    if exists|i: int| 0 <= i < bytes.len() && !(32 <= #[trigger] bytes[i] <= 126 || bytes[i] == 9) {
        let i = choose|i: int| 0 <= i < bytes.len() && !(32 <= #[trigger] bytes[i] <= 126 || bytes[i] == 9);
        assert(!is_visible_ascii(bytes[i]));
    }
}

/// The redirect to the Dropbox authorization page at `redirect_uri`: status
/// 308, the page in `Location`, and a body that names the page too.
pub fn generate_auth_link(redirect_uri: &String) -> (r: SimpleResponse)
    ensures
        r.status == STATUS_PERMANENT_REDIRECT,
        r.location matches Some(l) && l@ == redirect_uri@,
        r.body@ == "If you didn't get redirect go to this link: "@ + redirect_uri@,
{
    SimpleResponse {
        status: STATUS_PERMANENT_REDIRECT,
        location: Some(redirect_uri.clone()),
        body: join_strs("If you didn't get redirect go to this link: ", redirect_uri.as_str()),
    }
}

/// An answer with `status` and the body `message`, and no `Location`.
pub fn create_simple_response(status: u16, message: String) -> (r: SimpleResponse)
    ensures
        r.status == status,
        r.location is None,
        r.body@ == message@,
{
    SimpleResponse { status, location: None, body: message }
}

/// The code to exchange, from the value of the `X-Dropbox-Code` header: an
/// absent header is answered with 400 "Missing header value"; a value that
/// does not read as text gives the empty code.
pub fn code_from_header(header: Option<Vec<u8>>) -> (r: Result<String, SimpleResponse>)
    ensures
        match header {
            None => r matches Err(resp) && resp.status == STATUS_BAD_REQUEST && resp.location is None
                && resp.body@ == "Missing header value"@,
            Some(bytes) => r matches Ok(code) && code@ == code_of(bytes@),
        },
        match header {
            None => true,
            Some(bytes) => (forall|i: int| 0 <= i < bytes.len() ==> (32 <= #[trigger] bytes@[i] <= 126 || bytes@[i] == 9))
                ==> (r matches Ok(code) && code@ == Seq::new(bytes.len() as nat, |i: int| bytes@[i] as char)),
        },
{
    match header {
        None => Err(create_simple_response(STATUS_BAD_REQUEST, String::from_str("Missing header value"))),
        Some(bytes) => {
            proof {
                lemma_header_code(bytes@);
            }
            if !all_visible_ascii(&bytes) {
                assert(code_of(bytes@) =~= Seq::<char>::empty());
                return Ok(String::new());
            }
            let mut code = String::new();
            let mut k: usize = 0;
            while k < bytes.len()
                invariant
                    k <= bytes.len(),
                    forall|j: int| 0 <= j < bytes.len() ==> is_visible_ascii(#[trigger] bytes@[j]),
                    code@ == header_text(bytes@.subrange(0, k as int)),
                decreases bytes.len() - k,
            {
                assert(is_visible_ascii(bytes@[k as int]));
                push_char(&mut code, bytes[k] as char);
                assert(code@ =~= header_text(bytes@.subrange(0, k + 1)));
                k = k + 1;
            }
            assert(bytes@.subrange(0, bytes.len() as int) =~= bytes@);
            Ok(code)
        },
    }
}

/// The answer to an exchange: 200 with the token where Dropbox gave one,
/// else 406 "Provided code is not valid!".
pub fn token_response(token: Option<String>) -> (r: SimpleResponse)
    ensures
        r.location is None,
        match token {
            Some(t) => r.status == STATUS_OK && r.body@ == t@,
            None => r.status == STATUS_NOT_ACCEPTABLE && r.body@ == "Provided code is not valid!"@,
        },
{
    match token {
        Some(t) => create_simple_response(STATUS_OK, t),
        None => create_simple_response(STATUS_NOT_ACCEPTABLE, String::from_str("Provided code is not valid!")),
    }
}

} // verus!
