//! The session boundary's own pieces: the credential body a login carries,
//! and the catcher message for a rejected one.  Issuing and destroying the
//! session cookie itself happens outside the library.

use vstd::prelude::*;

use crate::text::{chars_string, str_chars};

verus! {

/// The body of a login request.
#[derive(Debug, PartialEq, Clone)]
pub struct Credentials {
    pub email: String,
    pub pass: String,
    pub phc: Option<String>,
}

/// The catcher message for a rejected credential, naming the request's
/// uri.
pub fn email_or_pw_incorrect(uri: &str) -> (r: String)
    ensures
        r@ == "You lack needed persmisison or your provided credentials were incorrect. "@
            + uri@,
{
    let mut v = str_chars(
        "You lack needed persmisison or your provided credentials were incorrect. ",
    );
    let mut u = str_chars(uri);
    v.append(&mut u);
    chars_string(&v)
}

} // verus!
