//! What a starting instance does with the token it was given and the one it
//! kept from its last run.

use vstd::prelude::*;
use vstd::string::*;

verus! {

/// What a starting instance has decided.
#[derive(Clone, Debug)]
pub struct Startup {
    /// The token to hand to the download engine before any other, if any.
    pub resume: Option<String>,
    /// Whether the user has to be asked for a key.
    pub needs_key: bool,
    /// The token to keep for the next run; empty where none is kept.
    pub last_download: String,
}

/// The token that counts at start: the one given, or else the one kept.
pub open spec fn startup_token(argument: Seq<char>, stored: Seq<char>) -> Seq<char> {
    if argument.len() == 0 {
        stored
    } else {
        argument
    }
}

/// Decides what a starting instance does. The token given on the command
/// line counts before the one kept from the last run; a token is handed to
/// the download engine once; it is kept for the next run only while there is
/// no key to resolve it with.
pub fn startup(argument: &str, stored: &str, api_key: &str) -> (r: Startup)
    ensures
        r.needs_key == (api_key@.len() == 0),
        match r.resume {
            Some(token) => token@ == startup_token(argument@, stored@) && token@.len() > 0,
            None => startup_token(argument@, stored@).len() == 0,
        },
        r.last_download@ == if r.needs_key {
            startup_token(argument@, stored@)
        } else {
            Seq::<char>::empty()
        },
{
    let token: &str = if argument.unicode_len() == 0 {
        stored
    } else {
        argument
    };
    let needs_key = api_key.unicode_len() == 0;
    let resume = if token.unicode_len() == 0 {
        None
    } else {
        Some(String::from_str(token))
    };
    let last_download = if needs_key {
        String::from_str(token)
    } else {
        String::new()
    };
    Startup { resume, needs_key, last_download }
}

} // verus!
