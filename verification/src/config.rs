//! Configuration for one fetch-and-post operation: the instance to post to,
//! the file that holds the saved token, and the calendar feed locator.

use vstd::prelude::*;

verus! {

/// Settings the application reads from its configuration file. The engine
/// itself only consumes `webcal`, the calendar feed locator.
pub struct Config {
    pub instance: String,
    pub token_file: String,
    pub webcal: String,
}

/// The token file path used when the configuration names none.
pub fn default_token_file() -> (r: String)
    ensures
        r@ == "token.json"@,
{
    String::from_str("token.json")
}

} // verus!
