//! The persisted configuration: the user's session value. Loading and
//! storing it on disk is the surrounding program's business.

use vstd::prelude::*;

verus! {

/// The one persisted setting: the session cookie value.
#[derive(Debug)]
pub struct Config {
    pub session: String,
}

impl Default for Config {
    /// An empty session.
    fn default() -> (r: Config)
        ensures
            r.session@ == Seq::<char>::empty(),
    {
        Config { session: String::new() }
    }
}

} // verus!
