//! Where the poller keeps its state, as paths relative to the user's home
//! directory. The caller resolves the home directory and joins these onto
//! it; that lookup is environment I/O and stays outside the library.

use vstd::prelude::*;

verus! {

/// The config record holding the access token, relative to home.
pub fn get_config_path() -> (r: String)
    ensures
        r@ == ".gh-notify/config"@,
{
    ".gh-notify/config".to_owned()
}

/// The persisted-notification record, relative to home.
pub fn get_notifications_path() -> (r: String)
    ensures
        r@ == ".gh-notify/prev_notifications.json"@,
{
    ".gh-notify/prev_notifications.json".to_owned()
}

} // verus!
