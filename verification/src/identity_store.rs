//! Where this client's key is kept.
use vstd::prelude::*;

use crate::text::texts;

verus! {

pub const KEY_FILE: &'static str = "identity.key";

/// Where the key is kept: in a file of its own among the app's data. The path
/// is its parts.
pub fn key_path(app_data: &str) -> (r: Vec<String>)
    ensures
        texts(r@) == seq![app_data@, KEY_FILE@],
{
    broadcast use vstd::string::group_string_axioms;

    let mut path: Vec<String> = Vec::new();
    path.push(app_data.to_string());
    path.push(KEY_FILE.to_string());
    assert(texts(path@) =~= seq![app_data@, KEY_FILE@]);
    path
}

} // verus!
