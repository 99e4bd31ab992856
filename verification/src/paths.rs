//! Resolution of the data root and of paths beneath it.
//!
//! The data root comes from the caller's environment; the caller hands the
//! looked-up value in, and a missing value falls back to `./data`.

use vstd::prelude::*;
use vstd::string::StringExecFns;

verus! {

/// The data directory: the configured value when one is set, `./data`
/// otherwise.
pub fn get_data_dir(configured: Option<String>) -> (r: String)
    ensures
        match configured {
            Some(d) => r@ == d@,
            None => r@ == "./data"@,
        },
{
    match configured {
        Some(d) => d,
        None => "./data".to_owned(),
    }
}

/// A path under the data directory: the directory itself for an empty
/// subpath, and the slash-joined path otherwise.
pub fn get_data_path(data_dir: &str, subpath: &str) -> (r: String)
    ensures
        subpath@.len() == 0 ==> r@ == data_dir@,
        subpath@.len() > 0 ==> r@ == data_dir@ + "/"@ + subpath@,
{
    if subpath.is_empty() {
        data_dir.to_owned()
    } else {
        let mut r: String = data_dir.to_owned();
        r.append("/");
        r.append(subpath);
        r
    }
}

} // verus!
