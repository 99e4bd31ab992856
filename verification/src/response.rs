//! The payloads the backend hands back to its callers.

use vstd::prelude::*;
use vstd::string::StringExecFns;

verus! {

/// The outcome of an import: the resolved user, a human-readable status
/// message, and the freshly minted session credential when minting
/// succeeded.
pub struct ImportResponse {
    pub username: String,
    pub message: String,
    pub token: Option<String>,
}

impl ImportResponse {
    /// Builds the success payload of an import. The credential field is
    /// omitted when minting failed; the restore is still a success.
    pub fn success(username: String, token: Option<String>) -> (r: ImportResponse)
        ensures
            r.username == username,
            r.token == token,
            r.message@ == "数据恢复成功"@,
    {
        ImportResponse { username, message: String::from_str("数据恢复成功"), token }
    }
}

/// Token counts of a card: the total over all distinct texts, the part in
/// the specification fields, the part in the world-book, and the rest.
pub struct TokenCounts {
    pub total: i32,
    pub spec_tokens: i32,
    pub wb: i32,
    pub other: i32,
}

} // verus!
