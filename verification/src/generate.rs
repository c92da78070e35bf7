//! The report: which of a crate's files hold its license.

use crate::pattern::{find_all, regex_find_all};
use vstd::prelude::*;

verus! {

/// The word that the name of a license file holds, in any case.
pub const LICENSE_FILE: &'static str = "(?i)license";

/// Whether a file of this name counts as a license file: whether `regex`
/// finds `LICENSE_FILE` in the name at least once.
pub open spec fn is_license_file_spec(file_name: Seq<char>) -> bool {
    match regex_find_all(LICENSE_FILE@, file_name) {
        Some(spans) => spans.len() > 0,
        None => false,
    }
}

/// Whether a file of this name counts as a license file.
pub fn is_license_file(file_name: &str) -> (named: bool)
    ensures
        named == is_license_file_spec(file_name@),
{
    match find_all(LICENSE_FILE, file_name) {
        Some(spans) => spans.len() > 0,
        None => false,
    }
}

} // verus!
