//! The bundled documentation, copied into the data directory once per
//! version.

use vstd::prelude::*;

use crate::fs::{join_path, spec_join_path};
use crate::text::{chars_equal, chars_of, trim_chars, trim_seq};

verus! {

/// The documentation directory under the data directory.
pub fn global_docs_dir(data_dir: &str) -> (r: String)
    ensures
        r@ == spec_join_path(data_dir@, "docs"@),
{
    join_path(data_dir, "docs")
}

/// Whether the documentation must be (re)copied: when no version stamp
/// could be read, or the stamp, trimmed, is not the running version.
pub open spec fn spec_docs_need_copy(stored: Option<Seq<char>>, version: Seq<char>) -> bool {
    match stored {
        Some(s) => trim_seq(s) != version,
        None => true,
    }
}

/// Whether the documentation directory is stale, given the content of its
/// version stamp (`None` when it cannot be read) and the running version.
pub fn docs_need_copy(stored: Option<&str>, version: &str) -> (r: bool)
    ensures
        r == spec_docs_need_copy(
            match stored {
                Some(s) => Some(s@),
                None => None,
            },
            version@,
        ),
{
    match stored {
        Some(s) => {
            let t = trim_chars(chars_of(s).as_slice());
            let v = chars_of(version);
            !chars_equal(t.as_slice(), v.as_slice())
        },
        None => true,
    }
}

/// Once the stamp holds the running version, the documentation is not
/// copied again: a version without surrounding whitespace, read back from
/// the stamp it was written to, is current.
pub proof fn lemma_stamp_is_current(version: Seq<char>)
    requires
        trim_seq(version) == version,
    ensures
        !spec_docs_need_copy(Some(version), version),
{
}

} // verus!
