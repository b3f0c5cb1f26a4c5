//! Where the durable state lives: the file names under the configured data
//! directory. Reading and writing the files is the caller's concern; the
//! contents come from the codec.

use vstd::prelude::*;

use crate::codec;

verus! {

/// The durable store: two documents under one data directory.
pub struct FilePersistence {
    pub data_dir: String,
}

impl FilePersistence {
    pub fn new(data_dir: String) -> (r: Self)
        ensures
            r.data_dir == data_dir,
    {
        FilePersistence { data_dir }
    }

    /// The file holding the optional outstanding request.
    pub fn active_issue_path(&self) -> (r: String)
        ensures
            r@ == self.data_dir@ + "/active_issue.json"@,
    {
        let mut v = codec::str_chars(self.data_dir.as_str());
        let mut t = codec::str_chars("/active_issue.json");
        v.append(&mut t);
        codec::string_from_chars(v)
    }

    /// The file holding the processed identifier set.
    pub fn processed_issues_path(&self) -> (r: String)
        ensures
            r@ == self.data_dir@ + "/processed_issues.json"@,
    {
        let mut v = codec::str_chars(self.data_dir.as_str());
        let mut t = codec::str_chars("/processed_issues.json");
        v.append(&mut t);
        codec::string_from_chars(v)
    }
}

} // verus!
