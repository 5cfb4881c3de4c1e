use vstd::prelude::*;
use vstd::string::*;

use crate::path::{file_name_from_path, file_name_of};

verus! {

/// A snapshot of a process's executable: its full path and the file name in it.
pub struct ProcessInfo {
    pub name: String,
    pub path: String,
}

impl ProcessInfo {
    /// The name is the final segment of the path.
    pub open spec fn wf(&self) -> bool {
        self.name@ == file_name_of(self.path@)
    }

    /// Builds the snapshot of an executable path, deriving its name.
    pub fn from_path(path: String) -> (r: ProcessInfo)
        ensures
            r.path@ == path@,
            r.wf(),
    {
        let name = file_name_from_path(path.as_str());
        ProcessInfo { name, path }
    }
}

/// What the operating system answered when asked for a process's image path.
pub enum ImageQuery {
    /// The process could not be opened for querying (gone, or access denied).
    OpenFailed,
    /// The process was opened but its image path could not be read.
    QueryFailed,
    /// The UTF-16 code units of the image path that the query wrote.
    Image(Vec<u16>),
}

/// What `String::from_utf16_lossy` makes of a sequence of UTF-16 code units.
pub uninterp spec fn utf16_lossy(units: Seq<u16>) -> Seq<char>;

/// Relies on `String::from_utf16_lossy`: decodes the units, putting U+FFFD in place
/// of each invalid one; the result depends on the units alone.
#[verifier::external_body]
fn decode_utf16_lossy(units: &Vec<u16>) -> (r: String)
    ensures
        r@ == utf16_lossy(units@),
{
    String::from_utf16_lossy(units.as_slice())
}

/// The path reported when a process's image path cannot be read.
pub open spec fn unknown_path() -> Seq<char> {
    seq!['<', 'U', 'n', 'k', 'n', 'o', 'w', 'n', '>']
}

/// The path that a query yields: the decoded image path, or the unknown marker
/// where the query failed or wrote nothing.
pub open spec fn path_of_query(q: ImageQuery) -> Seq<char> {
    match q {
        ImageQuery::Image(units) if units@.len() > 0 => utf16_lossy(units@),
        _ => unknown_path(),
    }
}

/// Resolves the answer of a process query into a snapshot; `None` where the
/// process could not be opened.
pub fn get_process_info(query: &ImageQuery) -> (r: Option<ProcessInfo>)
    ensures
        match query {
            ImageQuery::OpenFailed => r is None,
            _ => r is Some && r->0.path@ == path_of_query(*query) && r->0.wf(),
        },
{
    match query {
        ImageQuery::OpenFailed => None,
        ImageQuery::QueryFailed => Some(ProcessInfo::from_path(unknown())),
        ImageQuery::Image(units) => {
            if units.len() > 0 {
                Some(ProcessInfo::from_path(decode_utf16_lossy(units)))
            } else {
                Some(ProcessInfo::from_path(unknown()))
            }
        },
    }
}

fn unknown() -> (r: String)
    ensures
        r@ == unknown_path(),
{
    let r = String::from_str("<Unknown>");
    proof {
        reveal_strlit("<Unknown>");
    }
    assert(r@ =~= unknown_path());
    r
}

} // verus!
