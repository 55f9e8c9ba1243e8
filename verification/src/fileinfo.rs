//! One open document: its path, its in-memory text, and the time it was
//! opened.

use vstd::prelude::*;

verus! {

/// Mathematical image of a [`FileInfo`].
#[verifier::ext_equal]
pub struct FileInfoV {
    pub path: Seq<char>,
    pub content: Seq<char>,
    pub last_mod: i64,
}

/// One open document.  `content` is the authoritative in-memory text: it
/// reflects the last committed edit or the last disk read, never a mix.
#[derive(Clone, Debug, PartialEq)]
pub struct FileInfo {
    pub path: String,
    pub content: String,
    pub last_mod: i64,
}

impl View for FileInfo {
    type V = FileInfoV;

    open spec fn view(&self) -> FileInfoV {
        FileInfoV { path: self.path@, content: self.content@, last_mod: self.last_mod }
    }
}

impl DeepView for FileInfo {
    type V = FileInfoV;

    open spec fn deep_view(&self) -> FileInfoV {
        self.view()
    }
}

/// Relies on `chrono::Local::now` (read out with `DateTime::timestamp`) for
/// the current wall-clock time in whole seconds.  The value depends on the
/// machine's clock, so nothing is promised of it.
#[verifier::external_body]
fn clock_seconds() -> i64 {
    chrono::Local::now().timestamp()
}

impl FileInfo {
    /// A freshly opened document, stamped with the current wall-clock time.
    pub fn new(path: String, content: String) -> (r: FileInfo)
        ensures
            r@.path == path@,
            r@.content == content@,
    {
        FileInfo { path, content, last_mod: clock_seconds() }
    }

    /// An identical copy.
    pub fn duplicate(&self) -> (r: FileInfo)
        ensures
            r == *self,
    {
        FileInfo {
            path: self.path.clone(),
            content: self.content.clone(),
            last_mod: self.last_mod,
        }
    }
}

} // verus!
