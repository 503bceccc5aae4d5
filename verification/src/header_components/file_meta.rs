//! Descriptive metadata about an attached file: an inert value object with
//! no grammar rules and no encoding logic of its own.

use vstd::prelude::*;

use crate::components::date_time::DateTime;

verus! {

/// Common metadata of a file placed in a mail, e.g. an attachment or an
/// embedded image. Every field is optional.
#[derive(Debug, Clone, Eq, PartialEq, Hash, Default)]
pub struct FileMeta {
    /// The file name; limited to UTF-8 names.
    pub file_name: Option<String>,
    /// When the file was created (in UTC).
    pub creation_date: Option<DateTime>,
    /// When the file was last modified (in UTC).
    pub modification_date: Option<DateTime>,
    /// When the file was read, i.e. placed in the mail (in UTC).
    pub read_date: Option<DateTime>,
    /// The size the file should have, in bytes.
    pub size: Option<usize>,
}

} // verus!
