use vstd::prelude::*;

use crate::database::models::file::File;
use crate::database::models::tag::Tag;

verus! {

/// A tag attached to a file.
pub struct FileTag {
    file_id: i64,
    tag_id: i64,
}

impl FileTag {
    /// Attach the stored `tag` to the stored `file`.
    pub fn new(file: &File, tag: &Tag) -> (ft: Self)
        requires
            file.id is Some,
            tag.id is Some,
        ensures
            ft.file_id() == file.id->0,
            ft.tag_id() == tag.id->0,
    {
        FileTag { file_id: file.id.unwrap(), tag_id: tag.id.unwrap() }
    }

    /// The id of the file.
    #[verifier::when_used_as_spec(spec_file_id)]
    pub fn file_id(&self) -> (id: i64)
        ensures
            id == self.spec_file_id(),
    {
        self.file_id
    }

    /// The id of the tag.
    #[verifier::when_used_as_spec(spec_tag_id)]
    pub fn tag_id(&self) -> (id: i64)
        ensures
            id == self.spec_tag_id(),
    {
        self.tag_id
    }

    pub closed spec fn spec_file_id(&self) -> i64 {
        self.file_id
    }

    pub closed spec fn spec_tag_id(&self) -> i64 {
        self.tag_id
    }
}

} // verus!
