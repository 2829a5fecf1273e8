use vstd::prelude::*;

verus! {

/// A tag that files can carry.
pub struct Tag {
    pub id: Option<i64>,
    pub name: String,
}

impl Tag {
    /// A tag not stored yet.
    pub fn new(name: &str) -> (tag: Self)
        ensures
            tag.id is None,
            tag.name@ == name@,
    {
        Tag { id: None, name: name.to_string() }
    }

    /// How the tag is shown: its name.
    pub fn to_display_string(&self) -> (s: String)
        ensures
            s@ == self.name@,
    {
        self.name.clone()
    }
}

} // verus!
