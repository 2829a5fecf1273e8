//! A random scratch directory directly under `/tmp/`.
use vstd::prelude::*;

use crate::random::{alphanumeric_from_thread, is_alphanumeric, thread_rng};
use crate::fs::path::{
    lemma_components_of_pushed, lemma_name_components, lemma_tmp_prefix_components, path_components, pushed,
};
use crate::tmp::push_name;

verus! {

/// How many random characters name the directory.
pub const TMP_FILENAME_LENGTH: usize = 24;

/// A scratch directory, by its path.
pub struct TempPath {
    path: String,
}

impl View for TempPath {
    type V = Seq<char>;

    closed spec fn view(&self) -> Seq<char> {
        self.path@
    }
}

impl TempPath {
    /// A fresh path for the directory: `/tmp/` followed by `TMP_FILENAME_LENGTH` random ASCII
    /// letters and digits from the thread's generator.
    pub fn generate_random_tmp() -> (path: String)
        ensures
            exists|name: Seq<char>|
                #![trigger pushed("/tmp/"@, name)]
                name.len() == TMP_FILENAME_LENGTH && (forall|i: int| 0 <= i < name.len() ==> is_alphanumeric(#[trigger] name[i]))
                    && path@ == pushed("/tmp/"@, name)
                    && path_components(path@) == seq![seq!['/'], seq!['t', 'm', 'p'], name],
    {
        let mut rng = thread_rng();
        let random_name = alphanumeric_from_thread(&mut rng, TMP_FILENAME_LENGTH);
        let path = push_name("/tmp/", random_name.as_str());
        proof {
            let n = random_name@;
            assert forall|i: int| 0 <= i < n.len() implies n[i] != '/' by {
                assert(is_alphanumeric(n[i]));
            }
            assert(n.len() != seq!['.'].len());
            lemma_name_components(n);
            lemma_components_of_pushed("/tmp/"@, n);
            lemma_tmp_prefix_components();
            assert(seq![seq!['/'], seq!['t', 'm', 'p']] + seq![n] =~= seq![seq!['/'], seq!['t', 'm', 'p'], n]);
        }
        path
    }

    /// The directory at `path`, once it has been created.
    pub fn new(path: String) -> (temp: Self)
        ensures
            temp@ == path@,
    {
        TempPath { path }
    }

    /// The directory's path.
    pub fn path(&self) -> (path: String)
        ensures
            path@ == self@,
    {
        self.path.clone()
    }
}

} // verus!
