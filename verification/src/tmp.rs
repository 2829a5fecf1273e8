//! Random scratch directories under a temporary prefix, named `krypta_` and random letters
//! and digits.
use rand::rngs::SmallRng;
use vstd::prelude::*;

use crate::fs::order::comps;
use crate::fs::path::{
    lemma_components_of_pushed, lemma_name_components, lemma_tmp_prefix_components, path_components, plain_relative, pushed,
    skip_components, split_path,
};
use crate::fs::path_finder::skipped;
use crate::random::{alphanumeric_from_small, is_alphanumeric};

verus! {

/// How many random characters name a scratch directory.
pub const TMP_PATH_LENGTH: usize = 16;

/// `name` pushed onto the path `base`, `name` being relative.
pub fn push_name(base: &str, name: &str) -> (path: String)
    ensures
        path@ == pushed(base@, name@),
{
    let mut path = base.to_string();
    let n = base.unicode_len();
    if n > 0 && base.get_char(n - 1) != '/' {
        path.append("/");
        proof {
            reveal_strlit("/");
        }
    }
    path.append(name);
    path
}

/// A scratch directory, by its path.
#[derive(Debug)]
pub struct Tmp {
    base_path: String,
}

impl View for Tmp {
    type V = Seq<char>;

    closed spec fn view(&self) -> Seq<char> {
        self.base_path@
    }
}

impl Tmp {
    /// The scratch directory at `base_path`, once it has been created.
    pub fn new(base_path: String) -> (tmp: Self)
        ensures
            tmp@ == base_path@,
    {
        Tmp { base_path }
    }

    /// The directory's path.
    pub fn base_path(&self) -> (path: String)
        ensures
            path@ == self@,
    {
        self.base_path.clone()
    }

    /// `absolute_path` made relative to the directory: its components without as many leading
    /// ones as the directory's path has.
    pub fn to_relative(&self, absolute_path: &str) -> (relative: Vec<String>)
        ensures
            comps(relative@) == skipped(path_components(absolute_path@), path_components(self@).len() as int),
    {
        let base = split_path(self.base_path.as_str());
        let absolute = split_path(absolute_path);
        proof {
            assert(comps(base@).len() == base@.len());
        }
        skip_components(&absolute, base.len())
    }

    /// The prefix under which scratch directories go: the one given (as the environment may
    /// give one), else `/tmp/`.
    pub fn prefix(given: Option<String>) -> (prefix: String)
        ensures
            prefix@ == match given {
                Some(p) => p@,
                None => "/tmp/"@,
            },
            given is None ==> path_components(prefix@) == seq![seq!['/'], seq!['t', 'm', 'p']],
    {
        proof {
            lemma_tmp_prefix_components();
        }
        match given {
            Some(p) => p,
            None => "/tmp/".to_string(),
        }
    }

    /// How many components the prefix `prefix` has.
    pub fn prefix_len(prefix: &str) -> (n: usize)
        ensures
            n == path_components(prefix@).len(),
    {
        let components = split_path(prefix);
        proof {
            assert(comps(components@).len() == components@.len());
        }
        components.len()
    }

    /// A fresh scratch path under `prefix`: `krypta_` followed by `folder_length` random ASCII
    /// letters and digits drawn from `rng`.
    pub fn generate_random_tmp(prefix: &str, folder_length: usize, rng: &mut SmallRng) -> (path: String)
        ensures
            exists|name: Seq<char>|
                #![trigger pushed(prefix@, "krypta_"@ + name)]
                name.len() == folder_length && (forall|i: int| 0 <= i < name.len() ==> is_alphanumeric(#[trigger] name[i]))
                    && path@ == pushed(prefix@, "krypta_"@ + name)
                    && path_components(path@) == path_components(prefix@).push("krypta_"@ + name),
            path_components(path@).len() == path_components(prefix@).len() + 1,
    {
        let mut random_name = "krypta_".to_string();
        let letters = alphanumeric_from_small(rng, folder_length);
        random_name.append(letters.as_str());
        let path = push_name(prefix, random_name.as_str());
        proof {
            assert(random_name@ == "krypta_"@ + letters@);
            reveal_strlit("krypta_");
            let n = random_name@;
            assert forall|i: int| 0 <= i < n.len() implies n[i] != '/' by {
                if i >= 7 {
                    assert(n[i] == letters@[i - 7]);
                    assert(is_alphanumeric(letters@[i - 7]));
                }
            }
            assert(n.len() != seq!['.'].len());
            lemma_name_components(n);
            lemma_components_of_pushed(prefix@, n);
            assert(path_components(prefix@) + seq![n] =~= path_components(prefix@).push(n));
        }
        path
    }
}

/// Making a path relative to a scratch directory after pushing a plain relative path onto
/// the directory's path gives back the components of that relative path.
pub proof fn lemma_relative_after_push(base: Seq<char>, r: Seq<char>)
    requires
        plain_relative(r),
    ensures
        skipped(path_components(pushed(base, r)), path_components(base).len() as int) == path_components(r),
{
    lemma_components_of_pushed(base, r);
}

} // verus!
