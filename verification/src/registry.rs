use vstd::prelude::*;

verus! {

use vstd::string::StringExecFns;

use crate::error::StoreError;

/// The once-initialized base directory that every entity's database file is
/// derived from.  It is written exactly once; a second initialization is
/// rejected and leaves the stored value untouched.  Reading before
/// initialization yields an absent value, never an error.
pub struct PathRegistry {
    base: Option<String>,
}

/// The database file path an entity resolves to: the base directory, a
/// separator, and the entity's file name.  An unset or empty base yields
/// the bare file name, a path relative to the working directory.  The base
/// `:memory:` is passed through unchanged, so every entity opens its own
/// private in-memory database.
pub open spec fn spec_entity_path(base: Option<Seq<char>>, file: Seq<char>) -> Seq<char> {
    let b = match base {
        Some(s) => s,
        None => Seq::empty(),
    };
    if b == ":memory:"@ {
        ":memory:"@
    } else if b.len() == 0 {
        file
    } else {
        b + "/"@ + file
    }
}

impl PathRegistry {
    /// The stored base directory, if initialized.
    pub closed spec fn base_view(self) -> Option<Seq<char>> {
        match self.base {
            Some(s) => Some(s@),
            None => None,
        }
    }

    /// A registry with no base path set yet.
    pub fn new() -> (r: PathRegistry)
        ensures
            r.base_view() is None,
    {
        PathRegistry { base: None }
    }

    /// Store the base path; exactly the first call succeeds, and a rejected
    /// call changes nothing.
    pub fn initialize(&mut self, path: &str) -> (r: Result<(), StoreError>)
        ensures
            old(self).base_view() is None ==> r is Ok && final(self).base_view() == Some(path@),
            old(self).base_view() is Some ==> (r matches Err(e) && e is AlreadyInitialized
                && final(self).base_view() == old(self).base_view()),
    {
        match self.base {
            Some(_) => Err(StoreError::AlreadyInitialized),
            None => {
                self.base = Some(path.to_owned());
                Ok(())
            },
        }
    }

    /// The stored base path, or absent if never initialized.
    pub fn base_path(&self) -> (r: Option<&String>)
        ensures
            match r {
                Some(s) => self.base_view() == Some(s@),
                None => self.base_view() is None,
            },
    {
        match &self.base {
            Some(s) => Some(s),
            None => None,
        }
    }

    /// The database file path for the entity file name `file`.
    pub(crate) fn entity_path(&self, file: &str) -> (r: String)
        ensures
            r@ == spec_entity_path(self.base_view(), file@),
    {
        proof {
            reveal_strlit(":memory:");
        }
        match &self.base {
            None => file.to_owned(),
            Some(s) => {
                if crate::strutil::string_is(s, ":memory:") {
                    let m: &str = ":memory:";
                    m.to_owned()
                } else if s.as_str().is_empty() {
                    file.to_owned()
                } else {
                    let mut out = s.clone();
                    out.append("/");
                    out.append(file);
                    out
                }
            },
        }
    }
}

} // verus!
