//! Names that are safe to use as directory names.
//!
//! A directory name may hold any characters but a path separator or a
//! dot, which would let a name escape its parent directory or hide the
//! entry.

use vstd::prelude::*;

verus! {

/// Errors of validating a directory name. The reported position counts
/// characters, not bytes.
#[derive(Clone, Debug, PartialEq, Eq)]
pub enum DirectoryNameError {
    InvalidCharacterAtIndex(usize),
}

/// Whether the character may stand in a directory name.
pub open spec fn spec_dir_char_ok(c: char) -> bool {
    c != '/' && c != '.'
}

/// A name every character of which may stand in a directory name.
#[derive(Clone, Debug, PartialEq, Eq, PartialOrd, Ord, Hash)]
pub struct DirectoryName(pub String);

impl DirectoryName {
    /// Validates a name: accepted exactly when no character is a path
    /// separator or a dot; otherwise the position of the first offending
    /// character is reported.
    pub fn new(name: String) -> (r: Result<DirectoryName, DirectoryNameError>)
        ensures
            (forall|i: int| 0 <= i < name@.len() ==> spec_dir_char_ok(#[trigger] name@[i]))
                ==> (r matches Ok(d) && d.0@ == name@),
            r matches Err(DirectoryNameError::InvalidCharacterAtIndex(i)) ==> i < name@.len()
                && !spec_dir_char_ok(name@[i as int]) && (forall|j: int|
                0 <= j < i ==> spec_dir_char_ok(#[trigger] name@[j])),
            r matches Ok(d) ==> d.0@ == name@ && (forall|i: int|
                0 <= i < name@.len() ==> spec_dir_char_ok(#[trigger] name@[i])),
    {
        let s = name.as_str();
        let n = s.unicode_len();
        let mut i: usize = 0;
        while i < n
            invariant
                i <= n,
                n == s@.len(),
                s@ == name@,
                forall|j: int| 0 <= j < i ==> spec_dir_char_ok(#[trigger] name@[j]),
            decreases n - i,
        {
            let c = s.get_char(i);
            if c == '/' || c == '.' {
                return Err(DirectoryNameError::InvalidCharacterAtIndex(i));
            }
            i += 1;
        }
        Ok(DirectoryName(name))
    }

    /// The validated name.
    pub fn as_str(&self) -> (r: &str)
        ensures
            r@ == self.0@,
    {
        self.0.as_str()
    }
}

} // verus!
