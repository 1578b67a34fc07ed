//! A directory tree held in memory, for exercising the walk policy and the
//! analysis without touching a file system.

use vstd::prelude::*;
use crate::config::{split_on, split_spec};
use crate::model::strings_view;

verus! {

/// A file of a [`TestDir`]: its path below the root, components separated
/// by `/`, and its text.
#[derive(Clone, Debug)]
pub struct TestFile {
    pub name: String,
    pub contents: String,
}

/// A directory tree in memory: the root's name, its files and its
/// directories, each in the order they were created.
#[derive(Clone, Debug)]
pub struct TestDir {
    pub path: String,
    pub files: Vec<TestFile>,
    pub dirs: Vec<String>,
}

impl TestDir {
    /// An empty tree.
    pub fn new() -> (r: TestDir)
        ensures
            r.path@ == "code_parser_test"@,
            r.files@.len() == 0,
            r.dirs@.len() == 0,
    {
        TestDir { path: "code_parser_test".to_owned(), files: Vec::new(), dirs: Vec::new() }
    }

    /// Adds the file `name` with text `contents`.
    pub fn create_file(&mut self, name: &str, contents: &str)
        ensures
            final(self).path == old(self).path,
            final(self).dirs == old(self).dirs,
            final(self).files@.len() == old(self).files@.len() + 1,
            final(self).files@.take(old(self).files@.len() as int) == old(self).files@,
            final(self).files@.last().name@ == name@,
            final(self).files@.last().contents@ == contents@,
    {
        self.files.push(TestFile { name: name.to_owned(), contents: contents.to_owned() });
        assert(self.files@.take(old(self).files@.len() as int) =~= old(self).files@);
    }

    /// Adds the directory `name`.
    pub fn create_dir(&mut self, name: &str)
        ensures
            final(self).path == old(self).path,
            final(self).files == old(self).files,
            strings_view(final(self).dirs@) == strings_view(old(self).dirs@).push(name@),
    {
        let ghost before = self.dirs@;
        self.dirs.push(name.to_owned());
        assert(strings_view(self.dirs@) =~= strings_view(before).push(name@));
    }

    /// The path components of each file, in order.
    pub fn file_components(&self) -> (r: Vec<Vec<String>>)
        ensures
            r@.len() == self.files@.len(),
            forall|i: int| 0 <= i < r@.len()
                ==> strings_view(#[trigger] r@[i]@) == split_spec(self.files@[i].name@, '/'),
    {
        let mut r: Vec<Vec<String>> = Vec::new();
        let mut i: usize = 0;
        while i < self.files.len()
            invariant
                i <= self.files@.len(),
                r@.len() == i,
                forall|k: int| 0 <= k < i
                    ==> strings_view(#[trigger] r@[k]@) == split_spec(self.files@[k].name@, '/'),
            decreases self.files@.len() - i,
        {
            r.push(split_on(self.files[i].name.as_str(), '/'));
            i = i + 1;
        }
        r
    }
}

} // verus!
