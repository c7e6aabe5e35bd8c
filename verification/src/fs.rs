//! An in-memory image of the relevant part of the pseudo-filesystem: the
//! small text files and directory listings the library reads.  Capturing the
//! tree is the caller's job (it is plain I/O); every read against the captured
//! value is verified here.

use vstd::prelude::*;
use crate::error::Error;
use crate::text::str_eq;

verus! {

/// A readable text file and its contents.
pub struct FsFile {
    pub path: String,
    pub text: String,
}

/// A directory and the names of its immediate entries.
pub struct FsDir {
    pub path: String,
    pub names: Vec<String>,
}

/// The captured pseudo-filesystem: readable files, paths that exist but may
/// not be read, and directories with their entry names.
pub struct SysFs {
    pub files: Vec<FsFile>,
    pub denied: Vec<String>,
    pub dirs: Vec<FsDir>,
}

/// The text of the first file entry whose path is `p`, if any.
pub open spec fn spec_file_at(files: Seq<FsFile>, p: Seq<char>) -> Option<Seq<char>>
    decreases files.len(),
{
    if files.len() == 0 {
        None
    } else if files[0].path@ == p {
        Some(files[0].text@)
    } else {
        spec_file_at(files.drop_first(), p)
    }
}

/// The entry names of the first directory entry whose path is `p`, if any.
pub open spec fn spec_dir_at(dirs: Seq<FsDir>, p: Seq<char>) -> Option<Seq<Seq<char>>>
    decreases dirs.len(),
{
    if dirs.len() == 0 {
        None
    } else if dirs[0].path@ == p {
        Some(dirs[0].names.deep_view())
    } else {
        spec_dir_at(dirs.drop_first(), p)
    }
}

/// Whether `p` is listed as existing but unreadable.
pub open spec fn spec_denied(denied: Seq<String>, p: Seq<char>) -> bool {
    exists|i: int| 0 <= i < denied.len() && denied[i]@ == p
}

/// What a real directory listing guarantees of its entry names: no two
/// entries share a name.
pub open spec fn dir_names_ok(names: Seq<Seq<char>>) -> bool {
    forall|k1: int, k2: int|
        0 <= k1 < k2 < names.len() ==> #[trigger] names[k1] != #[trigger] names[k2]
}

impl SysFs {
    /// The contents of the file at `p`, if a readable file is there.
    pub open spec fn file_at(&self, p: Seq<char>) -> Option<Seq<char>> {
        spec_file_at(self.files@, p)
    }

    /// The entry names of the directory at `p`, if a directory is there.
    pub open spec fn dir_at(&self, p: Seq<char>) -> Option<Seq<Seq<char>>> {
        spec_dir_at(self.dirs@, p)
    }

    /// Whether `p` exists but may not be read.
    pub open spec fn is_denied(&self, p: Seq<char>) -> bool {
        spec_denied(self.denied@, p)
    }

    /// Whether anything exists at `p`.
    pub open spec fn spec_exists(&self, p: Seq<char>) -> bool {
        self.file_at(p) is Some || self.is_denied(p) || self.dir_at(p) is Some
    }

    /// What reading the file at `p` yields: its text, or the error kind the
    /// path's state dictates.
    pub open spec fn spec_read(&self, p: Seq<char>) -> Result<Seq<char>, Error> {
        match self.file_at(p) {
            Some(t) => Ok(t),
            None => if self.is_denied(p) {
                Err(Error::PermissionDenied)
            } else if self.dir_at(p) is Some {
                Err(Error::Io)
            } else {
                Err(Error::NotFound)
            },
        }
    }

    /// What listing the directory at `p` yields: its entry names, or the
    /// error kind the path's state dictates.
    pub open spec fn spec_list(&self, p: Seq<char>) -> Result<Seq<Seq<char>>, Error> {
        match self.dir_at(p) {
            Some(names) => Ok(names),
            None => if self.file_at(p) is Some {
                Err(Error::Io)
            } else if self.is_denied(p) {
                Err(Error::PermissionDenied)
            } else {
                Err(Error::NotFound)
            },
        }
    }

    /// Well-formedness of the capture: every directory lists each entry name
    /// once, as a real directory does.
    pub open spec fn wf(&self) -> bool {
        forall|i: int|
            0 <= i < self.dirs@.len() ==> dir_names_ok(#[trigger] self.dirs@[i].names.deep_view())
    }

    /// Whether anything exists at `p`.
    pub fn path_exists(&self, p: &str) -> (r: bool)
        ensures
            r == self.spec_exists(p@),
    {
        if lookup_file(&self.files, p).is_some() {
            return true;
        }
        if in_denied(&self.denied, p) {
            return true;
        }
        lookup_dir(&self.dirs, p).is_some()
    }

    /// Reads the file at `p`.
    pub fn read_file(&self, p: &str) -> (r: Result<&String, Error>)
        ensures
            match r {
                Ok(t) => self.spec_read(p@) == Ok::<Seq<char>, Error>(t@),
                Err(e) => self.spec_read(p@) == Err::<Seq<char>, Error>(e),
            },
    {
        match lookup_file(&self.files, p) {
            Some(t) => Ok(t),
            None => if in_denied(&self.denied, p) {
                Err(Error::PermissionDenied)
            } else if lookup_dir(&self.dirs, p).is_some() {
                Err(Error::Io)
            } else {
                Err(Error::NotFound)
            },
        }
    }

    /// Lists the entry names of the directory at `p`.
    pub fn list_dir(&self, p: &str) -> (r: Result<&Vec<String>, Error>)
        ensures
            match r {
                Ok(names) => self.spec_list(p@) == Ok::<Seq<Seq<char>>, Error>(names.deep_view()),
                Err(e) => self.spec_list(p@) == Err::<Seq<Seq<char>>, Error>(e),
            },
    {
        match lookup_dir(&self.dirs, p) {
            Some(names) => Ok(names),
            None => if lookup_file(&self.files, p).is_some() {
                Err(Error::Io)
            } else if in_denied(&self.denied, p) {
                Err(Error::PermissionDenied)
            } else {
                Err(Error::NotFound)
            },
        }
    }
}

/// A well-formed capture lists each entry name of a directory once.
pub proof fn lemma_wf_dir_names(fs: &SysFs, p: Seq<char>)
    requires
        fs.wf(),
        fs.dir_at(p) is Some,
    ensures
        dir_names_ok(fs.dir_at(p)->Some_0),
{
    lemma_dir_at_names(fs.dirs@, p);
    let witness = choose|i: int|
        0 <= i < fs.dirs@.len() && spec_dir_at(fs.dirs@, p) == Some(
            fs.dirs@[i].names.deep_view(),
        );
    assert(dir_names_ok(fs.dirs@[witness].names.deep_view()));
}

/// A successful directory lookup returns the names of one of the entries.
proof fn lemma_dir_at_names(dirs: Seq<FsDir>, p: Seq<char>)
    requires
        spec_dir_at(dirs, p) is Some,
    ensures
        exists|i: int|
            0 <= i < dirs.len() && spec_dir_at(dirs, p) == Some(#[trigger] dirs[i].names.deep_view()),
    decreases dirs.len(),
{
    if dirs[0].path@ == p {
        assert(spec_dir_at(dirs, p) == Some(dirs[0].names.deep_view()));
    } else {
        lemma_dir_at_names(dirs.drop_first(), p);
        let j = choose|j: int|
            0 <= j < dirs.drop_first().len() && spec_dir_at(dirs.drop_first(), p) == Some(
                #[trigger] dirs.drop_first()[j].names.deep_view(),
            );
        assert(dirs.drop_first()[j] == dirs[j + 1]);
    }
}

/// Finds the text of the first file entry at `p`.
fn lookup_file<'a>(files: &'a Vec<FsFile>, p: &str) -> (r: Option<&'a String>)
    ensures
        match r {
            Some(t) => spec_file_at(files@, p@) == Some(t@),
            None => spec_file_at(files@, p@) is None,
        },
{
    let n = files.len();
    let mut i: usize = 0;
    proof {
        assert(files@.skip(0) =~= files@);
    }
    while i < n
        invariant
            0 <= i <= n,
            n == files@.len(),
            spec_file_at(files@, p@) == spec_file_at(files@.skip(i as int), p@),
        decreases n - i,
    {
        if str_eq(files[i].path.as_str(), p) {
            return Some(&files[i].text);
        }
        proof {
            assert(files@.skip(i as int).drop_first() =~= files@.skip(i + 1));
            assert(files@.skip(i as int)[0] == files@[i as int]);
        }
        i = i + 1;
    }
    None
}

/// Finds the entry names of the first directory entry at `p`.
fn lookup_dir<'a>(dirs: &'a Vec<FsDir>, p: &str) -> (r: Option<&'a Vec<String>>)
    ensures
        match r {
            Some(names) => spec_dir_at(dirs@, p@) == Some(names.deep_view()),
            None => spec_dir_at(dirs@, p@) is None,
        },
{
    let n = dirs.len();
    let mut i: usize = 0;
    proof {
        assert(dirs@.skip(0) =~= dirs@);
    }
    while i < n
        invariant
            0 <= i <= n,
            n == dirs@.len(),
            spec_dir_at(dirs@, p@) == spec_dir_at(dirs@.skip(i as int), p@),
        decreases n - i,
    {
        if str_eq(dirs[i].path.as_str(), p) {
            return Some(&dirs[i].names);
        }
        proof {
            assert(dirs@.skip(i as int).drop_first() =~= dirs@.skip(i + 1));
            assert(dirs@.skip(i as int)[0] == dirs@[i as int]);
        }
        i = i + 1;
    }
    None
}

/// Whether `p` is among the unreadable paths.
fn in_denied(denied: &Vec<String>, p: &str) -> (r: bool)
    ensures
        r == spec_denied(denied@, p@),
{
    let n = denied.len();
    let mut i: usize = 0;
    while i < n
        invariant
            0 <= i <= n,
            n == denied@.len(),
            forall|j: int| 0 <= j < i ==> denied@[j]@ != p@,
        decreases n - i,
    {
        if str_eq(denied[i].as_str(), p) {
            return true;
        }
        i = i + 1;
    }
    false
}

} // verus!
