//! The source files that code locations refer to.

use vstd::prelude::*;

verus! {

/// Symbol of the function at which a program starts.
pub const MAIN_SYMBOL: u32 = 0;

/// Symbol of the library function `printf`.
pub const PRINTF_SYMBOL: u32 = 1;

/// Symbol of the library function `exit`.
pub const EXIT_SYMBOL: u32 = 2;

/// Symbol of the library function `malloc`.
pub const MALLOC_SYMBOL: u32 = 3;

/// Symbol of the library function `realloc`.
pub const REALLOC_SYMBOL: u32 = 4;

/// Symbol of the library function `memcpy`.
pub const MEMCPY_SYMBOL: u32 = 5;

/// Symbol of the library function `free`.
pub const FREE_SYMBOL: u32 = 6;

/// One source file: its name and its text.
#[derive(Debug)]
pub struct File {
    pub name: String,
    pub source: String,
}

/// The source files of a program. A file's id is its position.
#[derive(Debug)]
pub struct FileDb {
    pub files: Vec<File>,
}

impl FileDb {
    /// The database without files.
    pub fn new() -> (db: FileDb)
        ensures
            db.files@.len() == 0,
    {
        FileDb { files: Vec::new() }
    }

    /// The number of files.
    pub fn len(&self) -> (n: usize)
        ensures
            n == self.files@.len(),
    {
        self.files.len()
    }

    /// Adds a file and returns its id, or adds nothing where the ids have
    /// run out.
    pub fn add(&mut self, name: String, source: String) -> (id: Option<u32>)
        ensures
            match id {
                Some(id) => id == old(self).files@.len() && final(self).files@ == old(
                    self,
                ).files@.push(File { name, source }),
                None => old(self).files@.len() >= u32::MAX && final(self).files@ == old(
                    self,
                ).files@,
            },
    {
        if self.files.len() >= u32::MAX as usize {
            return None;
        }
        let id: u32 = self.files.len() as u32;
        self.files.push(File { name, source });
        Some(id)
    }

    /// The file with the given id.
    pub fn get(&self, id: u32) -> (file: Option<&File>)
        ensures
            match file {
                Some(file) => id < self.files@.len() && *file == self.files@[id as int],
                None => id >= self.files@.len(),
            },
    {
        if (id as usize) < self.files.len() {
            Some(&self.files[id as usize])
        } else {
            None
        }
    }
}

} // verus!
