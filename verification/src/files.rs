use vstd::prelude::*;

verus! {

/// Identifies one source file of an assembly.
pub type FileId = u32;

/// The source files an assembly was read from, in the order they were read.
#[derive(Debug, Clone)]
pub struct FileTable {
    pub files: Vec<(String, String)>,
}

impl FileTable {
    /// Paths and sources of the files, by id.
    pub open spec fn entries(&self) -> Seq<(Seq<char>, Seq<char>)> {
        self.files@.map_values(|e: (String, String)| (e.0@, e.1@))
    }

    /// An empty table.
    pub fn new() -> (r: Self)
        ensures
            r.entries().len() == 0,
    {
        Self { files: Vec::new() }
    }

    /// Adds a file and returns its id: the number of files added before it.
    pub fn add(&mut self, path: String, source: String) -> (id: FileId)
        requires
            old(self).entries().len() < u32::MAX,
        ensures
            id == old(self).entries().len(),
            final(self).entries() == old(self).entries().push((path@, source@)),
    {
        let id = self.files.len() as u32;
        self.files.push((path, source));
        proof {
            assert(self.entries() =~= old(self).entries().push((path@, source@)));
        }
        id
    }

    /// Number of files in the table.
    pub fn len(&self) -> (n: usize)
        ensures
            n == self.entries().len(),
    {
        self.files.len()
    }

    /// Source text of file `id`.
    pub fn source(&self, id: FileId) -> (s: &str)
        requires
            id < self.entries().len(),
        ensures
            s@ == self.entries()[id as int].1,
    {
        self.files[id as usize].1.as_str()
    }

    /// Path of file `id`.
    pub fn path(&self, id: FileId) -> (p: &String)
        requires
            id < self.entries().len(),
        ensures
            p@ == self.entries()[id as int].0,
    {
        &self.files[id as usize].0
    }

    /// Id, path and source of every file, in id order.
    pub fn iter(&self) -> (r: Vec<(FileId, &String, &str)>)
        requires
            self.entries().len() <= u32::MAX,
        ensures
            r@.len() == self.entries().len(),
            forall|i: int|
                0 <= i < r@.len() ==> #[trigger] r@[i].0 == i && r@[i].1@ == self.entries()[i].0
                    && r@[i].2@ == self.entries()[i].1,
    {
        let mut out: Vec<(FileId, &String, &str)> = Vec::new();
        let mut i: usize = 0;
        while i < self.files.len()
            invariant
                0 <= i <= self.files.len(),
                self.files.len() <= u32::MAX,
                out@.len() == i,
                forall|j: int|
                    0 <= j < i ==> #[trigger] out@[j].0 == j && out@[j].1@ == self.entries()[j].0
                        && out@[j].2@ == self.entries()[j].1,
            decreases self.files.len() - i,
        {
            out.push((i as u32, &self.files[i].0, self.files[i].1.as_str()));
            assert(self.entries()[i as int] == (self.files@[i as int].0@, self.files@[i as int].1@));
            assert(out@[i as int].0 == i);
            i = i + 1;
        }
        out
    }
}

} // verus!
