//! The embedded file tree the bootstrap walks: an immutable hierarchy of
//! files, each a relative path with raw byte contents, fixed at build time.
use vstd::prelude::*;

verus! {

/// One file of the embedded tree: a relative '/'-separated path and the raw
/// byte contents, both fixed when the host program is built.
#[derive(Debug)]
pub struct EmbeddedFile {
    pub path: String,
    pub contents: Vec<u8>,
}

/// What an `EmbeddedFile` is mathematically: its path and contents.
pub ghost struct FileView {
    pub path: Seq<char>,
    pub contents: Seq<u8>,
}

impl View for EmbeddedFile {
    type V = FileView;

    open spec fn view(&self) -> FileView {
        FileView { path: self.path@, contents: self.contents@ }
    }
}

impl EmbeddedFile {
    /// A fresh copy of the file entry, equal to it in path and contents.
    pub fn duplicate(&self) -> (r: EmbeddedFile)
        ensures
            r@ == self@,
    {
        let path = self.path.clone();
        let contents = self.contents.clone();
        proof {
            assert(contents@ =~= self.contents@);
        }
        EmbeddedFile { path, contents }
    }
}

/// One directory of the embedded tree: the files directly inside it and its
/// immediate subdirectories.
#[derive(Debug)]
pub struct EmbeddedDir {
    pub files: Vec<EmbeddedFile>,
    pub subdirs: Vec<EmbeddedDir>,
}

/// What an `EmbeddedDir` is mathematically.
pub ghost struct DirView {
    pub files: Seq<FileView>,
    pub subdirs: Seq<DirView>,
}

pub open spec fn files_view(files: Seq<EmbeddedFile>) -> Seq<FileView> {
    files.map_values(|f: EmbeddedFile| f@)
}

pub open spec fn dir_view(dir: EmbeddedDir) -> DirView
    decreases dir,
{
    DirView { files: files_view(dir.files@), subdirs: dirs_view(dir.subdirs@) }
}

pub open spec fn dirs_view(dirs: Seq<EmbeddedDir>) -> Seq<DirView>
    decreases dirs,
{
    if dirs.len() == 0 {
        Seq::empty()
    } else {
        dirs_view(dirs.drop_last()).push(dir_view(dirs.last()))
    }
}

impl View for EmbeddedDir {
    type V = DirView;

    open spec fn view(&self) -> DirView {
        dir_view(*self)
    }
}

/// `dirs_view` maps each directory to its view, keeping length and order.
pub proof fn lemma_dirs_view(dirs: Seq<EmbeddedDir>)
    ensures
        dirs_view(dirs).len() == dirs.len(),
        forall|i: int| 0 <= i < dirs.len() ==> dirs_view(dirs)[i] == dir_view(dirs[i]),
    decreases dirs,
{
    if dirs.len() > 0 {
        lemma_dirs_view(dirs.drop_last());
    }
}

} // verus!
