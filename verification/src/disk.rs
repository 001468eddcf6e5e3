//! What is known of the files that a decision depends on.
//!
//! The library never touches a disk. It says which files it wants to know of, and decides on
//! what it is told of them.
use crate::text::same;
use vstd::prelude::*;

verus! {

/// What became of an attempt to read a file.
#[derive(Debug)]
pub enum FileState {
    /// There is no such file; reading it fails with this message.
    Missing(String),
    /// The file is there, but reading it fails with this message.
    Unreadable(String),
    /// The file holds this text.
    Text(String),
}

/// What became of an attempt to read a file, with texts as characters.
pub enum FileView {
    Missing(Seq<char>),
    Unreadable(Seq<char>),
    Text(Seq<char>),
}

impl View for FileState {
    type V = FileView;

    open spec fn view(&self) -> FileView {
        match self {
            FileState::Missing(e) => FileView::Missing(e@),
            FileState::Unreadable(e) => FileView::Unreadable(e@),
            FileState::Text(t) => FileView::Text(t@),
        }
    }
}

/// Files by their paths, as far as they were looked at.
pub struct Disk {
    entries: Vec<(String, FileState)>,
}

/// The files in a list of findings, of which later ones replace earlier ones.
pub open spec fn files_in(entries: Seq<(String, FileState)>) -> Map<Seq<char>, FileView>
    decreases entries.len(),
{
    if entries.len() == 0 {
        Map::empty()
    } else {
        files_in(entries.drop_last()).insert(entries.last().0@, entries.last().1@)
    }
}

impl View for Disk {
    type V = Map<Seq<char>, FileView>;

    closed spec fn view(&self) -> Map<Seq<char>, FileView> {
        files_in(self.entries@)
    }
}

/// What is known of a file. One that was not looked at counts as missing.
pub open spec fn file_at(files: Map<Seq<char>, FileView>, path: Seq<char>) -> FileView {
    if files.dom().contains(path) {
        files[path]
    } else {
        FileView::Missing(Seq::empty())
    }
}

/// Whether a file is there.
pub open spec fn present(files: Map<Seq<char>, FileView>, path: Seq<char>) -> bool {
    !(file_at(files, path) is Missing)
}

/// The text of a file, or the message of the failure to read it.
pub open spec fn contents(files: Map<Seq<char>, FileView>, path: Seq<char>) -> Result<
    Seq<char>,
    Seq<char>,
> {
    match file_at(files, path) {
        FileView::Missing(e) => Err(e),
        FileView::Unreadable(e) => Err(e),
        FileView::Text(t) => Ok(t),
    }
}

/// The text of a file that can be read.
pub open spec fn readable(files: Map<Seq<char>, FileView>, path: Seq<char>) -> Option<Seq<char>> {
    match contents(files, path) {
        Ok(t) => Some(t),
        Err(_) => None,
    }
}

impl Disk {
    /// Nothing looked at yet.
    pub fn new() -> (r: Self)
        ensures
            r@ == Map::<Seq<char>, FileView>::empty(),
    {
        Disk { entries: Vec::new() }
    }

    /// Takes note of what was found at a path.
    pub fn learn(&mut self, path: String, found: FileState)
        ensures
            final(self)@ == old(self)@.insert(path@, found@),
    {
        let ghost before = self.entries@;
        self.entries.push((path, found));
        assert(self.entries@.drop_last() =~= before);
    }

    /// What was found at a path, where it was looked at.
    fn find(&self, path: &str) -> (r: Option<&FileState>)
        ensures
            match r {
                Some(f) => self@.dom().contains(path@) && self@[path@] == f@,
                None => !self@.dom().contains(path@),
            },
    {
        let ghost all = self.entries@;
        let mut i: usize = self.entries.len();
        assert(all.subrange(0, all.len() as int) =~= all);
        while i > 0
            invariant
                i <= self.entries@.len(),
                all == self.entries@,
                self@ == files_in(all),
                files_in(all).dom().contains(path@) == files_in(
                    all.subrange(0, i as int),
                ).dom().contains(path@),
                files_in(all).dom().contains(path@) ==> files_in(all)[path@] == files_in(
                    all.subrange(0, i as int),
                )[path@],
            decreases i,
        {
            assert(all.subrange(0, i as int).drop_last() =~= all.subrange(0, i - 1));
            assert(all.subrange(0, i as int).last() == all[i - 1]);
            if same(self.entries[i - 1].0.as_str(), path) {
                return Some(&self.entries[i - 1].1);
            }
            i = i - 1;
        }
        None
    }

    /// Whether a file is there.
    pub fn is_there(&self, path: &str) -> (r: bool)
        ensures
            r == present(self@, path@),
    {
        match self.find(path) {
            Some(FileState::Missing(_)) => false,
            Some(_) => true,
            None => false,
        }
    }

    /// The text of a file, or the message of the failure to read it.
    pub fn read(&self, path: &str) -> (r: Result<String, String>)
        ensures
            match r {
                Ok(t) => contents(self@, path@) == Ok::<Seq<char>, Seq<char>>(t@),
                Err(e) => contents(self@, path@) == Err::<Seq<char>, Seq<char>>(e@),
            },
            match r {
                Ok(t) => readable(self@, path@) == Some(t@),
                Err(_) => readable(self@, path@) is None,
            },
    {
        match self.find(path) {
            Some(FileState::Missing(e)) => Err(e.clone()),
            Some(FileState::Unreadable(e)) => Err(e.clone()),
            Some(FileState::Text(t)) => Ok(t.clone()),
            None => {
                let e = String::new();
                assert(e@ =~= Seq::<char>::empty());
                Err(e)
            },
        }
    }
}

/// What was found of a file last is what is known of it; what is known of others does not change.
pub proof fn last_finding_counts(
    disk: &mut Disk,
    path: String,
    found: FileState,
    other: Seq<char>,
)
    requires
        call_ensures(Disk::learn, (disk, path, found), ()),
    ensures
        file_at(final(disk)@, path@) == found@,
        other != path@ ==> file_at(final(disk)@, other) == file_at(old(disk)@, other),
{
}

/// A file is there unless it was found missing or not looked at, and its text is what was found in
/// it.
pub proof fn found_text_is_read(disk: &Disk, path: &str, there: bool, read: Result<String, String>)
    requires
        call_ensures(Disk::is_there, (disk, path), there),
        call_ensures(Disk::read, (disk, path), read),
    ensures
        there <==> disk@.dom().contains(path@) && !(disk@[path@] is Missing),
        read is Ok <==> disk@.dom().contains(path@) && disk@[path@] is Text,
        read matches Ok(t) ==> disk@[path@] == FileView::Text(t@),
{
}

} // verus!
