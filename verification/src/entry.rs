//! Entries of the remote store.

use vstd::prelude::*;

verus! {

/// A remote file.
#[derive(Debug, PartialEq, Eq)]
pub struct File {
    pub file_id: u64,
    pub name: String,
    pub modified: String,
}

/// A remote folder. The contents are present only when the folder was
/// fetched together with them.
#[derive(Debug, PartialEq, Eq)]
pub struct Folder {
    pub folder_id: u64,
    pub name: String,
    pub modified: String,
    pub contents: Option<Vec<Entry>>,
}

/// A remote entry: a file or a folder.
#[derive(Debug, PartialEq, Eq)]
pub enum Entry {
    File(File),
    Folder(Folder),
}

/// A remote entry as a value of the model: its kind, its identifier and
/// its name. The date of its last change and what a folder holds are left
/// out: no decision of the library reads them.
pub enum EntryView {
    File { file_id: u64, name: Seq<char> },
    Folder { folder_id: u64, name: Seq<char> },
}

impl EntryView {
    /// The name of the entry among its siblings.
    pub open spec fn name(self) -> Seq<char> {
        match self {
            EntryView::File { name, .. } => name,
            EntryView::Folder { name, .. } => name,
        }
    }
}

impl View for Entry {
    type V = EntryView;

    open spec fn view(&self) -> EntryView {
        match *self {
            Entry::File(file) => EntryView::File { file_id: file.file_id, name: file.name@ },
            Entry::Folder(folder) => EntryView::Folder {
                folder_id: folder.folder_id,
                name: folder.name@,
            },
        }
    }
}

/// The models of a sequence of remote entries.
pub open spec fn entry_views(entries: Seq<Entry>) -> Seq<EntryView> {
    entries.map_values(|entry: Entry| entry@)
}

impl Entry {
    /// The name of the entry among its siblings.
    pub open spec fn spec_name(self) -> Seq<char> {
        match self {
            Entry::File(file) => file.name@,
            Entry::Folder(folder) => folder.name@,
        }
    }

    /// The identifier that the store gave the entry.
    pub open spec fn spec_id(self) -> u64 {
        match self {
            Entry::File(file) => file.file_id,
            Entry::Folder(folder) => folder.folder_id,
        }
    }

    /// The name of the entry among its siblings.
    pub fn name(&self) -> (name: &String)
        ensures
            name@ == self.spec_name(),
    {
        match self {
            Entry::File(file) => &file.name,
            Entry::Folder(folder) => &folder.name,
        }
    }

    /// The identifier that the store gave the entry.
    pub fn id(&self) -> (id: u64)
        ensures
            id == self.spec_id(),
    {
        match self {
            Entry::File(file) => file.file_id,
            Entry::Folder(folder) => folder.folder_id,
        }
    }

    /// Whether the entry is a folder.
    pub fn is_folder(&self) -> (b: bool)
        ensures
            b == (*self is Folder),
    {
        match self {
            Entry::File(_) => false,
            Entry::Folder(_) => true,
        }
    }
}

impl Folder {
    /// The entries that the folder was fetched with; none if it was fetched
    /// without its contents.
    pub open spec fn entries(self) -> Seq<Entry> {
        match self.contents {
            Some(list) => list@,
            None => Seq::empty(),
        }
    }

    /// The models of the entries that the folder was fetched with.
    pub open spec fn listing(self) -> Seq<EntryView> {
        entry_views(self.entries())
    }

    /// The index of the first file called `name` among the entries, if any.
    pub open spec fn file_index(self, name: Seq<char>) -> Option<int> {
        first_file(self.listing(), name, 0)
    }
}

/// A remote folder as a value of the model: its identifier and the listing
/// of its contents.
pub struct FolderView {
    pub folder_id: u64,
    pub listing: Seq<EntryView>,
}

impl View for Folder {
    type V = FolderView;

    open spec fn view(&self) -> FolderView {
        FolderView { folder_id: self.folder_id, listing: self.listing() }
    }
}

impl FolderView {
    /// The index of the first file called `name` in the listing, if any.
    pub open spec fn file_index(self, name: Seq<char>) -> Option<int> {
        first_file(self.listing, name, 0)
    }
}

/// The index of the first file called `name` in `entries` from `from` on.
pub open spec fn first_file(entries: Seq<EntryView>, name: Seq<char>, from: int) -> Option<int>
    decreases entries.len() - from,
{
    if from < 0 || from >= entries.len() {
        None
    } else if entries[from] is File && entries[from].name() == name {
        Some(from)
    } else {
        first_file(entries, name, from + 1)
    }
}

/// A search from `from` on finds a file called `name` exactly when one
/// stands there or later, and finds the first such.
pub proof fn lemma_first_file(entries: Seq<EntryView>, name: Seq<char>, from: int)
    requires
        0 <= from,
    ensures
        match first_file(entries, name, from) {
            Some(i) => from <= i < entries.len() && entries[i] is File && entries[i].name()
                == name && forall|k: int|
                from <= k < i ==> !((#[trigger] entries[k]) is File && entries[k].name()
                    == name),
            None => forall|k: int|
                from <= k < entries.len() ==> !((#[trigger] entries[k]) is File
                    && entries[k].name() == name),
        },
    decreases entries.len() - from,
{
    if from < entries.len() && !(entries[from] is File && entries[from].name() == name) {
        lemma_first_file(entries, name, from + 1);
    }
}

/// The first file called `fname` in the contents of `folder`, if there is
/// one. Folders of that name do not count.
pub fn contains_file<'a>(folder: &'a Folder, fname: &String) -> (found: Option<&'a File>)
    ensures
        match folder.file_index(fname@) {
            Some(i) => found == Some(&folder.entries()[i]->File_0),
            None => found is None,
        },
{
    match &folder.contents {
        None => None,
        Some(list) => {
            let mut i: usize = 0;
            while i < list.len()
                invariant
                    i <= list.len(),
                    folder.contents == Some(*list),
                    first_file(entry_views(list@), fname@, 0) == first_file(
                        entry_views(list@),
                        fname@,
                        i as int,
                    ),
                decreases list.len() - i,
            {
                match &list[i] {
                    Entry::File(file) => {
                        if file.name == *fname {
                            return Some(file);
                        }
                    },
                    Entry::Folder(_) => {},
                }
                i += 1;
            }
            None
        },
    }
}

} // verus!
