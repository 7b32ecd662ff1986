//! What directories hold, and looking through it.

use vstd::prelude::*;

use crate::text::view_of;

verus! {

/// An entry of a directory.
pub struct Entry {
    pub path: String,
    /// The last component of the path, where it is readable text.
    pub name: Option<String>,
    pub is_dir: bool,
}

pub struct EntryView {
    pub path: Seq<char>,
    pub name: Option<Seq<char>>,
    pub is_dir: bool,
}

impl View for Entry {
    type V = EntryView;

    open spec fn view(&self) -> EntryView {
        EntryView { path: self.path@, name: view_of(self.name), is_dir: self.is_dir }
    }
}

/// The entries of a directory that could be read, or why it could not be.
pub type Listing = Result<Vec<Entry>, String>;

pub open spec fn entry_views(entries: Seq<Entry>) -> Seq<EntryView> {
    entries.map_values(|e: Entry| e@)
}

/// What reading a directory came to.
pub open spec fn listed(listing: Listing) -> Result<Seq<EntryView>, Seq<char>> {
    match listing {
        Ok(entries) => Ok(entry_views(entries@)),
        Err(e) => Err(e@),
    }
}

/// The path of the first entry with some property.
pub open spec fn first_entry(entries: Seq<EntryView>, p: spec_fn(EntryView) -> bool) -> Option<
    Seq<char>,
>
    decreases entries.len(),
{
    if entries.len() == 0 {
        None
    } else if p(entries[0]) {
        Some(entries[0].path)
    } else {
        first_entry(entries.drop_first(), p)
    }
}

} // verus!
