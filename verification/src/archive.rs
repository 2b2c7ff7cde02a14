//! The layout of the archive of an animation: `desc.txt` at the top, and one
//! directory for each part with its frames and, where it has one, its sound.

use vstd::prelude::*;
use vstd::string::*;
use crate::decode::PartListing;
use crate::text::to_chars;

verus! {

/// The name of the descriptor in the archive: `desc.txt`.
pub open spec fn descriptor_entry() -> Seq<char> {
    seq!['d', 'e', 's', 'c', '.', 't', 'x', 't']
}

/// The name of the descriptor in the archive.
pub fn descriptor_entry_name() -> (name: String)
    ensures
        name@ == descriptor_entry(),
{
    let mut name = String::new();
    name.push('d');
    name.push('e');
    name.push('s');
    name.push('c');
    name.push('.');
    name.push('t');
    name.push('x');
    name.push('t');
    name
}

/// An entry of an archive stands for a directory: its name ends in `/`.
pub open spec fn names_directory(name: Seq<char>) -> bool {
    name.len() > 0 && name.last() == '/'
}

/// Tells whether an entry of an archive stands for a directory.
pub fn is_directory_entry(name: &str) -> (r: bool)
    ensures
        r == names_directory(name@),
{
    let s = to_chars(name);
    s.len() > 0 && s[s.len() - 1] == '/'
}

/// A directory belongs to the animation as a part: its name starts with
/// `part`.
pub open spec fn names_part(name: Seq<char>) -> bool {
    seq!['p', 'a', 'r', 't'].is_prefix_of(name)
}

/// Tells whether a directory belongs to the animation as a part.
pub fn is_part_directory(name: &str) -> (r: bool)
    ensures
        r == names_part(name@),
{
    let s = to_chars(name);
    if s.len() >= 4 && s[0] == 'p' && s[1] == 'a' && s[2] == 'r' && s[3] == 't' {
        true
    } else {
        false
    }
}

/// The name of a file of a part in the archive: the directory, a `/`, the
/// file.
pub open spec fn entry_name(part: Seq<char>, file: Seq<char>) -> Seq<char> {
    part + seq!['/'] + file
}

/// The name of a file of a part in the archive.
pub fn archive_entry_name(part: &str, file: &str) -> (name: String)
    ensures
        name@ == entry_name(part@, file@),
{
    let mut name = String::new();
    name.append(part);
    name.push('/');
    name.append(file);
    name
}

/// A file that goes into the archive.
#[derive(Clone, Debug, PartialEq, Eq)]
pub struct ArchiveEntry {
    /// The position of its directory in the listing.
    pub part: usize,
    /// The position of the file in the listing of its directory.
    pub file: usize,
    /// Its name in the archive.
    pub name: String,
}

/// What an [`ArchiveEntry`] holds, as mathematical values.
pub struct EntryModel {
    pub part: int,
    pub file: int,
    pub name: Seq<char>,
}

impl View for ArchiveEntry {
    type V = EntryModel;

    open spec fn view(&self) -> EntryModel {
        EntryModel { part: self.part as int, file: self.file as int, name: self.name@ }
    }
}

/// What the entries of `v` hold.
pub open spec fn entry_views(v: Seq<ArchiveEntry>) -> Seq<EntryModel> {
    Seq::new(v.len(), |i: int| v[i]@)
}

/// The entries for the first `n` files of a directory, in their order.
pub open spec fn entries_of_part(listing: PartListing, part: int, n: int) -> Seq<EntryModel>
    decreases n,
{
    if n <= 0 {
        Seq::empty()
    } else {
        entries_of_part(listing, part, n - 1).push(
            EntryModel {
                part,
                file: n - 1,
                name: entry_name(listing.name@, listing.files[n - 1]@),
            },
        )
    }
}

/// The entries for the first `n` directories of a listing: for each that is
/// a part, in the order of the listing, all its files in their order.
pub open spec fn entries_of(listings: Seq<PartListing>, n: int) -> Seq<EntryModel>
    decreases n,
{
    if n <= 0 {
        Seq::empty()
    } else if names_part(listings[n - 1].name@) {
        entries_of(listings, n - 1) + entries_of_part(
            listings[n - 1],
            n - 1,
            listings[n - 1].files.len() as int,
        )
    } else {
        entries_of(listings, n - 1)
    }
}

/// Lists what goes into the archive behind the descriptor: the files of
/// every directory whose name starts with `part`, directory by directory in
/// the order of the listing, each under the name of its directory.
pub fn archive_entries(listings: &Vec<PartListing>) -> (entries: Vec<ArchiveEntry>)
    ensures
        entry_views(entries@) == entries_of(listings@, listings.len() as int),
{
    let mut entries: Vec<ArchiveEntry> = Vec::new();
    let mut p: usize = 0;
    while p < listings.len()
        invariant
            p <= listings.len(),
            entry_views(entries@) == entries_of(listings@, p as int),
        decreases listings.len() - p,
    {
        let listing = &listings[p];
        if is_part_directory(listing.name.as_str()) {
            let ghost done = entry_views(entries@);
            let mut f: usize = 0;
            while f < listing.files.len()
                invariant
                    f <= listing.files.len(),
                    p < listings.len(),
                    *listing == listings[p as int],
                    entry_views(entries@) == done + entries_of_part(*listing, p as int, f as int),
                decreases listing.files.len() - f,
            {
                let ghost before = entry_views(entries@);
                let entry = ArchiveEntry {
                    part: p,
                    file: f,
                    name: archive_entry_name(listing.name.as_str(), listing.files[f].as_str()),
                };
                entries.push(entry);
                proof {
                    assert(entry_views(entries@) =~= before.push(entry@));
                }
                f += 1;
            }
        }
        p += 1;
    }
    entries
}

} // verus!
