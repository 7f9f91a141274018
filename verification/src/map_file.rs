//! Reading `.omap` files: their tree of XML elements, the interactive
//! exploration of that tree, and which files of a folder are maps.

use vstd::prelude::*;
use crate::text::chars_of;

pub mod explorer;
pub mod reading;
pub mod xml_source;

verus! {

/// Whether a path names a map file: it ends in `.omap`.
pub open spec fn is_map_file_name(path: Seq<char>) -> bool {
    path.len() >= ".omap"@.len() && path.skip(path.len() - ".omap"@.len()) == ".omap"@
}

/// Whether a path names a map file (see `is_map_file_name`).
pub fn is_map_file(path: &str) -> (r: bool)
    ensures
        r == is_map_file_name(path@),
{
    let cs = chars_of(path);
    let ext = chars_of(".omap");
    if cs.len() < ext.len() {
        return false;
    }
    let start = cs.len() - ext.len();
    let ghost tail = cs@.skip(start as int);
    for i in 0..ext.len()
        invariant
            cs@ == path@,
            start + ext@.len() == cs@.len(),
            start + ext.len() == cs.len(),
            tail == cs@.skip(start as int),
            ext@ == ".omap"@,
            forall|j: int| 0 <= j < i ==> tail[j] == ext@[j],
    {
        if cs[start + i] != ext[i] {
            assert(tail[i as int] != ext@[i as int]);
            return false;
        }
    }
    assert(tail =~= ext@);
    true
}

/// What the search for maps does with one entry of a folder.
#[derive(Debug, Clone, Copy, PartialEq, Eq, Structural)]
pub enum EntryAction {
    /// A folder: searched in turn.
    Descend,
    /// A map file: listed.
    TakeMap,
    /// Anything else: passed over.
    Skip,
}

/// What becomes of an entry: folders are searched, files and symbolic links
/// whose path ends in `.omap` are maps, the rest is passed over.
pub open spec fn entry_action_of(is_dir: bool, is_file: bool, is_symlink: bool, path: Seq<char>) -> EntryAction {
    if is_dir {
        EntryAction::Descend
    } else if (is_file || is_symlink) && is_map_file_name(path) {
        EntryAction::TakeMap
    } else {
        EntryAction::Skip
    }
}

/// Decides what becomes of an entry of a folder (see `entry_action_of`).
pub fn entry_action(is_dir: bool, is_file: bool, is_symlink: bool, path: &str) -> (r: EntryAction)
    ensures
        r == entry_action_of(is_dir, is_file, is_symlink, path@),
{
    if is_dir {
        EntryAction::Descend
    } else if (is_file || is_symlink) && is_map_file(path) {
        EntryAction::TakeMap
    } else {
        EntryAction::Skip
    }
}

} // verus!
