//! Which directories are sources of a catalog: those that hold both a
//! document and an information file.

use crate::utils::Error;
use vstd::prelude::*;

verus! {

/// What a look at one entry of a directory found.
#[derive(Debug)]
pub struct DirectoryEntry {
    pub path: String,
    pub is_dir: bool,
    pub has_gamelist: bool,
    pub has_info: bool,
}

/// An entry as contracts see it.
pub struct DirectoryEntryView {
    pub path: Seq<char>,
    pub is_dir: bool,
    pub has_gamelist: bool,
    pub has_info: bool,
}

impl View for DirectoryEntry {
    type V = DirectoryEntryView;

    open spec fn view(&self) -> DirectoryEntryView {
        DirectoryEntryView {
            path: self.path@,
            is_dir: self.is_dir,
            has_gamelist: self.has_gamelist,
            has_info: self.has_info,
        }
    }
}

/// The entry is a directory that holds both required files.
pub open spec fn is_source(entry: DirectoryEntryView) -> bool {
    entry.is_dir && entry.has_gamelist && entry.has_info
}

/// The paths of the entries that are sources of a catalog, in order.
pub open spec fn source_paths(entries: Seq<DirectoryEntryView>) -> Seq<Seq<char>> {
    entries.filter(|e: DirectoryEntryView| is_source(e)).map_values(
        |e: DirectoryEntryView| e.path,
    )
}

/// The path of a directory that holds both a document and an information
/// file; `MissingRequiredFiles` where it lacks one of them.
pub fn valid_directory_entry(dir_path: &str, has_gamelist: bool, has_info: bool) -> (valid: Result<
    String,
    Error,
>)
    ensures
        has_gamelist && has_info ==> valid is Ok && valid->Ok_0@ == dir_path@,
        !(has_gamelist && has_info) ==> valid == Err::<String, Error>(Error::MissingRequiredFiles),
{
    if has_gamelist && has_info {
        Ok(dir_path.to_string())
    } else {
        Err(Error::MissingRequiredFiles)
    }
}

/// The paths of the directories among the entries of a path that are
/// sources of a catalog, in the order of the entries. `NoneValidPath` where
/// the path does not exist, `CannotReadDirectory` where its entries could
/// not be read.
pub fn valid_directories_list(path_exists: bool, entries: Option<&Vec<DirectoryEntry>>) -> (valid:
    Result<Vec<String>, Error>)
    ensures
        !path_exists ==> valid == Err::<Vec<String>, Error>(Error::NoneValidPath),
        path_exists && entries is None ==> valid == Err::<Vec<String>, Error>(
            Error::CannotReadDirectory,
        ),
        path_exists && entries is Some ==> valid is Ok && valid->Ok_0.deep_view() == source_paths(
            entries->Some_0@.map_values(|e: DirectoryEntry| e@),
        ),
{
    if !path_exists {
        return Err(Error::NoneValidPath);
    }
    let dir_entries = match entries {
        Some(entries) => entries,
        None => {
            return Err(Error::CannotReadDirectory);
        },
    };
    let ghost all = dir_entries@.map_values(|e: DirectoryEntry| e@);
    let mut valid_paths: Vec<String> = Vec::new();
    let mut i: usize = 0;
    while i < dir_entries.len()
        invariant
            i <= dir_entries.len(),
            all == dir_entries@.map_values(|e: DirectoryEntry| e@),
            valid_paths.deep_view() == source_paths(all.take(i as int)),
        decreases dir_entries.len() - i,
    {
        let entry = &dir_entries[i];
        proof {
            reveal(Seq::filter);
            assert(all.take(i + 1).drop_last() =~= all.take(i as int));
        }
        if entry.is_dir {
            if let Ok(valid_path) = valid_directory_entry(
                entry.path.as_str(),
                entry.has_gamelist,
                entry.has_info,
            ) {
                let ghost before = valid_paths.deep_view();
                valid_paths.push(valid_path);
                assert(valid_paths.deep_view() =~= before.push(entry@.path));
            }
        }
        i += 1;
    }
    assert(all.take(dir_entries.len() as int) =~= all);
    Ok(valid_paths)
}

} // verus!
