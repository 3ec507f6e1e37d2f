//! What is known of one emulator: its name and directory, the extensions of
//! its game files, how many games it has and how many fields its document
//! fills in.

use crate::pattern::captures_iter;
use crate::pattern::regex_captures_iter;
use crate::utils::declared_in;
use crate::utils::directory_name;
use crate::utils::file_extension_from_path;
use crate::utils::file_name_of;
use crate::utils::game_files;
use crate::utils::get_rom_extensions;
use crate::utils::is_game_file;
use crate::utils::is_valid_emulator_extension;
use crate::utils::text_of;
use vstd::prelude::*;

verus! {

/// The start marker of a record.
pub const GAME_PATTERN: &'static str = r"<game>";

/// A field that is filled in: an opening tag, anything, a closing tag, on
/// one line.
pub const FIELD_PATTERN: &'static str = r"<\s?\w+\s?>(.*)</\s?\w+\s?>";

/// An emulator as contracts see it.
pub struct EmulatorMetaView {
    pub name: Seq<char>,
    pub directory: Seq<char>,
    pub gamefile_elements: u32,
    pub game_count: u32,
    pub rom_extensions: Seq<Seq<char>>,
}

/// What is known of one emulator.
#[derive(Debug)]
pub struct EmulatorMeta {
    pub name: String,
    directory: String,
    gamefile_elements: u32,
    game_count: u32,
    rom_extensions: Vec<String>,
}

impl View for EmulatorMeta {
    type V = EmulatorMetaView;

    closed spec fn view(&self) -> EmulatorMetaView {
        EmulatorMetaView {
            name: self.name@,
            directory: self.directory@,
            gamefile_elements: self.gamefile_elements,
            game_count: self.game_count,
            rom_extensions: self.rom_extensions.deep_view(),
        }
    }
}

/// A count as 32 bits hold it: the largest number they hold stands for all
/// that are larger.
pub open spec fn capped(count: nat) -> u32 {
    if count > u32::MAX {
        u32::MAX
    } else {
        count as u32
    }
}

/// How often a pattern matches in a text; not at all where it is refused.
pub open spec fn match_count(pattern: Seq<char>, text: Seq<char>) -> nat {
    match regex_captures_iter(pattern, text) {
        Some(matches) => matches.len(),
        None => 0,
    }
}

/// The counts that a document gives: its records, and its filled-in fields
/// if it has a record at all.
pub open spec fn document_counts(text: Seq<char>) -> (u32, u32) {
    gamefile_counts(match_count(GAME_PATTERN@, text), match_count(FIELD_PATTERN@, text))
}

/// The counts that the numbers of matches give: the records, and the fields
/// if there is a record at all.
pub open spec fn gamefile_counts(games: nat, fields: nat) -> (u32, u32) {
    if games > 0 {
        (capped(games), capped(fields))
    } else {
        (0, 0)
    }
}

/// What a document and the entries of a directory tell of an emulator whose
/// game files have the extensions given.
pub open spec fn described(
    directory: Seq<char>,
    extensions: Seq<Seq<char>>,
    document: Option<Seq<char>>,
    entries: Seq<Seq<char>>,
) -> EmulatorMetaView {
    let in_directory = capped(game_files(entries, extensions).len());
    let in_document = match document {
        Some(text) => document_counts(text),
        None => (0u32, 0u32),
    };
    EmulatorMetaView {
        name: file_name_of(directory),
        directory,
        gamefile_elements: in_document.1,
        game_count: if in_document.0 < in_directory {
            in_directory
        } else {
            in_document.0
        },
        rom_extensions: extensions,
    }
}

/// A count of at most the largest number that 32 bits hold.
fn cap(count: usize) -> (capped_count: u32)
    ensures
        capped_count == capped(count as nat),
{
    if count > u32::MAX as usize {
        u32::MAX
    } else {
        count as u32
    }
}

/// How many of the entries of a directory are game files: their extension
/// is one of those given.
pub fn count_games_in_the_directory(entries: &Vec<String>, extensions: &Vec<String>) -> (game_count:
    u32)
    ensures
        game_count == capped(game_files(entries.deep_view(), extensions.deep_view()).len()),
{
    let ghost all = entries.deep_view();
    let ghost wanted = |path: Seq<char>| is_game_file(path, extensions.deep_view());
    let mut game_count: usize = 0;
    let mut i: usize = 0;
    while i < entries.len()
        invariant
            i <= entries.len(),
            all == entries.deep_view(),
            wanted == |path: Seq<char>| is_game_file(path, extensions.deep_view()),
            game_count == all.take(i as int).filter(wanted).len(),
            game_count <= i,
        decreases entries.len() - i,
    {
        let extension = file_extension_from_path(entries[i].as_str());
        proof {
            reveal(Seq::filter);
            assert(all.take(i + 1).drop_last() =~= all.take(i as int));
        }
        if is_valid_emulator_extension(extension, extensions) {
            game_count += 1;
        }
        i += 1;
    }
    assert(all.take(entries.len() as int) =~= all);
    cap(game_count)
}

/// The counts that the numbers of matches give: the records, and the fields
/// if there is a record at all.
pub fn counts_of_matches(games: usize, fields: usize) -> (counts: (u32, u32))
    ensures
        counts == gamefile_counts(games as nat, fields as nat),
{
    if games > 0 {
        (cap(games), cap(fields))
    } else {
        (0, 0)
    }
}

/// How many records the text of a document lists, and how many of their
/// fields are filled in.
pub fn gamefile_game_count_and_field(file_string: &str) -> (counts: (u32, u32))
    ensures
        counts == document_counts(file_string@),
{
    let game_count = match captures_iter(GAME_PATTERN, file_string) {
        Some(matches) => matches.len(),
        None => 0,
    };
    let field_count = if game_count > 0 {
        match captures_iter(FIELD_PATTERN, file_string) {
            Some(matches) => matches.len(),
            None => 0,
        }
    } else {
        0
    };
    counts_of_matches(game_count, field_count)
}

/// What is known of the emulator of a directory, from what was found there:
/// the text of its information file and of its document where they could be
/// read, and the paths of its entries. The emulator has as many games as its
/// document lists or its directory holds, whichever is more. `None` where
/// the information file declares no extensions.
pub fn new(directory: &str, info: Option<&str>, document: Option<&str>, entries: &Vec<String>) -> (made:
    Option<EmulatorMeta>)
    ensures
        match declared_in(text_of(info)) {
            Some(extensions) => made is Some && made->Some_0@ == described(
                directory@,
                extensions,
                text_of(document),
                entries.deep_view(),
            ),
            None => made is None,
        },
{
    let extensions = match info {
        Some(info) => get_rom_extensions(info),
        None => None,
    };
    let extensions = match extensions {
        Some(extensions) => extensions,
        None => {
            return None;
        },
    };
    let name = directory_name(directory);
    let dir_game_count = count_games_in_the_directory(entries, &extensions);
    let gamefile_meta = match document {
        Some(document) => gamefile_game_count_and_field(document),
        None => (0, 0),
    };
    let file_game_count = gamefile_meta.0;
    let total_elements = gamefile_meta.1;
    Some(
        EmulatorMeta {
            name,
            directory: directory.to_string(),
            gamefile_elements: total_elements,
            game_count: if file_game_count < dir_game_count {
                dir_game_count
            } else {
                file_game_count
            },
            rom_extensions: extensions,
        },
    )
}

impl EmulatorMeta {
    /// The emulator of which that much is known.
    pub fn restore(
        name: String,
        directory: String,
        gamefile_elements: u32,
        game_count: u32,
        rom_extensions: Vec<String>,
    ) -> (emulator: EmulatorMeta)
        ensures
            emulator@ == (EmulatorMetaView {
                name: name@,
                directory: directory@,
                gamefile_elements,
                game_count,
                rom_extensions: rom_extensions.deep_view(),
            }),
    {
        EmulatorMeta { name, directory, gamefile_elements, game_count, rom_extensions }
    }

    /// How many games the emulator has.
    pub fn game_count(&self) -> (count: u32)
        ensures
            count == self@.game_count,
    {
        self.game_count
    }

    /// How many fields the emulator's document fills in.
    pub fn gamefile_elements(&self) -> (count: u32)
        ensures
            count == self@.gamefile_elements,
    {
        self.gamefile_elements
    }

    /// The path of the emulator's directory.
    pub fn directory_path(&self) -> (path: String)
        ensures
            path@ == self@.directory,
    {
        self.directory.clone()
    }

    /// The extensions of the emulator's game files.
    pub fn rom_extensions(&self) -> (extensions: &Vec<String>)
        ensures
            extensions.deep_view() == self@.rom_extensions,
    {
        &self.rom_extensions
    }
}

} // verus!
