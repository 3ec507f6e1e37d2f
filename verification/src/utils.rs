//! Helpers on paths, taken as text with `/` between the components.

use crate::pattern::Groups;
use crate::pattern::captures_iter;
use crate::pattern::group_text;
use crate::pattern::regex_captures_iter;
use crate::text::chars_of;
use crate::text::remove_char;
use crate::text::same_text;
use crate::text::split;
use crate::text::split_on;
use crate::text::string_of;
use crate::text::without_char;
use vstd::prelude::*;

verus! {

/// Why a directory cannot serve as the source of a catalog.
#[derive(Debug, PartialEq, Eq, Clone, Copy, Structural)]
pub enum Error {
    MissingRequiredFiles,
    CannotReadDirectory,
    NoneValidPath,
}

/// The offset behind the last `/` of `path`; 0 where it holds none.
pub open spec fn name_start(path: Seq<char>) -> int
    decreases path.len(),
{
    if path.len() == 0 {
        0
    } else if path.last() == '/' {
        path.len() as int
    } else {
        name_start(path.drop_last())
    }
}

/// `path` without the `/` at its end, however many there are.
pub open spec fn without_trailing_separators(path: Seq<char>) -> Seq<char>
    decreases path.len(),
{
    if path.len() > 0 && path.last() == '/' {
        without_trailing_separators(path.drop_last())
    } else {
        path
    }
}

/// The last component of `path`: with the `/` at the end of the path left
/// aside, what follows its last `/`, all of it where it holds none.
pub open spec fn file_name_of(path: Seq<char>) -> Seq<char> {
    let named = without_trailing_separators(path);
    named.subrange(name_start(named), named.len() as int)
}

/// The characters of `path` without the `/` at its end.
fn named_part(path: &str) -> (named: Vec<char>)
    ensures
        named@ == without_trailing_separators(path@),
{
    let mut named = chars_of(path);
    while named.len() > 0 && named[named.len() - 1] == '/'
        invariant
            without_trailing_separators(named@) == without_trailing_separators(path@),
        decreases named.len(),
    {
        named.pop();
    }
    named
}

/// The offset behind the last `/` of `path`.
fn start_of_name(path: &Vec<char>) -> (start: usize)
    ensures
        start == name_start(path@),
        start <= path.len(),
{
    let mut end: usize = path.len();
    assert(path@.take(end as int) =~= path@);
    while end > 0 && path[end - 1] != '/'
        invariant
            end <= path.len(),
            name_start(path@) == name_start(path@.take(end as int)),
        decreases end,
    {
        assert(path@.take(end as int).drop_last() =~= path@.take(end - 1));
        end -= 1;
    }
    end
}

/// The last component of `path`: what follows its last `/`, a `/` at the
/// end of the path not counting.
pub fn file_name_to_string(path: &str) -> (name: String)
    ensures
        name@ == file_name_of(path@),
{
    let chars = named_part(path);
    let start = start_of_name(&chars);
    string_of(&chars, start, chars.len())
}

/// The name of a directory: the last component of its path.
pub fn directory_name(path: &str) -> (name: String)
    ensures
        name@ == file_name_of(path@),
{
    file_name_to_string(path)
}

/// The offset of the last `.` of `name`; -1 where it holds none.
pub open spec fn last_dot(name: Seq<char>) -> int
    decreases name.len(),
{
    if name.len() == 0 {
        -1
    } else if name.last() == '.' {
        name.len() - 1
    } else {
        last_dot(name.drop_last())
    }
}

/// The extension of the file that `path` names: what follows the last `.`
/// of the file's name. A name without a `.`, a name whose only `.` is its
/// first character, and the name `..` have none.
pub open spec fn extension_of(path: Seq<char>) -> Option<Seq<char>> {
    let name = file_name_of(path);
    if last_dot(name) <= 0 || name == seq!['.', '.'] {
        None
    } else {
        Some(name.subrange(last_dot(name) + 1, name.len() as int))
    }
}

/// The offset of the last `.` at or behind `from`, one less than `from`
/// where there is none.
fn find_last_dot(chars: &Vec<char>, from: usize) -> (dot: usize)
    requires
        from <= chars.len(),
    ensures
        dot as int == from + last_dot(chars@.subrange(from as int, chars.len() as int)) + 1,
        from <= dot <= chars.len(),
{
    let ghost name = chars@.subrange(from as int, chars.len() as int);
    let mut end: usize = chars.len();
    assert(name.take(end - from) =~= name);
    while end > from && chars[end - 1] != '.'
        invariant
            from <= end <= chars.len(),
            name == chars@.subrange(from as int, chars.len() as int),
            last_dot(name) == last_dot(name.take(end - from)),
        decreases end,
    {
        assert(name.take(end - from).drop_last() =~= name.take(end - 1 - from));
        end -= 1;
    }
    end
}

/// The extension of the file that `file_path` names, if it has one.
pub fn file_extension_from_path(file_path: &str) -> (extension: Option<String>)
    ensures
        extension.deep_view() == extension_of(file_path@),
{
    let chars = named_part(file_path);
    let start = start_of_name(&chars);
    let ghost name = file_name_of(file_path@);
    let dot = find_last_dot(&chars, start);
    if dot - start <= 1 {
        return None;
    }
    if chars.len() - start == 2 && chars[start] == '.' && chars[start + 1] == '.' {
        assert(name =~= seq!['.', '.']);
        return None;
    }
    Some(string_of(&chars, dot, chars.len()))
}

/// The line of an emulator's information file that declares the extensions
/// of its game files: the declared list, still with its dots and spaces, is
/// the first group.
pub const EXTENSIONS_PATTERN: &'static str =
    r#"ROM files extensions accepted:\s+"((\s?\.[A-Za-z0-9]+)*)"#;

/// The extensions that one declared list names: the list without its dots,
/// cut at each space.
pub open spec fn declared_extensions(list: Seq<char>) -> Seq<Seq<char>> {
    split_on(without_char(list, '.'), ' ')
}

/// The extensions that the matches of the declaring line name, in order: for
/// each match those of its first group.
pub open spec fn extensions_of_matches(matches: Seq<Groups>) -> Seq<Seq<char>>
    decreases matches.len(),
{
    if matches.len() == 0 {
        Seq::empty()
    } else {
        extensions_of_matches(matches.drop_last()) + match group_text(matches.last(), 1) {
            Some(list) => declared_extensions(list),
            None => Seq::empty(),
        }
    }
}

/// The matches of the declaring line in the text of an information file.
pub open spec fn extension_matches(info: Seq<char>) -> Seq<Groups> {
    match regex_captures_iter(EXTENSIONS_PATTERN@, info) {
        Some(matches) => matches,
        None => Seq::empty(),
    }
}

/// What a list of extensions is worth: nothing where it is empty.
pub open spec fn some_if_any(extensions: Seq<Seq<char>>) -> Option<Seq<Seq<char>>> {
    if extensions.len() == 0 {
        None
    } else {
        Some(extensions)
    }
}

/// The extensions that the matches of the declaring line name: for each
/// match its first group, without its dots, cut at each space. `None` where
/// that gives no extension at all.
pub fn extensions_from_matches(matches: &Vec<Vec<Option<String>>>) -> (extensions: Option<
    Vec<String>,
>)
    ensures
        extensions.deep_view() == some_if_any(extensions_of_matches(matches.deep_view())),
{
    let ghost all = matches.deep_view();
    let mut extensions_vec: Vec<String> = Vec::new();
    let mut i: usize = 0;
    while i < matches.len()
        invariant
            i <= matches.len(),
            all == matches.deep_view(),
            extensions_vec.deep_view() == extensions_of_matches(all.take(i as int)),
        decreases matches.len() - i,
    {
        let groups = &matches[i];
        proof {
            assert(all.take(i + 1).drop_last() =~= all.take(i as int));
        }
        if groups.len() > 1 {
            if let Some(list) = &groups[1] {
                let line = remove_char(&chars_of(list.as_str()), '.');
                let mut pieces = split(&line, ' ');
                extensions_vec.append(&mut pieces);
            }
        }
        i += 1;
    }
    assert(all.take(matches.len() as int) =~= all);
    if extensions_vec.len() == 0 {
        None
    } else {
        Some(extensions_vec)
    }
}

/// The extensions of game files that the text of an emulator's information
/// file declares, in its line `ROM files extensions accepted: ".a .b"`.
/// `None` where the text declares none.
pub fn get_rom_extensions(file_string: &str) -> (extensions: Option<Vec<String>>)
    ensures
        extensions.deep_view() == some_if_any(
            extensions_of_matches(extension_matches(file_string@)),
        ),
{
    match captures_iter(EXTENSIONS_PATTERN, file_string) {
        Some(matches) => extensions_from_matches(&matches),
        None => None,
    }
}

/// The text that an optional string slice holds.
pub open spec fn text_of(text: Option<&str>) -> Option<Seq<char>> {
    match text {
        Some(text) => Some(text@),
        None => None,
    }
}

/// The extensions that the text of an information file declares, where
/// there is such a text.
pub open spec fn declared_in(info: Option<Seq<char>>) -> Option<Seq<Seq<char>>> {
    match info {
        Some(info) => some_if_any(extensions_of_matches(extension_matches(info))),
        None => None,
    }
}

/// The file that `path` names has one of the extensions.
pub open spec fn is_game_file(path: Seq<char>, extensions: Seq<Seq<char>>) -> bool {
    match extension_of(path) {
        Some(extension) => extensions.contains(extension),
        None => false,
    }
}

/// Those of the entries of a directory that are game files, in order.
pub open spec fn game_files(entries: Seq<Seq<char>>, extensions: Seq<Seq<char>>) -> Seq<
    Seq<char>,
> {
    entries.filter(|path: Seq<char>| is_game_file(path, extensions))
}

/// Whether `extension` is there and is one of `valid_extensions`.
pub fn is_valid_emulator_extension(
    extension: Option<String>,
    valid_extensions: &Vec<String>,
) -> (valid: bool)
    ensures
        valid == match extension {
            Some(extension) => valid_extensions.deep_view().contains(extension@),
            None => false,
        },
{
    if let Some(wanted) = &extension {
        let mut i: usize = 0;
        while i < valid_extensions.len()
            invariant
                i <= valid_extensions.len(),
                extension == Some(*wanted),
                forall|k: int| 0 <= k < i ==> valid_extensions.deep_view()[k] != wanted@,
            decreases valid_extensions.len() - i,
        {
            assert(valid_extensions.deep_view()[i as int] == valid_extensions@[i as int]@);
            if same_text(valid_extensions[i].as_str(), wanted.as_str()) {
                return true;
            }
            i += 1;
        }
        return false;
    }
    false
}

} // verus!
