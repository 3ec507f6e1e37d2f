//! The catalog of one directory: reading it from the document, merging it
//! with the files found in the directory, writing it back.
//!
//! The document is text. Between `<gameList>` and `</gameList>` it holds one
//! `<game>` ... `</game>` span for each record, and in each span one
//! `<name>value</name>` pair for each field.

pub mod markers;
pub mod structs;

use crate::game_listings::structs::game::Error;
use crate::game_listings::structs::game::Field;
use crate::game_listings::structs::game::FieldType;
use crate::game_listings::structs::game::FieldView;
use crate::game_listings::structs::game::Game;
use crate::game_listings::structs::game::GameView;
use crate::game_listings::structs::game::field_for;
use crate::game_listings::structs::game::field_views;
use crate::game_listings::structs::game::is_last_named;
use crate::game_listings::structs::game::lemma_last_named_is_unique;
use crate::game_listings::structs::game::value_is_valid;
use crate::game_listings::structs::game_list::GameList;
use crate::game_listings::structs::game_list::GameListView;
use crate::game_listings::structs::game_list::SearchGames;
use crate::game_listings::structs::game_list::game_views;
use crate::game_listings::structs::game_list::holds;
use crate::game_listings::structs::game_list::is_first_holding;
use crate::game_listings::structs::game_list::some_holds;
use crate::pattern::Groups;
use crate::pattern::captures;
use crate::pattern::captures_iter;
use crate::pattern::group_text;
use crate::pattern::regex_captures;
use crate::pattern::regex_captures_iter;
use crate::text::chars_of;
use crate::text::find_all;
use crate::text::occurrences;
use crate::text::remove_char;
use crate::text::string_of;
use crate::text::without_char;
use crate::utils::declared_in;
use crate::utils::directory_name;
use crate::utils::file_extension_from_path;
use crate::utils::file_name_of;
use crate::utils::file_name_to_string;
use crate::utils::game_files;
use crate::utils::get_rom_extensions;
use crate::utils::is_game_file;
use crate::utils::is_valid_emulator_extension;
use crate::utils::some_if_any;
use crate::utils::text_of;
use vstd::string::StringExecFns;
use vstd::prelude::*;

verus! {

/// The whole list: what stands between the first `<gameList>` and the last
/// `</gameList>` is its one group.
pub const LIST_PATTERN: &'static str = r"<gameList>((?:.|\n)*)</gameList>";

/// One field: a name in angle brackets, a value that holds no angle bracket,
/// and a closing tag. The name is the first group and the value the second.
pub const TAG_PATTERN: &'static str = r"<([\w:-]+)>((?:[^<>]|\n|\w)*)</[\w:-]+>";

/// The record that has, behind the fields of `game`, one field for each match
/// that holds a name and a value, in the order of the matches.
pub open spec fn with_fields(game: GameView, matches: Seq<Groups>) -> GameView
    decreases matches.len(),
{
    if matches.len() == 0 {
        game
    } else {
        let before = with_fields(game, matches.drop_last());
        match (group_text(matches.last(), 1), group_text(matches.last(), 2)) {
            (Some(name), Some(value)) => before.with_added(field_for(name, value)),
            _ => before,
        }
    }
}

/// The matches of the field pattern in a fragment, from left to right.
pub open spec fn fragment_matches(fragment: Seq<char>) -> Seq<Groups> {
    match regex_captures_iter(TAG_PATTERN@, fragment) {
        Some(matches) => matches,
        None => Seq::empty(),
    }
}

/// The record of that id that a fragment of the document gives: its fields
/// are the pairs of the fragment, and it is not marked as edited.
pub open spec fn parsed_game(id: usize, fragment: Seq<char>) -> GameView {
    with_fields(
        GameView { id, been_edited: false, fields: Seq::empty() },
        fragment_matches(fragment),
    ).read()
}

/// The start and end markers pair up: there are as many of the one as of
/// the other, and the end marker of each pair does not stand before its
/// start marker.
pub open spec fn paired(starts: Seq<int>, ends: Seq<int>) -> bool {
    &&& starts.len() == ends.len()
    &&& forall|i: int| 0 <= i < starts.len() ==> starts[i] <= ends[i]
}

/// The catalog that has, behind the records of `list`, one record for each
/// pair of markers: its fragment runs from the start marker to the end
/// marker, and its id is the number of records before it.
pub open spec fn with_fragments(
    list: GameListView,
    contents: Seq<char>,
    starts: Seq<int>,
    ends: Seq<int>,
) -> GameListView
    decreases starts.len(),
{
    if starts.len() == 0 || ends.len() == 0 {
        list
    } else {
        let before = with_fragments(list, contents, starts.drop_last(), ends.drop_last());
        before.with_game(
            parsed_game(before.games.len() as usize, contents.subrange(starts.last(), ends.last())),
        )
    }
}

/// The offsets of the record start markers in the contents of a list.
pub open spec fn record_starts(contents: Seq<char>) -> Seq<int> {
    occurrences(contents, "<game>"@, 0)
}

/// The offsets of the record end markers in the contents of a list.
pub open spec fn record_ends(contents: Seq<char>) -> Seq<int> {
    occurrences(contents, "</game>"@, 0)
}

/// What the contents of a list add to a catalog: a record for each pair of
/// markers, or an error where the markers do not pair up.
pub open spec fn with_contents(list: GameListView, contents: Seq<char>) -> Result<
    GameListView,
    Error,
> {
    if paired(record_starts(contents), record_ends(contents)) {
        Ok(with_fragments(list, contents, record_starts(contents), record_ends(contents)))
    } else {
        Err(Error::ParseError)
    }
}

/// The contents of the list that a document holds, if it holds one.
pub open spec fn list_body(text: Seq<char>) -> Option<Seq<char>> {
    match regex_captures(LIST_PATTERN@, text) {
        Some(groups) => group_text(groups, 1),
        None => None,
    }
}

/// What a document, already without line breaks and tabs, adds to a
/// catalog. A document without a list adds nothing.
pub open spec fn with_list(list: GameListView, text: Seq<char>) -> Result<GameListView, Error> {
    match list_body(text) {
        Some(contents) => with_contents(list, contents),
        None => Ok(list),
    }
}

/// A document without its line breaks and tabs.
pub open spec fn scrubbed(document: Seq<char>) -> Seq<char> {
    without_char(without_char(document, '\n'), '\t')
}

/// What a document adds to a catalog.
pub open spec fn with_document(list: GameListView, document: Seq<char>) -> Result<
    GameListView,
    Error,
> {
    with_list(list, scrubbed(document))
}

/// Adds to `game` one field for each match that holds a name (its first
/// group) and a value (its second), in the order of the matches.
pub fn add_captured_fields(game: &mut Game, matches: &Vec<Vec<Option<String>>>)
    ensures
        final(game)@ == with_fields(old(game)@, matches.deep_view()),
{
    let ghost all = matches.deep_view();
    let mut i: usize = 0;
    while i < matches.len()
        invariant
            i <= matches.len(),
            all == matches.deep_view(),
            game@ == with_fields(old(game)@, all.take(i as int)),
        decreases matches.len() - i,
    {
        let groups = &matches[i];
        proof {
            assert(all.take(i + 1).drop_last() =~= all.take(i as int));
        }
        if groups.len() > 2 {
            match (&groups[1], &groups[2]) {
                (Some(name), Some(value)) => {
                    game.add_field(name.as_str(), value.clone());
                },
                _ => {},
            }
        }
        i += 1;
    }
    assert(all.take(matches.len() as int) =~= all);
}

/// Reads the fields of one fragment of the document into `game`: one field
/// for each `<name>value</name>` pair, from left to right.
pub fn parse_game_fields(game: &mut Game, entry_chunk: &str)
    ensures
        final(game)@ == with_fields(old(game)@, fragment_matches(entry_chunk@)),
{
    match captures_iter(TAG_PATTERN, entry_chunk) {
        Some(matches) => add_captured_fields(game, &matches),
        None => {},
    }
}

/// Reads the records that the contents of a list hold and appends them to
/// the catalog, in document order. Where the record markers do not pair up
/// the catalog stays as it is and the error is `ParseError`.
pub fn games_of_contents(contents: &str, game_list: &mut GameList) -> (done: Result<(), Error>)
    ensures
        match with_contents(old(game_list)@, contents@) {
            Ok(list) => done is Ok && final(game_list)@ == list,
            Err(e) => done == Err::<(), Error>(e) && final(game_list)@ == old(game_list)@,
        },
{
    let chars = chars_of(contents);
    let start_marker = chars_of("<game>");
    let end_marker = chars_of("</game>");
    let game_start_indexes = find_all(&chars, &start_marker);
    let game_end_indexes = find_all(&chars, &end_marker);
    let ghost starts = record_starts(contents@);
    let ghost ends = record_ends(contents@);
    if game_end_indexes.len() != game_start_indexes.len() {
        return Err(Error::ParseError);
    }
    let count = game_start_indexes.len();
    let mut i: usize = 0;
    while i < count
        invariant
            i <= count,
            count == game_start_indexes.len(),
            count == game_end_indexes.len(),
            starts.len() == count,
            ends.len() == count,
            forall|k: int| 0 <= k < count ==> starts[k] == game_start_indexes[k],
            forall|k: int| 0 <= k < count ==> ends[k] == game_end_indexes[k],
            forall|k: int| 0 <= k < i ==> starts[k] <= ends[k],
            starts == record_starts(contents@),
            ends == record_ends(contents@),
            game_list@ == old(game_list)@,
        decreases count - i,
    {
        if game_start_indexes[i] > game_end_indexes[i] {
            assert(!(starts[i as int] <= ends[i as int]));
            return Err(Error::ParseError);
        }
        i += 1;
    }
    let mut i: usize = 0;
    while i < count
        invariant
            i <= count,
            chars@ == contents@,
            count == game_start_indexes.len(),
            count == game_end_indexes.len(),
            starts.len() == count,
            ends.len() == count,
            forall|k: int| 0 <= k < count ==> starts[k] == game_start_indexes[k],
            forall|k: int| 0 <= k < count ==> ends[k] == game_end_indexes[k],
            forall|k: int| 0 <= k < count ==> starts[k] <= ends[k],
            forall|k: int| 0 <= k < count ==> game_end_indexes[k] + end_marker.len() <= chars.len(),
            game_list@ == with_fragments(
                old(game_list)@,
                contents@,
                starts.take(i as int),
                ends.take(i as int),
            ),
        decreases count - i,
    {
        assert(starts[i as int] <= ends[i as int]);
        let game_slice = string_of(&chars, game_start_indexes[i], game_end_indexes[i]);
        let mut game = Game::new(game_list.games.len());
        parse_game_fields(&mut game, game_slice.as_str());
        game.has_been_edited();
        proof {
            assert(starts.take(i + 1).drop_last() =~= starts.take(i as int));
            assert(ends.take(i + 1).drop_last() =~= ends.take(i as int));
            assert(game_views(game_list.games@.push(game)) =~= game_views(game_list.games@).push(
                game@,
            ));
        }
        game_list.games.push(game);
        i += 1;
    }
    assert(starts.take(count as int) =~= starts);
    assert(ends.take(count as int) =~= ends);
    Ok(())
}

/// Reads the records of a document that holds no line breaks or tabs and
/// appends them to the catalog, in document order. A document without a
/// list adds nothing. Where the record markers do not pair up the catalog
/// stays as it is and the error is `ParseError`.
pub fn strip_out_games(gamelist: &str, game_list: &mut GameList) -> (done: Result<(), Error>)
    ensures
        match with_list(old(game_list)@, gamelist@) {
            Ok(list) => done is Ok && final(game_list)@ == list,
            Err(e) => done == Err::<(), Error>(e) && final(game_list)@ == old(game_list)@,
        },
{
    match captures(LIST_PATTERN, gamelist) {
        Some(groups) => {
            if groups.len() > 1 {
                match &groups[1] {
                    Some(contents) => games_of_contents(contents.as_str(), game_list),
                    None => Ok(()),
                }
            } else {
                Ok(())
            }
        },
        None => Ok(()),
    }
}

/// The text without its line breaks and tabs.
pub fn scrub(document: &str) -> (text: String)
    ensures
        text@ == scrubbed(document@),
{
    let chars = chars_of(document);
    let lines_joined = remove_char(&chars, '\n');
    let tabs_dropped = remove_char(&lines_joined, '\t');
    string_of(&tabs_dropped, 0, tabs_dropped.len())
}

/// Reads the records of a document and appends them to the catalog, in
/// document order. Line breaks and tabs count for nothing, wherever they
/// stand. A document without a list adds nothing. Where the record markers
/// do not pair up the catalog stays as it is and the error is `ParseError`.
pub fn games_from_gamelist(document: &str, game_list: &mut GameList) -> (done: Result<(), Error>)
    ensures
        match with_document(old(game_list)@, document@) {
            Ok(list) => done is Ok && final(game_list)@ == list,
            Err(e) => done == Err::<(), Error>(e) && final(game_list)@ == old(game_list)@,
        },
{
    let stringified_file = scrub(document);
    strip_out_games(stringified_file.as_str(), game_list)
}

/// The line that a field takes in the document.
pub open spec fn rendered_field(field: FieldView) -> Seq<char> {
    "\t\t<"@ + field.name + ">"@ + field.value + "</"@ + field.name + ">\n"@
}

/// The lines of the fields of a record, in order.
pub open spec fn rendered_fields(fields: Seq<FieldView>) -> Seq<char>
    decreases fields.len(),
{
    if fields.len() == 0 {
        Seq::empty()
    } else {
        rendered_fields(fields.drop_last()) + rendered_field(fields.last())
    }
}

/// The lines that a record takes in the document: its start marker, its
/// fields, its end marker.
pub open spec fn rendered_game(game: GameView) -> Seq<char> {
    "\t<game>\n"@ + rendered_fields(game.fields) + "\t</game>\n"@
}

/// The lines of the records of a catalog, in order.
pub open spec fn rendered_games(games: Seq<GameView>) -> Seq<char>
    decreases games.len(),
{
    if games.len() == 0 {
        Seq::empty()
    } else {
        rendered_games(games.drop_last()) + rendered_game(games.last())
    }
}

/// The document of a catalog: the header, the list's start marker, the
/// records, the list's end marker.
pub open spec fn rendered(list: GameListView) -> Seq<char> {
    "<?xml version=\"1.0\"?>\n"@ + "<gameList>\n"@ + rendered_games(list.games)
        + "</gameList>\n"@
}

/// Appends the line of a field to the document.
fn render_field(xml_string: &mut String, field: &Field)
    ensures
        final(xml_string)@ == old(xml_string)@ + rendered_field(field@),
{
    xml_string.append("\t\t<");
    xml_string.append(field.name.as_str());
    xml_string.append(">");
    xml_string.append(field.value.as_str());
    xml_string.append("</");
    xml_string.append(field.name.as_str());
    xml_string.append(">\n");
}

/// Appends the lines of a record to the document.
fn render_game(xml_string: &mut String, game: &Game)
    ensures
        final(xml_string)@ == old(xml_string)@ + rendered_game(game@),
{
    xml_string.append("\t<game>\n");
    let fields = game.fields();
    let ghost views = field_views(fields@);
    let ghost start = xml_string@;
    let mut i: usize = 0;
    while i < fields.len()
        invariant
            i <= fields.len(),
            views == field_views(fields@),
            xml_string@ == start + rendered_fields(views.take(i as int)),
        decreases fields.len() - i,
    {
        render_field(xml_string, &fields[i]);
        proof {
            assert(views.take(i + 1).drop_last() =~= views.take(i as int));
        }
        i += 1;
    }
    assert(views.take(fields.len() as int) =~= views);
    xml_string.append("\t</game>\n");
}

/// The document of a catalog: the header, then between the list's markers
/// the records in catalog order, each between record markers with one line
/// `<name>value</name>` for each of its fields in their order. Nothing in a
/// name or a value is escaped.
pub fn parse_gamelist_to_XML_string(game_list: &GameList) -> (xml_string: String)
    ensures
        xml_string@ == rendered(game_list@),
{
    let mut xml_string = String::new();
    xml_string.append("<?xml version=\"1.0\"?>\n");
    xml_string.append("<gameList>\n");
    let ghost start = xml_string@;
    let ghost views = game_list@.games;
    let mut i: usize = 0;
    while i < game_list.games.len()
        invariant
            i <= game_list.games.len(),
            views == game_list@.games,
            xml_string@ == start + rendered_games(views.take(i as int)),
        decreases game_list.games.len() - i,
    {
        render_game(&mut xml_string, &game_list.games[i]);
        proof {
            assert(views.take(i + 1).drop_last() =~= views.take(i as int));
        }
        i += 1;
    }
    assert(views.take(game_list.games.len() as int) =~= views);
    xml_string.append("</gameList>\n");
    xml_string
}

/// The form in which a record holds the path of a game file: `./` and the
/// file's name.
pub open spec fn normalized(path: Seq<char>) -> Seq<char> {
    "./"@ + file_name_of(path)
}

/// The record that stands for a game file which the document does not know:
/// it holds the file's path and nothing else.
pub open spec fn file_game(id: usize, path: Seq<char>) -> GameView {
    GameView { id, been_edited: true, fields: seq![field_for("path"@, normalized(path))] }
}

/// The catalog after one game file was looked at: as it was where a record
/// holds the file's path, else with a record for the file at its end.
pub open spec fn merged_one(list: GameListView, path: Seq<char>) -> GameListView {
    if list.search(SearchGames::Path, normalized(path)) is None {
        list.with_game(file_game(list.games.len() as usize, path))
    } else {
        list
    }
}

/// The catalog after the game files were looked at, one after the other.
pub open spec fn merged(list: GameListView, paths: Seq<Seq<char>>) -> GameListView
    decreases paths.len(),
{
    if paths.len() == 0 {
        list
    } else {
        merged_one(merged(list, paths.drop_last()), paths.last())
    }
}

/// The path of a game file in the form in which records hold it.
pub fn normalize(game_path: &str) -> (path: String)
    ensures
        path@ == normalized(game_path@),
{
    let game_path = file_name_to_string(game_path);
    let mut path = "./".to_string();
    path.append(game_path.as_str());
    path
}

/// Merges the game files found in the directory into the catalog. For each
/// file in turn: where a record's path field holds the file's normalized
/// path the catalog stays as it is, the document's record standing for the
/// file; else a record that holds that path and nothing else is appended.
/// The records that the catalog held keep their places and contents.
pub fn games_found_in_dir(game_paths: &Vec<String>, game_list: &mut GameList)
    ensures
        final(game_list)@ == merged(old(game_list)@, game_paths.deep_view()),
{
    let ghost paths = game_paths.deep_view();
    let mut i: usize = 0;
    while i < game_paths.len()
        invariant
            i <= game_paths.len(),
            paths == game_paths.deep_view(),
            game_list@ == merged(old(game_list)@, paths.take(i as int)),
        decreases game_paths.len() - i,
    {
        let path = normalize(game_paths[i].as_str());
        proof {
            assert(paths.take(i + 1).drop_last() =~= paths.take(i as int));
        }
        if let None = game_list.search(SearchGames::Path, path.as_str()) {
            let mut game = Game::new(game_list.games.len());
            game.add_field("path", path);
            proof {
                assert(game_views(game_list.games@.push(game)) =~= game_views(
                    game_list.games@,
                ).push(game@));
            }
            game_list.games.push(game);
        }
        i += 1;
    }
    assert(paths.take(game_paths.len() as int) =~= paths);
}

/// Where some record's field holds a term, one of them is the first.
pub proof fn lemma_some_holds(games: Seq<GameView>, name: Seq<char>, term: Seq<char>, i: int)
    requires
        0 <= i < games.len(),
        holds(games[i], name, term),
    ensures
        some_holds(games, name, term),
    decreases i,
{
    if exists|j: int| 0 <= j < i && holds(#[trigger] games[j], name, term) {
        let j = choose|j: int| 0 <= j < i && holds(#[trigger] games[j], name, term);
        lemma_some_holds(games, name, term, j);
    } else {
        assert(is_first_holding(games, name, term, i));
    }
}

/// A search that finds a record in a catalog finds one in every catalog
/// that starts with the same records.
pub proof fn lemma_search_in_longer(
    list: GameListView,
    longer: GameListView,
    search_type: SearchGames,
    term: Seq<char>,
)
    requires
        list.games.len() <= longer.games.len(),
        longer.games.take(list.games.len() as int) == list.games,
        list.search(search_type, term) is Some,
    ensures
        longer.search(search_type, term) is Some,
{
    let name = crate::game_listings::structs::game_list::searched_field(search_type);
    let i = crate::game_listings::structs::game_list::first_holding(list.games, name, term);
    lemma_some_holds(longer.games, name, term, i);
}

/// The merge keeps what the catalog held: its records stand at the head of
/// the merged catalog, in their order and with their contents, and directory
/// and emulator are the same.
pub proof fn lemma_merge_keeps_records(list: GameListView, paths: Seq<Seq<char>>)
    ensures
        list.games.len() <= merged(list, paths).games.len(),
        merged(list, paths).games.take(list.games.len() as int) == list.games,
        merged(list, paths).directory == list.directory,
        merged(list, paths).emulator == list.emulator,
    decreases paths.len(),
{
    if paths.len() > 0 {
        lemma_merge_keeps_records(list, paths.drop_last());
    }
}

/// The record that the merge makes for a game file holds, as its path, the
/// file's normalized path where that is a valid file value, and the empty
/// value where it is not.
pub proof fn lemma_file_game_holds(id: usize, path: Seq<char>, term: Seq<char>)
    ensures
        holds(file_game(id, path), "path"@, term) <==> term == (if value_is_valid(
            FieldType::File,
            normalized(path),
        ) {
            normalized(path)
        } else {
            Seq::empty()
        }),
{
    let game = file_game(id, path);
    assert(is_last_named(game.fields, "path"@, 0));
    lemma_last_named_is_unique(game.fields, "path"@, 0);
}

/// A game file whose path a record of the catalog holds gets no record of
/// its own, whatever other files are merged: no record that the merge
/// appends holds that path.
pub proof fn lemma_merge_appends_no_known_path(
    list: GameListView,
    paths: Seq<Seq<char>>,
    path: Seq<char>,
)
    requires
        list.search(SearchGames::Path, normalized(path)) is Some,
    ensures
        forall|i: int|
            list.games.len() <= i < merged(list, paths).games.len() ==> !holds(
                #[trigger] merged(list, paths).games[i],
                "path"@,
                normalized(path),
            ),
    decreases paths.len(),
{
    if paths.len() > 0 {
        let before = merged(list, paths.drop_last());
        lemma_merge_appends_no_known_path(list, paths.drop_last(), path);
        lemma_merge_keeps_records(list, paths.drop_last());
        lemma_search_in_longer(list, before, SearchGames::Path, normalized(path));
        let after = merged_one(before, paths.last());
        if after != before {
            lemma_file_game_holds(before.games.len() as usize, paths.last(), normalized(path));
            reveal_strlit("./");
            assert(normalized(path).len() > 0);
        }
    }
}

/// After the merge, a search for the normalized path of any of the merged
/// files finds a record, if that path is a valid file value.
pub proof fn lemma_merged_paths_are_found(list: GameListView, paths: Seq<Seq<char>>, k: int)
    requires
        0 <= k < paths.len(),
        value_is_valid(FieldType::File, normalized(paths[k])),
    ensures
        merged(list, paths).search(SearchGames::Path, normalized(paths[k])) is Some,
    decreases paths.len(),
{
    let before = merged(list, paths.drop_last());
    let after = merged_one(before, paths.last());
    if k == paths.len() - 1 {
        if before.search(SearchGames::Path, normalized(paths[k])) is None {
            lemma_file_game_holds(before.games.len() as usize, paths[k], normalized(paths[k]));
            lemma_some_holds(after.games, "path"@, normalized(paths[k]), before.games.len() as int);
        }
    } else {
        lemma_merged_paths_are_found(list, paths.drop_last(), k);
        assert(after.games.take(before.games.len() as int) =~= before.games);
        lemma_search_in_longer(before, after, SearchGames::Path, normalized(paths[k]));
    }
}

/// Merging files whose paths are all found in the catalog changes nothing.
pub proof fn lemma_merge_of_found_paths(list: GameListView, paths: Seq<Seq<char>>)
    requires
        forall|k: int|
            0 <= k < paths.len() ==> list.search(
                SearchGames::Path,
                normalized(#[trigger] paths[k]),
            ) is Some,
    ensures
        merged(list, paths) == list,
    decreases paths.len(),
{
    if paths.len() > 0 {
        lemma_merge_of_found_paths(list, paths.drop_last());
    }
}

/// Merging the same game files a second time changes nothing, if the
/// normalized path of each is a valid file value: no record is appended
/// twice.
pub proof fn lemma_merge_is_idempotent(list: GameListView, paths: Seq<Seq<char>>)
    requires
        forall|k: int|
            0 <= k < paths.len() ==> value_is_valid(
                FieldType::File,
                normalized(#[trigger] paths[k]),
            ),
    ensures
        merged(merged(list, paths), paths) == merged(list, paths),
{
    assert forall|k: int| 0 <= k < paths.len() implies merged(list, paths).search(
        SearchGames::Path,
        normalized(#[trigger] paths[k]),
    ) is Some by {
        lemma_merged_paths_are_found(list, paths, k);
    }
    lemma_merge_of_found_paths(merged(list, paths), paths);
}

/// A merge gives each record that it appends its place as id: a catalog in
/// which every id is the record's place stays so.
pub proof fn lemma_merge_keeps_dense(list: GameListView, paths: Seq<Seq<char>>)
    requires
        list.dense(),
        list.games.len() + paths.len() <= usize::MAX,
    ensures
        merged(list, paths).dense(),
        merged(list, paths).games.len() <= list.games.len() + paths.len(),
    decreases paths.len(),
{
    if paths.len() > 0 {
        lemma_merge_keeps_dense(list, paths.drop_last());
    }
}

/// The game files among the entries of a directory. A directory whose
/// emulator declares no extensions has none.
pub open spec fn candidate_files(
    entries: Seq<Seq<char>>,
    extensions: Option<Seq<Seq<char>>>,
) -> Seq<Seq<char>> {
    match extensions {
        Some(extensions) => game_files(entries, extensions),
        None => Seq::empty(),
    }
}

/// The game files among the entries of a directory: those whose extension
/// is one of the declared ones, in the order of the entries. An error where
/// no extensions are declared.
pub fn dir_game_paths(entries: &Vec<String>, extensions: &Option<Vec<String>>) -> (found: Result<
    Vec<String>,
    crate::utils::Error,
>)
    ensures
        match extensions {
            Some(extensions) => found is Ok && found->Ok_0.deep_view() == game_files(
                entries.deep_view(),
                extensions.deep_view(),
            ),
            None => found == Err::<Vec<String>, crate::utils::Error>(
                crate::utils::Error::MissingRequiredFiles,
            ),
        },
{
    let extensions = match extensions {
        Some(extensions) => extensions,
        None => {
            return Err(crate::utils::Error::MissingRequiredFiles);
        },
    };
    let ghost all = entries.deep_view();
    let ghost wanted = |path: Seq<char>| is_game_file(path, extensions.deep_view());
    let mut game_paths_list: Vec<String> = Vec::new();
    let mut i: usize = 0;
    while i < entries.len()
        invariant
            i <= entries.len(),
            all == entries.deep_view(),
            wanted == |path: Seq<char>| is_game_file(path, extensions.deep_view()),
            game_paths_list.deep_view() == all.take(i as int).filter(wanted),
        decreases entries.len() - i,
    {
        let path = &entries[i];
        let extension = file_extension_from_path(path.as_str());
        proof {
            reveal(Seq::filter);
            assert(all.take(i + 1).drop_last() =~= all.take(i as int));
        }
        if is_valid_emulator_extension(extension, extensions) {
            game_paths_list.push(path.clone());
        }
        i += 1;
    }
    assert(all.take(entries.len() as int) =~= all);
    Ok(game_paths_list)
}

/// The game files among the entries of a directory, if there are any.
pub fn game_paths_list(entries: &Vec<String>, extensions: &Option<Vec<String>>) -> (found: Option<
    Vec<String>,
>)
    ensures
        found.deep_view() == some_if_any(
            candidate_files(entries.deep_view(), extensions.deep_view()),
        ),
{
    if let Ok(paths_list) = dir_game_paths(entries, extensions) {
        if paths_list.len() > 0 {
            return Some(paths_list);
        } else {
            return None;
        }
    }
    None
}

/// What a document and the game files of a directory make of a catalog: the
/// records of the document, then a record for each file that no record
/// stands for. A directory without a document has the files' records only.
pub open spec fn collated(
    list: GameListView,
    document: Option<Seq<char>>,
    files: Seq<Seq<char>>,
) -> Result<GameListView, Error> {
    match document {
        Some(document) => match with_document(list, document) {
            Ok(read) => Ok(merged(read, files)),
            Err(e) => Err(e),
        },
        None => Ok(merged(list, files)),
    }
}

/// Fills the catalog from the document of a directory, if it has one, and
/// from the directory's entries: first the document's records, then a record
/// for each game file that none of them stands for. Where the document's
/// record markers do not pair up the catalog stays as it is and the error is
/// `ParseError`.
pub fn collate_games_to_list(
    document: Option<&str>,
    entries: &Vec<String>,
    extensions: &Option<Vec<String>>,
    game_list: &mut GameList,
) -> (done: Result<(), Error>)
    ensures
        match collated(
            old(game_list)@,
            text_of(document),
            candidate_files(entries.deep_view(), extensions.deep_view()),
        ) {
            Ok(list) => done is Ok && final(game_list)@ == list,
            Err(e) => done == Err::<(), Error>(e) && final(game_list)@ == old(game_list)@,
        },
{
    if let Some(document) = document {
        let read = games_from_gamelist(document, game_list);
        if let Err(e) = read {
            return Err(e);
        }
    }
    let game_paths = match game_paths_list(entries, extensions) {
        Some(paths) => paths,
        None => Vec::new(),
    };
    games_found_in_dir(&game_paths, game_list);
    Ok(())
}

/// The catalog of a path that is no directory: it has no records, and its
/// emulator is called `None`.
pub open spec fn no_catalog() -> GameListView {
    GameListView { directory: Seq::empty(), emulator: "None"@, games: Seq::empty() }
}

/// The catalog of a directory before anything is read: the emulator has the
/// directory's name.
pub open spec fn empty_catalog(directory: Seq<char>) -> GameListView {
    GameListView { directory, emulator: file_name_of(directory), games: Seq::empty() }
}

/// A catalog or an error as contracts see it.
pub open spec fn viewed(made: Result<GameList, Error>) -> Result<GameListView, Error> {
    match made {
        Ok(list) => Ok(list@),
        Err(e) => Err(e),
    }
}

/// The catalog of a directory, from what was found there: whether the path
/// is a directory at all, the text of its document and of its information
/// file where they could be read, and the paths of its entries. A path that
/// is no directory gives a catalog without records whose emulator is `None`.
/// Where the document's record markers do not pair up there is no catalog,
/// and the error is `ParseError`.
pub fn new(
    valid_dir: &str,
    is_directory: bool,
    document: Option<&str>,
    info: Option<&str>,
    entries: &Vec<String>,
) -> (made: Result<GameList, Error>)
    ensures
        viewed(made) == if is_directory {
            collated(
                empty_catalog(valid_dir@),
                text_of(document),
                candidate_files(entries.deep_view(), declared_in(text_of(info))),
            )
        } else {
            Ok(no_catalog())
        },
{
    if !is_directory {
        let list = GameList {
            directory: String::new(),
            emulator: "None".to_string(),
            games: Vec::new(),
        };
        assert(game_views(list.games@) =~= Seq::empty());
        return Ok(list);
    }
    let mut game_list = GameList {
        directory: valid_dir.to_string(),
        emulator: directory_name(valid_dir),
        games: Vec::new(),
    };
    assert(game_views(game_list.games@) =~= Seq::empty());
    let extensions = match info {
        Some(info) => get_rom_extensions(info),
        None => None,
    };
    match collate_games_to_list(document, entries, &extensions, &mut game_list) {
        Ok(()) => Ok(game_list),
        Err(e) => Err(e),
    }
}

/// What is to be written to save a catalog, and where: the path that the
/// catalog holds as its directory, and the catalog's document.
pub fn save(game_list: &GameList) -> (written: (String, String))
    ensures
        written.0@ == game_list@.directory,
        written.1@ == rendered(game_list@),
{
    let xml_string = parse_gamelist_to_XML_string(game_list);
    (game_list.directory.clone(), xml_string)
}

/// What reading adds to a catalog: one record for each pair of markers,
/// behind the records that the catalog held, which keep their places and
/// contents. The record of each pair is the one that its fragment gives, its
/// id is its place, and it is not marked as edited.
pub proof fn lemma_read_records(
    list: GameListView,
    contents: Seq<char>,
    starts: Seq<int>,
    ends: Seq<int>,
)
    requires
        starts.len() == ends.len(),
    ensures
        with_fragments(list, contents, starts, ends).games.len() == list.games.len() + starts.len(),
        with_fragments(list, contents, starts, ends).games.take(list.games.len() as int)
            == list.games,
        with_fragments(list, contents, starts, ends).directory == list.directory,
        with_fragments(list, contents, starts, ends).emulator == list.emulator,
        forall|i: int|
            0 <= i < starts.len() ==> #[trigger] with_fragments(
                list,
                contents,
                starts,
                ends,
            ).games[list.games.len() + i] == parsed_game(
                (list.games.len() + i) as usize,
                contents.subrange(starts[i], ends[i]),
            ),
        forall|i: int|
            list.games.len() <= i < list.games.len() + starts.len() ==> !(#[trigger] with_fragments(
                list,
                contents,
                starts,
                ends,
            ).games[i]).been_edited,
    decreases starts.len(),
{
    if starts.len() > 0 {
        lemma_read_records(list, contents, starts.drop_last(), ends.drop_last());
    }
}

/// A document that is read into a catalog leaves no record that it adds
/// marked as edited.
pub proof fn lemma_document_records_are_unmarked(
    list: GameListView,
    document: Seq<char>,
    read: GameListView,
)
    requires
        with_document(list, document) == Ok::<GameListView, Error>(read),
    ensures
        list.games.len() <= read.games.len(),
        read.games.take(list.games.len() as int) == list.games,
        forall|i: int|
            list.games.len() <= i < read.games.len() ==> !(#[trigger] read.games[i]).been_edited,
{
    if let Some(contents) = list_body(scrubbed(document)) {
        lemma_read_records(list, contents, record_starts(contents), record_ends(contents));
    }
}

} // verus!
