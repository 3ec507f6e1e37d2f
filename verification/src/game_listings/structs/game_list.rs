//! The catalog: the records of one source directory, in order, with the
//! directory and the name of the emulator that owns it.

use crate::game_listings::structs::game::Error;
use crate::game_listings::structs::game::Game;
use crate::game_listings::structs::game::GameView;
use vstd::prelude::*;

verus! {

/// A catalog as contracts see it.
pub struct GameListView {
    pub directory: Seq<char>,
    pub emulator: Seq<char>,
    pub games: Seq<GameView>,
}

/// The records of one source directory.
#[derive(Debug)]
pub struct GameList {
    pub directory: String,
    pub emulator: String,
    pub games: Vec<Game>,
}

/// The field by which records are searched.
#[derive(Debug, PartialEq, Eq, Clone, Copy, Structural)]
pub enum SearchGames {
    Path,
    Name,
}

/// The views of a catalog's records, in order.
pub open spec fn game_views(games: Seq<Game>) -> Seq<GameView> {
    games.map_values(|g: Game| g@)
}

impl View for GameList {
    type V = GameListView;

    open spec fn view(&self) -> GameListView {
        GameListView {
            directory: self.directory@,
            emulator: self.emulator@,
            games: game_views(self.games@),
        }
    }
}

/// The name of the field that a search reads.
pub open spec fn searched_field(search_type: SearchGames) -> Seq<char> {
    match search_type {
        SearchGames::Path => "path"@,
        SearchGames::Name => "name"@,
    }
}

/// The record's field of that name, the one added most recently, holds
/// exactly `term`.
pub open spec fn holds(game: GameView, name: Seq<char>, term: Seq<char>) -> bool {
    game.field_equals(name, term) == Ok::<bool, Error>(true)
}

/// `i` is the place of the first record whose field of that name holds
/// `term`.
pub open spec fn is_first_holding(
    games: Seq<GameView>,
    name: Seq<char>,
    term: Seq<char>,
    i: int,
) -> bool {
    &&& 0 <= i < games.len()
    &&& holds(games[i], name, term)
    &&& forall|j: int| 0 <= j < i ==> !holds(#[trigger] games[j], name, term)
}

/// Some record's field of that name holds `term`.
pub open spec fn some_holds(games: Seq<GameView>, name: Seq<char>, term: Seq<char>) -> bool {
    exists|i: int| is_first_holding(games, name, term, i)
}

/// The place of the first record whose field of that name holds `term`, where
/// there is one.
pub open spec fn first_holding(games: Seq<GameView>, name: Seq<char>, term: Seq<char>) -> int {
    choose|i: int| is_first_holding(games, name, term, i)
}

/// The first record that holds a term stands at one place only.
pub proof fn lemma_first_holding_is_unique(
    games: Seq<GameView>,
    name: Seq<char>,
    term: Seq<char>,
    i: int,
)
    requires
        is_first_holding(games, name, term, i),
    ensures
        some_holds(games, name, term),
        first_holding(games, name, term) == i,
{
    assert(is_first_holding(games, name, term, first_holding(games, name, term)));
}

impl GameListView {
    /// The id of the first record whose field of the searched name holds
    /// `term`; none where no record's does.
    pub open spec fn search(self, search_type: SearchGames, term: Seq<char>) -> Option<usize> {
        let name = searched_field(search_type);
        if some_holds(self.games, name, term) {
            Some(self.games[first_holding(self.games, name, term)].id)
        } else {
            None
        }
    }

    /// Every record's id is its place in the catalog.
    pub open spec fn dense(self) -> bool {
        forall|i: int| 0 <= i < self.games.len() ==> (#[trigger] self.games[i]).id == i
    }

    /// The catalog with one more record at its end.
    pub open spec fn with_game(self, game: GameView) -> GameListView {
        GameListView {
            directory: self.directory,
            emulator: self.emulator,
            games: self.games.push(game),
        }
    }
}

/// A catalog without records, directory or emulator.
pub fn new() -> (list: GameList)
    ensures
        list@ == (GameListView {
            directory: Seq::empty(),
            emulator: Seq::empty(),
            games: Seq::empty(),
        }),
{
    let list = GameList { directory: String::new(), emulator: String::new(), games: Vec::new() };
    assert(game_views(list.games@) =~= Seq::empty());
    list
}

impl GameList {
    /// Appends a record without fields. Its id is the number of records that
    /// the catalog held before.
    pub fn add_game_entry(&mut self)
        ensures
            final(self)@ == old(self)@.with_game(
                GameView { id: old(self).games.len(), been_edited: false, fields: Seq::empty() },
            ),
            old(self)@.dense() ==> final(self)@.dense(),
    {
        let game = Game::new(self.games.len());
        self.games.push(game);
        assert(game_views(self.games@) =~= game_views(old(self).games@).push(game@));
    }

    /// Takes the record at `index` out. The records behind it move up by one
    /// place and keep their ids.
    pub fn remove(&mut self, index: usize)
        requires
            index < old(self).games.len(),
        ensures
            final(self)@.games == old(self)@.games.remove(index as int),
            final(self)@.directory == old(self)@.directory,
            final(self)@.emulator == old(self)@.emulator,
    {
        self.games.remove(index);
    }

    /// The record at `index`.
    pub fn get(&self, index: usize) -> (game: &Game)
        requires
            index < self.games.len(),
        ensures
            game@ == self@.games[index as int],
    {
        &self.games[index]
    }

    /// The id of the first record, in catalog order, whose field of the name
    /// `field_name` holds exactly `search_term`.
    fn search_field(&self, field_name: &str, search_term: &str) -> (found: Option<usize>)
        ensures
            match found {
                Some(id) => some_holds(self@.games, field_name@, search_term@) && id
                    == self@.games[first_holding(self@.games, field_name@, search_term@)].id,
                None => !some_holds(self@.games, field_name@, search_term@),
            },
    {
        let mut i: usize = 0;
        while i < self.games.len()
            invariant
                i <= self.games.len(),
                forall|j: int|
                    0 <= j < i ==> !holds(#[trigger] self@.games[j], field_name@, search_term@),
            decreases self.games.len() - i,
        {
            let game = &self.games[i];
            if let Ok(found) = game.field_contains_value(field_name, search_term.to_string()) {
                if found {
                    proof {
                        lemma_first_holding_is_unique(
                            self@.games,
                            field_name@,
                            search_term@,
                            i as int,
                        );
                    }
                    return Some(game.game_id());
                }
            }
            i += 1;
        }
        None
    }

    /// The id of the first record, in catalog order, whose field of the
    /// searched name holds exactly `search_term`; where a record has several
    /// fields of that name, the one added most recently counts. `None` where
    /// no record's does.
    pub fn search(&self, search_type: SearchGames, search_term: &str) -> (found: Option<usize>)
        ensures
            found == self@.search(search_type, search_term@),
    {
        match search_type {
            SearchGames::Path => self.search_field("path", search_term),
            SearchGames::Name => self.search_field("name", search_term),
        }
    }

    /// The number of records.
    pub fn len(&self) -> (len: usize)
        ensures
            len == self@.games.len(),
    {
        self.games.len()
    }
}

} // verus!
