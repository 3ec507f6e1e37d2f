//! Where the record markers stand in the document of a catalog: a document
//! made of clean names and values holds one pair of markers for each record,
//! and between the markers of each pair the record's fields.

use crate::game_listings::lemma_read_records;
use crate::game_listings::paired;
use crate::game_listings::parsed_game;
use crate::game_listings::record_ends;
use crate::game_listings::record_starts;
use crate::game_listings::rendered;
use crate::game_listings::rendered_field;
use crate::game_listings::rendered_fields;
use crate::game_listings::rendered_game;
use crate::game_listings::rendered_games;
use crate::game_listings::scrubbed;
use crate::game_listings::structs::game::FieldView;
use crate::game_listings::structs::game::GameView;
use crate::game_listings::structs::game_list::GameListView;
use crate::game_listings::with_contents;
use crate::text::lemma_no_occurrences;
use crate::text::lemma_occurrences_of_joined;
use crate::text::occurrences;
use crate::text::occurs_at;
use crate::text::starts_apart;
use crate::text::without_char;
use vstd::prelude::*;

verus! {

/// Scrubbing a joined text is joining the scrubbed texts.
pub proof fn lemma_scrubbed_joined(a: Seq<char>, b: Seq<char>)
    ensures
        scrubbed(a + b) == scrubbed(a) + scrubbed(b),
{
    Seq::filter_distributes_over_add(a, b, |c: char| c != '\n');
    Seq::filter_distributes_over_add(
        without_char(a, '\n'),
        without_char(b, '\n'),
        |c: char| c != '\t',
    );
}

/// Scrubbing a text that ends with `last` drops it if it is a line break or
/// a tab, and keeps it else.
pub proof fn lemma_scrubbed_push(text: Seq<char>, last: char)
    ensures
        scrubbed(text.push(last)) == if last == '\n' || last == '\t' {
            scrubbed(text)
        } else {
            scrubbed(text).push(last)
        },
{
    reveal(Seq::filter);
    assert(text.push(last).drop_last() =~= text);
    let joined = without_char(text, '\n');
    if last != '\n' {
        assert(joined.push(last).drop_last() =~= joined);
    }
}

/// Scrubbing nothing gives nothing.
pub proof fn lemma_scrubbed_empty()
    ensures
        scrubbed(Seq::<char>::empty()) == Seq::<char>::empty(),
{
    reveal(Seq::filter);
}

/// A character that a text does not hold is not in the scrubbed text either.
pub proof fn lemma_scrubbed_holds_no_more(text: Seq<char>, c: char)
    requires
        !text.contains(c),
    ensures
        !scrubbed(text).contains(c),
    decreases text.len(),
{
    if text.len() == 0 {
        lemma_scrubbed_empty();
    } else {
        let shorter = text.drop_last();
        assert(text =~= shorter.push(text.last()));
        lemma_scrubbed_holds_no_more(shorter, c);
        lemma_scrubbed_push(shorter, text.last());
    }
}

/// The markup of the document, scrubbed.
pub proof fn lemma_scrubbed_markup()
    ensures
        scrubbed("\t\t<"@) == seq!['<'],
        scrubbed(">"@) == seq!['>'],
        scrubbed("</"@) == seq!['<', '/'],
        scrubbed(">\n"@) == seq!['>'],
        scrubbed("\t<game>\n"@) == "<game>"@,
        scrubbed("\t</game>\n"@) == "</game>"@,
        "<game>"@ == seq!['<', 'g', 'a', 'm', 'e', '>'],
        "</game>"@ == seq!['<', '/', 'g', 'a', 'm', 'e', '>'],
{
    reveal_strlit("\t\t<");
    reveal_strlit(">");
    reveal_strlit("</");
    reveal_strlit(">\n");
    reveal_strlit("\t<game>\n");
    reveal_strlit("\t</game>\n");
    reveal_strlit("<game>");
    reveal_strlit("</game>");
    let e = Seq::<char>::empty();
    assert("\t\t<"@ =~= e.push('\t').push('\t').push('<'));
    lemma_scrubbed_push(e, '\t');
    lemma_scrubbed_push(e.push('\t'), '\t');
    lemma_scrubbed_push(e.push('\t').push('\t'), '<');
    assert(">"@ =~= e.push('>'));
    lemma_scrubbed_push(e, '>');
    assert("</"@ =~= e.push('<').push('/'));
    lemma_scrubbed_push(e, '<');
    lemma_scrubbed_push(e.push('<'), '/');
    assert(">\n"@ =~= e.push('>').push('\n'));
    lemma_scrubbed_push(e.push('>'), '\n');
    assert("\t<game>\n"@ =~= e.push('\t').push('<').push('g').push('a').push('m').push('e').push(
        '>',
    ).push('\n'));
    lemma_scrubbed_push(e.push('\t'), '<');
    lemma_scrubbed_push(e.push('\t').push('<'), 'g');
    lemma_scrubbed_push(e.push('\t').push('<').push('g'), 'a');
    lemma_scrubbed_push(e.push('\t').push('<').push('g').push('a'), 'm');
    lemma_scrubbed_push(e.push('\t').push('<').push('g').push('a').push('m'), 'e');
    lemma_scrubbed_push(e.push('\t').push('<').push('g').push('a').push('m').push('e'), '>');
    lemma_scrubbed_push(
        e.push('\t').push('<').push('g').push('a').push('m').push('e').push('>'),
        '\n',
    );
    assert("\t</game>\n"@ =~= e.push('\t').push('<').push('/').push('g').push('a').push('m').push(
        'e',
    ).push('>').push('\n'));
    lemma_scrubbed_push(e.push('\t').push('<'), '/');
    lemma_scrubbed_push(e.push('\t').push('<').push('/'), 'g');
    lemma_scrubbed_push(e.push('\t').push('<').push('/').push('g'), 'a');
    lemma_scrubbed_push(e.push('\t').push('<').push('/').push('g').push('a'), 'm');
    lemma_scrubbed_push(e.push('\t').push('<').push('/').push('g').push('a').push('m'), 'e');
    lemma_scrubbed_push(
        e.push('\t').push('<').push('/').push('g').push('a').push('m').push('e'),
        '>',
    );
    lemma_scrubbed_push(
        e.push('\t').push('<').push('/').push('g').push('a').push('m').push('e').push('>'),
        '\n',
    );
}

/// A name that can stand in a tag without being taken for a marker: it
/// holds no angle bracket and no slash, and it is not `game`, line breaks
/// and tabs apart.
pub open spec fn is_clean_name(name: Seq<char>) -> bool {
    &&& !name.contains('<')
    &&& !name.contains('>')
    &&& !name.contains('/')
    &&& scrubbed(name) != seq!['g', 'a', 'm', 'e']
}

/// A value that starts no tag: it holds no opening angle bracket.
pub open spec fn is_clean_value(value: Seq<char>) -> bool {
    !value.contains('<')
}

/// Name and value of the field are clean.
pub open spec fn is_clean_field(field: FieldView) -> bool {
    is_clean_name(field.name) && is_clean_value(field.value)
}

/// Every field is clean.
pub open spec fn are_clean_fields(fields: Seq<FieldView>) -> bool {
    forall|j: int| 0 <= j < fields.len() ==> is_clean_field(#[trigger] fields[j])
}

/// Every field of every record is clean.
pub open spec fn are_clean(games: Seq<GameView>) -> bool {
    forall|i: int| 0 <= i < games.len() ==> are_clean_fields((#[trigger] games[i]).fields)
}

/// One of the two record markers.
pub open spec fn is_marker(needle: Seq<char>) -> bool {
    needle == "<game>"@ || needle == "</game>"@
}

/// The scrubbed line of a field up to its closing tag.
pub open spec fn opening(field: FieldView) -> Seq<char> {
    seq!['<'] + scrubbed(field.name) + seq!['>'] + scrubbed(field.value)
}

/// The closing tag of a field's scrubbed line.
pub open spec fn closing(field: FieldView) -> Seq<char> {
    seq!['<', '/'] + scrubbed(field.name) + seq!['>']
}

/// The scrubbed line of a field is its opening and its closing tag.
pub proof fn lemma_scrubbed_field(field: FieldView)
    ensures
        scrubbed(rendered_field(field)) == opening(field) + closing(field),
{
    lemma_scrubbed_markup();
    let a = "\t\t<"@;
    let b = a + field.name;
    let c = b + ">"@;
    let d = c + field.value;
    let e = d + "</"@;
    let f = e + field.name;
    lemma_scrubbed_joined(a, field.name);
    lemma_scrubbed_joined(b, ">"@);
    lemma_scrubbed_joined(c, field.value);
    lemma_scrubbed_joined(d, "</"@);
    lemma_scrubbed_joined(e, field.name);
    lemma_scrubbed_joined(f, ">\n"@);
    assert(scrubbed(rendered_field(field)) =~= opening(field) + closing(field));
}

/// A name without `>` that is not `game`, followed by `>`, does not read
/// `game>`.
pub proof fn lemma_tag_is_no_marker(name: Seq<char>, rest: Seq<char>)
    requires
        !name.contains('>'),
        name != seq!['g', 'a', 'm', 'e'],
    ensures
        (name + seq!['>'] + rest).len() < 5 || (name + seq!['>'] + rest).take(5) != seq![
            'g',
            'a',
            'm',
            'e',
            '>',
        ],
{
    let tag = name + seq!['>'] + rest;
    let marker = seq!['g', 'a', 'm', 'e', '>'];
    if tag.len() >= 5 && tag.take(5) == marker {
        let k = name.len() as int;
        if k < 4 {
            assert(tag.take(5)[k] == tag[k]);
        } else if k == 4 {
            assert forall|i: int| 0 <= i < 4 implies name[i] == seq!['g', 'a', 'm', 'e'][i] by {
                assert(tag.take(5)[i] == tag[i]);
            }
            assert(name =~= seq!['g', 'a', 'm', 'e']);
        } else {
            assert(tag.take(5)[4] == name[4]);
            assert(name.contains(name[4]));
        }
    }
}

/// Neither marker stands in the opening of a clean field's line.
pub proof fn lemma_opening_holds_no_marker(field: FieldView, needle: Seq<char>)
    requires
        is_clean_field(field),
        is_marker(needle),
    ensures
        occurrences(opening(field), needle, 0) == Seq::<int>::empty(),
{
    lemma_scrubbed_markup();
    let name = scrubbed(field.name);
    let value = scrubbed(field.value);
    let text = opening(field);
    lemma_scrubbed_holds_no_more(field.name, '<');
    lemma_scrubbed_holds_no_more(field.name, '>');
    lemma_scrubbed_holds_no_more(field.name, '/');
    lemma_scrubbed_holds_no_more(field.value, '<');
    assert forall|p: int| 0 <= p implies !occurs_at(text, needle, p) by {
        if occurs_at(text, needle, p) {
            let found = text.subrange(p, p + needle.len());
            if needle == "<game>"@ {
                lemma_tag_is_no_marker(name, value);
                assert(text.subrange(1, 6) =~= (name + seq!['>'] + value).take(5));
                assert(text.subrange(1, 6) =~= found.subrange(1, 6));
                assert(found.subrange(1, 6) =~= seq!['g', 'a', 'm', 'e', '>']);
            } else {
                assert(found[1] == '/');
            }
        }
    }
    lemma_no_occurrences(text, needle, 0);
}

/// Neither marker stands in the closing tag of a clean field's line.
pub proof fn lemma_closing_holds_no_marker(field: FieldView, needle: Seq<char>)
    requires
        is_clean_field(field),
        is_marker(needle),
    ensures
        occurrences(closing(field), needle, 0) == Seq::<int>::empty(),
{
    lemma_scrubbed_markup();
    let name = scrubbed(field.name);
    let text = closing(field);
    lemma_scrubbed_holds_no_more(field.name, '<');
    lemma_scrubbed_holds_no_more(field.name, '>');
    assert forall|p: int| 0 <= p implies !occurs_at(text, needle, p) by {
        if occurs_at(text, needle, p) {
            let found = text.subrange(p, p + needle.len());
            if needle == "</game>"@ {
                lemma_tag_is_no_marker(name, Seq::<char>::empty());
                assert(text.subrange(2, 7) =~= (name + seq!['>'] + Seq::<char>::empty()).take(5));
                assert(text.subrange(2, 7) =~= found.subrange(2, 7));
                assert(found.subrange(2, 7) =~= seq!['g', 'a', 'm', 'e', '>']);
            }
        }
    }
    lemma_no_occurrences(text, needle, 0);
}

/// Both markers start with `<` and hold it nowhere else.
pub proof fn lemma_markers_start_apart(needle: Seq<char>)
    requires
        is_marker(needle),
    ensures
        starts_apart(needle),
        needle[0] == '<',
{
    lemma_scrubbed_markup();
}

/// Neither marker stands in the scrubbed lines of clean fields, and these
/// lines start with `<` if there are any.
pub proof fn lemma_fields_hold_no_marker(fields: Seq<FieldView>, needle: Seq<char>)
    requires
        are_clean_fields(fields),
        is_marker(needle),
    ensures
        occurrences(scrubbed(rendered_fields(fields)), needle, 0) == Seq::<int>::empty(),
        scrubbed(rendered_fields(fields)).len() == 0 || scrubbed(rendered_fields(fields))[0]
            == '<',
    decreases fields.len(),
{
    if fields.len() > 0 {
        let before = scrubbed(rendered_fields(fields.drop_last()));
        let field = fields.last();
        lemma_fields_hold_no_marker(fields.drop_last(), needle);
        lemma_scrubbed_field(field);
        lemma_markers_start_apart(needle);
        lemma_opening_holds_no_marker(field, needle);
        lemma_closing_holds_no_marker(field, needle);
        let line = opening(field) + closing(field);
        lemma_occurrences_of_joined(opening(field), closing(field), needle, 0);
        lemma_occurrences_of_joined(before, line, needle, 0);
        assert((before + line)[0] == if before.len() > 0 {
            before[0]
        } else {
            line[0]
        });
    }
}

/// In the scrubbed lines of a record with clean fields the start marker
/// stands at the start and nowhere else, and the end marker behind the
/// fields and nowhere else.
pub proof fn lemma_markers_of_game(game: GameView)
    requires
        are_clean_fields(game.fields),
    ensures
        occurrences(scrubbed(rendered_game(game)), "<game>"@, 0) == seq![0int],
        occurrences(scrubbed(rendered_game(game)), "</game>"@, 0) == seq![
            6 + scrubbed(rendered_fields(game.fields)).len() as int,
        ],
        scrubbed(rendered_game(game)).len() == scrubbed(rendered_fields(game.fields)).len() + 13,
        scrubbed(rendered_game(game))[0] == '<',
{
    lemma_scrubbed_markup();
    let start = "<game>"@;
    let end = "</game>"@;
    let fields = scrubbed(rendered_fields(game.fields));
    let text = scrubbed(rendered_game(game));
    lemma_fields_hold_no_marker(game.fields, start);
    lemma_fields_hold_no_marker(game.fields, end);
    assert(text =~= start + (fields + end));
    let behind = fields + end;
    let none = Seq::<int>::empty();
    // The start marker.
    assert(occurrences(start, start, 0) =~= seq![0int]) by {
        assert(start.subrange(0, 6) =~= start);
        assert(occurrences(start, start, 6) =~= none);
    }
    assert(occurrences(end, start, 0) =~= none) by {
        lemma_no_occurrences(end, start, 0);
    }
    lemma_occurrences_of_joined(fields, end, start, 0);
    lemma_occurrences_of_joined(start, behind, start, 0);
    // The end marker.
    assert(occurrences(end, end, 0) =~= seq![0int]) by {
        assert(end.subrange(0, 7) =~= end);
        assert(occurrences(end, end, 7) =~= none);
    }
    lemma_occurrences_of_joined(fields, end, end, 0);
    lemma_occurrences_of_joined(start, behind, end, 0);
}

/// The offset at which the lines of record `i` start in the scrubbed lines
/// of the records.
pub open spec fn record_offset(games: Seq<GameView>, i: int) -> int {
    scrubbed(rendered_games(games.take(i))).len() as int
}

/// The scrubbed lines of the fields of record `i`.
pub open spec fn record_fields(games: Seq<GameView>, i: int) -> Seq<char> {
    scrubbed(rendered_fields(games[i].fields))
}

/// In the scrubbed lines of records with clean fields each record has its
/// start marker at its start and its end marker behind its fields, and no
/// marker stands anywhere else.
pub proof fn lemma_markers_of_games(games: Seq<GameView>)
    requires
        are_clean(games),
    ensures
        record_starts(scrubbed(rendered_games(games))).len() == games.len(),
        record_ends(scrubbed(rendered_games(games))).len() == games.len(),
        forall|i: int|
            0 <= i < games.len() ==> #[trigger] record_starts(scrubbed(rendered_games(games)))[i]
                == record_offset(games, i),
        forall|i: int|
            0 <= i < games.len() ==> #[trigger] record_ends(scrubbed(rendered_games(games)))[i]
                == record_offset(games, i) + 6 + record_fields(games, i).len(),
        forall|i: int|
            0 <= i < games.len() ==> record_offset(games, i) + 13 + record_fields(games, i).len()
                <= scrubbed(rendered_games(games)).len(),
        forall|i: int|
            0 <= i < games.len() ==> #[trigger] scrubbed(rendered_games(games)).subrange(
                record_offset(games, i),
                record_offset(games, i) + 6 + record_fields(games, i).len(),
            ) == "<game>"@ + record_fields(games, i),
        scrubbed(rendered_games(games)).len() == 0 || scrubbed(rendered_games(games))[0] == '<',
    decreases games.len(),
{
    lemma_scrubbed_markup();
    let text = scrubbed(rendered_games(games));
    if games.len() > 0 {
        let shorter = games.drop_last();
        let game = games.last();
        let k = shorter.len() as int;
        let before = scrubbed(rendered_games(shorter));
        let last = scrubbed(rendered_game(game));
        lemma_markers_of_games(shorter);
        lemma_markers_of_game(game);
        lemma_occurrences_of_joined(before, last, "<game>"@, 0);
        lemma_occurrences_of_joined(before, last, "</game>"@, 0);
        assert forall|i: int| 0 <= i < k implies record_offset(games, i) == record_offset(
            shorter,
            i,
        ) && record_fields(games, i) == record_fields(shorter, i) by {
            assert(games.take(i) =~= shorter.take(i));
        }
        assert forall|i: int| 0 <= i < games.len() implies #[trigger] text.subrange(
            record_offset(games, i),
            record_offset(games, i) + 6 + record_fields(games, i).len(),
        ) == "<game>"@ + record_fields(games, i) by {
            if i < k {
                assert(text.subrange(
                    record_offset(games, i),
                    record_offset(games, i) + 6 + record_fields(games, i).len(),
                ) =~= before.subrange(
                    record_offset(shorter, i),
                    record_offset(shorter, i) + 6 + record_fields(shorter, i).len(),
                ));
            }
        }
    }
}

/// The document of a catalog whose names and values are clean holds one pair
/// of record markers for each record, in order, and between the markers of
/// each pair stand the lines of the record's fields.
pub proof fn lemma_rendered_records_pair_up(games: Seq<GameView>)
    requires
        are_clean(games),
    ensures
        record_starts(scrubbed(rendered_games(games))).len() == games.len(),
        record_ends(scrubbed(rendered_games(games))).len() == games.len(),
        paired(
            record_starts(scrubbed(rendered_games(games))),
            record_ends(scrubbed(rendered_games(games))),
        ),
        forall|i: int|
            0 <= i < games.len() ==> #[trigger] scrubbed(rendered_games(games)).subrange(
                record_starts(scrubbed(rendered_games(games)))[i],
                record_ends(scrubbed(rendered_games(games)))[i],
            ) == "<game>"@ + scrubbed(rendered_fields(games[i].fields)),
{
    lemma_markers_of_games(games);
}

/// Reading the scrubbed lines of the records of a catalog whose names and
/// values are clean never fails, and adds as many records as the catalog
/// has, in the same order: the record for each is the one that its start
/// marker and the scrubbed lines of its fields give.
pub proof fn lemma_rendered_records_are_read(list: GameListView, games: Seq<GameView>)
    requires
        are_clean(games),
    ensures
        with_contents(list, scrubbed(rendered_games(games))) is Ok,
        with_contents(list, scrubbed(rendered_games(games)))->Ok_0.games.len() == list.games.len()
            + games.len(),
        with_contents(list, scrubbed(rendered_games(games)))->Ok_0.games.take(
            list.games.len() as int,
        ) == list.games,
        forall|i: int|
            0 <= i < games.len() ==> #[trigger] with_contents(
                list,
                scrubbed(rendered_games(games)),
            )->Ok_0.games[list.games.len() + i] == parsed_game(
                (list.games.len() + i) as usize,
                "<game>"@ + scrubbed(rendered_fields(games[i].fields)),
            ),
{
    let text = scrubbed(rendered_games(games));
    lemma_rendered_records_pair_up(games);
    lemma_read_records(list, text, record_starts(text), record_ends(text));
}

/// Scrubbing leaves a text without line breaks and tabs as it is.
pub proof fn lemma_scrubbed_plain(text: Seq<char>)
    requires
        !text.contains('\n'),
        !text.contains('\t'),
    ensures
        scrubbed(text) == text,
    decreases text.len(),
{
    if text.len() > 0 {
        let shorter = text.drop_last();
        assert(text =~= shorter.push(text.last()));
        lemma_scrubbed_plain(shorter);
        lemma_scrubbed_push(shorter, text.last());
    }
}

/// The scrubbed document of a catalog: the header, and between the markers
/// of the list the scrubbed lines of the records.
pub proof fn lemma_scrubbed_document(list: GameListView)
    ensures
        scrubbed(rendered(list)) == "<?xml version=\"1.0\"?>"@ + "<gameList>"@ + scrubbed(
            rendered_games(list.games),
        ) + "</gameList>"@,
{
    let header = "<?xml version=\"1.0\"?>"@;
    let open = "<gameList>"@;
    let close = "</gameList>"@;
    reveal_strlit("<?xml version=\"1.0\"?>");
    reveal_strlit("<?xml version=\"1.0\"?>\n");
    reveal_strlit("<gameList>");
    reveal_strlit("<gameList>\n");
    reveal_strlit("</gameList>");
    reveal_strlit("</gameList>\n");
    assert("<?xml version=\"1.0\"?>\n"@ =~= header.push('\n'));
    assert("<gameList>\n"@ =~= open.push('\n'));
    assert("</gameList>\n"@ =~= close.push('\n'));
    lemma_scrubbed_plain(header);
    lemma_scrubbed_plain(open);
    lemma_scrubbed_plain(close);
    lemma_scrubbed_push(header, '\n');
    lemma_scrubbed_push(open, '\n');
    lemma_scrubbed_push(close, '\n');
}

} // verus!
