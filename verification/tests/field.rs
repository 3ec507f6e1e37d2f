use bgle::game_listings::structs::game::assign_a_field_type;
use bgle::game_listings::structs::game::check_if_field_is_editable;
use bgle::game_listings::structs::game::validate;
use bgle::game_listings::structs::game::Error;
use bgle::game_listings::structs::game::Field;
use bgle::game_listings::structs::game::FieldType;
use bgle::game_listings::structs::game::Game;

fn construct(kind: FieldType, value: &str) -> Field {
    Field::new("any".to_string(), value.to_string(), kind, true)
}

fn assert_kept(kind: FieldType, value: &str) {
    let field = construct(kind, value);
    assert_eq!(field.value, value, "{:?} should keep {:?}", kind, value);
    assert_eq!(field.format_error_message, "");
    assert!(validate(kind, value));
}

fn assert_refused(kind: FieldType, value: &str, message: &str) {
    let field = construct(kind, value);
    assert_eq!(field.value, "", "{:?} should refuse {:?}", kind, value);
    assert_eq!(field.format_error_message, message);
    assert!(!validate(kind, value));
}

#[test]
fn construct_keeps_name_kind_and_policy() {
    let field = Field::new("rating".to_string(), "0.5".to_string(), FieldType::Float, false);
    assert_eq!(field.name, "rating");
    assert_eq!(field.value, "0.5");
    assert_eq!(field.editable, false);
    assert_eq!(field.field_type, FieldType::Float);
    assert_eq!(field.format_error_message, "");
    let field = Field::new("rating".to_string(), "high".to_string(), FieldType::Float, true);
    assert_eq!(field.name, "rating");
    assert_eq!(field.value, "");
    assert_eq!(field.editable, true);
    assert_eq!(field.field_type, FieldType::Float);
    assert_eq!(field.format_error_message, "Must be a floating point number.");
}

#[test]
fn line_text_holds_no_line_break() {
    assert_kept(FieldType::LineText, "");
    assert_kept(FieldType::LineText, "Super Mario Bros.");
    assert_kept(FieldType::LineText, "tab\tand carriage return\r are no line breaks");
    assert_kept(FieldType::LineText, "<b>any</b> characters: é ü 日本語");
    assert_refused(FieldType::LineText, "two\nlines", "Must contain a single line of text.");
    assert_refused(FieldType::LineText, "\n", "Must contain a single line of text.");
    assert_refused(FieldType::LineText, "ends with a break\n", "Must contain a single line of text.");
}

#[test]
fn multiline_text_is_any_text() {
    assert_kept(FieldType::MultilineText, "");
    assert_kept(FieldType::MultilineText, "one line");
    assert_kept(FieldType::MultilineText, "two\nlines\n\nand more");
}

#[test]
fn integer_is_a_decimal_number_of_32_bits() {
    assert_kept(FieldType::Integer, "0");
    assert_kept(FieldType::Integer, "42");
    assert_kept(FieldType::Integer, "-42");
    assert_kept(FieldType::Integer, "+42");
    assert_kept(FieldType::Integer, "2147483647");
    assert_kept(FieldType::Integer, "-2147483648");
    assert_kept(FieldType::Integer, "0000000000000000000000012");
    assert_refused(FieldType::Integer, "", "Must be an integer.");
    assert_refused(FieldType::Integer, "2147483648", "Must be an integer.");
    assert_refused(FieldType::Integer, "-2147483649", "Must be an integer.");
    assert_refused(FieldType::Integer, "99999999999999999999999999", "Must be an integer.");
    assert_refused(FieldType::Integer, "1.0", "Must be an integer.");
    assert_refused(FieldType::Integer, " 1", "Must be an integer.");
    assert_refused(FieldType::Integer, "1 ", "Must be an integer.");
    assert_refused(FieldType::Integer, "+", "Must be an integer.");
    assert_refused(FieldType::Integer, "-", "Must be an integer.");
    assert_refused(FieldType::Integer, "--1", "Must be an integer.");
    assert_refused(FieldType::Integer, "1_000", "Must be an integer.");
    assert_refused(FieldType::Integer, "0x10", "Must be an integer.");
    assert_refused(FieldType::Integer, "twelve", "Must be an integer.");
    assert_refused(FieldType::Integer, "٣", "Must be an integer.");
}

#[test]
fn float_is_a_decimal_number() {
    assert_kept(FieldType::Float, "0");
    assert_kept(FieldType::Float, "0.75");
    assert_kept(FieldType::Float, "-0.75");
    assert_kept(FieldType::Float, "+3.");
    assert_kept(FieldType::Float, ".5");
    assert_kept(FieldType::Float, "1e10");
    assert_kept(FieldType::Float, "1.5E-3");
    assert_kept(FieldType::Float, "inf");
    assert_kept(FieldType::Float, "-Infinity");
    assert_kept(FieldType::Float, "NaN");
    assert_refused(FieldType::Float, "", "Must be a floating point number.");
    assert_refused(FieldType::Float, ".", "Must be a floating point number.");
    assert_refused(FieldType::Float, "1e", "Must be a floating point number.");
    assert_refused(FieldType::Float, "e5", "Must be a floating point number.");
    assert_refused(FieldType::Float, "1,5", "Must be a floating point number.");
    assert_refused(FieldType::Float, " 1.5", "Must be a floating point number.");
    assert_refused(FieldType::Float, "1.5f", "Must be a floating point number.");
    assert_refused(FieldType::Float, "infinit", "Must be a floating point number.");
    assert_refused(FieldType::Float, "good", "Must be a floating point number.");
}

#[test]
fn bool_is_true_or_false() {
    assert_kept(FieldType::Bool, "true");
    assert_kept(FieldType::Bool, "false");
    assert_refused(FieldType::Bool, "", "Must be a boolean value.");
    assert_refused(FieldType::Bool, "True", "Must be a boolean value.");
    assert_refused(FieldType::Bool, "FALSE", "Must be a boolean value.");
    assert_refused(FieldType::Bool, "1", "Must be a boolean value.");
    assert_refused(FieldType::Bool, "yes", "Must be a boolean value.");
    assert_refused(FieldType::Bool, " true", "Must be a boolean value.");
    assert_refused(FieldType::Bool, "truefalse", "Must be a boolean value.");
}

#[test]
fn range_is_a_count_or_two_counts() {
    assert_kept(FieldType::Range, "2");
    assert_kept(FieldType::Range, "1-4");
    assert_kept(FieldType::Range, "999");
    assert_kept(FieldType::Range, "001-999");
    assert_refused(FieldType::Range, "", "Must be a one number or a range eg 1-3");
    assert_refused(FieldType::Range, "1234", "Must be a one number or a range eg 1-3");
    assert_refused(FieldType::Range, "1-", "Must be a one number or a range eg 1-3");
    assert_refused(FieldType::Range, "-4", "Must be a one number or a range eg 1-3");
    assert_refused(FieldType::Range, "1-2-3", "Must be a one number or a range eg 1-3");
    assert_refused(FieldType::Range, "1 - 4", "Must be a one number or a range eg 1-3");
    assert_refused(FieldType::Range, "1-4\n", "Must be a one number or a range eg 1-3");
    assert_refused(FieldType::Range, "two", "Must be a one number or a range eg 1-3");
    assert_refused(FieldType::Range, "1-4000", "Must be a one number or a range eg 1-3");
}

#[test]
fn date_has_the_compact_or_the_iso_form() {
    let message = "Date format must be yyyymmddThhmmss or yyyy-mm-ddThh:mm:ss";
    assert_kept(FieldType::Date, "19900101T000000");
    assert_kept(FieldType::Date, "1990-01-01T00:00:00");
    assert_kept(FieldType::Date, "20231231T235959");
    assert_refused(FieldType::Date, "", message);
    assert_refused(FieldType::Date, "1990-01-01", message);
    assert_refused(FieldType::Date, "19900101", message);
    assert_refused(FieldType::Date, "19900101 000000", message);
    assert_refused(FieldType::Date, "1990-01-01T00:00", message);
    assert_refused(FieldType::Date, "19900101T0000000", message);
    assert_refused(FieldType::Date, "1990/01/01T00:00:00", message);
    assert_refused(FieldType::Date, "x19900101T000000", message);
    assert_refused(FieldType::Date, "yesterday", message);
}

#[test]
fn alphanumeric_holds_letters_and_digits_only() {
    assert_kept(FieldType::Alphanumeric, "");
    assert_kept(FieldType::Alphanumeric, "abc123");
    assert_kept(FieldType::Alphanumeric, "D41D8CD98F00B204E9800998ECF8427E");
    assert_refused(FieldType::Alphanumeric, "abc 123", "Must be alphanumeric.");
    assert_refused(FieldType::Alphanumeric, "abc-123", "Must be alphanumeric.");
    assert_refused(FieldType::Alphanumeric, "abc_123", "Must be alphanumeric.");
    assert_refused(FieldType::Alphanumeric, "é", "Must be alphanumeric.");
    assert_refused(FieldType::Alphanumeric, "abc\n", "Must be alphanumeric.");
}

#[test]
fn file_is_a_relative_path_that_starts_with_a_dot() {
    assert_kept(FieldType::File, ".");
    assert_kept(FieldType::File, "./file.ext");
    assert_kept(FieldType::File, "./a.nes");
    assert_kept(FieldType::File, "./images/box art/cover_1-2 (USA).png");
    assert_kept(FieldType::File, "./DonkeyKongClassic (Shiru).smc");
    assert_kept(FieldType::File, "./no_extension");
    assert_kept(FieldType::File, "..ext");
    assert_refused(FieldType::File, "", "Must be a file path.");
    assert_refused(FieldType::File, "test", "Must be a file path.");
    assert_refused(FieldType::File, ".ext", "Must be a file path.");
    assert_refused(FieldType::File, "file.ext", "Must be a file path.");
    assert_refused(FieldType::File, "/absolute/file.ext", "Must be a file path.");
    assert_refused(FieldType::File, "../file.ext", "Must be a file path.");
    assert_refused(FieldType::File, "./two.dots.ext", "Must be a file path.");
    assert_refused(FieldType::File, "./file.e_t", "Must be a file path.");
    assert_refused(FieldType::File, "./file.ext/", "Must be a file path.");
    assert_refused(FieldType::File, "./what?.ext", "Must be a file path.");
}

#[test]
fn every_kind_has_its_own_message() {
    let refused = [
        (FieldType::LineText, "a\nb", "Must contain a single line of text."),
        (FieldType::Integer, "x", "Must be an integer."),
        (FieldType::Float, "x", "Must be a floating point number."),
        (FieldType::Bool, "x", "Must be a boolean value."),
        (FieldType::Range, "x", "Must be a one number or a range eg 1-3"),
        (FieldType::Date, "x", "Date format must be yyyymmddThhmmss or yyyy-mm-ddThh:mm:ss"),
        (FieldType::File, "x", "Must be a file path."),
        (FieldType::Alphanumeric, "-", "Must be alphanumeric."),
    ];
    for (kind, value, message) in refused {
        let field = construct(kind, value);
        assert_eq!(field.value, "");
        assert_eq!(field.format_error_message, message);
        assert!(!field.format_error_message.is_empty());
    }
}

#[test]
fn the_kind_follows_from_the_name() {
    for name in ["path", "image", "video", "marquee", "thumbnail"] {
        assert_eq!(assign_a_field_type(name), FieldType::File);
    }
    for name in ["name", "developer", "publisher", "genre", "lang"] {
        assert_eq!(assign_a_field_type(name), FieldType::LineText);
    }
    assert_eq!(assign_a_field_type("desc"), FieldType::MultilineText);
    assert_eq!(assign_a_field_type("lastplayed"), FieldType::Date);
    assert_eq!(assign_a_field_type("releasedate"), FieldType::Date);
    assert_eq!(assign_a_field_type("players"), FieldType::Range);
    assert_eq!(assign_a_field_type("cheevosId"), FieldType::Integer);
    assert_eq!(assign_a_field_type("playcount"), FieldType::Integer);
    assert_eq!(assign_a_field_type("rating"), FieldType::Float);
    for name in ["crc32", "md5", "cheevosHash"] {
        assert_eq!(assign_a_field_type(name), FieldType::Alphanumeric);
    }
    for name in ["", "Path", "paths", "favorite", "hidden", "last_played"] {
        assert_eq!(assign_a_field_type(name), FieldType::LineText);
    }
}

#[test]
fn the_policy_follows_from_the_name() {
    for name in ["last_played", "playcount", "crc32", "md5", "cheevosId", "cheevosHash"] {
        assert_eq!(check_if_field_is_editable(name), false);
    }
    for name in ["", "name", "path", "lastplayed", "rating", "MD5", "md5 "] {
        assert_eq!(check_if_field_is_editable(name), true);
    }
}

#[test]
fn add_field_derives_kind_and_policy_and_validates() {
    let mut game = Game::new(7);
    game.add_field("players", "1-4".to_string());
    game.add_field("players", "many".to_string());
    game.add_field("md5", "abc".to_string());
    game.add_field("desc", "a\nb".to_string());
    assert_eq!(game.game_id(), 7);
    assert_eq!(game.fields.len(), 4);
    assert_eq!(game.fields[0].field_type, FieldType::Range);
    assert_eq!(game.fields[0].value, "1-4");
    assert_eq!(game.fields[0].editable, true);
    assert_eq!(game.fields[1].value, "");
    assert_eq!(game.fields[1].format_error_message, "Must be a one number or a range eg 1-3");
    assert_eq!(game.fields[2].field_type, FieldType::Alphanumeric);
    assert_eq!(game.fields[2].editable, false);
    assert_eq!(game.fields[3].field_type, FieldType::MultilineText);
    assert_eq!(game.fields[3].value, "a\nb");
    assert_eq!(game.fields().len(), 4);
}

#[test]
fn field_contains_value_reads_the_most_recent_field_of_the_name() {
    let mut game = Game::new(0);
    assert_eq!(game.field_contains_value("name", "a".to_string()), Err(Error::NotFound));
    game.add_field("name", "a".to_string());
    assert_eq!(game.field_contains_value("name", "a".to_string()), Ok(true));
    game.add_field("name", "b".to_string());
    game.add_field("genre", "a".to_string());
    assert_eq!(game.field_contains_value("name", "b".to_string()), Ok(true));
    assert_eq!(game.field_contains_value("name", "a".to_string()), Ok(false));
    assert_eq!(game.field_contains_value("name", "B".to_string()), Ok(false));
    assert_eq!(game.field_contains_value("name", "b ".to_string()), Ok(false));
    assert_eq!(game.field_contains_value("genre", "a".to_string()), Ok(true));
    assert_eq!(game.field_contains_value("Name", "a".to_string()), Err(Error::NotFound));
    assert_eq!(game.field_contains_value("path", "a".to_string()), Err(Error::NotFound));
}

#[test]
fn change_field_removes_the_field_and_appends_its_replacement() {
    let mut game = Game::new(0);
    game.add_field("name", "A".to_string());
    game.add_field("path", "./a.nes".to_string());
    game.add_field("desc", "d".to_string());
    game.change_field("name", "B".to_string());
    let names: Vec<&str> = game.fields.iter().map(|f| f.name.as_str()).collect();
    let values: Vec<&str> = game.fields.iter().map(|f| f.value.as_str()).collect();
    assert_eq!(game.fields.len(), 3);
    assert_eq!(names, vec!["path", "desc", "name"]);
    assert_eq!(values, vec!["./a.nes", "d", "B"]);
    assert_eq!(game.fields[2].value, "B");
}

#[test]
fn change_field_replaces_the_first_field_of_the_name() {
    let mut game = Game::new(0);
    game.add_field("name", "a".to_string());
    game.add_field("genre", "b".to_string());
    game.add_field("lang", "c".to_string());
    game.add_field("name", "d".to_string());
    game.change_field("name", "new".to_string());
    let names: Vec<&str> = game.fields.iter().map(|f| f.name.as_str()).collect();
    let values: Vec<&str> = game.fields.iter().map(|f| f.value.as_str()).collect();
    assert_eq!(names, vec!["genre", "lang", "name", "name"]);
    assert_eq!(values, vec!["b", "c", "d", "new"]);
    assert_eq!(game.field_contains_value("name", "new".to_string()), Ok(true));
    game.change_field("genre", "rpg".to_string());
    let names: Vec<&str> = game.fields.iter().map(|f| f.name.as_str()).collect();
    let values: Vec<&str> = game.fields.iter().map(|f| f.value.as_str()).collect();
    assert_eq!(names, vec!["lang", "name", "name", "genre"]);
    assert_eq!(values, vec!["c", "d", "new", "rpg"]);
}

#[test]
fn change_field_of_a_missing_name_does_nothing() {
    let mut game = Game::new(0);
    game.add_field("name", "a".to_string());
    assert_eq!(game.has_been_edited(), true);
    game.change_field("genre", "b".to_string());
    assert_eq!(game.fields.len(), 1);
    assert_eq!(game.fields[0].name, "name");
    assert_eq!(game.fields[0].value, "a");
    assert_eq!(game.has_been_edited(), false);
}

#[test]
fn change_field_validates_the_new_value() {
    let mut game = Game::new(0);
    game.add_field("rating", "0.5".to_string());
    game.change_field("rating", "best".to_string());
    assert_eq!(game.fields.len(), 1);
    assert_eq!(game.fields[0].value, "");
    assert_eq!(game.fields[0].format_error_message, "Must be a floating point number.");
    assert_eq!(game.fields[0].field_type, FieldType::Float);
}

#[test]
fn digits_and_letters_of_patterns_are_those_of_unicode() {
    assert_kept(FieldType::Range, "٣");
    assert_kept(FieldType::Range, "١-٤");
    assert_kept(FieldType::Date, "١٩٩٠0101T000000");
    assert_kept(FieldType::File, "./jeu é (été).nes");
    assert_kept(FieldType::File, "./ゲーム.nes");
    assert_refused(FieldType::File, "./game.né", "Must be a file path.");
    assert_refused(FieldType::Alphanumeric, "٣", "Must be alphanumeric.");
}

#[test]
fn a_record_is_restored_from_its_parts() {
    let fields = vec![
        Field::new("name".to_string(), "A".to_string(), FieldType::LineText, true),
        Field::new("rating".to_string(), "x".to_string(), FieldType::Float, true),
    ];
    let mut game = Game::restore(9, true, fields);
    assert_eq!(game.game_id(), 9);
    assert_eq!(game.is_marked(), true);
    assert_eq!(game.is_marked(), true);
    assert_eq!(game.fields.len(), 2);
    assert_eq!(game.fields[1].value, "");
    assert_eq!(game.has_been_edited(), true);
    assert_eq!(game.is_marked(), false);
    let game = Game::restore(0, false, Vec::new());
    assert_eq!(game.is_marked(), false);
    assert_eq!(game.fields.len(), 0);
}
