use bgle::game_listings::structs::game::assign_a_field_type;
use bgle::game_listings::structs::game::check_if_field_is_editable;
use bgle::game_listings::structs::game::compare_strings;
use bgle::game_listings::structs::game::FieldType;
use bgle::game_listings::structs::game::Game;

#[test]
fn test_valid_compare_strings() {
    let first = "test".to_string();
    let second = "test".to_string();
    assert_eq!(compare_strings(&first, &second), true);
}

#[test]
fn test_invalid_compare_strings() {
    let first = "test".to_string();
    let second = "test2".to_string();
    assert_eq!(compare_strings(&first, &second), false);
}

#[test]
fn test_compare_two_empty_strings() {
    let first = "".to_string();
    let second = "".to_string();
    assert_eq!(compare_strings(&first, &second), true);
}

#[test]
fn test_compare_empty_string_with_non_empty_string() {
    let first = "".to_string();
    let second = "test".to_string();
    assert_eq!(compare_strings(&first, &second), false);
}

#[test]
fn test_check_if_field_is_editable_not_editable() {
    let field_name = "last_played";
    assert_eq!(check_if_field_is_editable(field_name), false);
}

#[test]
fn test_check_if_field_is_editable_editable() {
    let field_name = "name";
    assert_eq!(check_if_field_is_editable(field_name), true);
}

#[test]
fn test_assign_a_field_type_string() {
    let field_name = "players";
    assert_eq!(assign_a_field_type(field_name), FieldType::Range);
}

#[test]
fn test_assign_field_type_other() {
    let field_name = "test";
    assert_eq!(assign_a_field_type(field_name), FieldType::LineText);
}

#[test]
fn test_new_game() {
    let id = 1;
    let game = Game::new(id);
    assert_eq!(game.game_id(), id);
    assert_eq!(game.fields.len(), 0);
}

#[test]
fn test_add_field_to_game() {
    let mut game = Game::new(1);
    let name = "name";
    let value = "test".to_string();
    game.add_field(name, value);
    assert_eq!(game.fields.len(), 1);
    assert_eq!(game.fields[0].name, name);
    assert_eq!(game.fields[0].value, "test");
}

#[test]
fn test_field_contains_value_true() {
    let mut game = Game::new(1);
    let name = "name";
    let value = "test".to_string();
    game.add_field(name, value);
    let result = game.field_contains_value(name, "test".to_string());
    assert_eq!(result.unwrap(), true);
}

#[test]
fn test_field_contains_value_false() {
    let mut game = Game::new(1);
    let name = "name";
    let value = "test".to_string();
    game.add_field(name, value);
    let result = game.field_contains_value(name, "test2".to_string());
    assert_eq!(result.unwrap(), false);
}

#[test]
fn test_change_field() {
    let mut game = Game::new(1);
    let name = "name";
    let value = "test".to_string();
    game.add_field(name, value);
    let new_value = "test2".to_string();
    game.change_field(name, new_value);
    assert_eq!(game.fields[0].value, "test2");
}

#[test]
fn test_has_been_edited() {
    let mut game = Game::new(1);
    assert_eq!(game.has_been_edited(), false);
    game.add_field("name", "test".to_string());
    assert_eq!(game.has_been_edited(), true);
    assert_eq!(game.has_been_edited(), false);
    game.change_field("name", "test2".to_string());
    assert_eq!(game.has_been_edited(), true);
    assert_eq!(game.has_been_edited(), false);
}
