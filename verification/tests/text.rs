use bgle::text::chars_of;
use bgle::text::find_all;
use bgle::text::matches_at;
use bgle::text::remove_char;
use bgle::text::same_bytes;
use bgle::text::same_text;
use bgle::text::split;
use bgle::text::string_of;

fn chars(text: &str) -> Vec<char> {
    text.chars().collect()
}

#[test]
fn chars_and_strings_convert_into_each_other() {
    assert_eq!(chars_of(""), Vec::<char>::new());
    assert_eq!(chars_of("aé日"), vec!['a', 'é', '日']);
    let text = chars("héllo wörld");
    assert_eq!(string_of(&text, 0, text.len()), "héllo wörld");
    assert_eq!(string_of(&text, 1, 5), "éllo");
    assert_eq!(string_of(&text, 4, 4), "");
}

#[test]
fn texts_are_compared_byte_for_byte() {
    assert!(same_text("", ""));
    assert!(same_text("path", "path"));
    assert!(!same_text("path", "Path"));
    assert!(!same_text("path", "paths"));
    assert!(!same_text("é", "e"));
    assert!(same_bytes(&[1, 2, 3], &[1, 2, 3]));
    assert!(!same_bytes(&[1, 2, 3], &[1, 2, 4]));
    assert!(!same_bytes(&[1, 2, 3], &[1, 2]));
}

#[test]
fn occurrences_are_found_from_left_to_right() {
    let text = chars("<game>a</game><game>b</game>");
    assert_eq!(find_all(&text, &chars("<game>")), vec![0, 14]);
    assert_eq!(find_all(&text, &chars("</game>")), vec![7, 21]);
    assert_eq!(find_all(&text, &chars("<games>")), Vec::<usize>::new());
    assert_eq!(find_all(&chars(""), &chars("<game>")), Vec::<usize>::new());
    assert_eq!(find_all(&chars("<game"), &chars("<game>")), Vec::<usize>::new());
    assert_eq!(find_all(&chars("<game>"), &chars("<game>")), vec![0]);
    assert!(matches_at(&text, &chars("<game>"), 14));
    assert!(!matches_at(&text, &chars("<game>"), 13));
}

#[test]
fn occurrences_do_not_overlap() {
    assert_eq!(find_all(&chars("aaaa"), &chars("aa")), vec![0, 2]);
    assert_eq!(find_all(&chars("aaaaa"), &chars("aa")), vec![0, 2]);
    assert_eq!(find_all(&chars("abababa"), &chars("aba")), vec![0, 4]);
    let expected: Vec<usize> = "abababa".match_indices("aba").map(|(i, _)| i).collect();
    assert_eq!(find_all(&chars("abababa"), &chars("aba")), expected);
}

#[test]
fn occurrences_are_counted_in_characters() {
    assert_eq!(find_all(&chars("é<game>é<game>"), &chars("<game>")), vec![1, 8]);
}

#[test]
fn a_character_is_removed_wherever_it_stands() {
    assert_eq!(remove_char(&chars(".nes .smc ."), '.'), chars("nes smc "));
    assert_eq!(remove_char(&chars("a\nb\n\nc"), '\n'), chars("abc"));
    assert_eq!(remove_char(&chars("abc"), 'z'), chars("abc"));
    assert_eq!(remove_char(&chars(""), 'z'), chars(""));
    assert_eq!(remove_char(&chars("zzz"), 'z'), chars(""));
}

#[test]
fn a_text_is_cut_at_each_separator() {
    for text in ["", " ", "a", "a b", "a  b", " a b ", "nes unif unf zip 7z", "   "] {
        let expected: Vec<String> = text.split(' ').map(|piece| piece.to_string()).collect();
        assert_eq!(split(&chars(text), ' '), expected, "{:?}", text);
    }
    assert_eq!(split(&chars("a b"), ' '), vec!["a".to_string(), "b".to_string()]);
    assert_eq!(split(&chars(""), ' '), vec!["".to_string()]);
    assert_eq!(split(&chars(" "), ' '), vec!["".to_string(), "".to_string()]);
}
