use bgle::emulator_listings::structs::emulator_list;
use bgle::emulator_listings::structs::emulator_meta;
use bgle::emulator_listings::structs::emulator_meta::count_games_in_the_directory;
use bgle::emulator_listings::structs::emulator_meta::counts_of_matches;
use bgle::emulator_listings::structs::emulator_meta::gamefile_game_count_and_field;
use bgle::emulator_listings::valid::valid_directories_list;
use bgle::emulator_listings::valid::valid_directory_entry;
use bgle::emulator_listings::valid::DirectoryEntry;
use bgle::utils::get_rom_extensions;
use bgle::utils::Error;

const TEST_DIRECTORY: &str = "<path to test directory>/roms";

const NES_INFO: &str = "## SYSTEM NES ##\n\
-------------------------------------------------------------------------------\n\
ROM files extensions accepted: \".nes .unif .unf .zip .7z\"\n\
-------------------------------------------------------------------------------\n";

const NES_GAMELIST: &str = "<?xml version=\"1.0\"?>\n\
<gameList>\n\
\t<game>\n\
\t\t<path>./Super Game (USA).nes</path>\n\
\t\t<name>Super Game</name>\n\
\t\t<desc>A game.</desc>\n\
\t\t<image>./images/Super Game-image.png</image>\n\
\t\t<video>./videos/Super Game-video.mp4</video>\n\
\t\t<marquee>./images/Super Game-marquee.png</marquee>\n\
\t\t<thumbnail>./images/Super Game-thumb.png</thumbnail>\n\
\t\t<rating>0.8</rating>\n\
\t\t<releasedate>19900101T000000</releasedate>\n\
\t\t<developer>Someone</developer>\n\
\t\t<publisher>Someone else</publisher>\n\
\t\t<genre>Platform</genre>\n\
\t\t<players>1-2</players>\n\
\t\t<playcount>3</playcount>\n\
\t\t<lastplayed>20230101T120000</lastplayed>\n\
\t\t<md5>d41d8cd98f00b204e9800998ecf8427e</md5>\n\
\t\t<lang>en</lang>\n\
\t\t<crc32>00000000</crc32>\n\
\t\t<cheevosId>0</cheevosId>\n\
\t</game>\n\
</gameList>\n";

fn nes_entries() -> Vec<String> {
    ["_info.txt", "gamelist.xml", "Super Game (USA).nes", "images", "videos", "readme.md"]
        .iter()
        .map(|name| format!("{}/nes/{}", TEST_DIRECTORY, name))
        .collect()
}

fn strings(texts: &[&str]) -> Vec<String> {
    texts.iter().map(|t| t.to_string()).collect()
}

#[test]
fn test_count_games_in_the_directory() {
    match get_rom_extensions(NES_INFO) {
        Some(extensions) => {
            let game_count = count_games_in_the_directory(&nes_entries(), &extensions);
            assert_eq!(game_count, 1);
        }
        None => {
            assert!(false);
        }
    }
}

#[test]
fn test_gamefile_game_count_and_field() {
    let (game_count, field_count) = gamefile_game_count_and_field(NES_GAMELIST);
    assert_eq!(game_count, 1);
    assert_eq!(field_count, 19);
}

#[test]
fn games_are_counted_by_their_extension() {
    let entries = strings(&["/r/a.nes", "/r/b.NES", "/r/c.zip", "/r/d.nes.txt", "/r/nes", "/r/.nes", "/r/e.7z"]);
    assert_eq!(count_games_in_the_directory(&entries, &strings(&["nes", "zip", "7z"])), 3);
    assert_eq!(count_games_in_the_directory(&entries, &strings(&["txt"])), 1);
    assert_eq!(count_games_in_the_directory(&entries, &Vec::new()), 0);
    assert_eq!(count_games_in_the_directory(&Vec::new(), &strings(&["nes"])), 0);
}

#[test]
fn fields_are_counted_only_where_there_is_a_game() {
    assert_eq!(gamefile_game_count_and_field(""), (0, 0));
    assert_eq!(gamefile_game_count_and_field("<gameList>\n<name>a</name>\n</gameList>"), (0, 0));
    assert_eq!(gamefile_game_count_and_field("<game>\n<name>a</name>\n<path>b</path>\n</game>"), (1, 2));
    assert_eq!(gamefile_game_count_and_field("<game></game><game></game>"), (2, 1));
    assert_eq!(gamefile_game_count_and_field("<game><name>a</name><path>b</path></game>"), (1, 1));
    assert_eq!(gamefile_game_count_and_field("<game>\n< name >a</ name >\n<na me>b</na me>\n</game>"), (1, 1));
}

#[test]
fn counts_are_capped() {
    assert_eq!(counts_of_matches(0, 0), (0, 0));
    assert_eq!(counts_of_matches(0, 5), (0, 0));
    assert_eq!(counts_of_matches(2, 5), (2, 5));
    assert_eq!(counts_of_matches(1, 0), (1, 0));
    assert_eq!(counts_of_matches(usize::MAX, 7), (u32::MAX, 7));
    assert_eq!(counts_of_matches(4294967295, 4294967295), (4294967295, 4294967295));
}

#[test]
fn an_emulator_is_described_by_what_its_directory_holds() {
    let directory = format!("{}/nes", TEST_DIRECTORY);
    let meta = emulator_meta::new(&directory, Some(NES_INFO), Some(NES_GAMELIST), &nes_entries()).unwrap();
    assert_eq!(meta.name, "nes");
    assert_eq!(meta.directory_path(), directory);
    assert_eq!(meta.game_count(), 1);
    assert_eq!(meta.gamefile_elements(), 19);
    assert_eq!(meta.rom_extensions(), &strings(&["nes", "unif", "unf", "zip", "7z"]));
}

#[test]
fn an_emulator_has_the_games_of_its_document_or_of_its_directory() {
    let info = "ROM files extensions accepted: \".nes\"";
    let entries = strings(&["/r/nes/a.nes", "/r/nes/b.nes", "/r/nes/c.nes"]);
    let document = "<game>\n<name>a</name>\n</game>\n<game>\n</game>";
    let meta = emulator_meta::new("/r/nes", Some(info), Some(document), &entries).unwrap();
    assert_eq!(meta.game_count(), 3);
    assert_eq!(meta.gamefile_elements(), 1);
    let meta = emulator_meta::new("/r/nes", Some(info), Some(document), &entries[..1].to_vec()).unwrap();
    assert_eq!(meta.game_count(), 2);
    let meta = emulator_meta::new("/r/nes", Some(info), None, &entries).unwrap();
    assert_eq!(meta.game_count(), 3);
    assert_eq!(meta.gamefile_elements(), 0);
    let meta = emulator_meta::new("/r/nes", Some(info), None, &Vec::new()).unwrap();
    assert_eq!(meta.game_count(), 0);
}

#[test]
fn an_emulator_without_declared_extensions_is_not_described() {
    assert!(emulator_meta::new("/r/nes", None, Some(NES_GAMELIST), &nes_entries()).is_none());
    assert!(emulator_meta::new("/r/nes", Some("nothing"), Some(NES_GAMELIST), &nes_entries()).is_none());
}

#[test]
fn emulators_are_listed_in_the_order_in_which_they_were_added() {
    let info = "ROM files extensions accepted: \".nes\"";
    let mut list = emulator_list::new();
    assert_eq!(list.emulators.len(), 0);
    list.add(emulator_meta::new("/r/nes", Some(info), None, &Vec::new()).unwrap());
    list.add(emulator_meta::new("/r/snes", Some(info), None, &Vec::new()).unwrap());
    list.add(emulator_meta::new("/r/gb", Some(info), None, &Vec::new()).unwrap());
    assert_eq!(list.emulators.len(), 3);
    assert_eq!(list.get(0).name, "nes");
    assert_eq!(list.get(1).name, "snes");
    assert_eq!(list.get(2).name, "gb");
    list.remove(1);
    assert_eq!(list.emulators.len(), 2);
    assert_eq!(list.get(0).name, "nes");
    assert_eq!(list.get(1).name, "gb");
    assert_eq!(list.get(1).directory_path(), "/r/gb");
}

fn entry(path: &str, is_dir: bool, has_gamelist: bool, has_info: bool) -> DirectoryEntry {
    DirectoryEntry { path: path.to_string(), is_dir, has_gamelist, has_info }
}

#[test]
fn a_source_directory_holds_both_files() {
    assert_eq!(valid_directory_entry("/r/nes", true, true), Ok("/r/nes".to_string()));
    assert_eq!(valid_directory_entry("/r/nes", true, false), Err(Error::MissingRequiredFiles));
    assert_eq!(valid_directory_entry("/r/nes", false, true), Err(Error::MissingRequiredFiles));
    assert_eq!(valid_directory_entry("/r/nes", false, false), Err(Error::MissingRequiredFiles));
}

#[test]
fn source_directories_are_listed_in_order() {
    let entries = vec![
        entry("/r/nes", true, true, true),
        entry("/r/readme.txt", false, true, true),
        entry("/r/empty", true, false, false),
        entry("/r/half", true, true, false),
        entry("/r/other half", true, false, true),
        entry("/r/snes", true, true, true),
    ];
    assert_eq!(
        valid_directories_list(true, Some(&entries)),
        Ok(vec!["/r/nes".to_string(), "/r/snes".to_string()])
    );
    assert_eq!(valid_directories_list(true, Some(&Vec::new())), Ok(Vec::<String>::new()));
}

#[test]
fn a_path_that_is_missing_or_unreadable_lists_nothing() {
    let entries = vec![entry("/r/nes", true, true, true)];
    assert_eq!(valid_directories_list(false, Some(&entries)), Err(Error::NoneValidPath));
    assert_eq!(valid_directories_list(false, None), Err(Error::NoneValidPath));
    assert_eq!(valid_directories_list(true, None), Err(Error::CannotReadDirectory));
}

#[test]
fn an_emulator_is_restored_from_its_parts() {
    let meta = emulator_meta::EmulatorMeta::restore(
        "nes".to_string(),
        "/r/nes".to_string(),
        19,
        3,
        strings(&["nes", "zip"]),
    );
    assert_eq!(meta.name, "nes");
    assert_eq!(meta.directory_path(), "/r/nes");
    assert_eq!(meta.gamefile_elements(), 19);
    assert_eq!(meta.game_count(), 3);
    assert_eq!(meta.rom_extensions(), &strings(&["nes", "zip"]));
}
