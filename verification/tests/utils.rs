use bgle::utils::directory_name;
use bgle::utils::extensions_from_matches;
use bgle::utils::file_extension_from_path;
use bgle::utils::file_name_to_string;
use bgle::utils::get_rom_extensions;
use bgle::utils::is_valid_emulator_extension;

const TEST_DIRECTORY: &str = "<path to test directory>/roms";

const NES_INFO: &str = "## SYSTEM NES ##\n\
-------------------------------------------------------------------------------\n\
ROM files extensions accepted: \".nes .unif .unf .zip .7z\"\n\
-------------------------------------------------------------------------------\n";

fn strings(texts: &[&str]) -> Vec<String> {
    texts.iter().map(|t| t.to_string()).collect()
}

#[test]
fn test_valid_directory_name() {
    let mut path = String::from(TEST_DIRECTORY);
    path.push_str("/snes");
    let name = directory_name(&path);
    assert_eq!(name, "snes");
}

#[test]
fn test_get_rom_extensions() {
    match get_rom_extensions(NES_INFO) {
        Some(extensions) => {
            let extensions_str = extensions.join(" ");
            let extensions_test = vec![
                "nes".to_string(),
                "unif".to_string(),
                "unf".to_string(),
                "zip".to_string(),
                "7z".to_string(),
            ]
            .join(" ");
            assert_eq!(extensions_str, extensions_test);
        }
        None => {
            assert!(false);
        }
    }
}

#[test]
fn the_file_name_is_what_follows_the_last_slash() {
    assert_eq!(file_name_to_string("/roms/snes/gameA.nes"), "gameA.nes");
    assert_eq!(file_name_to_string("gameA.nes"), "gameA.nes");
    assert_eq!(file_name_to_string("./gameA.nes"), "gameA.nes");
    assert_eq!(file_name_to_string("/roms/snes"), "snes");
    assert_eq!(file_name_to_string("/roms/s n e s/Game (USA).nes"), "Game (USA).nes");
    assert_eq!(file_name_to_string("/roms/snes/"), "snes");
    assert_eq!(file_name_to_string("/roms/snes///"), "snes");
    assert_eq!(file_name_to_string("snes/"), "snes");
    assert_eq!(file_name_to_string("/"), "");
    assert_eq!(file_name_to_string("//"), "");
    assert_eq!(directory_name("/roms/nes/"), "nes");
    assert_eq!(file_name_to_string(""), "");
    assert_eq!(file_name_to_string("röms/spiel é.nes"), "spiel é.nes");
    assert_eq!(directory_name("/roms/nes"), "nes");
}

#[test]
fn the_extension_is_what_follows_the_last_dot_of_the_name() {
    let some = |text: &str| Some(text.to_string());
    assert_eq!(file_extension_from_path("/roms/snes/gameA.nes"), some("nes"));
    assert_eq!(file_extension_from_path("gameA.tar.gz"), some("gz"));
    assert_eq!(file_extension_from_path("/roms/snes/Game (v1.2).smc"), some("smc"));
    assert_eq!(file_extension_from_path("/roms/snes/trailing."), some(""));
    assert_eq!(file_extension_from_path("/roms/snes/..hidden"), some("hidden"));
    assert_eq!(file_extension_from_path("/roms/snes/.hidden.nes"), some("nes"));
    assert_eq!(file_extension_from_path("/roms/snes/.hidden"), None);
    assert_eq!(file_extension_from_path("/roms/snes/noextension"), None);
    assert_eq!(file_extension_from_path("/roms/sn.es/noextension"), None);
    assert_eq!(file_extension_from_path("/roms/snes/.."), None);
    assert_eq!(file_extension_from_path("/roms/snes/."), None);
    assert_eq!(file_extension_from_path("/roms/snes/"), None);
    assert_eq!(file_extension_from_path("/roms/snes.d/"), some("d"));
    assert_eq!(file_extension_from_path("/roms/game.nes//"), some("nes"));
    assert_eq!(file_extension_from_path(""), None);
}

#[test]
fn the_extension_is_that_of_the_standard_library() {
    for path in ["/roms/snes/gameA.nes", "gameA.tar.gz", "a.", ".a", "..a", "a..b", "...", "a",
        "dir.x/a", "/roms/snes/Game (v1.2).smc", ".hidden.nes", "é.ü", "/roms/snes/",
        "/roms/snes.d///", "a.b/", "/roms/.hidden/"]
    {
        let expected = std::path::Path::new(path)
            .extension()
            .map(|e| e.to_str().unwrap().to_string());
        assert_eq!(file_extension_from_path(path), expected, "{:?}", path);
        let expected = std::path::Path::new(path)
            .file_name()
            .map(|e| e.to_str().unwrap().to_string())
            .unwrap();
        assert_eq!(file_name_to_string(path), expected, "{:?}", path);
    }
}

#[test]
fn an_extension_is_valid_if_it_is_declared() {
    let declared = strings(&["nes", "zip", "7z"]);
    assert!(is_valid_emulator_extension(Some("nes".to_string()), &declared));
    assert!(is_valid_emulator_extension(Some("7z".to_string()), &declared));
    assert!(!is_valid_emulator_extension(Some("NES".to_string()), &declared));
    assert!(!is_valid_emulator_extension(Some("ne".to_string()), &declared));
    assert!(!is_valid_emulator_extension(Some("".to_string()), &declared));
    assert!(!is_valid_emulator_extension(None, &declared));
    assert!(!is_valid_emulator_extension(Some("nes".to_string()), &Vec::new()));
}

#[test]
fn extensions_are_declared_in_one_line_of_the_information_file() {
    assert_eq!(
        get_rom_extensions("ROM files extensions accepted: \".smc .nes\""),
        Some(strings(&["smc", "nes"]))
    );
    assert_eq!(
        get_rom_extensions("ROM files extensions accepted:\t\n \".smc .nes"),
        Some(strings(&["smc", "nes"]))
    );
    assert_eq!(
        get_rom_extensions("ROM files extensions accepted: \".smc  .nes\""),
        Some(strings(&["smc"]))
    );
    assert_eq!(
        get_rom_extensions("ROM files extensions accepted: \" .smc\""),
        Some(strings(&["", "smc"]))
    );
    assert_eq!(get_rom_extensions("ROM files extensions accepted: \"\""), Some(strings(&[""])));
    assert_eq!(get_rom_extensions("ROM files extensions accepted: \"smc\""), Some(strings(&[""])));
    assert_eq!(get_rom_extensions("ROM files extensions accepted:\".smc\""), None);
    assert_eq!(get_rom_extensions("rom files extensions accepted: \".smc\""), None);
    assert_eq!(get_rom_extensions("no such line"), None);
    assert_eq!(get_rom_extensions(""), None);
}

#[test]
fn every_declaring_line_counts() {
    let info = "ROM files extensions accepted: \".a .b\"\nROM files extensions accepted: \".c\"\n";
    assert_eq!(get_rom_extensions(info), Some(strings(&["a", "b", "c"])));
}

#[test]
fn extensions_come_from_the_first_group_of_each_match() {
    let some = |text: &str| Some(text.to_string());
    let matches = vec![
        vec![some("whole"), some(".nes .zip"), some(" .zip")],
        vec![some("whole")],
        vec![some("whole"), None],
        vec![],
        vec![some("whole"), some(".7z")],
    ];
    assert_eq!(extensions_from_matches(&matches), Some(strings(&["nes", "zip", "7z"])));
    assert_eq!(extensions_from_matches(&Vec::new()), None);
    assert_eq!(extensions_from_matches(&vec![vec![some("whole")]]), None);
    assert_eq!(extensions_from_matches(&vec![vec![some("whole"), some("")]]), Some(strings(&[""])));
    assert_eq!(
        extensions_from_matches(&vec![vec![some("whole"), some("a.b. c")]]),
        Some(strings(&["ab", "c"]))
    );
}
