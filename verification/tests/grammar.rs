use citadel_addons::game::CitadelGame;
use citadel_addons::search_paths::{
    check_search_paths, holds_one_block, read_search_paths, write_search_paths, SearchPaths,
    SearchPathsState,
};
use serde::de::{Deserialize, Deserializer, IgnoredAny, MapAccess, Visitor};
use serde::ser::{Serialize, SerializeStruct, Serializer};

const GAME_INFO: &str = "\"GameInfo\"\n{\n\tgame\t\t\"citadel\"\n\tFileSystem\n\t{\n\t\t//\n\t\t// The paths the loader searches.\n\t\t//\n\t\tSearchPaths\n\t\t{\n\t\t\tGame\t\t\t\tcitadel\n\t\t\tGame\t\t\t\tcore\n\t\t}\n\t}\n}\n";

struct Block(SearchPaths);

impl Serialize for Block {
    fn serialize<S: Serializer>(&self, serializer: S) -> Result<S::Ok, S::Error> {
        let mut block = serializer.serialize_struct("SearchPaths", 3)?;
        block.serialize_field("Game", &self.0.game)?;
        block.serialize_field("Mod", &self.0.mod_key)?;
        block.serialize_field("Write", &self.0.write)?;
        block.end()
    }
}

struct BlockVisitor;

impl<'de> Visitor<'de> for BlockVisitor {
    type Value = Block;

    fn expecting(&self, formatter: &mut std::fmt::Formatter) -> std::fmt::Result {
        formatter.write_str("a load-path block")
    }

    fn visit_map<A: MapAccess<'de>>(self, mut map: A) -> Result<Block, A::Error> {
        let mut game: Option<Vec<String>> = None;
        let mut mod_key: Option<String> = None;
        let mut write: Option<String> = None;
        while let Some(key) = map.next_key::<String>()? {
            match key.as_str() {
                "Game" => game = Some(map.next_value()?),
                "Mod" => mod_key = Some(map.next_value()?),
                "Write" => write = Some(map.next_value()?),
                _ => {
                    map.next_value::<IgnoredAny>()?;
                }
            }
        }
        match game {
            Some(game) => Ok(Block(SearchPaths { game, mod_key, write })),
            None => Err(serde::de::Error::missing_field("Game")),
        }
    }
}

impl<'de> Deserialize<'de> for Block {
    fn deserialize<D: Deserializer<'de>>(deserializer: D) -> Result<Block, D::Error> {
        deserializer.deserialize_struct("SearchPaths", &["Game", "Mod", "Write"], BlockVisitor)
    }
}

fn state_in(content: &str) -> SearchPathsState {
    let text = read_search_paths(content).unwrap();
    let parsed: Block = keyvalues_serde::from_str(&text).unwrap();
    check_search_paths(&parsed.0)
}

fn serialized(block: SearchPaths) -> String {
    keyvalues_serde::to_string(&Block(block)).unwrap()
}

#[test]
fn canonical_blocks_serialize_as_expected() {
    assert_eq!(
        serialized(SearchPaths::modded()),
        "\"SearchPaths\"\n{\n\t\"Game\"\t\"citadel/addons\"\n\t\"Game\"\t\"citadel\"\n\t\"Game\"\t\"core\"\n\t\"Mod\"\t\"citadel\"\n\t\"Write\"\t\"citadel\"\n}\n"
    );
    assert_eq!(
        serialized(SearchPaths::vanilla()),
        "\"SearchPaths\"\n{\n\t\"Game\"\t\"citadel\"\n\t\"Game\"\t\"core\"\n}\n"
    );
}

#[test]
fn serialized_blocks_hold_one_block() {
    assert!(holds_one_block(&serialized(SearchPaths::modded())));
    assert!(holds_one_block(&serialized(SearchPaths::vanilla())));
    let odd = SearchPaths {
        game: vec!["a \"quoted\" path".to_string(), "line\r\nbreak".to_string()],
        mod_key: Some("}".to_string()),
        write: None,
    };
    assert!(holds_one_block(&serialized(odd)));
}

#[test]
fn shipped_file_parses_as_vanilla() {
    assert_eq!(state_in(GAME_INFO), SearchPathsState::Vanilla);
}

#[test]
fn written_modded_block_parses_as_modded() {
    let written = write_search_paths(GAME_INFO, &serialized(SearchPaths::modded())).unwrap();
    assert_eq!(state_in(&written), SearchPathsState::Modded);
}

#[test]
fn written_vanilla_block_parses_as_vanilla() {
    let modded = write_search_paths(GAME_INFO, &serialized(SearchPaths::modded())).unwrap();
    let reset = write_search_paths(&modded, &serialized(SearchPaths::vanilla())).unwrap();
    assert_eq!(state_in(&reset), SearchPathsState::Vanilla);
    let again = write_search_paths(&reset, &serialized(SearchPaths::vanilla())).unwrap();
    assert_eq!(state_in(&again), SearchPathsState::Vanilla);
}

#[test]
fn written_custom_block_parses_as_custom() {
    let custom = SearchPaths {
        game: vec!["citadel/addons".to_string(), "citadel".to_string(), "core".to_string()],
        mod_key: Some("citadel".to_string()),
        write: Some("elsewhere".to_string()),
    };
    let written = write_search_paths(GAME_INFO, &serialized(custom)).unwrap();
    assert_eq!(state_in(&written), SearchPathsState::Custom);
}

#[test]
fn writing_leaves_the_rest_of_the_file() {
    let written = write_search_paths(GAME_INFO, &serialized(SearchPaths::modded())).unwrap();
    let span = "\t\tSearchPaths\n\t\t{\n\t\t\tGame\t\t\t\tcitadel\n\t\t\tGame\t\t\t\tcore\n\t\t}";
    let start = GAME_INFO.find(span).unwrap();
    let before = &GAME_INFO[..start];
    let behind = &GAME_INFO[start + span.len()..];
    assert!(written.starts_with(before));
    assert!(written.ends_with(behind));
    assert_eq!(behind, "\n\t}\n}\n");
    let dos = GAME_INFO.replace('\n', "\r\n");
    let written = write_search_paths(&dos, &serialized(SearchPaths::modded())).unwrap();
    assert!(written.starts_with(&before.replace('\n', "\r\n")));
    assert!(written.ends_with(&behind.replace('\n', "\r\n")));
    assert_eq!(state_in(&written), SearchPathsState::Modded);
}

#[test]
fn mod_transition_round_trips_through_the_grammar() {
    let shipped: Block = keyvalues_serde::from_str(&read_search_paths(GAME_INFO).unwrap()).unwrap();
    let mut game = CitadelGame::new("/games/deadlock".to_string(), &shipped.0, None);
    assert_eq!(game.search_paths_state(), SearchPathsState::Vanilla);
    let text = serialized(SearchPaths::modded());
    let written = game.mod_search_paths(GAME_INFO, &text).unwrap().unwrap();
    assert_eq!(game.search_paths_state(), state_in(&written));
    assert_eq!(game.mod_search_paths(&written, &text).unwrap(), None);
}
