use citadel_addons::error::BlockError;
use citadel_addons::search_paths::{
    check_search_paths, holds_one_block, read_search_paths, write_search_paths, SearchPaths,
    SearchPathsState,
};
use citadel_addons::text::{
    concat_all, contents_of, join_with, split_at_char, split_lines, split_raw_lines, to_chars,
    to_string,
};

const GAME_INFO: &str = "\"GameInfo\"\n{\n\tgame\t\t\"citadel\"\n\tFileSystem\n\t{\n\t\tSearchPaths\n\t\t{\n\t\t\tGame\t\t\t\tcitadel\n\t\t\tGame\t\t\t\tcore\n\t\t}\n\t}\n}\n";

const MODDED_TEXT: &str = "\"SearchPaths\"\n{\n\t\"Game\"\t\"citadel/addons\"\n\t\"Game\"\t\"citadel\"\n\t\"Game\"\t\"core\"\n\t\"Mod\"\t\"citadel\"\n\t\"Write\"\t\"citadel\"\n}\n";

const VANILLA_TEXT: &str = "\"SearchPaths\"\n{\n\t\"Game\"\t\"citadel\"\n\t\"Game\"\t\"core\"\n}\n";

fn block(game: &[&str], mod_key: Option<&str>, write: Option<&str>) -> SearchPaths {
    SearchPaths {
        game: game.iter().map(|s| s.to_string()).collect(),
        mod_key: mod_key.map(|s| s.to_string()),
        write: write.map(|s| s.to_string()),
    }
}

fn lines_of(text: &str) -> Vec<String> {
    split_lines(&to_chars(text)).iter().map(to_string).collect()
}

#[test]
fn canonical_blocks_are_classified() {
    assert_eq!(check_search_paths(&SearchPaths::vanilla()), SearchPathsState::Vanilla);
    assert_eq!(check_search_paths(&SearchPaths::modded()), SearchPathsState::Modded);
}

#[test]
fn canonical_blocks_hold_the_canonical_values() {
    let vanilla = SearchPaths::vanilla();
    assert_eq!(vanilla.game, vec!["citadel".to_string(), "core".to_string()]);
    assert_eq!(vanilla.mod_key, None);
    assert_eq!(vanilla.write, None);
    let modded = SearchPaths::modded();
    assert_eq!(
        modded.game,
        vec!["citadel/addons".to_string(), "citadel".to_string(), "core".to_string()]
    );
    assert_eq!(modded.mod_key, Some("citadel".to_string()));
    assert_eq!(modded.write, Some("citadel".to_string()));
}

#[test]
fn three_entries_with_other_keys_are_custom() {
    let entries = ["citadel/addons", "citadel", "core"];
    assert_eq!(
        check_search_paths(&block(&entries, Some("citadel"), Some("core"))),
        SearchPathsState::Custom
    );
    assert_eq!(
        check_search_paths(&block(&entries, Some("mods"), Some("citadel"))),
        SearchPathsState::Custom
    );
    assert_eq!(check_search_paths(&block(&entries, None, None)), SearchPathsState::Custom);
    assert_eq!(
        check_search_paths(&block(&entries, Some("citadel"), None)),
        SearchPathsState::Custom
    );
}

#[test]
fn shape_alone_does_not_classify() {
    assert_eq!(
        check_search_paths(&block(&["core", "citadel"], None, None)),
        SearchPathsState::Custom
    );
    assert_eq!(
        check_search_paths(&block(&["citadel", "core"], Some("citadel"), Some("citadel"))),
        SearchPathsState::Custom
    );
    assert_eq!(
        check_search_paths(&block(
            &["citadel/addons", "core", "citadel"],
            Some("citadel"),
            Some("citadel")
        )),
        SearchPathsState::Custom
    );
    assert_eq!(check_search_paths(&block(&[], None, None)), SearchPathsState::Custom);
    assert_eq!(
        check_search_paths(&block(&["citadel", "core", "extra"], None, None)),
        SearchPathsState::Custom
    );
}

#[test]
fn lines_follow_the_standard_library() {
    let samples = [
        "",
        "\n",
        "a",
        "a\n",
        "a\nb",
        "a\r\nb\r\n",
        "a\r",
        "a\r\r\nb",
        "\n\n",
        "x\n\ny\n",
        "\r\n",
        "tab\there\r\nlast\r",
    ];
    for sample in samples {
        let want: Vec<String> = sample.lines().map(|l| l.to_string()).collect();
        assert_eq!(lines_of(sample), want, "lines of {:?}", sample);
    }
}

#[test]
fn split_follows_the_standard_library() {
    let samples = ["", "\n", "a", "a\n", "a\nb", "\n\n", "a\r\nb", "x\n\ny\n"];
    for sample in samples {
        let want: Vec<String> = sample.split('\n').map(|l| l.to_string()).collect();
        let got: Vec<String> =
            split_at_char(&to_chars(sample), '\n').iter().map(to_string).collect();
        assert_eq!(got, want, "pieces of {:?}", sample);
    }
}

#[test]
fn join_puts_the_separator_between_parts() {
    let parts = vec![to_chars("a"), to_chars(""), to_chars("bc")];
    assert_eq!(to_string(&join_with(&parts, '\n')), "a\n\nbc");
    assert_eq!(to_string(&join_with(&Vec::new(), '\n')), "");
    assert_eq!(to_string(&join_with(&vec![to_chars("solo")], '\n')), "solo");
}

#[test]
fn chars_and_strings_convert_both_ways() {
    let text = "caf\u{e9} \u{1f600}\t}";
    assert_eq!(to_chars(text), text.chars().collect::<Vec<char>>());
    assert_eq!(to_string(&to_chars(text)), text);
}

#[test]
fn read_collects_the_block() {
    assert_eq!(
        read_search_paths(GAME_INFO),
        Ok("\t\tSearchPaths\n\t\t{\n\t\t\tGame\t\t\t\tcitadel\n\t\t\tGame\t\t\t\tcore\n\t\t}"
            .to_string())
    );
}

#[test]
fn read_without_a_marker_gives_nothing() {
    assert_eq!(read_search_paths("a\nb\n}\n"), Ok(String::new()));
    assert_eq!(read_search_paths(""), Ok(String::new()));
}

#[test]
fn read_fails_on_an_open_block() {
    assert_eq!(read_search_paths("SearchPaths\n{\nGame core\n"), Err(BlockError::NotClosed));
    assert_eq!(read_search_paths("x\nSearchPaths"), Err(BlockError::NotClosed));
    assert_eq!(read_search_paths("SearchPaths }"), Err(BlockError::NotClosed));
}

#[test]
fn the_marker_line_is_not_searched_for_the_brace() {
    assert_eq!(
        read_search_paths("SearchPaths { }\nGame core\n}\nrest"),
        Ok("SearchPaths { }\nGame core\n}".to_string())
    );
}

#[test]
fn several_blocks_are_merged() {
    let content = "SearchPaths\n{\na\n}\nbetween\nSearchPaths\n{\nb\n}\nafter";
    assert_eq!(
        read_search_paths(content),
        Ok("SearchPaths\n{\na\n}\nSearchPaths\n{\nb\n}".to_string())
    );
}

#[test]
fn a_marker_inside_a_block_opens_a_span_of_its_own() {
    let content = "SearchPaths\n// SearchPaths again\nx\n}\nafter";
    assert_eq!(
        read_search_paths(content),
        Ok("SearchPaths\n// SearchPaths again\nx\n}\n// SearchPaths again\nx\n}".to_string())
    );
}

#[test]
fn read_takes_carriage_returns_off_the_lines() {
    assert_eq!(
        read_search_paths("a\r\nSearchPaths\r\n{\r\n}\r\nz\r\n"),
        Ok("SearchPaths\n{\n}".to_string())
    );
}

#[test]
fn write_puts_the_modded_block_in_place() {
    let want = "\"GameInfo\"\n{\n\tgame\t\t\"citadel\"\n\tFileSystem\n\t{\n\t\tSearchPaths\n\t\t{\n\t\t\tGame\tcitadel/addons\n\t\t\tGame\tcitadel\n\t\t\tGame\tcore\n\t\t\tMod\tcitadel\n\t\t\tWrite\tcitadel\n\t\t}\n\t\t\n\t}\n}\n";
    assert_eq!(write_search_paths(GAME_INFO, MODDED_TEXT), Ok(want.to_string()));
}

#[test]
fn write_puts_the_vanilla_block_in_place() {
    let modded = write_search_paths(GAME_INFO, MODDED_TEXT).unwrap();
    let want = "\"GameInfo\"\n{\n\tgame\t\t\"citadel\"\n\tFileSystem\n\t{\n\t\tSearchPaths\n\t\t{\n\t\t\tGame\tcitadel\n\t\t\tGame\tcore\n\t\t}\n\t\t\n\t\t\n\t}\n}\n";
    assert_eq!(write_search_paths(&modded, VANILLA_TEXT), Ok(want.to_string()));
}

#[test]
fn write_indents_by_the_tabs_of_the_first_marker_line() {
    assert_eq!(
        write_search_paths("SearchPaths\n}\n", "K\n{\n}"),
        Ok("K\n{\n}\n".to_string())
    );
    assert_eq!(
        write_search_paths("\t\t\tSearchPaths\n}\n", "K\n{\n}"),
        Ok("\t\t\tK\n\t\t\t{\n\t\t\t}\n".to_string())
    );
    assert_eq!(
        write_search_paths("  \tSearchPaths\n}\n", "K\n{\n}"),
        Ok("K\n{\n}\n".to_string())
    );
    assert_eq!(
        write_search_paths("\tSearchPaths\n}\nmid\n\t\t\tSearchPaths\n}", "K"),
        Ok("\tK\nmid\n".to_string())
    );
}

#[test]
fn write_keeps_the_end_of_the_file() {
    assert_eq!(write_search_paths("a\nSearchPaths\n}\nz\n", "K"), Ok("a\nK\nz\n".to_string()));
    assert_eq!(write_search_paths("a\nSearchPaths\n}\nz", "K"), Ok("a\nK\nz".to_string()));
    assert_eq!(write_search_paths("a\nSearchPaths\n}\n", "K"), Ok("a\nK\n".to_string()));
    assert_eq!(write_search_paths("a\nSearchPaths\n}", "K"), Ok("a\nK".to_string()));
    assert_eq!(write_search_paths("SearchPaths\n}\n\n\n", "K"), Ok("K\n\n\n".to_string()));
}

#[test]
fn write_keeps_the_line_endings_outside_the_block() {
    assert_eq!(
        write_search_paths("a\r\nSearchPaths\r\n{\r\n}\r\nz\r\n", "K\n{\n}"),
        Ok("a\r\nK\n{\n}\r\nz\r\n".to_string())
    );
    assert_eq!(
        write_search_paths("a\r\nb\nSearchPaths\n}\r\nc\r\r\nd\r", "K"),
        Ok("a\r\nb\nK\r\nc\r\r\nd\r".to_string())
    );
    assert_eq!(
        write_search_paths("SearchPaths\r\n}\n\r\n", "K"),
        Ok("K\n\r\n".to_string())
    );
}

#[test]
fn write_changes_the_span_alone() {
    let before = "\"GameInfo\"\r\n{\r\n\tFileSystem\r\n\t{\n";
    let span = "\t\tSearchPaths\r\n\t\t{\r\n\t\t\tGame\tcore\r\n\t\t}";
    for ending in ["\r\n", "\n", ""] {
        let behind = if ending.is_empty() { "" } else { "\t}\r\n}\r\n\r\n" };
        let content = format!("{}{}{}{}", before, span, ending, behind);
        let written = write_search_paths(&content, "SearchPaths\n{\n}").unwrap();
        let want = format!("{}\t\tSearchPaths\n\t\t{{\n\t\t}}{}{}", before, ending, behind);
        assert_eq!(written, want);
        assert!(written.starts_with(before));
        assert!(written.ends_with(&format!("{}{}", ending, behind)));
    }
}

#[test]
fn write_strips_every_double_quote() {
    assert_eq!(
        write_search_paths("SearchPaths\n}", "\"a\"\t\"b\\\"c\""),
        Ok("a\tb\\c".to_string())
    );
}

#[test]
fn write_fails_without_a_block() {
    assert_eq!(write_search_paths("a\nb\n", MODDED_TEXT), Err(BlockError::NotFound));
    assert_eq!(write_search_paths("", MODDED_TEXT), Err(BlockError::NotFound));
}

#[test]
fn write_fails_on_an_open_block() {
    assert_eq!(
        write_search_paths("SearchPaths\n{\nGame core", MODDED_TEXT),
        Err(BlockError::NotClosed)
    );
}

#[test]
fn write_keeps_every_other_line_in_order() {
    let content = "one\n\ttwo\r\nSearchPaths\n{\nGame core\n}\nthree\n\nSearchPaths\n}\nfour }\nfive";
    let written = write_search_paths(content, "NEW").unwrap();
    assert_eq!(written, "one\n\ttwo\r\nNEW\nthree\n\nfour }\nfive");
    let before = lines_of(content);
    let after = lines_of(&written);
    let kept: Vec<String> = [0usize, 1, 6, 7, 10, 11].iter().map(|&i| before[i].clone()).collect();
    let mut others = after.clone();
    others.remove(2);
    assert_eq!(others, kept);
    assert_eq!(after[2], "NEW");
}

#[test]
fn lines_with_endings_make_the_text() {
    let samples = [
        "",
        "\n",
        "a",
        "a\n",
        "a\nb",
        "a\r\nb\r\n",
        "a\r",
        "a\r\r\nb",
        "\n\n",
        "x\n\ny\n",
        "\r\n",
    ];
    for sample in samples {
        let chars = to_chars(sample);
        let raw = split_raw_lines(&chars);
        let want: Vec<String> = sample.split_inclusive('\n').map(|l| l.to_string()).collect();
        let got: Vec<String> = raw.iter().map(to_string).collect();
        assert_eq!(got, want, "lines of {:?}", sample);
        assert_eq!(to_string(&concat_all(&raw)), sample);
        let bare: Vec<String> = contents_of(&raw).iter().map(to_string).collect();
        assert_eq!(bare, lines_of(sample));
    }
}

#[test]
fn written_block_is_read_back() {
    let written = write_search_paths(GAME_INFO, MODDED_TEXT).unwrap();
    assert_eq!(
        read_search_paths(&written),
        Ok("\t\tSearchPaths\n\t\t{\n\t\t\tGame\tcitadel/addons\n\t\t\tGame\tcitadel\n\t\t\tGame\tcore\n\t\t\tMod\tcitadel\n\t\t\tWrite\tcitadel\n\t\t}"
            .to_string())
    );
}

#[test]
fn one_block_has_one_marker_and_a_closing_piece() {
    assert!(holds_one_block(MODDED_TEXT));
    assert!(holds_one_block(VANILLA_TEXT));
    assert!(holds_one_block("SearchPaths\n}"));
    assert!(holds_one_block("\"Search\"Paths\n{\n}\n\n"));
    assert!(!holds_one_block(""));
    assert!(!holds_one_block("SearchPaths"));
    assert!(!holds_one_block("SearchPaths }"));
    assert!(!holds_one_block("SearchPaths\n{\n"));
    assert!(!holds_one_block("x\nSearchPaths\n}"));
    assert!(!holds_one_block("SearchPaths\n{\nSearchPaths\n}"));
    assert!(!holds_one_block("SearchPaths\r\n}"));
}

#[test]
fn one_block_is_read_back_as_written() {
    for text in [MODDED_TEXT, VANILLA_TEXT, "SearchPaths\n// note\n}\ntail"] {
        assert!(holds_one_block(text));
        for content in [GAME_INFO, "SearchPaths\n}", "a\n\tSearchPaths\nb }\nSearchPaths\n}"] {
            let written = write_search_paths(content, text).unwrap();
            let read = read_search_paths(&written).unwrap();
            let again = write_search_paths("SearchPaths\n}", &read).unwrap();
            assert_eq!(read_search_paths(&again).unwrap(), read);
            assert!(written.contains(&read));
        }
    }
}

#[test]
fn block_errors_have_messages() {
    assert_eq!(BlockError::NotFound.message(), "SearchPaths block not found in gameinfo.gi");
    assert_eq!(BlockError::NotClosed.message(), "SearchPaths block is not closed in gameinfo.gi");
}
