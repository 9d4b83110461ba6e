use wotw_seedgen_stats::seed_files::{
    after_failure, current_world, find_header, find_node, is_whitespace, numbered_stem,
    seed_file_stem,
    seed_output, set_names, spoiler_file_stem, trim, world_index, CreateFailure, NextAttempt,
};

#[test]
fn taken_names_get_a_number() {
    assert_eq!(numbered_stem("seed", 0), "seed");
    assert_eq!(numbered_stem("seed", 1), "seed_1");
    assert_eq!(numbered_stem("seed", 12), "seed_12");
    assert_eq!(numbered_stem("", 3), "_3");
}

#[test]
fn seed_files_are_named_by_world_where_there_are_several() {
    assert_eq!(seed_file_stem("mine", false, 0), "mine");
    assert_eq!(seed_file_stem("mine", true, 0), "world_0");
    assert_eq!(seed_file_stem("mine", true, 10), "world_10");
    assert_eq!(spoiler_file_stem("mine"), "mine_spoiler");
}

#[test]
fn failures_decide_the_next_attempt() {
    assert_eq!(
        after_failure(0, CreateFailure::AlreadyExists),
        NextAttempt::Retry { index: 1, create_parent: false }
    );
    assert_eq!(
        after_failure(4, CreateFailure::NotFound),
        NextAttempt::Retry { index: 4, create_parent: true }
    );
    assert_eq!(after_failure(4, CreateFailure::Other), NextAttempt::GiveUp);
    assert_eq!(after_failure(usize::MAX, CreateFailure::AlreadyExists), NextAttempt::GiveUp);
}

#[test]
fn one_world_is_shown_without_a_heading() {
    assert_eq!(
        seed_output(&vec!["3|0|8".to_string()], "spoiler"),
        "3|0|8\n\n======= Spoiler =======\nspoiler\n"
    );
}

#[test]
fn several_worlds_are_shown_under_headings() {
    assert_eq!(
        seed_output(&vec!["first".to_string(), "second".to_string()], "spoiler"),
        "======= World 0 =======\nfirst\n======= World 1 =======\nsecond\n\n\
         ======= Spoiler =======\nspoiler\n"
    );
}

fn std_header<'a>(contents: &'a str, prefix: &str) -> Option<&'a str> {
    contents.lines().find_map(|line| line.strip_prefix(prefix))
}

#[test]
fn header_is_found_as_lines_are_read() {
    let prefix = "// This World: ";
    for contents in [
        "",
        "// This World: 1",
        "// This World: 1\n",
        "// This World: 1\r\n// This World: 2",
        "// This World: 1\r",
        "3|0|8\n// This World: 2\r\n\n",
        "3|0|8\n // This World: 2\n// This World: 3",
        "// This World:\n// This World: \n// This World: 4",
        "// This World",
        "\n\n\r\n// This World: 5",
        "a// This World: 5",
        "// This World: ü\r\r\n",
    ] {
        assert_eq!(find_header(contents, prefix), std_header(contents, prefix), "{:?}", contents);
    }
    assert_eq!(find_header("a\nb", ""), Some("a"));
    assert_eq!(find_header("", ""), None);
}

#[test]
fn current_world_is_read_from_its_line() {
    assert_eq!(current_world("3|0|8\n// This World: 2\n"), Ok(2));
    assert_eq!(current_world("3|0|8\n"), Ok(0));
    assert_eq!(current_world(""), Ok(0));
    assert_eq!(
        current_world("// This World: two"),
        Err("Error reading current world: invalid digit found in string".to_string())
    );
    assert_eq!(
        current_world("// This World: \n// This World: 1"),
        Err("Error reading current world: cannot parse integer from empty string".to_string())
    );
    assert_eq!(world_index(None), Ok(0));
    assert_eq!(world_index(Some(Ok(7))), Ok(7));
    assert_eq!(
        world_index(Some(Err("why".to_string()))),
        Err("Error reading current world: why".to_string())
    );
}

#[test]
fn trim_takes_white_space_off_both_ends() {
    for text in ["", " ", "a", " a", "a ", "  a b  ", "\t\na\r\n", "\u{a0}a\u{2003}", " ä ", "   "] {
        assert_eq!(trim(text), text.trim(), "{:?}", text);
    }
}

fn std_names(contents: &str) -> Vec<String> {
    for line in contents.lines() {
        if let Some(sets) = line.strip_prefix("// Sets: ") {
            if sets.is_empty() {
                return Vec::new();
            }
            return sets.split(',').map(str::trim).map(str::to_string).collect();
        }
    }
    Vec::new()
}

#[test]
fn set_names_are_read_from_the_first_sets_line() {
    for contents in [
        "",
        "// Sets: ",
        "// Sets: a",
        "// Sets: a, b ,c\n// Sets: d",
        "// Sets: ,\n",
        "// Sets: a,,b,\r\n",
        "3|0|8\n// Sets:  spaced out  , x\n",
        "// Sets:\n// Sets: late",
        "// Sets: \n// Sets: late",
        "// Sets:  ",
    ] {
        assert_eq!(set_names(contents), std_names(contents), "{:?}", contents);
    }
    assert_eq!(set_names("// Sets: a, b"), vec!["a".to_string(), "b".to_string()]);
}

#[test]
fn white_space_is_what_the_standard_library_says() {
    for code in 0..=0x10ffffu32 {
        if let Some(c) = char::from_u32(code) {
            assert_eq!(is_whitespace(c), c.is_whitespace(), "{:?}", c);
        }
    }
}

#[test]
fn nodes_are_found_by_their_identifier() {
    let identifiers: Vec<String> =
        ["MarshSpawn.Main", "MarshSpawn.Cave", "MarshSpawn.Main", ""].map(String::from).to_vec();
    assert_eq!(find_node(&identifiers, "MarshSpawn.Cave"), Ok(1));
    assert_eq!(find_node(&identifiers, "MarshSpawn.Main"), Ok(0));
    assert_eq!(find_node(&identifiers, ""), Ok(3));
    assert_eq!(
        find_node(&identifiers, "MarshSpawn"),
        Err("target MarshSpawn not found".to_string())
    );
    assert_eq!(find_node(&Vec::new(), "x"), Err("target x not found".to_string()));
}
