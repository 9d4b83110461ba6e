use wotw_seedgen_stats::options::{
    invalid_chance, Goal, GoalsOpt, HeaderConfigOpt, InlineHeaderOpt, ReachData, Spawn, SpawnOpt,
};
use wotw_seedgen_stats::presets::{
    PresetGroup, PresetInfoArgs, SeedSettings, WorldPresetSettings,
};
use wotw_seedgen_stats::world_opts::{
    assign_nonduplicate, resolve_nonduplicate_world_opts, resolve_world_opts, vec_in_option,
    WorldOpt, WorldOptError, WorldOptInner,
};

fn value<T>(source: &str, value: T) -> WorldOpt<T> {
    WorldOpt { source: source.to_string(), inner: WorldOptInner::Opt(value) }
}

fn world<T>(index: usize) -> WorldOpt<T> {
    WorldOpt { source: format!(":{}", index), inner: WorldOptInner::World(index) }
}

fn read(text: &str) -> Result<WorldOpt<u8>, WorldOptError<String>> {
    WorldOpt::from_str(text, || text.parse::<u8>().map_err(|error| error.to_string()))
}

#[test]
fn vec_in_option_tells_empty_from_filled() {
    assert_eq!(vec_in_option(Vec::<u8>::new()), None);
    assert_eq!(vec_in_option(vec![1, 2]), Some(vec![1, 2]));
}

#[test]
fn entry_with_a_colon_selects_a_world() {
    match read(":2") {
        Ok(WorldOpt { source, inner: WorldOptInner::World(2) }) => assert_eq!(source, ":2"),
        _ => panic!("no selector"),
    }
    match read(":+0") {
        Ok(WorldOpt { inner: WorldOptInner::World(0), .. }) => {},
        _ => panic!("no selector"),
    }
    match read(":two") {
        Err(error @ WorldOptError::IndexError(_)) => {
            assert_eq!(error.message(), "Invalid world index :two")
        },
        _ => panic!("a selector without an index was read"),
    }
    match read(":") {
        Err(WorldOptError::IndexError(index)) => assert_eq!(index, ""),
        _ => panic!("a selector without an index was read"),
    }
    match read(":99999999999999999999999") {
        Err(WorldOptError::IndexError(index)) => assert_eq!(index, "99999999999999999999999"),
        _ => panic!("a selector without an index was read"),
    }
}

#[test]
fn entry_without_a_colon_is_a_value() {
    match read("17") {
        Ok(WorldOpt { source, inner: WorldOptInner::Opt(17) }) => assert_eq!(source, "17"),
        _ => panic!("no value"),
    }
    match read("") {
        Err(error @ WorldOptError::ValueError(_)) => {
            assert_eq!(error.message(), "cannot parse integer from empty string")
        },
        _ => panic!("an empty value was read"),
    }
    match read("1:2") {
        Err(WorldOptError::ValueError(_)) => {},
        _ => panic!("a colon inside made a selector"),
    }
}

#[test]
fn values_before_a_selector_go_to_every_world() {
    let opts = vec![value("a", 'a'), world(1), value("b", 'b'), value("c", 'c'), world(0), value("d", 'd')];
    assert_eq!(
        resolve_world_opts(opts, 3),
        Ok(vec![vec!['a', 'd'], vec!['a', 'b', 'c'], vec!['a']])
    );
    assert_eq!(resolve_world_opts(Vec::<WorldOpt<char>>::new(), 2), Ok(vec![vec![], vec![]]));
    assert_eq!(resolve_world_opts(vec![value("a", 'a')], 0), Ok(vec![]));
}

#[test]
fn value_for_a_missing_world_is_refused() {
    let opts = vec![value("a", 'a'), world(3), world(7), value("b", 'b')];
    assert_eq!(
        resolve_world_opts(opts, 3),
        Err("World index 7 greater than number of worlds".to_string())
    );
    // a selector that no value follows is harmless
    assert_eq!(resolve_world_opts(vec![value("a", 'a'), world(3)], 1), Ok(vec![vec!['a']]));
    assert_eq!(
        resolve_nonduplicate_world_opts(vec![world(2), value("x", 1)], 2),
        Err("World index 2 greater than number of worlds".to_string())
    );
    assert_eq!(
        resolve_world_opts(vec![world(18446744073709551615), value("x", 1)], 2),
        Err("World index 18446744073709551615 greater than number of worlds".to_string())
    );
}

#[test]
fn one_value_for_each_world_at_most() {
    let opts = vec![world(1), value("b", 'b'), world(0), value("a", 'a')];
    assert_eq!(resolve_nonduplicate_world_opts(opts, 3), Ok(vec![Some('a'), Some('b'), None]));
    assert_eq!(
        resolve_nonduplicate_world_opts(vec![value("all", 'x')], 2),
        Ok(vec![Some('x'), Some('x')])
    );
    assert_eq!(resolve_nonduplicate_world_opts(vec![value("all", 'x')], 0), Ok(vec![]));
    assert_eq!(
        resolve_nonduplicate_world_opts(vec![world(1), value("first", 'x'), value("second", 'y')], 2),
        Err("Provided multiple values for the same world: second and first".to_string())
    );
    assert_eq!(
        resolve_nonduplicate_world_opts(
            vec![world(1), value("one", 'x'), world(0), value("zero", 'y'), world(9), value("far", 'z')],
            2
        ),
        Err("World index 9 greater than number of worlds".to_string())
    );
}

#[test]
fn value_for_every_world_meets_the_first_taken_world() {
    let opts: Vec<WorldOpt<char>> = vec![value("all", 'x'), value("again", 'y')];
    assert_eq!(
        resolve_nonduplicate_world_opts(opts, 2),
        Err("Provided multiple values for the same world: again and all".to_string())
    );
    // a value for every world after a selector has been left is not possible:
    // the selector stays, so the second value goes to world 1 again
    let opts = vec![world(1), value("one", 'x'), world(0), value("zero", 'y'), world(1), value("late", 'z')];
    assert_eq!(
        resolve_nonduplicate_world_opts(opts, 2),
        Err("Provided multiple values for the same world: late and one".to_string())
    );
}

#[test]
fn assign_nonduplicate_keeps_the_first_value() {
    let mut entry = None;
    assert_eq!(assign_nonduplicate(1, &mut entry, "first".to_string()), Ok(()));
    assert_eq!(entry, Some((1, "first".to_string())));
    assert_eq!(
        assign_nonduplicate(2, &mut entry, "second".to_string()),
        Err("Provided multiple values for the same world: second and first".to_string())
    );
    assert_eq!(entry, Some((1, "first".to_string())));
}

#[test]
fn spawn_reads_keywords_in_any_case() {
    for text in ["r", "R", "random", "RaNdOm"] {
        assert!(matches!(SpawnOpt::from_str(text), Ok(SpawnOpt(Spawn::Random))), "{}", text);
    }
    for text in ["f", "F", "fullyrandom", "FullyRandom"] {
        assert!(matches!(SpawnOpt::from_str(text), Ok(SpawnOpt(Spawn::FullyRandom))), "{}", text);
    }
    for text in ["MarshSpawn.Main", "", "rand", "fully random"] {
        match SpawnOpt::from_str(text) {
            Ok(SpawnOpt(Spawn::Anchor(name))) => assert_eq!(name, text),
            _ => panic!("{}", text),
        }
    }
    assert!(matches!(SpawnOpt::from_lowercase("random", "x").into_inner(), Spawn::Random));
}

fn goal(text: &str) -> Result<Goal, String> {
    GoalsOpt::from_str(text).map(GoalsOpt::into_inner)
}

#[test]
fn goals_read_by_name_or_letter() {
    for text in ["t", "trees", "trees:ignored"] {
        assert!(matches!(goal(text), Ok(Goal::Trees)), "{}", text);
    }
    for text in ["w", "wisps"] {
        assert!(matches!(goal(text), Ok(Goal::Wisps)), "{}", text);
    }
    for text in ["q", "quests"] {
        assert!(matches!(goal(text), Ok(Goal::Quests)), "{}", text);
    }
    assert_eq!(goal("Trees").err(), Some("Unknown goal Trees".to_string()));
    assert_eq!(goal("x:1").err(), Some("Unknown goal x".to_string()));
    assert_eq!(goal("").err(), Some("Unknown goal ".to_string()));
}

#[test]
fn relics_read_an_amount_or_a_chance() {
    match goal("relics") {
        Ok(Goal::RelicChance(chance)) => assert_eq!(chance, "60"),
        _ => panic!("no default chance"),
    }
    match goal("r:") {
        Ok(Goal::RelicChance(chance)) => assert_eq!(chance, "60"),
        _ => panic!("no default chance"),
    }
    match goal("r:12.5%") {
        Ok(Goal::RelicChance(chance)) => assert_eq!(chance, "12.5"),
        _ => panic!("no chance"),
    }
    assert!(matches!(goal("r:0"), Ok(Goal::Relics(0))));
    assert!(matches!(goal("relics:11"), Ok(Goal::Relics(11))));
    assert_eq!(
        goal("relics:12").err(),
        Some("Invalid amount in details string for goal relics:12".to_string())
    );
    assert_eq!(
        goal("r:many").err(),
        Some("expected amount or % expression in details string for goal r:many".to_string())
    );
    assert_eq!(
        goal("r:-1").err(),
        Some("expected amount or % expression in details string for goal r:-1".to_string())
    );
    assert_eq!(invalid_chance("r:101%"), "Invalid chance in details string for goal r:101%");
}

#[test]
fn header_config_reads_header_parameter_and_value() {
    let config = HeaderConfigOpt::from_str("teleporters.count=3=4").ok().map(HeaderConfigOpt::into_inner);
    match config {
        Some(config) => {
            assert_eq!(config.header_name, "teleporters");
            assert_eq!(config.config_name, "count");
            assert_eq!(config.config_value, "3=4");
        },
        None => panic!("no configuration"),
    }
    match HeaderConfigOpt::from_str("a.b.c") {
        Ok(HeaderConfigOpt(config)) => {
            assert_eq!(config.header_name, "a");
            assert_eq!(config.config_name, "b.c");
            assert_eq!(config.config_value, "true");
        },
        Err(message) => panic!("{}", message),
    }
    assert_eq!(
        HeaderConfigOpt::from_str("flag=a.b").err(),
        Some("Expected <header>.<parameter> in header configuration parameter flag=a.b".to_string())
    );
}

#[test]
fn inline_header_is_its_text() {
    match InlineHeaderOpt::from_str("3|0|6|hello") {
        Ok(opt) => {
            let header = opt.into_inner();
            assert_eq!(header.name, None);
            assert_eq!(header.content, "3|0|6|hello");
        },
        Err(message) => panic!("{}", message),
    }
}

#[test]
fn reach_data_reads_kind_and_data() {
    assert!(matches!(ReachData::from_str("s:Bash"), Ok(ReachData::Skill(skill)) if skill == "Bash"));
    assert!(matches!(ReachData::from_str("t:16"), Ok(ReachData::Teleporter(id)) if id == "16"));
    assert!(matches!(ReachData::from_str("sh:1:2"), Ok(ReachData::Shard(id)) if id == "1:2"));
    assert!(matches!(ReachData::from_str("w:0"), Ok(ReachData::Water)));
    assert!(matches!(ReachData::from_str("n:MarshSpawn.Main"), Ok(ReachData::Node(node)) if node == "MarshSpawn.Main"));
    assert_eq!(ReachData::from_str("w:1").err(), Some("Unknown world event \"1\"".to_string()));
    assert_eq!(ReachData::from_str("water").err(), Some("Expected <kind>:<data>".to_string()));
    assert_eq!(
        ReachData::from_str("x:1").err(),
        Some("Innvalid arg \"{s}\", args have to start with s:, t:, sh:, w: or n:".to_string())
    );
}

#[test]
fn preset_info_is_absent_where_nothing_is_said() {
    let nothing = PresetInfoArgs { name: None, description: None, base_preset: false };
    assert!(nothing.into_preset_info().is_none());
    let base = PresetInfoArgs { name: None, description: None, base_preset: true };
    match base.into_preset_info() {
        Some(info) => {
            assert_eq!(info.name, None);
            assert_eq!(info.group, Some(PresetGroup::Base));
        },
        None => panic!("a base preset lost its mark"),
    }
    let named = PresetInfoArgs { name: Some("Mine".to_string()), description: None, base_preset: false };
    match named.into_preset_info() {
        Some(info) => {
            assert_eq!(info.name, Some("Mine".to_string()));
            assert_eq!(info.description, None);
            assert_eq!(info.group, None);
        },
        None => panic!("a named preset lost its name"),
    }
}

#[test]
fn world_preset_takes_the_settings_as_given() {
    let settings: WorldPresetSettings<u8, char> = WorldPresetSettings {
        info: PresetInfoArgs { name: None, description: Some("d".to_string()), base_preset: false },
        includes: Some(vec!["gorlek".to_string()]),
        spawn: Some(SpawnOpt(Spawn::Random)),
        difficulty: Some(2),
        tricks: None,
        hard: true,
        goals: GoalsOpt::from_str("r:3").ok().map(|goal| vec![goal, GoalsOpt(Goal::Trees)]),
        headers: None,
        header_config: Some(Vec::new()),
        inline_headers: InlineHeaderOpt::from_str("x").ok().map(|header| vec![header]),
    };
    let preset = settings.into_world_preset();
    assert_eq!(preset.info.and_then(|info| info.description), Some("d".to_string()));
    assert_eq!(preset.includes, Some(vec!["gorlek".to_string()]));
    assert!(matches!(preset.spawn, Some(Spawn::Random)));
    assert_eq!(preset.difficulty, Some(2));
    assert_eq!(preset.tricks, None);
    assert_eq!(preset.hard, Some(true));
    match preset.goals.as_deref() {
        Some([Goal::Relics(3), Goal::Trees]) => {},
        _ => panic!("goals are not as given"),
    }
    assert!(preset.headers.is_none());
    assert!(matches!(preset.header_config.as_deref(), Some([])));
    assert_eq!(preset.inline_headers.map(|headers| headers[0].content.clone()), Some("x".to_string()));
}

fn settings(worlds: usize) -> SeedSettings<u8, char> {
    SeedSettings {
        universe_presets: None,
        world_presets: Vec::new(),
        worlds,
        spawn: Vec::new(),
        difficulty: Vec::new(),
        tricks: Vec::new(),
        hard: Vec::new(),
        goals: Vec::new(),
        headers: Vec::new(),
        header_config: Vec::new(),
        inline_headers: Vec::new(),
        disable_logic_filter: false,
        online: false,
        seed: None,
    }
}

#[test]
fn universe_preset_has_one_preset_for_each_world() {
    let mut args = settings(2);
    args.universe_presets = Some(vec!["rspawn".to_string()]);
    args.world_presets = vec![value("moki", "moki".to_string()), world(1), value("qol", "qol".to_string())];
    args.spawn = vec![world(1), value("r", SpawnOpt(Spawn::Random))];
    args.difficulty = vec![value("1", 1)];
    args.tricks = vec![world(0), value("a", 'a'), value("b", 'b')];
    args.hard = vec![world(0), value("true", true)];
    args.goals = vec![value("t", GoalsOpt(Goal::Trees)), world(0), value("r:2", GoalsOpt(Goal::Relics(2)))];
    args.online = true;
    args.seed = Some("seed".to_string());
    let preset = match args.into_universe_preset() {
        Ok(preset) => preset,
        Err(message) => panic!("{}", message),
    };
    assert!(preset.info.is_none());
    assert_eq!(preset.includes, Some(vec!["rspawn".to_string()]));
    assert_eq!(preset.disable_logic_filter, None);
    assert_eq!(preset.online, Some(true));
    assert_eq!(preset.seed, Some("seed".to_string()));
    let worlds = match preset.world_settings {
        Some(worlds) => worlds,
        None => panic!("no worlds"),
    };
    assert_eq!(worlds.len(), 2);
    assert_eq!(worlds[0].includes, Some(vec!["moki".to_string()]));
    assert_eq!(worlds[1].includes, Some(vec!["moki".to_string(), "qol".to_string()]));
    assert!(worlds[0].spawn.is_none());
    assert!(matches!(worlds[1].spawn, Some(Spawn::Random)));
    assert_eq!(worlds[0].difficulty, Some(1));
    assert_eq!(worlds[1].difficulty, Some(1));
    assert_eq!(worlds[0].tricks, Some(vec!['a', 'b']));
    assert_eq!(worlds[1].tricks, None);
    assert_eq!(worlds[0].hard, Some(true));
    assert_eq!(worlds[1].hard, None);
    assert!(matches!(worlds[0].goals.as_deref(), Some([Goal::Trees, Goal::Relics(2)])));
    assert!(matches!(worlds[1].goals.as_deref(), Some([Goal::Trees])));
    assert!(worlds[0].headers.is_none());
    assert!(worlds[0].header_config.is_none());
    assert!(worlds[1].inline_headers.is_none());
    assert!(worlds[0].info.is_none());
}

#[test]
fn universe_preset_reports_the_first_list_that_fails() {
    let mut args = settings(1);
    args.tricks = vec![world(4), value("a", 'a')];
    args.difficulty = vec![value("1", 1), value("2", 2)];
    args.headers = vec![world(5), value("h", "h".to_string())];
    assert_eq!(
        args.into_universe_preset().err(),
        Some("Provided multiple values for the same world: 2 and 1".to_string())
    );
    let mut args = settings(1);
    args.world_presets = vec![world(1), value("p", "p".to_string())];
    args.difficulty = vec![value("1", 1), value("2", 2)];
    assert_eq!(
        args.into_universe_preset().err(),
        Some("World index 1 greater than number of worlds".to_string())
    );
    let preset = settings(0).into_universe_preset();
    assert_eq!(preset.ok().and_then(|preset| preset.world_settings).map(|worlds| worlds.len()), Some(0));
}
