use launcher::app::AppState;
use launcher::config::Config;
use launcher::config::Group;
use launcher::ui::find_match_spans;
use launcher::ui::get_filtered_connections;
use launcher::ui::highlight_search;
use launcher::ui::Segment;

fn group(commands: &[(&str, &str)]) -> Group {
    Group {
        connections: commands
            .iter()
            .map(|(name, line)| (name.to_string(), line.to_string()))
            .collect(),
    }
}

fn catalog() -> Config {
    Config {
        groups: vec![
            ("db".to_string(), group(&[("start", "pg_ctl start"), ("stop", "pg_ctl stop")])),
            ("web".to_string(), group(&[("deploy", "make deploy")])),
        ],
    }
}

fn pair(group: &str, name: &str) -> (String, String) {
    (group.to_string(), name.to_string())
}

fn searching(query: &str) -> AppState {
    let mut app = AppState::new();
    app.enter_search();
    for c in query.chars() {
        app.type_char(c);
    }
    app
}

fn plain(start: usize, end: usize) -> Segment {
    Segment { start, end, highlighted: false }
}

fn marked(start: usize, end: usize) -> Segment {
    Segment { start, end, highlighted: true }
}

#[test]
fn browsing_shows_the_selected_group() {
    let config = catalog();
    let names = config.group_names();
    let mut app = AppState::new();
    assert_eq!(
        get_filtered_connections(&config, &names, &app),
        vec![pair("db", "start"), pair("db", "stop")]
    );
    app.selected_group = 1;
    assert_eq!(get_filtered_connections(&config, &names, &app), vec![pair("web", "deploy")]);
}

#[test]
fn browsing_beyond_the_groups_shows_nothing() {
    let config = catalog();
    let names = config.group_names();
    let mut app = AppState::new();
    app.selected_group = 2;
    assert!(get_filtered_connections(&config, &names, &app).is_empty());
}

#[test]
fn browsing_an_absent_group_shows_nothing() {
    let config = catalog();
    let names = vec!["cache".to_string(), "web".to_string()];
    let mut app = AppState::new();
    assert!(get_filtered_connections(&config, &names, &app).is_empty());
    app.selected_group = 1;
    assert_eq!(get_filtered_connections(&config, &names, &app), vec![pair("web", "deploy")]);
}

#[test]
fn browsing_pairs_commands_with_the_name_asked_for() {
    let config = catalog();
    let names = vec!["web".to_string(), "db".to_string()];
    let app = AppState::new();
    assert_eq!(get_filtered_connections(&config, &names, &app), vec![pair("web", "deploy")]);
}

#[test]
fn search_finds_substrings_across_groups() {
    let config = catalog();
    let names = config.group_names();
    assert_eq!(
        get_filtered_connections(&config, &names, &searching("st")),
        vec![pair("db", "start"), pair("db", "stop")]
    );
    assert_eq!(
        get_filtered_connections(&config, &names, &searching("t")),
        vec![pair("db", "start"), pair("db", "stop")]
    );
    assert_eq!(
        get_filtered_connections(&config, &names, &searching("o")),
        vec![pair("db", "stop"), pair("web", "deploy")]
    );
    assert_eq!(
        get_filtered_connections(&config, &names, &searching("dep")),
        vec![pair("web", "deploy")]
    );
}

#[test]
fn search_ignores_case_on_both_sides() {
    let config = Config {
        groups: vec![("ops".to_string(), group(&[("ReStart", "r"), ("halt", "h")]))],
    };
    let names = config.group_names();
    assert_eq!(
        get_filtered_connections(&config, &names, &searching("rEsT")),
        vec![pair("ops", "ReStart")]
    );
    assert_eq!(
        get_filtered_connections(&config, &names, &searching("HALT")),
        vec![pair("ops", "halt")]
    );
}

#[test]
fn search_lowercases_beyond_ascii() {
    let config = Config {
        groups: vec![("ops".to_string(), group(&[("ÄRGER", "a"), ("Ölwechsel", "o")]))],
    };
    let names = config.group_names();
    assert_eq!(
        get_filtered_connections(&config, &names, &searching("ärg")),
        vec![pair("ops", "ÄRGER")]
    );
    assert_eq!(
        get_filtered_connections(&config, &names, &searching("Ö")),
        vec![pair("ops", "Ölwechsel")]
    );
}

#[test]
fn search_matches_the_name_not_the_command_line() {
    let config = catalog();
    let names = config.group_names();
    assert!(get_filtered_connections(&config, &names, &searching("pg_ctl")).is_empty());
    assert!(get_filtered_connections(&config, &names, &searching("make")).is_empty());
}

#[test]
fn search_does_not_depend_on_the_selected_group_or_the_names() {
    let config = catalog();
    let mut app = searching("dep");
    app.selected_group = 7;
    let none: Vec<String> = Vec::new();
    assert_eq!(get_filtered_connections(&config, &none, &app), vec![pair("web", "deploy")]);
}

#[test]
fn empty_query_shows_every_command() {
    let config = catalog();
    let names = config.group_names();
    assert_eq!(
        get_filtered_connections(&config, &names, &searching("")),
        vec![pair("db", "start"), pair("db", "stop"), pair("web", "deploy")]
    );
}

#[test]
fn query_without_match_shows_nothing() {
    let config = catalog();
    let names = config.group_names();
    assert!(get_filtered_connections(&config, &names, &searching("zzz")).is_empty());
}

#[test]
fn query_longer_than_every_name_shows_nothing() {
    let config = catalog();
    let names = config.group_names();
    assert!(get_filtered_connections(&config, &names, &searching("deployment")).is_empty());
}

#[test]
fn empty_catalog_shows_nothing() {
    let config = Config { groups: Vec::new() };
    let names = config.group_names();
    assert!(names.is_empty());
    assert!(get_filtered_connections(&config, &names, &AppState::new()).is_empty());
    assert!(get_filtered_connections(&config, &names, &searching("")).is_empty());
}

#[test]
fn filter_gives_the_same_list_twice() {
    let config = catalog();
    let names = config.group_names();
    let app = searching("s");
    let first = get_filtered_connections(&config, &names, &app);
    let second = get_filtered_connections(&config, &names, &app);
    assert_eq!(first, second);
    let app = AppState::new();
    let first = get_filtered_connections(&config, &names, &app);
    let second = get_filtered_connections(&config, &names, &app);
    assert_eq!(first, second);
}

#[test]
fn search_results_are_exactly_the_matching_names() {
    let config = Config {
        groups: vec![
            ("a".to_string(), group(&[("Alpha", "1"), ("beta", "2"), ("GAMMA", "3")])),
            ("b".to_string(), group(&[("delta", "4"), ("alphabet", "5")])),
        ],
    };
    let names = config.group_names();
    for query in ["a", "AL", "ta", "mm", "x", "alpha", "Bet"] {
        let shown = get_filtered_connections(&config, &names, &searching(query));
        for (group_name, group) in &config.groups {
            for (name, _) in &group.connections {
                let expected = name.to_lowercase().contains(&query.to_lowercase());
                let found = shown.contains(&(group_name.clone(), name.clone()));
                assert_eq!(found, expected);
            }
        }
    }
}

#[test]
fn match_spans_of_a_single_match() {
    assert_eq!(find_match_spans("deploy", "dep"), vec![(0, 3)]);
    assert_eq!(find_match_spans("deploy", "loy"), vec![(3, 6)]);
    assert_eq!(find_match_spans("deploy", "deploy"), vec![(0, 6)]);
}

#[test]
fn match_spans_ignore_case() {
    assert_eq!(find_match_spans("DePloy", "EPL"), vec![(1, 4)]);
}

#[test]
fn match_spans_of_repeated_matches() {
    assert_eq!(find_match_spans("abcabc", "bc"), vec![(1, 3), (4, 6)]);
    assert_eq!(find_match_spans("start-stop", "st"), vec![(0, 2), (6, 8)]);
}

#[test]
fn match_spans_do_not_overlap() {
    assert_eq!(find_match_spans("aaa", "aa"), vec![(0, 2)]);
    assert_eq!(find_match_spans("aaaa", "aa"), vec![(0, 2), (2, 4)]);
    assert_eq!(find_match_spans("ababa", "aba"), vec![(0, 3)]);
}

#[test]
fn match_spans_of_an_empty_query_are_none() {
    assert!(find_match_spans("deploy", "").is_empty());
    assert!(find_match_spans("", "").is_empty());
}

#[test]
fn match_spans_without_a_match_are_none() {
    assert!(find_match_spans("deploy", "zzz").is_empty());
    assert!(find_match_spans("", "a").is_empty());
    assert!(find_match_spans("ab", "abc").is_empty());
}

#[test]
fn match_spans_are_byte_ranges() {
    assert_eq!(find_match_spans("über-übung", "ü"), vec![(0, 2), (6, 8)]);
    assert_eq!(find_match_spans("ÜBER", "be"), vec![(2, 4)]);
}

#[test]
fn highlight_cuts_the_name_around_the_matches() {
    assert_eq!(highlight_search("deploy", "pl"), vec![plain(0, 2), marked(2, 4), plain(4, 6)]);
    assert_eq!(highlight_search("deploy", "dep"), vec![marked(0, 3), plain(3, 6)]);
    assert_eq!(highlight_search("deploy", "loy"), vec![plain(0, 3), marked(3, 6)]);
    assert_eq!(highlight_search("deploy", "DEPLOY"), vec![marked(0, 6)]);
}

#[test]
fn highlight_of_adjacent_matches_has_no_empty_piece() {
    assert_eq!(highlight_search("aaaa", "aa"), vec![marked(0, 2), marked(2, 4)]);
    assert_eq!(
        highlight_search("xabab", "ab"),
        vec![plain(0, 1), marked(1, 3), marked(3, 5)]
    );
}

#[test]
fn highlight_without_match_is_one_plain_piece() {
    assert_eq!(highlight_search("deploy", "zzz"), vec![plain(0, 6)]);
    assert_eq!(highlight_search("deploy", ""), vec![plain(0, 6)]);
}

#[test]
fn highlight_of_an_empty_name_is_empty() {
    assert!(highlight_search("", "a").is_empty());
    assert!(highlight_search("", "").is_empty());
}

#[test]
fn match_spans_lie_on_character_boundaries_of_the_name() {
    for (name, query) in [
        ("über-übung", "ü"),
        ("ÜBER", "be"),
        ("Ölwechsel", "ö"),
        ("naïve café", "é"),
        ("İab", "a"),
        ("İab", "b"),
        ("\u{212A}elvin", "k"),
        ("x\u{212A}x", "x"),
        ("\u{1E9E}s", "s"),
        ("ΣΑΣ", "σ"),
    ] {
        for (start, end) in find_match_spans(name, query) {
            assert!(start < end);
            assert!(end <= name.len());
            assert!(name.is_char_boundary(start));
            assert!(name.is_char_boundary(end));
        }
    }
}

#[test]
fn match_spans_off_the_name_are_dropped() {
    assert!(find_match_spans("İab", "b").is_empty());
    assert!(find_match_spans("\u{212A}x", "x").is_empty());
}

#[test]
fn highlight_tiles_the_name_in_whole_characters() {
    for (name, query) in [
        ("deploy", "pl"),
        ("aaaa", "aa"),
        ("über-übung", "ü"),
        ("İab", "a"),
        ("İab", "b"),
        ("İİ", "i"),
        ("\u{212A}elvin", "k"),
        ("\u{212A}x", "x"),
        ("x\u{212A}x", "x"),
        ("ΣΑΣ", "σ"),
        ("", "a"),
        ("abc", ""),
    ] {
        let pieces = highlight_search(name, query);
        let mut at = 0;
        for piece in &pieces {
            assert_eq!(piece.start, at);
            assert!(piece.start < piece.end);
            assert!(name.get(piece.start..piece.end).is_some());
            at = piece.end;
        }
        assert_eq!(at, name.len());
    }
}

#[test]
fn highlight_falls_back_to_one_plain_piece() {
    assert_eq!(highlight_search("İab", "b"), vec![plain(0, 4)]);
    assert_eq!(highlight_search("\u{212A}x", "x"), vec![plain(0, 4)]);
}
