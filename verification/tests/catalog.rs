use launcher::config::Config;
use launcher::config::Group;

fn group(commands: &[(&str, &str)]) -> Group {
    Group {
        connections: commands
            .iter()
            .map(|(name, line)| (name.to_string(), line.to_string()))
            .collect(),
    }
}

fn catalog() -> Config {
    Config {
        groups: vec![
            ("db".to_string(), group(&[("start", "pg_ctl start"), ("stop", "pg_ctl stop")])),
            ("web".to_string(), group(&[("deploy", "make deploy")])),
        ],
    }
}

#[test]
fn group_names_keep_catalog_order() {
    assert_eq!(catalog().group_names(), vec!["db".to_string(), "web".to_string()]);
    assert!(Config { groups: Vec::new() }.group_names().is_empty());
}

#[test]
fn group_index_finds_groups_by_name() {
    let config = catalog();
    assert_eq!(config.group_index(&"db".to_string()), Some(0));
    assert_eq!(config.group_index(&"web".to_string()), Some(1));
    assert_eq!(config.group_index(&"DB".to_string()), None);
    assert_eq!(config.group_index(&"".to_string()), None);
}

#[test]
fn group_finds_the_commands_of_a_group() {
    let config = catalog();
    let web = config.group(&"web".to_string());
    assert!(web.is_some());
    assert_eq!(
        web.map(|g| g.connections.clone()),
        Some(vec![("deploy".to_string(), "make deploy".to_string())])
    );
    assert!(config.group(&"cache".to_string()).is_none());
}

#[test]
fn command_finds_the_line_of_a_command() {
    let db = group(&[("start", "pg_ctl start"), ("stop", "pg_ctl stop")]);
    assert_eq!(db.command(&"stop".to_string()), Some(&"pg_ctl stop".to_string()));
    assert_eq!(db.command(&"start".to_string()), Some(&"pg_ctl start".to_string()));
    assert_eq!(db.command(&"restart".to_string()), None);
}

#[test]
fn lookups_take_the_first_of_equal_names() {
    let config = Config {
        groups: vec![
            ("g".to_string(), group(&[("run", "first"), ("run", "second")])),
            ("g".to_string(), group(&[("other", "third")])),
        ],
    };
    assert_eq!(config.group_index(&"g".to_string()), Some(0));
    let found = config.group(&"g".to_string());
    assert_eq!(found.and_then(|g| g.command(&"run".to_string())), Some(&"first".to_string()));
    assert_eq!(found.and_then(|g| g.command(&"other".to_string())), None);
}

#[test]
fn catalog_with_distinct_names_is_valid() {
    assert!(catalog().is_valid());
    assert!(Config { groups: Vec::new() }.is_valid());
    let same_command_in_two_groups = Config {
        groups: vec![
            ("a".to_string(), group(&[("run", "1")])),
            ("b".to_string(), group(&[("run", "2")])),
        ],
    };
    assert!(same_command_in_two_groups.is_valid());
}

#[test]
fn catalog_with_a_repeated_group_name_is_not_valid() {
    let config = Config {
        groups: vec![
            ("a".to_string(), group(&[("run", "1")])),
            ("b".to_string(), group(&[])),
            ("a".to_string(), group(&[("walk", "2")])),
        ],
    };
    assert!(!config.is_valid());
}

#[test]
fn catalog_with_a_repeated_command_name_is_not_valid() {
    let config = Config {
        groups: vec![
            ("a".to_string(), group(&[("run", "1")])),
            ("b".to_string(), group(&[("run", "1"), ("walk", "2"), ("run", "3")])),
        ],
    };
    assert!(!config.is_valid());
}
