use free_games_notifier::config::{
    check_targets, find_nearest_config, parse_config_path_arg, ArgError, Config, DiscordConfig,
    DiscordTarget, TargetError, DEFAULT_CONFIG_FILE_NAME,
};

fn args(items: &[&str]) -> Vec<String> {
    items.iter().map(|s| s.to_string()).collect()
}

fn target(id: &str) -> DiscordTarget {
    DiscordTarget { id: id.to_string(), webhook_url: format!("https://discord.example/{id}") }
}

#[test]
fn config_defaults_when_no_file_exists() {
    assert_eq!(Config::default().discord.webhook_url, None);
}

#[test]
fn default_file_name_is_settings_toml() {
    assert_eq!(DEFAULT_CONFIG_FILE_NAME, "settings.toml");
}

#[test]
fn parses_explicit_config_path_argument() {
    let r = parse_config_path_arg(&args(&["free-games-notifier", "--config", "/srv/settings.toml"]));
    assert_eq!(r.ok().unwrap(), Some("/srv/settings.toml".to_string()));
}

#[test]
fn last_config_path_wins() {
    let r = parse_config_path_arg(&args(&["prog", "--config", "a.toml", "--config", "b.toml"]));
    assert_eq!(r.ok().unwrap(), Some("b.toml".to_string()));
}

#[test]
fn no_arguments_means_no_path() {
    assert_eq!(parse_config_path_arg(&args(&["prog"])).ok().unwrap(), None);
    assert_eq!(parse_config_path_arg(&args(&[])).ok().unwrap(), None);
}

#[test]
fn missing_config_path_is_an_error() {
    match parse_config_path_arg(&args(&["prog", "--config"])) {
        Err(e) => {
            assert!(matches!(e, ArgError::MissingConfigPath));
            assert_eq!(e.message(), "missing path after --config");
        }
        Ok(_) => panic!("expected an error"),
    }
}

#[test]
fn unrecognized_argument_is_an_error() {
    match parse_config_path_arg(&args(&["prog", "--config", "a.toml", "--verbose"])) {
        Err(e) => {
            assert_eq!(e.message(), "unrecognized argument: --verbose");
            match e {
                ArgError::UnrecognizedArgument(a) => assert_eq!(a, "--verbose"),
                _ => panic!("wrong error"),
            }
        }
        Ok(_) => panic!("expected an error"),
    }
}

#[test]
fn webhook_becomes_the_default_target() {
    let c = DiscordConfig { webhook_url: Some("https://discord.example/webhook".to_string()) };
    let t = c.targets();
    assert_eq!(t.len(), 1);
    assert_eq!(t[0].id, "default");
    assert_eq!(t[0].webhook_url, "https://discord.example/webhook");
    assert!(DiscordConfig::default().targets().is_empty());
}

#[test]
fn targets_must_be_present_and_distinct() {
    match check_targets(&vec![]) {
        Err(e) => {
            assert!(matches!(e, TargetError::NoTargets));
            assert_eq!(e.message(), "no discord.targets configured");
        }
        Ok(()) => panic!("expected an error"),
    }
    assert!(check_targets(&vec![target("a"), target("b")]).is_ok());
    match check_targets(&vec![target("a"), target("b"), target("c"), target("b"), target("a")]) {
        Err(e) => {
            assert_eq!(e.message(), "duplicate discord target id configured: b");
        }
        Ok(()) => panic!("expected an error"),
    }
}

#[test]
fn nearest_config_is_none_where_no_file_exists() {
    let found = find_nearest_config(
        "/nonexistent-free-games-notifier-dir/child".to_string(),
        "no-such-settings-file.toml",
    );
    assert_eq!(found, None);
}

#[test]
fn nearest_config_finds_a_file_in_an_ancestor() {
    let found = find_nearest_config("/etc/no-such-dir/child".to_string(), "passwd");
    assert_eq!(found, Some("/etc/passwd".to_string()));
}


#[test]
fn candidates_walk_up_to_the_root() {
    let c = free_games_notifier::config::config_candidates("/srv/prod/free-games", "settings.toml");
    assert_eq!(
        c,
        vec![
            "/srv/prod/free-games/settings.toml".to_string(),
            "/srv/prod/settings.toml".to_string(),
            "/srv/settings.toml".to_string(),
            "/settings.toml".to_string(),
        ]
    );
    let r = free_games_notifier::config::config_candidates("a/b", "s.toml");
    assert_eq!(r, vec!["a/b/s.toml".to_string(), "a/s.toml".to_string(), "s.toml".to_string()]);
}

#[test]
fn the_nearest_present_candidate_wins() {
    let probes = vec![
        ("/srv/prod/free-games/settings.toml".to_string(), true),
        ("/srv/prod/settings.toml".to_string(), false),
        ("/srv/settings.toml".to_string(), true),
    ];
    assert_eq!(free_games_notifier::config::first_present(&probes), Some("/srv/prod/free-games/settings.toml".to_string()));
    let probes = vec![("a".to_string(), false), ("b".to_string(), true), ("c".to_string(), true)];
    assert_eq!(free_games_notifier::config::first_present(&probes), Some("b".to_string()));
    let probes = vec![("a".to_string(), false)];
    assert_eq!(free_games_notifier::config::first_present(&probes), None);
}

#[test]
fn channels_fall_back_to_stdout_without_a_webhook() {
    let none = free_games_notifier::config::notification_channels(&DiscordConfig::default())
        .ok()
        .unwrap();
    assert_eq!(none.len(), 1);
    assert_eq!(none[0].id, "default");
    assert!(matches!(none[0].channel, free_games_notifier::config::Channel::Stdout));
    let hook = DiscordConfig { webhook_url: Some("https://discord.example/webhook".to_string()) };
    let some = free_games_notifier::config::notification_channels(&hook).ok().unwrap();
    assert_eq!(some.len(), 1);
    assert_eq!(some[0].id, "default");
    match &some[0].channel {
        free_games_notifier::config::Channel::Discord(url) => {
            assert_eq!(url, "https://discord.example/webhook")
        }
        _ => panic!("expected the webhook"),
    }
}
