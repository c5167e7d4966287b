use projclean::item::truncate_path;
use projclean::matcher::Checker;
use projclean::{extract_order, parse_size, Config, ItemList, Message, PathItem, PathState, Rule};
use std::cmp::Ordering;

#[test]
fn common_test_rule() {
    let rule: Rule = "target".parse().unwrap();
    assert_eq!(rule.no_detect(), true);
    assert_eq!(rule.check_target("target"), Some(vec!["target".to_string()]));
    assert_eq!(rule.check_target("-target"), None);
    assert_eq!(rule.check_target("target-"), None);
    assert_eq!(rule.check_target("Target"), None);

    let rule: Rule = "Debug,Release@*.sln".parse().unwrap();
    assert_eq!(rule.no_detect(), false);
    assert_eq!(rule.check_target("Debug"), Some(vec!["Debug".to_string()]));
    assert_eq!(rule.check_target("Debug-"), None);
    assert_eq!(rule.check_target("-Debug"), None);
    assert!(rule.check_project("App.sln"));
}

#[test]
fn config_test_rule() {
    let rule: Rule = "target".parse().unwrap();
    assert_eq!(rule.check_target("target"), Some(vec!["target".to_string()]));
    assert_eq!(rule.check_target("-target"), None);
    assert_eq!(rule.check_target("target-"), None);
    assert_eq!(rule.check_target("Target"), None);

    let rule: Rule = "Debug,Release@*.sln".parse().unwrap();
    assert_eq!(rule.check_target("Debug"), Some(vec!["Debug".to_string()]));
    assert_eq!(rule.check_target("Debug-"), None);
    assert_eq!(rule.check_target("-Debug"), None);
    assert!(rule.check_project("App.sln"));
}

#[test]
fn test_extract_order() {
    assert_eq!(extract_order("+10"), (Ordering::Greater, "10"));
    assert_eq!(extract_order("10"), (Ordering::Equal, "10"));
    assert_eq!(extract_order("-10"), (Ordering::Less, "10"));
}

#[test]
fn test_parse_size() {
    assert_eq!(parse_size("1K"), Some(1024));
    assert_eq!(parse_size("1M"), Some(1024 * 1024));
    assert_eq!(parse_size("1G"), Some(1024 * 1024 * 1024));
    assert_eq!(parse_size("1T"), Some(1024 * 1024 * 1024 * 1024));
    assert_eq!(parse_size("1.2M"), Some(1258291));
}

fn matched_names(rule: &str, names: &[&str]) -> Vec<String> {
    let mut config = Config::default();
    let ret = config.add_rule(rule);
    assert!(ret.is_ok());
    let mut checker = Checker::new(&config);
    for name in names {
        checker.check(name);
    }
    checker.to_matches().into_iter().map(|m| m.name).collect()
}

#[test]
fn test_match_paths() {
    assert_eq!(matched_names("target@Cargo.toml", &["target", "Cargo.toml"]), vec!["target"]);
    assert!(matched_names("target@Cargo.toml", &["target.rs", "Cargo.toml"]).is_empty());
    assert_eq!(matched_names("Debug,Release@*.sln", &["Debug", "Demo.sln"]), vec!["Debug"]);
}

#[test]
fn rule_keeps_id_and_groups_nested_paths() {
    let rule: Rule = "target,project/target@build.sbt".parse().unwrap();
    assert_eq!(rule.get_id(), "target,project/target@build.sbt");
    assert_eq!(rule.check_target("project"), Some(vec!["project/target".to_string()]));
    assert_eq!(rule.check_target("target"), Some(vec!["target".to_string()]));
    assert!(rule.check_project("build.sbt"));
    assert!(!rule.check_project("build.sbt.bak"));
}

#[test]
fn rule_trims_around_the_at_sign() {
    let rule: Rule = " bin , obj @ *.csproj".parse().unwrap();
    assert_eq!(rule.check_target("bin "), Some(vec!["bin ".to_string()]));
    assert_eq!(rule.check_target(" obj"), Some(vec![" obj".to_string()]));
    assert!(rule.check_project("App.csproj"));
}

#[test]
fn catalog_rules_parse() {
    for s in [
        "node_modules",
        "target@Cargo.toml",
        "Debug,Release@*.sln",
        ".gradle,build@build.gradle,build.gradle.kts",
        "Library,Temp,Obj,Logs/flutter@*.uproject",
    ] {
        assert!(s.parse::<Rule>().is_ok(), "{}", s);
    }
}

#[test]
fn invalid_rules_are_refused() {
    let err = match "".parse::<Rule>() {
        Err(e) => e,
        Ok(_) => panic!("an empty rule parsed"),
    };
    assert_eq!(err.message(), "Invalid rule ''");
    assert!("@Cargo.toml".parse::<Rule>().is_err());
    let err = match "target@[".parse::<Rule>() {
        Err(e) => e,
        Ok(_) => panic!("a malformed glob parsed"),
    };
    assert_eq!(err.message(), "Invalid rule 'target@['");
}

#[test]
fn parse_size_edges() {
    assert_eq!(parse_size("0"), Some(0));
    assert_eq!(parse_size("512"), Some(512));
    assert_eq!(parse_size("+2K"), Some(2048));
    assert_eq!(parse_size(".5K"), Some(512));
    assert_eq!(parse_size("1.K"), Some(1024));
    assert_eq!(parse_size("0.1K"), Some(102));
    assert_eq!(parse_size("99999999999999999999T"), Some(u64::MAX));
    assert_eq!(parse_size(""), None);
    assert_eq!(parse_size("K"), None);
    assert_eq!(parse_size("."), None);
    assert_eq!(parse_size("1x"), None);
    assert_eq!(parse_size("1.2.3"), None);
}

#[test]
fn config_filters() {
    let mut config = Config::default();
    assert!(config.set_time("+30").is_ok());
    assert_eq!(config.time, Some((30, Ordering::Greater)));
    assert!(config.set_size("-1.5M").is_ok());
    assert_eq!(config.size, Some((1572864, Ordering::Less)));
    let err = config.set_time("abc").unwrap_err();
    assert_eq!(err.message(), "Invalid time value");
    assert_eq!(config.time, Some((30, Ordering::Greater)));
    let err = config.set_size("12Q").unwrap_err();
    assert_eq!(err.message(), "Invalid size value");
    assert_eq!(config.size, Some((1572864, Ordering::Less)));
}

#[test]
fn no_detect_lookup_by_id() {
    let mut config = Config::default();
    config.add_rule("node_modules").unwrap();
    config.add_rule("target@Cargo.toml").unwrap();
    assert!(config.is_rule_no_detect("node_modules"));
    assert!(!config.is_rule_no_detect("target@Cargo.toml"));
    assert!(!config.is_rule_no_detect("missing"));
}

#[test]
fn compare_follows_order() {
    assert!(projclean::compare(Ordering::Less, 10, 9));
    assert!(!projclean::compare(Ordering::Less, 10, 10));
    assert!(projclean::compare(Ordering::Equal, 10, 10));
    assert!(projclean::compare(Ordering::Greater, 10, 11));
    assert!(!projclean::compare(Ordering::Greater, 10, 10));
}

#[test]
fn truncate_path_elides_the_middle() {
    assert_eq!(truncate_path("short/path", 80), "short/path");
    let long = "abcdefghijklmnopqrstuvwxyz0123456789";
    assert_eq!(truncate_path(long, 30), "abcdefghijkl...vwxyz0123456789");
    assert_eq!(truncate_path(long, 5), "abcdefghijkl...yz0123456789");
}

#[test]
fn deleted_message_marks_item_and_counts_bytes() {
    let mut list = ItemList::new();
    list.handle_message(Message::AddPath(PathItem::new("/r/a".to_string(), "a".to_string(), "a", None, Some(7))));
    list.handle_message(Message::AddPath(PathItem::new("/r/b".to_string(), "b".to_string(), "b", None, Some(5))));
    list.handle_message(Message::SetPathDeleted("/r/b".to_string()));
    assert_eq!(list.items()[0].state, PathState::Normal);
    assert_eq!(list.items()[1].state, PathState::Deleted);
    assert_eq!(list.total_saved_size(), 5);
    assert_eq!(list.total_size(), 12);
}
