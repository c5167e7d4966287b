use projclean::{
    decide_children, human_readable_folder_size, Age, Config, Decision, Entry, ItemList, Message,
    PathItem, PathState, ScanSession,
};

const PATHS: [&str; 20] = [
    "nodejs/node_modules/",
    "cargo/target/",
    "cargo/src/",
    "cargo/Cargo.toml",
    "cargo-not/target/",
    "gradle/.gradle/",
    "gradle/build/",
    "gradle/build.gradle",
    "gradle-kts/.gradle/",
    "gradle-kts/build/",
    "gradle-kts/build.gradle.kts",
    "dotnet-cs/bin",
    "dotnet-cs/obj",
    "dotnet-cs/App.csproj",
    "dotnet-fs/bin",
    "dotnet-fs/obj",
    "dotnet-fs/App.fsproj",
    "mixed/_build",
    "mixed/rebar.config",
    "mixed/dune-project",
];

/// Every path of the fixture tree, with whether it is a directory.
fn fixture() -> Vec<(String, bool)> {
    let mut all: Vec<(String, bool)> = Vec::new();
    for p in PATHS {
        let is_dir = p.ends_with('/');
        let p = p.trim_end_matches('/');
        let parts: Vec<&str> = p.split('/').collect();
        for i in 1..parts.len() {
            let dir = parts[..i].join("/");
            if !all.iter().any(|(q, _)| *q == dir) {
                all.push((dir, true));
            }
        }
        if !all.iter().any(|(q, _)| q == p) {
            all.push((p.to_string(), is_dir));
        }
    }
    all
}

fn children(tree: &[(String, bool)], dir: &str) -> Vec<Entry> {
    tree.iter()
        .filter_map(|(p, is_dir)| {
            let rest = if dir.is_empty() {
                p.as_str()
            } else {
                p.strip_prefix(dir)?.strip_prefix('/')?
            };
            if rest.contains('/') {
                None
            } else {
                Some(Entry { name: rest.to_string(), is_dir: *is_dir })
            }
        })
        .collect()
}

fn walk(tree: &[(String, bool)], config: &Config, dir: &str, out: &mut Vec<String>) {
    let entries = children(tree, dir);
    let decisions = decide_children(config, &entries);
    for (entry, decision) in entries.iter().zip(decisions) {
        let path = if dir.is_empty() {
            entry.name.clone()
        } else {
            format!("{}/{}", dir, entry.name)
        };
        match decision {
            Decision::Purge { purges, .. } => {
                for purge in purges {
                    let mut target = path.clone();
                    for part in projclean::scan::purge_tail(&purge) {
                        target = format!("{}/{}", target, part);
                    }
                    if tree.iter().any(|(p, _)| *p == target) {
                        out.push(target);
                    }
                }
            }
            Decision::Enter => {
                if entry.is_dir {
                    walk(tree, config, &path, out);
                }
            }
            Decision::Skip => {}
        }
    }
}

fn search_with(rules: &[&str], exclude: &[&str]) -> Vec<String> {
    let mut config = Config::default();
    for rule in rules {
        config.add_rule(rule).unwrap();
    }
    config.exclude = exclude.iter().map(|s| s.to_string()).collect();
    let mut out = Vec::new();
    walk(&fixture(), &config, "", &mut out);
    out.sort_unstable();
    out
}

fn search(rules: &[&str]) -> Vec<String> {
    search_with(rules, &[])
}

#[test]
fn plain() {
    assert_eq!(search(&["target@Cargo.toml"]), vec!["cargo/target"]);
}

#[test]
fn no_detect() {
    assert_eq!(search(&["node_modules"]), vec!["nodejs/node_modules"]);
}

#[test]
fn multiple_detects() {
    assert_eq!(
        search(&[".gradle,build@build.gradle,build.gradle.kts"]),
        vec!["gradle-kts/.gradle", "gradle-kts/build", "gradle/.gradle", "gradle/build"]
    );
}

#[test]
fn detects_with_asterisk() {
    assert_eq!(
        search(&["bin,obj@*.csproj,*.fsproj"]),
        vec!["dotnet-cs/bin", "dotnet-cs/obj", "dotnet-fs/bin", "dotnet-fs/obj"]
    );
}

#[test]
fn mixed() {
    assert_eq!(search(&["_build@rebar.config", "_build@mix.exs"]), vec!["mixed/_build"]);
}

#[test]
fn excluded_project_yields_nothing() {
    assert!(search_with(&["target@Cargo.toml"], &["cargo"]).is_empty());
}

#[test]
fn excluded_trigger_is_skipped() {
    let config = {
        let mut c = Config::default();
        c.add_rule("node_modules").unwrap();
        c.exclude = vec!["node_modules".to_string()];
        c
    };
    let entries = vec![Entry { name: "node_modules".to_string(), is_dir: true }];
    let decisions = decide_children(&config, &entries);
    assert!(matches!(decisions[0], Decision::Skip));
}

#[test]
fn detector_directory_does_not_fire() {
    let mut config = Config::default();
    config.add_rule("target@Cargo.toml").unwrap();
    let entries = vec![
        Entry { name: "target".to_string(), is_dir: true },
        Entry { name: "Cargo.toml".to_string(), is_dir: true },
    ];
    let decisions = decide_children(&config, &entries);
    assert!(matches!(decisions[0], Decision::Enter));
}

#[test]
fn first_rule_wins_a_shared_trigger() {
    let mut config = Config::default();
    config.add_rule("_build@rebar.config").unwrap();
    config.add_rule("_build@dune-project").unwrap();
    let entries = vec![
        Entry { name: "_build".to_string(), is_dir: true },
        Entry { name: "rebar.config".to_string(), is_dir: false },
        Entry { name: "dune-project".to_string(), is_dir: false },
    ];
    let decisions = decide_children(&config, &entries);
    match &decisions[0] {
        Decision::Purge { rule_id, purges } => {
            assert_eq!(rule_id, "_build@rebar.config");
            assert_eq!(purges, &vec!["_build".to_string()]);
        }
        _ => panic!("expected a purge"),
    }
    assert!(matches!(decisions[1], Decision::Enter));
}

#[test]
fn nested_purge_path_is_resolved_under_trigger() {
    let mut config = Config::default();
    config.add_rule("target,project/target@build.sbt").unwrap();
    let entries = vec![
        Entry { name: "project".to_string(), is_dir: true },
        Entry { name: "build.sbt".to_string(), is_dir: false },
    ];
    let decisions = decide_children(&config, &entries);
    match &decisions[0] {
        Decision::Purge { purges, .. } => {
            assert_eq!(purges, &vec!["project/target".to_string()]);
            assert_eq!(projclean::scan::purge_tail(&purges[0]), vec!["target".to_string()]);
        }
        _ => panic!("expected a purge"),
    }
}

#[test]
fn session_sends_done_once() {
    let mut session = ScanSession::new();
    assert!(session.poll(true, 1).is_none());
    let item = PathItem::new("/a/target".to_string(), "target".to_string(), "target", None, Some(1));
    assert!(matches!(session.add(item), Message::AddPath(_)));
    assert!(matches!(session.finish(), Some(Message::DoneSearch)));
    assert!(session.finish().is_none());
    assert!(!session.is_searching());
}

#[test]
fn session_stops_on_cancel() {
    let mut session = ScanSession::new();
    assert!(matches!(session.poll(false, 3), Some(Message::DoneSearch)));
    assert!(!session.is_searching());
    assert!(session.poll(false, 3).is_none());
    assert!(session.finish().is_none());
}

#[test]
fn size_texts() {
    assert_eq!(human_readable_folder_size(0), "0");
    assert_eq!(human_readable_folder_size(1023), "1023");
    assert_eq!(human_readable_folder_size(1024), "1.0K");
    assert_eq!(human_readable_folder_size(1536), "1.5K");
    assert_eq!(human_readable_folder_size(10 * 1024), "10K");
    assert_eq!(human_readable_folder_size(1258291), "1.2M");
    assert_eq!(human_readable_folder_size(5 * 1024 * 1024 * 1024), "5.0G");
    assert_eq!(human_readable_folder_size(2048 * 1024 * 1024 * 1024), "2.0T");
    assert_eq!(human_readable_folder_size(2048 * 1024 * 1024 * 1024 * 1024), "2048T");
}

#[test]
fn path_item_texts() {
    let age = Age { secs: 86400 * 3 + 1, nanos: 0 };
    let item = PathItem::new("/x/y".to_string(), "y".to_string(), "y", Some(age), Some(2048));
    assert_eq!(item.time_text, "4d");
    assert_eq!(item.size_text, "2.0K");
    assert_eq!(item.state, PathState::Normal);
    let exact = Age { secs: 86400 * 3, nanos: 0 };
    let item = PathItem::new("/x/y".to_string(), "y".to_string(), "y", Some(exact), None);
    assert_eq!(item.time_text, "3d");
    assert_eq!(item.size_text, "");
}

#[test]
fn filters_gate_found_paths() {
    let mut config = Config::default();
    config.set_time("+30").unwrap();
    config.set_size("-1K").unwrap();
    let old = Age { secs: 86400 * 30 + 5, nanos: 0 };
    let young = Age { secs: 86400 * 30, nanos: 0 };
    assert!(projclean::scan::keeps_age(&config, Some(old)));
    assert!(!projclean::scan::keeps_age(&config, Some(young)));
    assert!(projclean::scan::keeps_age(&config, None));
    assert!(projclean::scan::keeps_size(&config, Some(1023)));
    assert!(!projclean::scan::keeps_size(&config, Some(1024)));
}

#[test]
fn deletion_only_for_added_paths() {
    let mut list = ItemList::new();
    list.handle_message(Message::AddPath(PathItem::new(
        "/r/a".to_string(),
        "a".to_string(),
        "a",
        None,
        Some(10),
    )));
    list.handle_message(Message::AddPath(PathItem::new(
        "/r/b".to_string(),
        "b".to_string(),
        "b",
        None,
        None,
    )));
    assert_eq!(list.total_size(), 10);
    list.next();
    assert_eq!(list.selected(), Some(0));
    assert_eq!(list.start_deleting_item(), Some("/r/a".to_string()));
    assert_eq!(list.start_deleting_item(), None);
    assert_eq!(list.delete_all_items(), Vec::<String>::new());
    list.handle_message(Message::SetPathDeleted("/r/a".to_string()));
    assert_eq!(list.items()[0].state, PathState::Deleted);
    assert_eq!(list.total_saved_size(), 10);
    list.handle_message(Message::SetPathDeleted("/r/zzz".to_string()));
    assert_eq!(list.total_saved_size(), 10);
    list.previous();
    assert_eq!(list.selected(), Some(1));
    list.end();
    assert_eq!(list.selected(), Some(1));
    list.begin();
    assert_eq!(list.selected(), Some(0));
    list.handle_message(Message::PutError("boom".to_string()));
    assert_eq!(list.error(), Some(&"boom".to_string()));
    list.clear_tmp_state();
    assert_eq!(list.error(), None);
    list.handle_message(Message::DoneSearch);
    assert!(list.search_done());
}

#[test]
fn delete_all_marks_normal_sized_items() {
    let mut list = ItemList::new();
    for (p, s) in [("/r/a", Some(1)), ("/r/b", None), ("/r/c", Some(3))] {
        list.add_item(PathItem::new(p.to_string(), p.to_string(), "x", None, s));
    }
    assert_eq!(list.delete_all_items(), vec!["/r/a".to_string(), "/r/c".to_string()]);
    assert_eq!(list.items()[0].state, PathState::StartDeleting);
    assert_eq!(list.items()[1].state, PathState::Normal);
    assert_eq!(list.items()[2].state, PathState::StartDeleting);
}

#[test]
fn excluded_tail_segment_is_not_reported() {
    let mut config = Config::default();
    config.add_rule("target,project/target@build.sbt").unwrap();
    config.exclude = vec!["target".to_string()];
    let entries = vec![
        Entry { name: "project".to_string(), is_dir: true },
        Entry { name: "build.sbt".to_string(), is_dir: false },
    ];
    let decisions = decide_children(&config, &entries);
    match &decisions[0] {
        Decision::Purge { rule_id, purges } => {
            assert_eq!(rule_id, "target,project/target@build.sbt");
            assert!(purges.is_empty());
        }
        _ => panic!("the trigger still stops the descent"),
    }
}
