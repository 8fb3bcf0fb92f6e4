//! The workspace configuration and the repository scan.
use agentic_tui::scan::{DirEntry, Finding, Scan};
use agentic_tui::workspace::{
    base_name, common_root, default_config_path, entries_to_save, expand_tilde,
    raw_from_workspace, repos_from_paths, runs_dir, save_base, validate, workspaces_from_raw,
    PathProbe, RawRepo, RawWorkspace, Repo, Workspace, WorkspaceError, DEFAULT_SCAN_DEPTH,
};
use toml::{Table, Value};

fn opt(t: &Table, key: &str) -> Option<String> {
    t.get(key).and_then(Value::as_str).map(str::to_string)
}

fn raw_list(text: &str) -> Vec<RawWorkspace> {
    let root: Table = text.parse().unwrap();
    let mut out = vec![];
    if let Some(list) = root.get("workspace").and_then(Value::as_array) {
        for item in list {
            let t = item.as_table().unwrap();
            let mut repo = vec![];
            if let Some(repos) = t.get("repo").and_then(Value::as_array) {
                for r in repos {
                    let r = r.as_table().unwrap();
                    repo.push(RawRepo {
                        name: opt(r, "name").unwrap(),
                        path: opt(r, "path").unwrap(),
                        base: opt(r, "base"),
                        integration: opt(r, "integration"),
                    });
                }
            }
            out.push(RawWorkspace {
                name: opt(t, "name").unwrap(),
                path: opt(t, "path"),
                base: opt(t, "base"),
                integration: opt(t, "integration"),
                repo,
            });
        }
    }
    out
}

fn put(t: &mut Table, key: &str, value: &Option<String>) {
    if let Some(v) = value {
        t.insert(key.to_string(), Value::String(v.clone()));
    }
}

fn write_list(entries: &[RawWorkspace]) -> String {
    let mut items = vec![];
    for raw in entries {
        let mut t = Table::new();
        t.insert("name".to_string(), Value::String(raw.name.clone()));
        put(&mut t, "path", &raw.path);
        put(&mut t, "base", &raw.base);
        put(&mut t, "integration", &raw.integration);
        let mut repos = vec![];
        for r in &raw.repo {
            let mut rt = Table::new();
            rt.insert("name".to_string(), Value::String(r.name.clone()));
            rt.insert("path".to_string(), Value::String(r.path.clone()));
            put(&mut rt, "base", &r.base);
            put(&mut rt, "integration", &r.integration);
            repos.push(Value::Table(rt));
        }
        if !repos.is_empty() {
            t.insert("repo".to_string(), Value::Array(repos));
        }
        items.push(Value::Table(t));
    }
    let mut root = Table::new();
    root.insert("workspace".to_string(), Value::Array(items));
    toml::to_string(&root).unwrap()
}

fn parse_workspaces_str(text: &str) -> Result<Vec<Workspace>, WorkspaceError> {
    workspaces_from_raw(&raw_list(text), "/home/tester")
}

/// The file of a configuration, which may not be there yet.
fn save_workspaces(file: &mut Option<String>, new: &Vec<Workspace>) {
    let loaded = match file {
        Some(text) => Ok(parse_workspaces_str(text).unwrap()),
        None => Err("no such file".to_string()),
    };
    let entries = entries_to_save(loaded, file.is_some(), new).unwrap();
    *file = Some(write_list(&entries));
}

#[test]
fn workspace_parses_a_valid_workspace_list() {
    let toml_text = r#"
[[workspace]]
name = "greentic"
path = "/tmp/greentic"

[[workspace]]
name = "portfolio"
path = "/tmp/portfolio"
"#;
    let workspaces = parse_workspaces_str(toml_text).unwrap();
    assert_eq!(workspaces.len(), 2);
    assert_eq!(workspaces[0].name, "greentic");
    assert_eq!(workspaces[0].repos.len(), 1);
    assert_eq!(workspaces[0].repos[0].path, "/tmp/greentic");
}

#[test]
fn parses_a_nested_multi_repo_workspace() {
    let toml_text = r#"
[[workspace]]
name = "greentic"

  [[workspace.repo]]
  name = "greentic"
  path = "/tmp/greentic/greentic"
  base = "main"

  [[workspace.repo]]
  name = "billing"
  path = "/tmp/greentic/billing"
"#;
    let ws = parse_workspaces_str(toml_text).unwrap();
    assert_eq!(ws.len(), 1);
    assert_eq!(ws[0].repos.len(), 2);
    assert_eq!(ws[0].repos[0].name, "greentic");
    assert_eq!(ws[0].repos[0].base.as_deref(), Some("main"));
    assert_eq!(ws[0].repos[1].name, "billing");
}

#[test]
fn parses_a_legacy_flat_workspace_as_one_repo() {
    let toml_text = r#"
[[workspace]]
name = "greentic"
path = "/tmp/greentic/greentic"
base = "develop"
"#;
    let ws = parse_workspaces_str(toml_text).unwrap();
    assert_eq!(ws.len(), 1);
    assert_eq!(ws[0].repos.len(), 1, "a flat entry becomes a one-repo group");
    assert_eq!(ws[0].repos[0].name, "greentic");
    assert_eq!(ws[0].repos[0].path, "/tmp/greentic/greentic");
    assert_eq!(ws[0].repos[0].base.as_deref(), Some("develop"));
}

#[test]
fn parses_optional_base_and_integration() {
    let toml_text = r#"
[[workspace]]
name = "a"
path = "/tmp/a"
base = "develop"
integration = "agentic-wip"

[[workspace]]
name = "b"
path = "/tmp/b"
"#;
    let ws = parse_workspaces_str(toml_text).unwrap();
    assert_eq!(ws[0].repos[0].base.as_deref(), Some("develop"));
    assert_eq!(ws[0].repos[0].integration.as_deref(), Some("agentic-wip"));
    assert_eq!(ws[1].repos[0].base, None);
    assert_eq!(ws[1].repos[0].integration, None);
}

#[test]
fn a_group_without_a_path_is_refused() {
    let err = parse_workspaces_str("[[workspace]]\nname = \"x\"\n").unwrap_err();
    assert_eq!(err, WorkspaceError::NoPath { workspace: "x".to_string() });
    assert_eq!(
        err.message(),
        "workspace 'x' has neither a path nor a [[workspace.repo]] list"
    );
}

#[test]
fn validate_rejects_an_empty_repo_list_and_duplicate_names() {
    let empty = Workspace { name: "x".into(), repos: vec![] };
    assert!(validate(&empty, &vec![]).is_err());
    assert_eq!(
        validate(&empty, &vec![]),
        Err(WorkspaceError::NoRepositories { workspace: "x".to_string() })
    );
    let good = PathProbe { is_dir: true, has_git: true };
    let mut twice = one_repo("a", "/tmp/a");
    twice.repos.push(Repo {
        name: "a".to_string(),
        path: "/tmp/b".to_string(),
        base: None,
        integration: None,
    });
    assert_eq!(
        validate(&twice, &vec![good, good]),
        Err(WorkspaceError::DuplicateRepo { workspace: "a".to_string(), repo: "a".to_string() })
    );
    assert!(validate(&one_repo("a", "/tmp/a"), &vec![good]).is_ok());
    assert_eq!(
        validate(&one_repo("a", "/tmp/a"), &vec![PathProbe { is_dir: true, has_git: false }]),
        Err(WorkspaceError::NotGit { repo: "a".to_string(), path: "/tmp/a".to_string() })
    );
}

#[test]
fn common_root_is_the_shared_parent_of_sibling_repos() {
    let ws = Workspace {
        name: "greentic".into(),
        repos: vec![
            Repo {
                name: "a".into(),
                path: "/home/u/greentic/a".into(),
                base: None,
                integration: None,
            },
            Repo {
                name: "b".into(),
                path: "/home/u/greentic/b".into(),
                base: None,
                integration: None,
            },
        ],
    };
    assert_eq!(common_root(&ws), "/home/u/greentic");
}

#[test]
fn common_root_of_one_repo_is_its_parent() {
    let ws = Workspace {
        name: "solo".into(),
        repos: vec![Repo {
            name: "solo".into(),
            path: "/home/u/greentic/solo".into(),
            base: None,
            integration: None,
        }],
    };
    assert_eq!(common_root(&ws), "/home/u/greentic");
}

#[test]
fn workspace_expands_a_leading_tilde_to_the_home_directory() {
    let expanded = expand_tilde("~/Works/greentic", "/home/tester");
    assert_eq!(expanded, "/home/tester/Works/greentic");
}

#[test]
fn workspace_leaves_absolute_paths_untouched() {
    assert_eq!(expand_tilde("/abs/path", "/home/tester"), "/abs/path");
}

#[test]
fn workspace_validate_rejects_a_path_that_is_not_a_directory() {
    let workspace = Workspace {
        name: "ghost".to_string(),
        repos: vec![Repo {
            name: "ghost".to_string(),
            path: "/nonexistent/path/here".to_string(),
            base: None,
            integration: None,
        }],
    };
    let probes = vec![PathProbe { is_dir: false, has_git: false }];
    assert!(validate(&workspace, &probes).is_err());
    assert_eq!(
        validate(&workspace, &probes).unwrap_err().message(),
        "repo 'ghost' path is not a directory: /nonexistent/path/here"
    );
}

#[test]
fn validate_rejects_a_path_that_is_not_a_directory() {
    let workspace = one_repo("ghost", "/nonexistent/path/here");
    let probes = vec![PathProbe { is_dir: false, has_git: false }];
    assert!(validate(&workspace, &probes).is_err());
}

/// Scans a tree given by its directories; a directory named `.git` makes its
/// parent a repository.
fn scan_for_repos(base: &str, dirs: &[&str], links: &[&str]) -> Vec<Repo> {
    let mut all: Vec<String> = vec![base.to_string()];
    for dir in dirs {
        let mut path = base.to_string();
        for part in dir.split('/') {
            path = format!("{path}/{part}");
            if !all.contains(&path) {
                all.push(path.clone());
            }
        }
    }
    let mut scan = Scan::new(base, DEFAULT_SCAN_DEPTH);
    while let Some((dir, list)) = scan.advance() {
        let finding = if all.contains(&format!("{dir}/.git")) {
            Finding::Repository
        } else if !list {
            Finding::Entries(vec![])
        } else {
            let prefix = format!("{dir}/");
            let mut entries = vec![];
            for path in &all {
                if let Some(name) = path.strip_prefix(&prefix) {
                    if !name.contains('/') {
                        entries.push(DirEntry {
                            name: name.to_string(),
                            path: path.clone(),
                            is_dir: true,
                        });
                    }
                }
            }
            for link in links {
                if format!("{base}/{link}").strip_prefix(&prefix) == Some(*link) {
                    entries.push(DirEntry {
                        name: link.to_string(),
                        path: format!("{base}/{link}"),
                        is_dir: false,
                    });
                }
            }
            Finding::Entries(entries)
        };
        scan.report(&finding);
    }
    scan.finish()
}

#[test]
fn scan_finds_repos_and_prunes_noise() {
    let base = "/tmp/scan";
    let found = scan_for_repos(
        base,
        &[
            "repoA/.git",
            // A repo nested inside another repo must not be found: we do not
            // descend into a directory that is already a repo.
            "repoA/inner/.git",
            "group/repoB/.git",
            // Pruned locations: build noise and hidden directories.
            "node_modules/ghost/.git",
            ".hidden/repoC/.git",
        ],
        &[],
    );
    let paths: Vec<String> = found.iter().map(|w| w.path.clone()).collect();

    assert!(paths.contains(&"/tmp/scan/repoA".to_string()));
    assert!(paths.contains(&"/tmp/scan/group/repoB".to_string()));
    assert!(!paths.contains(&"/tmp/scan/repoA/inner".to_string()), "must not descend into a repo");
    assert!(
        !paths.contains(&"/tmp/scan/node_modules/ghost".to_string()),
        "node_modules must be pruned"
    );
    assert!(
        !paths.contains(&"/tmp/scan/.hidden/repoC".to_string()),
        "hidden directories must be pruned"
    );
    assert_eq!(found.len(), 2);
}

#[test]
fn scan_disambiguates_duplicate_names() {
    let found = scan_for_repos("/tmp/scan-dup", &["x/proj/.git", "y/proj/.git"], &[]);
    let mut names: Vec<_> = found.iter().map(|w| w.name.clone()).collect();
    names.sort();
    assert_eq!(names, vec!["x/proj".to_string(), "y/proj".to_string()]);
}

#[test]
fn scan_skips_symlinked_directories() {
    let found = scan_for_repos("/tmp/scan-symlink", &["real/.git"], &["link"]);
    let paths: Vec<String> = found.iter().map(|w| w.path.clone()).collect();
    assert!(paths.contains(&"/tmp/scan-symlink/real".to_string()));
    assert!(
        !paths.contains(&"/tmp/scan-symlink/link".to_string()),
        "a symlinked directory must not be traversed"
    );
}

#[test]
fn scan_stops_at_its_depth() {
    let mut scan = Scan::new("/r", 1);
    let mut visited = vec![];
    while let Some((dir, list)) = scan.advance() {
        visited.push(dir.clone());
        let finding = if list {
            Finding::Entries(vec![DirEntry {
                name: "d".to_string(),
                path: format!("{dir}/d"),
                is_dir: true,
            }])
        } else {
            Finding::Unreadable
        };
        scan.report(&finding);
    }
    assert_eq!(visited, vec!["/r".to_string(), "/r/d".to_string()]);
    assert!(scan.finish().is_empty());
}

/// A one-repo group named `name` rooted at `path`.
fn one_repo(name: &str, path: &str) -> Workspace {
    Workspace {
        name: name.to_string(),
        repos: vec![Repo {
            name: name.to_string(),
            path: path.to_string(),
            base: None,
            integration: None,
        }],
    }
}

#[test]
fn save_unions_with_existing_and_round_trips() {
    let mut config = None;
    let first = vec![one_repo("a", "/tmp/a"), one_repo("b", "/tmp/b")];
    save_workspaces(&mut config, &first);
    let loaded = parse_workspaces_str(config.as_ref().unwrap()).unwrap();
    assert_eq!(loaded.len(), 2);
    assert_eq!(loaded[0], first[0]);

    // A second save with an overlapping name unions by name; the existing
    // group named "b" is kept, and "c" is added.
    let more = vec![one_repo("b", "/tmp/b-different"), one_repo("c", "/tmp/c")];
    save_workspaces(&mut config, &more);
    let loaded = parse_workspaces_str(config.as_ref().unwrap()).unwrap();
    assert_eq!(loaded.len(), 3, "union should be a, b, c with no duplicate b");
    let b = loaded.iter().find(|w| w.name == "b").unwrap();
    assert_eq!(b.repos[0].path, "/tmp/b", "existing group is kept on a name conflict");
}

#[test]
fn save_round_trips_a_nested_multi_repo_group() {
    let group = Workspace {
        name: "greentic".to_string(),
        repos: vec![
            Repo {
                name: "greentic".to_string(),
                path: "/tmp/greentic/greentic".to_string(),
                base: Some("main".to_string()),
                integration: None,
            },
            Repo {
                name: "billing".to_string(),
                path: "/tmp/greentic/billing".to_string(),
                base: None,
                integration: None,
            },
        ],
    };
    let mut config = None;
    save_workspaces(&mut config, &vec![group.clone()]);
    let text = config.unwrap();
    assert!(
        text.contains("[[workspace.repo]]"),
        "a group must serialize to the nested repo shape"
    );
    let loaded = parse_workspaces_str(&text).unwrap();
    assert_eq!(loaded.len(), 1);
    assert_eq!(loaded[0], group);
}

#[test]
fn save_refuses_to_overwrite_a_malformed_config() {
    let result = save_base(Err("malformed".to_string()), true);
    assert!(result.is_err(), "a config that cannot be parsed must not be overwritten");
    assert_eq!(save_base(Err("missing".to_string()), false), Ok(vec![]));
    let list = vec![one_repo("a", "/tmp/a")];
    let refused = entries_to_save(Err("malformed".to_string()), true, &list);
    assert_eq!(refused, Err("malformed".to_string()));
    let fresh = entries_to_save(Err("missing".to_string()), false, &list).unwrap();
    assert_eq!(fresh, vec![raw_from_workspace(&list[0])]);
}

#[test]
fn a_load_gives_back_what_was_there_and_then_what_is_new() {
    let mut config = None;
    save_workspaces(&mut config, &vec![one_repo("a", "/tmp/a"), one_repo("b", "/tmp/b")]);
    let new = vec![
        one_repo("c", "/tmp/c"),
        one_repo("a", "/elsewhere/a"),
        one_repo("c", "/elsewhere/c"),
        one_repo("d", "/tmp/d"),
    ];
    save_workspaces(&mut config, &new);
    let loaded = parse_workspaces_str(&config.unwrap()).unwrap();
    assert_eq!(
        loaded,
        vec![
            one_repo("a", "/tmp/a"),
            one_repo("b", "/tmp/b"),
            one_repo("c", "/tmp/c"),
            one_repo("d", "/tmp/d"),
        ]
    );
}

#[test]
fn paths_are_expanded_once() {
    for home in ["/home/u", "~u", "~", "."] {
        let raw = vec![
            raw_from_workspace(&one_repo("a", "~/a")),
            raw_from_workspace(&one_repo("b", "~")),
        ];
        let old = workspaces_from_raw(&raw, home).unwrap();
        let saved = entries_to_save(Ok(old.clone()), true, &vec![]).unwrap();
        assert_eq!(workspaces_from_raw(&saved, home).unwrap(), old, "home {home:?}");
    }
    assert_eq!(expand_tilde("~/a", "~u"), "~u/a");
    assert_eq!(expand_tilde("~/~", ""), "~");
}

#[test]
fn the_shared_root_does_not_depend_on_the_order() {
    let group = |paths: &[&str]| Workspace {
        name: "g".to_string(),
        repos: paths.iter().map(|p| one_repo("r", p).repos[0].clone()).collect(),
    };
    let there = group(&["/w/ab/x", "/w/abc/y", "/w/ab/z"]);
    let back = group(&["/w/ab/z", "/w/abc/y", "/w/ab/x"]);
    assert_eq!(common_root(&there), "/w");
    assert_eq!(common_root(&back), "/w");
    assert_eq!(common_root(&group(&["/a/x", "/b/y"])), "/");
}

#[test]
fn save_round_trips_base_and_integration() {
    let list = vec![
        Workspace {
            name: "a".to_string(),
            repos: vec![Repo {
                name: "a".to_string(),
                path: "/tmp/a".to_string(),
                base: Some("develop".to_string()),
                integration: Some("agentic-wip".to_string()),
            }],
        },
        one_repo("b", "/tmp/b"),
    ];
    let mut config = None;
    save_workspaces(&mut config, &list);
    let text = config.unwrap();
    assert!(!text.contains("base = \"\""), "an unset field must not serialize as an empty key");

    let loaded = parse_workspaces_str(&text).unwrap();
    let a = loaded.iter().find(|w| w.name == "a").unwrap();
    assert_eq!(a.repos[0].base.as_deref(), Some("develop"));
    assert_eq!(a.repos[0].integration.as_deref(), Some("agentic-wip"));
    let b = loaded.iter().find(|w| w.name == "b").unwrap();
    assert_eq!(b.repos[0].base, None);
    assert_eq!(b.repos[0].integration, None);
}

#[test]
fn configuration_lives_below_the_home_directory() {
    assert_eq!(
        default_config_path(&Some("/home/u".to_string())),
        "/home/u/.config/agentic-tui/workspaces.toml"
    );
    assert_eq!(default_config_path(&None), "./.config/agentic-tui/workspaces.toml");
    assert_eq!(runs_dir(&Some("/home/u".to_string())), "/home/u/.config/agentic-tui/runs");
}

#[test]
fn names_come_from_paths() {
    assert_eq!(base_name("/x/proj"), "proj");
    let repos = repos_from_paths(vec![
        "/x/proj".to_string(),
        "/y/proj".to_string(),
        "/z/other".to_string(),
    ]);
    let names: Vec<&str> = repos.iter().map(|r| r.name.as_str()).collect();
    assert_eq!(names, vec!["x/proj", "y/proj", "other"]);
}

#[test]
fn a_scan_lists_each_repository_once_in_order() {
    let entry = |path: &str| DirEntry {
        name: path.rsplit('/').next().unwrap().to_string(),
        path: path.to_string(),
        is_dir: true,
    };
    let mut scan = Scan::new("/w", DEFAULT_SCAN_DEPTH);
    while let Some((dir, _)) = scan.advance() {
        let finding = match dir.as_str() {
            "/w" => Finding::Entries(vec![entry("/w/b"), entry("/w/a"), entry("/w/c")]),
            "/w/c" => Finding::Entries(vec![entry("/w/c/a")]),
            _ => Finding::Repository,
        };
        scan.report(&finding);
    }
    let paths: Vec<String> = scan.finish().into_iter().map(|r| r.path).collect();
    assert_eq!(paths, vec!["/w/a", "/w/b", "/w/c/a"]);
}
