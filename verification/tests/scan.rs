use si_registry_rs::scan::{all_capabilities, find_by_capability, scanned_repo};
use si_registry_rs::{Capability, LocalRepo, RegistryError};

fn cap(name: &str, category: &str, provides: &str, description: &str) -> Capability {
    Capability {
        name: name.to_string(),
        category: category.to_string(),
        provides: provides.to_string(),
        description: description.to_string(),
    }
}

/// The repos that scanning the test fleet finds: `repo-alpha` and `repo-beta`.
fn scanned_fleet() -> Vec<LocalRepo> {
    vec![
        LocalRepo {
            path: "/fleet/repo-alpha".to_string(),
            name: "repo-alpha".to_string(),
            capabilities: vec![cap("compute", "ml", "inference", "ML inference engine")],
        },
        LocalRepo {
            path: "/fleet/repo-beta".to_string(),
            name: "repo-beta".to_string(),
            capabilities: vec![
                cap("storage", "data", "persistence", "Persistent storage"),
                cap("cache", "data", "caching", "In-memory cache"),
            ],
        },
    ]
}

#[test]
fn test_all_capabilities_dedup() {
    let repos = scanned_fleet();
    let caps = all_capabilities(&repos);
    assert_eq!(caps.len(), 3); // compute, storage, cache
}

#[test]
fn test_find_by_capability() {
    let repos = scanned_fleet();
    let found = find_by_capability(&repos, "compute");
    assert_eq!(found.len(), 1);
    assert_eq!(found[0].name, "repo-alpha");
}

#[test]
fn test_find_by_capability_none() {
    let repos = scanned_fleet();
    let found = find_by_capability(&repos, "nonexistent");
    assert!(found.is_empty());
}

#[test]
fn test_invalid_toml_skipped() {
    let err = toml::from_str::<toml::Table>("this is not valid toml [[[[").unwrap_err();
    let repo = scanned_repo("/fleet/bad-repo".to_string(), Some("bad-repo".to_string()), Err(RegistryError::Toml(err)));
    assert!(repo.is_none()); // bad toml skipped, no crash
}

#[test]
fn all_capabilities_keeps_first_of_each_key() {
    let mut repos = scanned_fleet();
    repos.push(LocalRepo {
        path: "/fleet/repo-gamma".to_string(),
        name: "repo-gamma".to_string(),
        capabilities: vec![
            cap("compute", "ml", "other", "duplicate of alpha's"),
            cap("compute", "gpu", "training", "same name, other category"),
        ],
    });
    let caps = all_capabilities(&repos);
    let names: Vec<(&str, &str, &str)> = caps
        .iter()
        .map(|c| (c.name.as_str(), c.category.as_str(), c.provides.as_str()))
        .collect();
    assert_eq!(
        names,
        vec![
            ("compute", "ml", "inference"),
            ("storage", "data", "persistence"),
            ("cache", "data", "caching"),
            ("compute", "gpu", "training"),
        ]
    );
}

#[test]
fn all_capabilities_keeps_pairs_that_join_alike() {
    // ("a:b", "c") and ("a", "b:c") differ in both name and category
    let repos = vec![LocalRepo {
        path: "p".to_string(),
        name: "r".to_string(),
        capabilities: vec![cap("a:b", "c", "", ""), cap("a", "b:c", "", "")],
    }];
    let caps = all_capabilities(&repos);
    assert_eq!(caps.len(), 2);
    assert_eq!(caps, repos[0].capabilities);
}

#[test]
fn find_by_capability_keeps_order() {
    let mut repos = scanned_fleet();
    repos.insert(0, LocalRepo {
        path: "p".to_string(),
        name: "first".to_string(),
        capabilities: vec![cap("cache", "x", "", "")],
    });
    let found = find_by_capability(&repos, "cache");
    let names: Vec<&str> = found.iter().map(|r| r.name.as_str()).collect();
    assert_eq!(names, vec!["first", "repo-beta"]);
}

#[test]
fn scanned_repo_names_unnamed_dir_unknown() {
    let caps = vec![cap("compute", "ml", "inference", "")];
    let repo = scanned_repo("/fleet/x".to_string(), None, Ok(caps.clone())).unwrap();
    assert_eq!(repo.name, "unknown");
    assert_eq!(repo.path, "/fleet/x");
    assert_eq!(repo.capabilities, caps);
    let named = scanned_repo("/fleet/y".to_string(), Some("y".to_string()), Ok(vec![])).unwrap();
    assert_eq!(named.name, "y");
}
