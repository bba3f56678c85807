use restore_file_info::rust_cache::{
    clean_profile_target, clean_registry, clean_target_dir, classify_target_entry, deps_keep_names,
    dir_name, is_outdated, package_names, rm_except, strip_hash_suffix, CacheSourceDir, EntryInfo,
    IndexEntry, Meta, MetaPackage, MetaTarget, PackageDefinition, ProfileListing, TargetEntry,
    TargetEntryAction,
};

fn entry(name: &str, mtime_seconds: i64) -> EntryInfo {
    EntryInfo {
        name: String::from(name),
        is_dir: false,
        mtime_seconds,
    }
}

fn package(name: &str, version: &str, targets: &[&str]) -> PackageDefinition {
    PackageDefinition {
        name: String::from(name),
        version: String::from(version),
        path: String::from("/registry/src"),
        targets: targets.iter().map(|t| String::from(*t)).collect(),
    }
}

#[test]
fn suffix_strip_removes_only_the_last_segment() {
    assert_eq!(strip_hash_suffix(&String::from("serde-a1b2c3d4")), "serde");
    assert_eq!(strip_hash_suffix(&String::from("serde")), "serde");
    assert_eq!(
        strip_hash_suffix(&String::from("my-weird-name-ff00")),
        "my-weird-name"
    );
    assert_eq!(strip_hash_suffix(&String::from("")), "");
    assert_eq!(strip_hash_suffix(&String::from("-abc")), "");
}

#[test]
fn keep_matching_goes_by_the_stripped_name() {
    let keep = vec![String::from("serde")];
    let entries = Some(vec![
        entry("serde-a1b2c3d4", 0),
        entry("serde", 0),
        entry("other-a1b2", 0),
    ]);
    let doomed = rm_except(&entries, &keep, false, 0);
    assert_eq!(doomed, vec![String::from("other-a1b2")]);
}

#[test]
fn missing_directory_sweeps_nothing() {
    let keep: Vec<String> = vec![];
    let doomed = rm_except(&None, &keep, false, 0);
    assert_eq!(doomed.len(), 0);
}

#[test]
fn staleness_mode_ignores_the_keep_set() {
    let now: i64 = 1_000_000_000;
    let keep = vec![String::from("kept")];
    let week: i64 = 604800;
    let entries = Some(vec![
        entry("kept-aaaa", now - week),
        entry("kept-bbbb", now - week + 1),
        entry("other", now - week - 50),
    ]);
    let doomed = rm_except(&entries, &keep, true, now);
    assert_eq!(
        doomed,
        vec![String::from("kept-aaaa"), String::from("other")]
    );
}

#[test]
fn outdated_boundary_is_exactly_one_week() {
    assert!(is_outdated(0, 604800));
    assert!(!is_outdated(1, 604800));
    assert!(is_outdated(-604800, 0));
    assert!(!is_outdated(604801, 604800));
}

#[test]
fn deps_keep_expands_names_and_lib_prefixes() {
    let packages = vec![package("proc-macro2", "1.0.0", &[])];
    let keys = deps_keep_names(&packages);
    assert!(keys.contains(&String::from("proc_macro2")));
    assert!(keys.contains(&String::from("libproc_macro2")));
    assert_eq!(keys.len(), 2);
}

#[test]
fn deps_keep_includes_library_targets_before_the_package_name() {
    let packages = vec![package("my-crate", "0.1.0", &["my-lib", "other"])];
    let keys = deps_keep_names(&packages);
    assert_eq!(
        keys,
        vec![
            String::from("my_lib"),
            String::from("libmy_lib"),
            String::from("other"),
            String::from("libother"),
            String::from("my_crate"),
            String::from("libmy_crate"),
        ]
    );
}

#[test]
fn profile_prune_keeps_only_the_three_known_subdirectories() {
    let listing = ProfileListing {
        profile_entries: Some(vec![
            entry("build", 0),
            entry(".fingerprint", 0),
            entry("deps", 0),
            entry("incremental", 0),
            entry("examples", 0),
        ]),
        build_entries: None,
        fingerprint_entries: None,
        deps_entries: None,
    };
    let packages: Vec<PackageDefinition> = vec![];
    let plan = clean_profile_target(&listing, &packages, false, 0);
    assert_eq!(
        plan.profile_doomed,
        vec![String::from("incremental"), String::from("examples")]
    );
    assert_eq!(plan.build_doomed.len(), 0);
    assert_eq!(plan.fingerprint_doomed.len(), 0);
    assert_eq!(plan.deps_doomed.len(), 0);
}

#[test]
fn fingerprint_prune_deletes_unknown_packages() {
    let listing = ProfileListing {
        profile_entries: None,
        build_entries: None,
        fingerprint_entries: Some(vec![entry("foo-abc123", 0), entry("bar-def456", 0)]),
        deps_entries: None,
    };
    let packages = vec![package("foo", "1.0.0", &["foo"])];
    let plan = clean_profile_target(&listing, &packages, false, 0);
    assert_eq!(plan.fingerprint_doomed, vec![String::from("bar-def456")]);
}

#[test]
fn deps_prune_keeps_lib_artifacts_of_current_packages() {
    let listing = ProfileListing {
        profile_entries: None,
        build_entries: None,
        fingerprint_entries: None,
        deps_entries: Some(vec![
            entry("libfoo-abc.rlib", 0),
            entry("foo-abc", 0),
            entry("libgone-e.rlib", 0),
        ]),
    };
    let packages = vec![package("foo", "1.0.0", &["foo"])];
    let plan = clean_profile_target(&listing, &packages, false, 0);
    // After the last-dash strip, "libfoo-abc.rlib" compares as "libfoo"
    // and "foo-abc" as "foo"; both are keep-keys of package foo.
    assert_eq!(plan.deps_doomed, vec![String::from("libgone-e.rlib")]);
}

#[test]
fn directory_with_marker_file_is_a_nested_root() {
    let e = TargetEntry {
        name: String::from("inner"),
        is_dir: true,
        has_cachedir_tag: true,
        has_rustc_info: false,
    };
    assert_eq!(classify_target_entry(&e), TargetEntryAction::RecurseAsRoot);
    let e2 = TargetEntry {
        name: String::from("inner2"),
        is_dir: true,
        has_cachedir_tag: false,
        has_rustc_info: true,
    };
    assert_eq!(classify_target_entry(&e2), TargetEntryAction::RecurseAsRoot);
    let e3 = TargetEntry {
        name: String::from("debug"),
        is_dir: true,
        has_cachedir_tag: false,
        has_rustc_info: false,
    };
    assert_eq!(
        classify_target_entry(&e3),
        TargetEntryAction::RecurseAsProfile
    );
}

#[test]
fn top_level_prune_sorts_entries_into_the_three_outcomes() {
    let entries = vec![
        TargetEntry {
            name: String::from("nested"),
            is_dir: true,
            has_cachedir_tag: true,
            has_rustc_info: false,
        },
        TargetEntry {
            name: String::from("release"),
            is_dir: true,
            has_cachedir_tag: false,
            has_rustc_info: false,
        },
        TargetEntry {
            name: String::from("CACHEDIR.TAG"),
            is_dir: false,
            has_cachedir_tag: false,
            has_rustc_info: false,
        },
        TargetEntry {
            name: String::from("stray.json"),
            is_dir: false,
            has_cachedir_tag: false,
            has_rustc_info: false,
        },
    ];
    let plan = clean_target_dir(&entries);
    assert_eq!(plan.nested_roots, vec![String::from("nested")]);
    assert_eq!(plan.profile_dirs, vec![String::from("release")]);
    assert_eq!(plan.doomed, vec![String::from("stray.json")]);
}

#[test]
fn workspace_local_packages_are_excluded() {
    let meta = Meta {
        packages: vec![
            MetaPackage {
                name: String::from("local"),
                version: String::from("0.1.0"),
                manifest_path: String::from("/work/project/Cargo.toml"),
                targets: vec![MetaTarget {
                    kind: vec![String::from("lib")],
                    name: String::from("local"),
                }],
            },
            MetaPackage {
                name: String::from("dep"),
                version: String::from("2.0.0"),
                manifest_path: String::from("/registry/dep-2.0.0/Cargo.toml"),
                targets: vec![MetaTarget {
                    kind: vec![String::from("lib")],
                    name: String::from("dep"),
                }],
            },
        ],
    };
    let packages = meta.resolve_packages("/work/project");
    assert_eq!(packages.len(), 1);
    assert_eq!(packages[0].name, "dep");
    assert_eq!(packages[0].version, "2.0.0");
    assert_eq!(packages[0].path, "/registry/dep-2.0.0");
    assert_eq!(packages[0].targets, vec![String::from("dep")]);
}

#[test]
fn only_library_and_proc_macro_targets_contribute_names() {
    let meta = Meta {
        packages: vec![MetaPackage {
            name: String::from("dep"),
            version: String::from("1.0.0"),
            manifest_path: String::from("/registry/dep/Cargo.toml"),
            targets: vec![
                MetaTarget {
                    kind: vec![String::from("lib")],
                    name: String::from("dep"),
                },
                MetaTarget {
                    kind: vec![String::from("proc-macro")],
                    name: String::from("dep_macros"),
                },
                MetaTarget {
                    kind: vec![String::from("bin")],
                    name: String::from("dep-cli"),
                },
                MetaTarget {
                    kind: vec![String::from("test")],
                    name: String::from("integration"),
                },
            ],
        }],
    };
    let packages = meta.resolve_packages("/work");
    assert_eq!(
        packages[0].targets,
        vec![String::from("dep"), String::from("dep_macros")]
    );
}

#[test]
fn dir_name_drops_the_final_component() {
    assert_eq!(dir_name("a/b/Cargo.toml"), "a/b");
    assert_eq!(dir_name("Cargo.toml"), "");
    assert_eq!(dir_name("/Cargo.toml"), "/");
    assert_eq!(dir_name(""), "");
}

#[test]
fn package_names_lists_names_in_order() {
    let packages = vec![package("a", "1", &[]), package("b", "2", &[])];
    assert_eq!(
        package_names(&packages),
        vec![String::from("a"), String::from("b")]
    );
}

#[test]
fn registry_prune_always_removes_src_and_git_backed_index_caches() {
    let index = vec![
        IndexEntry {
            name: String::from("github.com-1ecc6299db9ec823"),
            is_dir: true,
            has_git: true,
        },
        IndexEntry {
            name: String::from("index.crates.io-e139d0d48fed7772"),
            is_dir: true,
            has_git: false,
        },
        IndexEntry {
            name: String::from("stray-file"),
            is_dir: false,
            has_git: true,
        },
    ];
    let packages = vec![package("foo", "1.0.0", &[])];
    let plan = clean_registry(&index, &vec![], &packages, false);
    assert!(plan.remove_src);
    assert_eq!(
        plan.index_cache_doomed,
        vec![String::from("github.com-1ecc6299db9ec823")]
    );
    assert_eq!(plan.archive_doomed.len(), 0);
}

#[test]
fn registry_archive_prune_keeps_exact_crate_file_names() {
    let cache = vec![CacheSourceDir {
        name: String::from("github.com-1ecc6299db9ec823"),
        entries: vec![
            entry("foo-1.0.0.crate", 0),
            entry("foo-0.9.0.crate", 0),
            entry("bar-2.0.0.crate", 0),
            EntryInfo {
                name: String::from("subdir"),
                is_dir: true,
                mtime_seconds: 0,
            },
        ],
    }];
    let packages = vec![package("foo", "1.0.0", &[]), package("bar", "2.0.0", &[])];
    let plan = clean_registry(&vec![], &cache, &packages, true);
    assert_eq!(plan.archive_doomed.len(), 1);
    assert_eq!(plan.archive_doomed[0], vec![String::from("foo-0.9.0.crate")]);
}
