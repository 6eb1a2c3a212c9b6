use mdmd::handler::{
    after_probe, ancestor_candidates, nearest_existing_parent, resolve_candidate, AncestorProbe,
    AppConfig, AppState, CandidateProbe, FileKind, Pending, ResolveBranch, Step,
};
use mdmd::backlinks::BacklinksIndex;
use mdmd::startup::{
    bind_step, confirm, dns_name_from_field, entry_not_found_message, outside_root_warning,
    parse_tailscale_dns_name, select_entry_file, select_root, startup_url, BindOutcome, BindStep,
    Confirmation, RootSelection,
};

#[test]
fn tailscale_valid_json_trims_trailing_dot() {
    let json = br#"{"Self":{"DNSName":"hostname.ts.net."}}"#;
    let result = parse_tailscale_dns_name(json).unwrap();
    assert_eq!(result, "hostname.ts.net");
}

#[test]
fn tailscale_trailing_dot_only_is_empty_err() {
    let json = br#"{"Self":{"DNSName":"."}}"#;
    let err = parse_tailscale_dns_name(json).unwrap_err();
    assert!(err.contains("empty-DNSName"), "got: {err}");
}

#[test]
fn tailscale_empty_json_object_returns_err() {
    let json = b"{}";
    assert!(parse_tailscale_dns_name(json).is_err());
}

#[test]
fn tailscale_missing_self_key_returns_err() {
    let json = br#"{"Other":{"DNSName":"hostname.ts.net."}}"#;
    let err = parse_tailscale_dns_name(json).unwrap_err();
    assert!(err.contains("no-DNSName"), "got: {err}");
}

#[test]
fn tailscale_missing_dnsname_field_returns_err() {
    let json = br#"{"Self":{"Status":"Running"}}"#;
    let err = parse_tailscale_dns_name(json).unwrap_err();
    assert!(err.contains("no-DNSName"), "got: {err}");
}

#[test]
fn tailscale_malformed_json_returns_err() {
    let json = b"not valid json {{{";
    let err = parse_tailscale_dns_name(json).unwrap_err();
    assert!(err.contains("json-parse"), "got: {err}");
}

#[test]
fn tailscale_empty_bytes_returns_err() {
    let json = b"";
    let err = parse_tailscale_dns_name(json).unwrap_err();
    assert!(err.contains("json-parse"), "got: {err}");
}


// --- the fallback order, on what the file system said ---

/// A tree of files and directories held in memory.
struct Tree {
    root: String,
    files: Vec<String>,
    dirs: Vec<String>,
}

impl Tree {
    fn new(root: &str) -> Self {
        Tree { root: root.to_string(), files: Vec::new(), dirs: vec![root.to_string()] }
    }

    fn join(&self, rel: &str) -> String {
        format!("{}/{}", self.root, rel)
    }

    fn create_dir_all(&mut self, rel: &str) {
        let mut at = self.root.clone();
        for seg in rel.split('/') {
            at = format!("{}/{}", at, seg);
            if !self.dirs.contains(&at) {
                self.dirs.push(at.clone());
            }
        }
    }

    fn write(&mut self, rel: &str) {
        let path = self.join(rel);
        self.files.push(path);
    }

    fn is_file(&self, path: &str) -> bool {
        self.files.iter().any(|f| f == path)
    }

    fn is_dir(&self, path: &str) -> bool {
        self.dirs.iter().any(|d| d == path)
    }

    fn state(&self) -> AppState {
        AppState {
            serve_root: self.root.clone(),
            canonical_root: self.root.clone(),
            entry_file: self.join("README.md"),
            entry_url_path: "/README.md".to_string(),
            config: AppConfig,
            css_etag: String::new(),
            js_etag: String::new(),
            asset_mtime_secs: 0,
            backlinks: BacklinksIndex::new(),
            verbose: false,
            css: String::new(),
            js: String::new(),
        }
    }

    /// Resolves the path `rel` below the root the way a request for it does.
    fn resolve(&self, rel: &str) -> Option<(String, &'static str)> {
        let state = self.state();
        let req = mdmd::handler::RequestHead {
            path: format!("/{}", rel),
            query: String::new(),
            if_none_match: None,
            if_modified_since: None,
        };
        let (norm, candidate, readme, index, with_md) = match mdmd::handler::begin(&state, &req) {
            Step::Ask(Pending::Probe { norm, candidate, readme, index, with_md }) => {
                (norm, candidate, readme, index, with_md)
            }
            other => panic!("expected a probe, got {:?}", other),
        };
        let probe = CandidateProbe {
            kind: if self.is_file(&candidate) {
                FileKind::File
            } else if self.is_dir(&candidate) {
                FileKind::Directory
            } else {
                FileKind::Other
            },
            readme_is_file: self.is_file(&readme),
            index_is_file: self.is_file(&index),
            with_md_is_file: with_md.as_deref().map(|p| self.is_file(p)).unwrap_or(false),
        };
        match after_probe(&state, norm, candidate, readme, index, with_md, &probe) {
            Step::Ask(Pending::Canonicalize { resolved, branch, .. }) => {
                Some((resolved, mdmd::handler::branch_label(branch)))
            }
            _ => None,
        }
    }

    /// What probing the ancestors of the missing path `rel` finds.
    fn probe_ancestors(&self, rel: &str) -> Vec<AncestorProbe> {
        ancestor_candidates(&self.join(rel))
            .iter()
            .map(|c| AncestorProbe {
                is_dir: self.is_dir(c),
                canonical: if self.is_dir(c) || self.is_file(c) { Some(c.clone()) } else { None },
            })
            .collect()
    }
}

#[test]
fn resolve_exact_file() {
    let mut dir = Tree::new("/tmp/mdmd_resolve_exact");
    dir.write("page.md");

    let candidate = dir.join("page.md");
    let (path, branch) = dir.resolve("page.md").unwrap();
    assert_eq!(branch, "exact");
    assert_eq!(path, candidate);
}

#[test]
fn resolve_extensionless_falls_back_to_md() {
    let mut dir = Tree::new("/tmp/mdmd_resolve_ext");
    dir.write("guide.md");

    // Request is for "guide" (no extension).
    let (path, branch) = dir.resolve("guide").unwrap();
    assert_eq!(branch, "extensionless");
    assert_eq!(path, dir.join("guide.md"));
}

#[test]
fn resolve_directory_readme() {
    let mut dir = Tree::new("/tmp/mdmd_resolve_readme");
    dir.create_dir_all("docs");
    dir.write("docs/README.md");

    let (path, branch) = dir.resolve("docs").unwrap();
    assert_eq!(branch, "readme");
    assert_eq!(path, dir.join("docs/README.md"));
}

#[test]
fn resolve_directory_index_fallback() {
    let mut dir = Tree::new("/tmp/mdmd_resolve_index");
    dir.create_dir_all("docs");
    // No README.md — only index.md.
    dir.write("docs/index.md");

    let (path, branch) = dir.resolve("docs").unwrap();
    assert_eq!(branch, "index");
    assert_eq!(path, dir.join("docs/index.md"));
}

#[test]
fn resolve_nonexistent_returns_none() {
    let dir = Tree::new("/tmp/mdmd_resolve_missing");

    assert!(dir.resolve("no_such_file").is_none());
}

// --- nearest_existing_parent ---

#[test]
fn nearest_parent_missing_leaf_returns_direct_parent() {
    // Structure: root/docs/ exists, root/docs/missing.md does not.
    let mut tree = Tree::new("/srv/nep_leaf");
    tree.create_dir_all("docs");

    let result = nearest_existing_parent(&tree.probe_ancestors("docs/missing.md"), &tree.root);
    assert_eq!(result, tree.join("docs"), "should return existing docs/ dir");
}

#[test]
fn nearest_parent_multi_level_miss_walks_up() {
    // Structure: root/ exists, root/a/b/c/ does not exist.
    let tree = Tree::new("/srv/nep_multi");

    let result = nearest_existing_parent(&tree.probe_ancestors("a/b/c/missing.md"), &tree.root);
    assert_eq!(result, tree.root, "should fall back to root when all parents missing");
}

#[test]
fn nearest_parent_root_fallback_when_nothing_exists() {
    // Structure: only root/ exists, no subdirs.
    let tree = Tree::new("/srv/nep_root");

    let result = nearest_existing_parent(&tree.probe_ancestors("deep/path/missing.md"), &tree.root);
    assert_eq!(result, tree.root, "should return root as ultimate fallback");
}

#[test]
fn nearest_parent_intermediate_dir_exists() {
    // Structure: root/a/b/ exists, root/a/b/c/ does not.
    let mut tree = Tree::new("/srv/nep_intermediate");
    tree.create_dir_all("a/b");

    let result =
        nearest_existing_parent(&tree.probe_ancestors("a/b/c/deep/missing.md"), &tree.root);
    assert_eq!(result, tree.join("a/b"), "should return deepest existing ancestor a/b/");
}

#[test]
fn nearest_parent_single_segment_missing_returns_root() {
    // Structure: root/ only — root/missing.md does not exist.
    let tree = Tree::new("/srv/nep_single");

    let result = nearest_existing_parent(&tree.probe_ancestors("missing.md"), &tree.root);
    assert_eq!(result, tree.root, "single missing file should return root");
}

#[test]
fn nearest_parent_encoded_segment_treated_as_literal() {
    // The path comes through normalize_path, so percent-encoding has already
    // been decoded; the segment is used literally as a directory name.
    let mut tree = Tree::new("/srv/nep_encoded");
    tree.create_dir_all("my docs");

    let result = nearest_existing_parent(&tree.probe_ancestors("my docs/missing.md"), &tree.root);
    assert_eq!(result, tree.join("my docs"), "decoded path segment should match dir with spaces");
}

#[test]
fn nearest_parent_outside_root_is_passed_over() {
    let probes = vec![
        AncestorProbe { is_dir: true, canonical: Some("/elsewhere/docs".to_string()) },
        AncestorProbe { is_dir: false, canonical: Some("/srv/tree/file".to_string()) },
        AncestorProbe { is_dir: true, canonical: None },
        AncestorProbe { is_dir: true, canonical: Some("/srv/tree".to_string()) },
    ];
    assert_eq!(nearest_existing_parent(&probes, "/srv/tree"), "/srv/tree");
    assert_eq!(nearest_existing_parent(&probes, "/elsewhere"), "/elsewhere/docs");
}

#[test]
fn ancestors_run_from_nearest_to_root() {
    assert_eq!(
        ancestor_candidates("/srv/tree/a/b/missing.md"),
        vec!["/srv/tree/a/b", "/srv/tree/a", "/srv/tree", "/srv", "/"]
    );
    assert_eq!(ancestor_candidates("a/missing.md"), vec!["a"]);
    assert!(ancestor_candidates("missing.md").is_empty());
    assert!(ancestor_candidates("").is_empty());
}

#[test]
fn resolve_candidate_follows_the_fixed_order() {
    let all = CandidateProbe {
        kind: FileKind::File,
        readme_is_file: true,
        index_is_file: true,
        with_md_is_file: true,
    };
    assert_eq!(resolve_candidate(&all, true), Some(ResolveBranch::Exact));
    let dir = CandidateProbe { kind: FileKind::Directory, ..all };
    assert_eq!(resolve_candidate(&dir, true), Some(ResolveBranch::Readme));
    let dir = CandidateProbe { kind: FileKind::Directory, readme_is_file: false, ..all };
    assert_eq!(resolve_candidate(&dir, true), Some(ResolveBranch::Index));
    let dir = CandidateProbe {
        kind: FileKind::Directory,
        readme_is_file: false,
        index_is_file: false,
        ..all
    };
    assert_eq!(resolve_candidate(&dir, true), None);
    let other = CandidateProbe { kind: FileKind::Other, ..all };
    assert_eq!(resolve_candidate(&other, true), Some(ResolveBranch::Extensionless));
    assert_eq!(resolve_candidate(&other, false), None);
}

// --- startup ---

#[test]
fn tailscale_field_without_dots_is_kept() {
    assert_eq!(dns_name_from_field(Some("host.ts.net")), Ok("host.ts.net".to_string()));
    assert_eq!(dns_name_from_field(Some("host.ts.net...")), Ok("host.ts.net".to_string()));
    assert_eq!(dns_name_from_field(Some("...")), Err("empty-DNSName".to_string()));
    assert_eq!(dns_name_from_field(Some("")), Err("empty-DNSName".to_string()));
    assert_eq!(dns_name_from_field(None), Err("no-DNSName".to_string()));
}

#[test]
fn tailscale_name_that_is_not_text_is_missing() {
    let err = parse_tailscale_dns_name(br#"{"Self":{"DNSName":42}}"#).unwrap_err();
    assert_eq!(err, "no-DNSName");
    let err = parse_tailscale_dns_name(b"[1, 2").unwrap_err();
    assert!(err.starts_with("json-parse: "), "got: {err}");
    assert!(err.len() > "json-parse: ".len());
}

#[test]
fn root_is_working_directory_for_entry_inside_it() {
    assert!(matches!(
        select_root("/home/me/notes/a.md", "/home/me", false),
        RootSelection::WorkingDirectory
    ));
    assert!(matches!(
        select_root("/home/me", "/home/me", true),
        RootSelection::WorkingDirectory
    ));
}

#[test]
fn root_outside_working_directory_is_entry_or_its_parent() {
    match select_root("/srv/docs/a.md", "/home/me", false) {
        RootSelection::Outside { new_root } => assert_eq!(new_root, "/srv/docs"),
        other => panic!("got {:?}", other),
    }
    match select_root("/srv/docs", "/home/me", true) {
        RootSelection::Outside { new_root } => assert_eq!(new_root, "/srv/docs"),
        other => panic!("got {:?}", other),
    }
    // A name that only starts like the working directory is outside it.
    match select_root("/home/men/a.md", "/home/me", false) {
        RootSelection::Outside { new_root } => assert_eq!(new_root, "/home/men"),
        other => panic!("got {:?}", other),
    }
    match select_root("/", "/home/me", false) {
        RootSelection::Outside { new_root } => assert_eq!(new_root, "/"),
        other => panic!("got {:?}", other),
    }
}

#[test]
fn confirmation_reads_yes_in_any_case() {
    assert_eq!(confirm(0, ""), Confirmation::ProceedUnasked);
    assert_eq!(confirm(2, "y\n"), Confirmation::Proceed);
    assert_eq!(confirm(4, "YES\n"), Confirmation::Proceed);
    assert_eq!(confirm(6, "  Yes \n"), Confirmation::Proceed);
    assert_eq!(confirm(2, "n\n"), Confirmation::Abort);
    assert_eq!(confirm(1, "\n"), Confirmation::Abort);
    assert_eq!(confirm(5, "yeah\n"), Confirmation::Abort);
}

#[test]
fn warning_names_the_root() {
    let lines = outside_root_warning("/srv/docs");
    assert_eq!(lines.len(), 3);
    assert_eq!(lines[0], "WARNING: Serving files from outside your current working directory.");
    assert_eq!(lines[1], "serve_root: /srv/docs");
    assert_eq!(
        lines[2],
        "Any file under this directory may be accessible to others on your network."
    );
}

#[test]
fn entry_file_of_a_directory_is_readme_then_index() {
    assert_eq!(select_entry_file("/srv/a.md", false, false, false), Ok("/srv/a.md".to_string()));
    assert_eq!(
        select_entry_file("/srv/docs", true, true, true),
        Ok("/srv/docs/README.md".to_string())
    );
    assert_eq!(
        select_entry_file("/srv/docs", true, false, true),
        Ok("/srv/docs/index.md".to_string())
    );
    assert_eq!(
        select_entry_file("/srv/docs", true, false, false),
        Err("no README.md or index.md found in directory '/srv/docs'".to_string())
    );
    assert_eq!(
        entry_not_found_message("nope.md", "No such file or directory (os error 2)"),
        "entry 'nope.md' not found: No such file or directory (os error 2)"
    );
}

#[test]
fn bind_retries_up_to_one_hundred_ports() {
    match bind_step("127.0.0.1", 3333, 0, 3333, &BindOutcome::Bound) {
        BindStep::Bound(p) => assert_eq!(p, 3333),
        other => panic!("got {:?}", other),
    }
    match bind_step("127.0.0.1", 3333, 0, 3333, &BindOutcome::AddrInUse) {
        BindStep::Retry(p) => assert_eq!(p, 3334),
        other => panic!("got {:?}", other),
    }
    match bind_step("127.0.0.1", 65500, 35, 65535, &BindOutcome::AddrInUse) {
        BindStep::Retry(p) => assert_eq!(p, 0),
        other => panic!("got {:?}", other),
    }
    match bind_step("127.0.0.1", 3333, 98, 3431, &BindOutcome::AddrInUse) {
        BindStep::Retry(p) => assert_eq!(p, 3432),
        other => panic!("got {:?}", other),
    }
    match bind_step("127.0.0.1", 3333, 99, 3432, &BindOutcome::AddrInUse) {
        BindStep::GiveUp(m) => {
            assert_eq!(m, "exhausted 100 port candidates starting at 3333; all ports in use")
        }
        other => panic!("got {:?}", other),
    }
    match bind_step(
        "10.0.0.1",
        3333,
        2,
        3335,
        &BindOutcome::Failed("Cannot assign requested address".to_string()),
    ) {
        BindStep::GiveUp(m) => {
            assert_eq!(m, "bind 10.0.0.1:3335 failed: Cannot assign requested address")
        }
        other => panic!("got {:?}", other),
    }
}

#[test]
fn startup_url_is_one_bare_line() {
    assert_eq!(startup_url(None, 3333, "/README.md"), "http://127.0.0.1:3333/README.md");
    assert_eq!(
        startup_url(Some("box.tail1234.ts.net"), 80, "/docs/a%20b.md"),
        "http://box.tail1234.ts.net:80/docs/a%20b.md"
    );
    assert_eq!(startup_url(None, 0, "/"), "http://127.0.0.1:0/");
    assert_eq!(startup_url(None, 65535, "/"), "http://127.0.0.1:65535/");
}
