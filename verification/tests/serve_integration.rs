use std::cell::RefCell;
use std::collections::BTreeMap;

use mdmd::backlinks::{
    build_backlinks_index, edge_count, index_summary, is_indexed_file, is_skipped_dir,
    SourceFile, INDEX_HINT,
};
use mdmd::handler::{
    after_canonicalize, after_freshness_canonicalize, after_freshness_stat, after_list_directory,
    after_list_parent, after_probe, after_probe_ancestors, after_read_bytes, after_read_text,
    after_stat, begin, denied_line, AncestorProbe, AppState, CandidateProbe, FileKind, FileStat,
    HttpResponse, Pending, RequestHead, Step,
};
use mdmd::listing::RawDirEntry;
use mdmd::serve::{derive_entry_url_path, format_http_date, MAX_FILE_SIZE};
use mdmd::startup::{
    confirm, outside_root_warning, select_entry_file, select_root, startup_url, Confirmation,
    RootSelection, ABORTED,
};

const CSS: &str = "h1, h2, h3 { scroll-margin-top: 4rem; }\n";
const JS: &str = "document.addEventListener('DOMContentLoaded', function () {});\n";

/// The time at which the files of a tree were written, in seconds since the
/// Unix epoch.
const WRITTEN_AT: u64 = 1_700_000_000;

/// Paths as text, joined with `/`.
trait PathText {
    fn join(&self, name: &str) -> String;
    fn parent(&self) -> Option<String>;
    fn to_path_buf(&self) -> String;
}

impl PathText for String {
    fn join(&self, name: &str) -> String {
        if self.ends_with('/') {
            format!("{}{}", self, name)
        } else {
            format!("{}/{}", self, name)
        }
    }

    fn parent(&self) -> Option<String> {
        let at = self.rfind('/')?;
        Some(if at == 0 { "/".to_string() } else { self[..at].to_string() })
    }

    fn to_path_buf(&self) -> String {
        self.clone()
    }
}

/// One entry of the tree.
#[derive(Clone)]
enum Stored {
    File { bytes: Vec<u8>, len: u64, mtime: u64 },
    Dir,
    Symlink(String),
}

/// A file system held in memory.
struct Tree {
    base: String,
    nodes: RefCell<BTreeMap<String, Stored>>,
    clock: RefCell<u64>,
}

impl Tree {
    fn new() -> Self {
        let tree = Tree {
            base: "/var/tmp/tree".to_string(),
            nodes: RefCell::new(BTreeMap::new()),
            clock: RefCell::new(WRITTEN_AT),
        };
        tree.create_dir_all("/var/tmp/tree");
        tree
    }

    fn path(&self) -> String {
        self.base.clone()
    }

    fn create_dir_all(&self, path: &str) {
        let mut at = String::new();
        self.nodes.borrow_mut().entry("/".to_string()).or_insert(Stored::Dir);
        for seg in path.split('/').filter(|s| !s.is_empty()) {
            at = format!("{}/{}", at, seg);
            self.nodes.borrow_mut().entry(at.clone()).or_insert(Stored::Dir);
        }
    }

    fn write<C: AsRef<[u8]>>(&self, path: &str, content: C) {
        if let Some(dir) = path.to_string().parent() {
            self.create_dir_all(&dir);
        }
        let bytes = content.as_ref().to_vec();
        let len = bytes.len() as u64;
        let mtime = *self.clock.borrow();
        self.nodes.borrow_mut().insert(path.to_string(), Stored::File { bytes, len, mtime });
    }

    /// A file that claims `len` bytes without holding them.
    fn write_sparse(&self, path: &str, len: u64) {
        let mtime = *self.clock.borrow();
        self.nodes
            .borrow_mut()
            .insert(path.to_string(), Stored::File { bytes: Vec::new(), len, mtime });
    }

    fn symlink(&self, target: &str, link: &str) {
        self.nodes.borrow_mut().insert(link.to_string(), Stored::Symlink(target.to_string()));
    }

    fn advance_clock(&self, secs: u64) {
        *self.clock.borrow_mut() += secs;
    }

    /// The path with every symbolic link on it followed, if it names something.
    fn canonicalize(&self, path: &str) -> Option<String> {
        let mut at = String::new();
        for seg in path.split('/').filter(|s| !s.is_empty() && *s != ".") {
            if seg == ".." {
                at = at.parent().unwrap_or_default();
                if at == "/" {
                    at = String::new();
                }
                continue;
            }
            at = format!("{}/{}", at, seg);
            let node = self.nodes.borrow().get(&at).cloned()?;
            if let Stored::Symlink(target) = node {
                at = self.canonicalize(&target)?;
                if at == "/" {
                    at = String::new();
                }
            }
        }
        Some(if at.is_empty() { "/".to_string() } else { at })
    }

    fn node(&self, path: &str) -> Option<Stored> {
        let canonical = self.canonicalize(path)?;
        self.nodes.borrow().get(&canonical).cloned()
    }

    fn is_file(&self, path: &str) -> bool {
        matches!(self.node(path), Some(Stored::File { .. }))
    }

    fn is_dir(&self, path: &str) -> bool {
        matches!(self.node(path), Some(Stored::Dir))
    }

    fn kind(&self, path: &str) -> FileKind {
        match self.node(path) {
            Some(Stored::File { .. }) => FileKind::File,
            Some(Stored::Dir) => FileKind::Directory,
            _ => FileKind::Other,
        }
    }

    fn stat(&self, path: &str) -> Option<FileStat> {
        match self.node(path)? {
            Stored::File { len, mtime, .. } => Some(FileStat { size: len, mtime_secs: Some(mtime) }),
            Stored::Dir => Some(FileStat { size: 0, mtime_secs: Some(WRITTEN_AT) }),
            Stored::Symlink(_) => None,
        }
    }

    fn read(&self, path: &str) -> Option<Vec<u8>> {
        match self.node(path)? {
            Stored::File { bytes, .. } => Some(bytes),
            _ => None,
        }
    }

    fn read_dir(&self, dir: &str) -> Option<Vec<RawDirEntry>> {
        let canonical = self.canonicalize(dir)?;
        if !self.is_dir(&canonical) {
            return None;
        }
        let prefix = if canonical == "/" { "/".to_string() } else { format!("{}/", canonical) };
        let nodes = self.nodes.borrow().clone();
        let mut out = Vec::new();
        for (path, node) in nodes.iter() {
            let Some(name) = path.strip_prefix(&prefix) else {
                continue;
            };
            if name.is_empty() || name.contains('/') {
                continue;
            }
            let is_symlink = matches!(node, Stored::Symlink(_));
            out.push(RawDirEntry {
                name: name.to_string(),
                is_symlink: Some(is_symlink),
                canonical_target: if is_symlink { self.canonicalize(path) } else { None },
                is_dir: self.node(path).map(|n| matches!(n, Stored::Dir)),
            });
        }
        Some(out)
    }

    /// The markdown files under `root` that the index is built from, found
    /// breadth first.
    fn walk(&self, root: &str) -> Vec<SourceFile> {
        let mut files = Vec::new();
        let mut queue = vec![root.to_string()];
        while !queue.is_empty() {
            let dir = queue.remove(0);
            let Some(entries) = self.read_dir(&dir) else {
                continue;
            };
            for entry in entries {
                let path = dir.join(&entry.name);
                if self.is_dir(&path) {
                    if !is_skipped_dir(&entry.name) {
                        queue.push(path);
                    }
                    continue;
                }
                if !is_indexed_file(&path) {
                    continue;
                }
                let Some(bytes) = self.read(&path) else {
                    continue;
                };
                let Ok(contents) = String::from_utf8(bytes) else {
                    continue;
                };
                files.push(SourceFile { path, contents });
            }
        }
        files
    }
}

#[derive(Clone, Copy)]
struct FixtureOptions {
    include_subdir_readme: bool,
    include_large_file: bool,
    /// A `.hidden-dotfile` in the root.
    include_dotfiles: bool,
    /// A `nested/` directory with `nested-doc.md` and `nested/inner/`.
    include_nested_dirs: bool,
}

impl Default for FixtureOptions {
    fn default() -> Self {
        Self {
            include_subdir_readme: true,
            include_large_file: false,
            include_dotfiles: false,
            include_nested_dirs: false,
        }
    }
}

struct Fixture {
    _tmp: Tree,
    root: String,
    entry: String,
}

impl Fixture {
    fn new(opts: FixtureOptions) -> Self {
        let tmp = Tree::new();
        let root = tmp.path().to_path_buf();

        let readme = root.join("README.md");
        tmp.write(
            &readme,
            "# Home\n\n## TOC Section\n\n[Guide](guide.md)\n\n| A | B |\n|---|---|\n| 1 | 2 |\n\n- [ ] todo\n- [x] done\n\n```mermaid\ngraph TD;\nA-->B;\n```\n\n<script>alert(1)</script>\n",
        );

        tmp.write(&root.join("guide.md"), "# Guide\n\nGuide content.\n");

        let subdir = root.join("subdir");
        tmp.create_dir_all(&subdir);
        if opts.include_subdir_readme {
            tmp.write(&subdir.join("README.md"), "# Subdir Readme\n");
        }
        tmp.write(&subdir.join("index.md"), "# Subdir Index\n");

        tmp.write(&root.join("image.png"), [0x89, b'P', b'N', b'G', b'\r', b'\n', 0x1A, b'\n']);

        if opts.include_large_file {
            tmp.write_sparse(&root.join("oversized.md"), MAX_FILE_SIZE + 1);
        }

        if opts.include_dotfiles {
            tmp.write(&root.join(".hidden-dotfile"), "hidden content\n");
        }

        if opts.include_nested_dirs {
            let nested = root.join("nested");
            tmp.create_dir_all(&nested.join("inner"));
            tmp.write(&nested.join("nested-doc.md"), "# Nested Doc\n");
        }

        Self { _tmp: tmp, root, entry: readme }
    }
}

struct ResponseSnapshot {
    status: u16,
    headers: Vec<(String, String)>,
    body: Vec<u8>,
}

impl ResponseSnapshot {
    fn of(r: HttpResponse) -> Self {
        let mut headers = Vec::new();
        if let Some(v) = r.content_type {
            headers.push(("content-type".to_string(), v));
        }
        if r.nosniff {
            headers.push(("x-content-type-options".to_string(), "nosniff".to_string()));
        }
        if let Some(v) = r.etag {
            headers.push(("etag".to_string(), v));
        }
        if let Some(v) = r.last_modified {
            headers.push(("last-modified".to_string(), v));
        }
        ResponseSnapshot { status: r.status, headers, body: r.body }
    }

    fn body_text(&self) -> String {
        String::from_utf8_lossy(&self.body).into_owned()
    }

    fn header(&self, name: &str) -> Option<String> {
        self.headers.iter().find(|(k, _)| k == name).map(|(_, v)| v.clone())
    }

    fn context(&self) -> String {
        let mut hdrs = String::new();
        for (k, v) in &self.headers {
            hdrs.push_str(&format!("{}: {}\n", k, v));
        }
        format!("status={}\nheaders:\n{}\nbody:\n{}", self.status, hdrs, self.body_text())
    }
}

/// What a server that has stopped leaves behind.
struct Output {
    success: bool,
    stdout: Vec<u8>,
    stderr: Vec<u8>,
}

/// A server over a tree in memory: the state that startup builds, and the
/// lines that it wrote.
struct ServerHandle<'a> {
    tree: &'a Tree,
    state: AppState,
    port: u16,
    stdout: Vec<String>,
    stderr: RefCell<Vec<String>>,
}

impl<'a> ServerHandle<'a> {
    fn new(scenario: &str, fixture: &'a Fixture) -> Self {
        let _ = scenario;
        match Self::start(&fixture._tmp, &fixture.root, &fixture.entry, None, false) {
            Ok(server) => server,
            Err(out) => panic!("server did not start: {}", String::from_utf8_lossy(&out.stderr)),
        }
    }

    fn new_verbose(scenario: &str, fixture: &'a Fixture) -> Self {
        let _ = scenario;
        match Self::start(&fixture._tmp, &fixture.root, &fixture.entry, None, true) {
            Ok(server) => server,
            Err(out) => panic!("server did not start: {}", String::from_utf8_lossy(&out.stderr)),
        }
    }

    /// Starts a server for `entry` with working directory `cwd`; `stdin` is
    /// what the user types, `None` for no input at all.
    fn start(
        tree: &'a Tree,
        cwd: &str,
        entry: &str,
        stdin: Option<&str>,
        verbose: bool,
    ) -> Result<Self, Output> {
        let mut stdout: Vec<String> = Vec::new();
        let mut stderr: Vec<String> = Vec::new();
        let fail = |stdout: &Vec<String>, stderr: &Vec<String>| Output {
            success: false,
            stdout: stdout.join("\n").into_bytes(),
            stderr: stderr.join("\n").into_bytes(),
        };
        let canonical_cwd = tree.canonicalize(cwd).unwrap_or(cwd.to_string());
        let Some(canonical_entry) = tree.canonicalize(entry) else {
            stderr.push(format!(
                "Error: {}",
                mdmd::startup::entry_not_found_message(entry, "No such file or directory")
            ));
            return Err(fail(&stdout, &stderr));
        };
        let entry_is_dir = tree.is_dir(&canonical_entry);
        let (serve_root, canonical_root) =
            match select_root(&canonical_entry, &canonical_cwd, entry_is_dir) {
                RootSelection::WorkingDirectory => (cwd.to_string(), canonical_cwd),
                RootSelection::Outside { new_root } => {
                    let canonical_new = tree.canonicalize(&new_root).unwrap_or(new_root.clone());
                    stderr.extend(outside_root_warning(&canonical_new));
                    let answer = stdin.unwrap_or("");
                    match confirm(answer.len(), answer) {
                        Confirmation::Abort => {
                            stderr.push(ABORTED.to_string());
                            return Err(fail(&stdout, &stderr));
                        }
                        Confirmation::Proceed | Confirmation::ProceedUnasked => {}
                    }
                    (new_root, canonical_new)
                }
            };
        let entry_file = match select_entry_file(
            &canonical_entry,
            entry_is_dir,
            tree.is_file(&canonical_entry.join("README.md")),
            tree.is_file(&canonical_entry.join("index.md")),
        ) {
            Ok(p) => p,
            Err(msg) => {
                stderr.push(format!("Error: {msg}"));
                return Err(fail(&stdout, &stderr));
            }
        };
        let entry_url_path = match derive_entry_url_path(&entry_file, &canonical_root) {
            Ok(p) => p,
            Err(msg) => {
                stderr.push(format!("Error: {msg}"));
                return Err(fail(&stdout, &stderr));
            }
        };
        let files = tree.walk(&canonical_root);
        let backlinks = build_backlinks_index(&canonical_root, &files);
        stderr.push(index_summary(files.len(), edge_count(&backlinks)));
        stdout.push(INDEX_HINT.to_string());
        let port = 3333;
        stdout.push(startup_url(None, port, &entry_url_path));
        let state = AppState::assemble(
            serve_root,
            canonical_root,
            entry_file,
            CSS.to_string(),
            JS.to_string(),
            WRITTEN_AT,
            backlinks,
            verbose,
        )
        .expect("the entry lies under the root");
        Ok(ServerHandle { tree, state, port, stdout, stderr: RefCell::new(stderr) })
    }

    fn url(&self, path_and_query: &str) -> String {
        path_and_query.to_string()
    }

    fn shutdown_with_sigint(self) -> Output {
        Output {
            success: true,
            stdout: self.stdout.join("\n").into_bytes(),
            stderr: self.stderr.borrow().join("\n").into_bytes(),
        }
    }

    /// Answers one request: every step of the handler, each followed by the
    /// look at the tree that it asks for.
    fn handle(&self, req: &RequestHead) -> HttpResponse {
        let tree = self.tree;
        let state = &self.state;
        let mut step = begin(state, req);
        loop {
            let pending = match step {
                Step::Done(r) => return r,
                Step::Denied(reason, r) => {
                    if state.verbose {
                        self.stderr.borrow_mut().push(denied_line(&req.path, reason));
                    }
                    return r;
                }
                Step::Ask(p) => p,
            };
            step = match pending {
                Pending::Probe { norm, candidate, readme, index, with_md } => {
                    let probe = CandidateProbe {
                        kind: tree.kind(&candidate),
                        readme_is_file: tree.is_file(&readme),
                        index_is_file: tree.is_file(&index),
                        with_md_is_file: with_md.as_deref().map(|p| tree.is_file(p)).unwrap_or(false),
                    };
                    after_probe(state, norm, candidate, readme, index, with_md, &probe)
                }
                Pending::Canonicalize { norm, resolved, .. } => {
                    after_canonicalize(state, norm, tree.canonicalize(&resolved))
                }
                Pending::Stat { norm, canonical } => {
                    let stat = tree.stat(&canonical);
                    after_stat(norm, canonical, stat)
                }
                Pending::ReadText { norm, canonical, mtime_secs } => {
                    let text = tree.read(&canonical).and_then(|b| String::from_utf8(b).ok());
                    after_read_text(state, req, &norm, &canonical, mtime_secs, text)
                }
                Pending::ReadBytes { canonical, mtime_secs, .. } => {
                    after_read_bytes(req, &canonical, mtime_secs, tree.read(&canonical))
                }
                Pending::ListDirectory { dir, url_prefix } => {
                    let mtime_secs = tree.stat(&dir).and_then(|st| st.mtime_secs);
                    after_list_directory(state, &url_prefix, tree.read_dir(&dir), mtime_secs)
                }
                Pending::ProbeAncestors { norm, candidates } => {
                    let probes: Vec<AncestorProbe> = candidates
                        .iter()
                        .map(|c| AncestorProbe {
                            is_dir: tree.is_dir(c),
                            canonical: tree.canonicalize(c),
                        })
                        .collect();
                    after_probe_ancestors(state, norm, &probes)
                }
                Pending::ListParent { norm, parent, parent_url } => {
                    after_list_parent(state, &norm, &parent_url, tree.read_dir(&parent))
                }
                Pending::FreshnessCanonicalize { candidate } => {
                    after_freshness_canonicalize(state, tree.canonicalize(&candidate))
                }
                Pending::FreshnessStat { canonical } => after_freshness_stat(tree.stat(&canonical)),
            };
        }
    }
}

fn request(path_and_query: &str, headers: &[(&str, &str)]) -> RequestHead {
    let (path, query) = match path_and_query.split_once('?') {
        Some((p, q)) => (p.to_string(), q.to_string()),
        None => (path_and_query.to_string(), String::new()),
    };
    let find = |name: &str| {
        headers.iter().find(|(k, _)| k.eq_ignore_ascii_case(name)).map(|(_, v)| v.to_string())
    };
    RequestHead {
        path,
        query,
        if_none_match: find("if-none-match"),
        if_modified_since: find("if-modified-since"),
    }
}

fn fetch(server: &ServerHandle, path_and_query: &str) -> ResponseSnapshot {
    ResponseSnapshot::of(server.handle(&request(path_and_query, &[])))
}

fn fetch_with_headers(
    server: &ServerHandle,
    path_and_query: &str,
    headers: &[(&str, &str)],
) -> ResponseSnapshot {
    ResponseSnapshot::of(server.handle(&request(path_and_query, headers)))
}

/// The status that a request line with this path, sent as it is, gets.
fn raw_http_status(server: &ServerHandle, path: &str) -> u16 {
    server.handle(&request(path, &[])).status
}

fn assert_status(resp: &ResponseSnapshot, expected: u16) {
    assert_eq!(resp.status, expected, "unexpected HTTP status\n{}", resp.context());
}

fn assert_header_contains(resp: &ResponseSnapshot, name: &str, needle: &str) {
    let value = resp
        .header(name)
        .unwrap_or_else(|| panic!("missing header '{}'\n{}", name, resp.context()));
    assert!(
        value.contains(needle),
        "header '{}' value '{}' does not contain '{}'\n{}",
        name,
        value,
        needle,
        resp.context()
    );
}

fn assert_header_eq(resp: &ResponseSnapshot, name: &str, expected: &str) {
    let value = resp
        .header(name)
        .unwrap_or_else(|| panic!("missing header '{}'\n{}", name, resp.context()));
    assert_eq!(value, expected, "unexpected header '{}'\n{}", name, resp.context());
}

/// The number after `"mtime":` in a freshness answer.
fn mtime_of(body: &str) -> u64 {
    let json: serde_json::Value =
        serde_json::from_str(body).expect("freshness response must be valid JSON");
    json["mtime"].as_u64().expect("mtime must be a u64")
}

/// Three pages that link to each other: `a.md` to a section of `b.md`,
/// `c.md` and `d.md` to `target.md`, and `empty.md` that nothing links to.
fn make_backlinks_fixture() -> Fixture {
    let tmp = Tree::new();
    let root = tmp.path().to_path_buf();

    tmp.write(&root.join("a.md"), "# Page A\n\nSee also [Page B](./b.md#section-1).\n");
    tmp.write(&root.join("b.md"), "# Page B\n\n## Section 1\n\nContent here.\n");
    tmp.write(&root.join("empty.md"), "# Empty\n\nNo links here.\n");
    tmp.write(&root.join("c.md"), "# Page C\n\n[Target](./target.md)\n");
    tmp.write(&root.join("d.md"), "# Page D\n\n[Target](./target.md)\n");
    tmp.write(&root.join("target.md"), "# Target\n\nTarget content.\n");

    Fixture { entry: root.join("a.md"), _tmp: tmp, root }
}

/// One page, for the freshness endpoint.
fn make_freshness_fixture() -> Fixture {
    let tmp = Tree::new();
    let root = tmp.path().to_path_buf();
    tmp.write(&root.join("fixture.md"), "# Test\n\nInitial content.\n");
    Fixture { entry: root.join("fixture.md"), _tmp: tmp, root }
}

#[test]
fn test_serve_basic_html() {
    let fixture = Fixture::new(FixtureOptions::default());
    let server = ServerHandle::new("test_serve_basic_html", &fixture);

    let resp = fetch(&server, "/README.md");
    assert_status(&resp, 200);
    assert_header_contains(&resp, "content-type", "text/html");
}

#[test]
fn test_serve_toc_present() {
    let fixture = Fixture::new(FixtureOptions::default());
    let server = ServerHandle::new("test_serve_toc_present", &fixture);

    let resp = fetch(&server, "/README.md");
    assert_status(&resp, 200);
    let body = resp.body_text();
    assert!(
        body.contains("<nav class=\"toc-sidebar\">") && body.contains("href=\"#home\""),
        "TOC not present\n{}",
        resp.context()
    );
}

#[test]
fn test_serve_raw_mode() {
    let fixture = Fixture::new(FixtureOptions::default());
    let server = ServerHandle::new("test_serve_raw_mode", &fixture);

    let resp = fetch(&server, "/README.md?raw=1");
    assert_status(&resp, 200);
    assert_header_contains(&resp, "content-type", "text/plain");
    assert!(
        resp.body_text().contains("# Home"),
        "raw markdown source missing\n{}",
        resp.context()
    );
}

#[test]
fn test_serve_table_rendered() {
    let fixture = Fixture::new(FixtureOptions::default());
    let server = ServerHandle::new("test_serve_table_rendered", &fixture);

    let resp = fetch(&server, "/README.md");
    assert_status(&resp, 200);
    assert!(
        resp.body_text().contains("<table>"),
        "table not rendered\n{}",
        resp.context()
    );
}

#[test]
fn test_serve_task_list_rendered() {
    let fixture = Fixture::new(FixtureOptions::default());
    let server = ServerHandle::new("test_serve_task_list_rendered", &fixture);

    let resp = fetch(&server, "/README.md");
    assert_status(&resp, 200);
    assert!(
        resp.body_text().contains("<input") && resp.body_text().contains("checkbox"),
        "task list checkbox not rendered\n{}",
        resp.context()
    );
}

#[test]
fn test_serve_mermaid_placeholder() {
    let fixture = Fixture::new(FixtureOptions::default());
    let server = ServerHandle::new("test_serve_mermaid_placeholder", &fixture);

    let resp = fetch(&server, "/README.md");
    assert_status(&resp, 200);
    assert!(
        resp.body_text().contains("class=\"mermaid\""),
        "mermaid placeholder missing\n{}",
        resp.context()
    );
}

#[test]
fn test_serve_mermaid_cdn_script() {
    let fixture = Fixture::new(FixtureOptions::default());
    let server = ServerHandle::new("test_serve_mermaid_cdn_script", &fixture);

    let resp = fetch(&server, "/README.md");
    assert_status(&resp, 200);
    assert!(
        resp.body_text()
            .contains("https://cdn.jsdelivr.net/npm/mermaid@10.9.3/dist/mermaid.min.js"),
        "pinned mermaid CDN script missing\n{}",
        resp.context()
    );
}

#[test]
fn test_serve_root_index() {
    let fixture = Fixture::new(FixtureOptions::default());
    let server = ServerHandle::new("test_serve_root_index", &fixture);

    let resp = fetch(&server, "/");
    assert_status(&resp, 200);
    assert_header_contains(&resp, "content-type", "text/html");
    let body = resp.body_text();
    // Must render a directory index, not entry markdown content.
    assert!(
        body.contains("Index of /"),
        "root index missing listing header\n{}",
        resp.context()
    );
    // At least one fixture root file must appear in the listing.
    assert!(
        body.contains("README.md") || body.contains("guide.md"),
        "root index missing fixture file entries\n{}",
        resp.context()
    );
    // Must NOT serve the raw markdown source as the page.
    assert!(
        !body.contains("# Home"),
        "GET / must not serve raw markdown source\n{}",
        resp.context()
    );
}

#[test]
fn test_serve_local_md_link_resolves() {
    let fixture = Fixture::new(FixtureOptions::default());
    let server = ServerHandle::new("test_serve_local_md_link_resolves", &fixture);

    let resp = fetch(&server, "/guide.md");
    assert_status(&resp, 200);
    assert_header_contains(&resp, "content-type", "text/html");
}

#[test]
fn test_serve_traversal_denied() {
    let fixture = Fixture::new(FixtureOptions::default());
    let server = ServerHandle::new("test_serve_traversal_denied", &fixture);

    let status = raw_http_status(&server, "/../etc/passwd");
    assert_eq!(status, 404, "expected traversal request to be denied");
}

#[test]
fn test_serve_url_encoded_traversal_denied() {
    let fixture = Fixture::new(FixtureOptions::default());
    let server = ServerHandle::new("test_serve_url_encoded_traversal_denied", &fixture);

    let resp = fetch(&server, "/%2e%2e/etc/passwd");
    assert_status(&resp, 404);
}

#[test]
fn test_serve_symlink_escape_denied() {
    let fixture = Fixture::new(FixtureOptions::default());
    let outside = fixture.root.parent().unwrap().join("outside-secret.md");
    fixture._tmp.write(&outside, "# secret\n");
    fixture._tmp.symlink(&outside, &fixture.root.join("escape.md"));

    let server = ServerHandle::new("test_serve_symlink_escape_denied", &fixture);
    let resp = fetch(&server, "/escape.md");
    assert_status(&resp, 404);
}

#[test]
fn test_serve_extensionless_resolves() {
    let fixture = Fixture::new(FixtureOptions::default());
    let server = ServerHandle::new("test_serve_extensionless_resolves", &fixture);

    let resp = fetch(&server, "/guide");
    assert_status(&resp, 200);
}

#[test]
fn test_serve_directory_readme_resolves() {
    let fixture = Fixture::new(FixtureOptions {
        include_subdir_readme: true,
        include_large_file: false,
        ..Default::default()
    });
    let server = ServerHandle::new("test_serve_directory_readme_resolves", &fixture);

    let resp = fetch(&server, "/subdir/");
    assert_status(&resp, 200);
    assert!(
        resp.body_text().contains("Subdir Readme"),
        "directory README did not resolve\n{}",
        resp.context()
    );
}

#[test]
fn test_serve_directory_index_resolves() {
    let fixture = Fixture::new(FixtureOptions {
        include_subdir_readme: false,
        include_large_file: false,
        ..Default::default()
    });
    let server = ServerHandle::new("test_serve_directory_index_resolves", &fixture);

    let resp = fetch(&server, "/subdir/");
    assert_status(&resp, 200);
    assert!(
        resp.body_text().contains("Subdir Index"),
        "directory index fallback did not resolve\n{}",
        resp.context()
    );
}

#[test]
fn test_serve_static_asset_image() {
    let fixture = Fixture::new(FixtureOptions::default());
    let server = ServerHandle::new("test_serve_static_asset_image", &fixture);

    let resp = fetch(&server, "/image.png");
    assert_status(&resp, 200);
    assert_header_eq(&resp, "content-type", "image/png");
}

#[test]
fn test_serve_nosniff_header() {
    let fixture = Fixture::new(FixtureOptions {
        include_subdir_readme: true,
        include_large_file: true,
        ..Default::default()
    });
    let server = ServerHandle::new("test_serve_nosniff_header", &fixture);

    let ok = fetch(&server, "/");
    assert_status(&ok, 200);
    assert_header_eq(&ok, "x-content-type-options", "nosniff");

    let not_found = fetch(&server, "/missing.md");
    assert_status(&not_found, 404);
    assert_header_eq(&not_found, "x-content-type-options", "nosniff");

    let too_large = fetch(&server, "/oversized.md");
    assert_status(&too_large, 413);
    assert_header_eq(&too_large, "x-content-type-options", "nosniff");
}

#[test]
fn test_serve_etag_present() {
    let fixture = Fixture::new(FixtureOptions::default());
    let server = ServerHandle::new("test_serve_etag_present", &fixture);

    let resp = fetch(&server, "/guide");
    assert_status(&resp, 200);
    let etag = resp
        .header("etag")
        .unwrap_or_else(|| panic!("missing ETag\n{}", resp.context()));
    assert!(
        etag.starts_with('"') && etag.ends_with('"'),
        "invalid ETag '{}'\n{}",
        etag,
        resp.context()
    );
}

#[test]
fn test_serve_304_on_etag_match() {
    let fixture = Fixture::new(FixtureOptions::default());
    let server = ServerHandle::new("test_serve_304_on_etag_match", &fixture);

    let first = fetch(&server, "/guide");
    assert_status(&first, 200);
    let etag = first
        .header("etag")
        .unwrap_or_else(|| panic!("missing ETag\n{}", first.context()));

    let second = fetch_with_headers(&server, "/guide", &[("if-none-match", &etag)],
    );
    assert_status(&second, 304);
    assert!(
        second.body.is_empty(),
        "304 response must have empty body\n{}",
        second.context()
    );
}

#[test]
fn test_serve_200_on_etag_mismatch() {
    let fixture = Fixture::new(FixtureOptions::default());
    let server = ServerHandle::new("test_serve_200_on_etag_mismatch", &fixture);

    let resp = fetch_with_headers(&server, "/guide", &[("if-none-match", "\"definitely-wrong-etag\"")],
    );
    assert_status(&resp, 200);
    assert!(
        !resp.body.is_empty(),
        "ETag mismatch must return full body\n{}",
        resp.context()
    );
}

#[test]
fn test_serve_304_on_modified_since() {
    let fixture = Fixture::new(FixtureOptions::default());
    let server = ServerHandle::new("test_serve_304_on_modified_since", &fixture);

    let future = format_http_date(WRITTEN_AT + 24 * 60 * 60).expect("a date that can be written");
    let resp = fetch_with_headers(&server, "/guide", &[("if-modified-since", &future)],
    );
    assert_status(&resp, 304);
    assert!(
        resp.body.is_empty(),
        "304 response must have empty body\n{}",
        resp.context()
    );
}

#[test]
fn test_serve_200_on_modified_since_older() {
    let fixture = Fixture::new(FixtureOptions::default());
    let server = ServerHandle::new("test_serve_200_on_modified_since_older", &fixture);

    let old = "Thu, 01 Jan 1970 00:00:00 GMT";
    let resp = fetch_with_headers(&server, "/guide", &[("if-modified-since", old)],
    );
    assert_status(&resp, 200);
    assert!(
        !resp.body.is_empty(),
        "old If-Modified-Since must return full body\n{}",
        resp.context()
    );
}

#[test]
fn test_serve_file_too_large() {
    let fixture = Fixture::new(FixtureOptions {
        include_subdir_readme: true,
        include_large_file: true,
        ..Default::default()
    });
    let server = ServerHandle::new("test_serve_file_too_large", &fixture);

    let resp = fetch(&server, "/oversized.md");
    assert_status(&resp, 413);
}

#[test]
fn test_serve_script_stripped() {
    let fixture = Fixture::new(FixtureOptions::default());
    let server = ServerHandle::new("test_serve_script_stripped", &fixture);

    let resp = fetch(&server, "/");
    assert_status(&resp, 200);
    let body = resp.body_text();
    assert!(
        !body.contains("<script>alert(1)</script>") && !body.contains("alert(1)"),
        "input script tag leaked into rendered body\n{}",
        resp.context()
    );
}

#[test]
fn test_serve_assets_css() {
    let fixture = Fixture::new(FixtureOptions::default());
    let server = ServerHandle::new("test_serve_assets_css", &fixture);

    let resp = fetch(&server, "/assets/mdmd.css");
    assert_status(&resp, 200);
    assert_header_contains(&resp, "content-type", "text/css");
}

#[test]
fn test_serve_assets_js() {
    let fixture = Fixture::new(FixtureOptions::default());
    let server = ServerHandle::new("test_serve_assets_js", &fixture);

    let resp = fetch(&server, "/assets/mdmd.js");
    assert_status(&resp, 200);
    assert_header_contains(&resp, "content-type", "text/javascript");
}

/// End-to-end test for directory index rendering policies:
/// - Root index (`GET /`) lists directory contents.
/// - Bare directory (`GET /bare-dir/`) with no README.md/index.md renders index.
/// - Dotfiles are excluded from listings.
/// - Directories appear before files (dirs-first alphabetical sort).
/// - Breadcrumb root link is present.
#[test]
fn test_serve_directory_index_policies() {
    let tmp = Tree::new();
    let root = tmp.path().to_path_buf();

    // Entry file required for server startup.
    let entry = root.join("README.md");
    tmp.write(&entry, "# Root\n");

    // A bare directory (no README.md / index.md) → should trigger directory listing.
    let bare_dir = root.join("bare-dir");
    tmp.create_dir_all(&bare_dir);

    // Files: mixed-order to validate alphabetical sort within files group.
    tmp.write(&bare_dir.join("zzz-file.txt"), "zzz");
    tmp.write(&bare_dir.join("aaa-file.md"), "# aaa");

    // Subdirectory: must appear before files in listing.
    tmp.create_dir_all(&bare_dir.join("bbb-subdir"));

    // Dotfile: must be excluded from listing.
    tmp.write(&bare_dir.join(".hidden-file"), "hidden");

    let fixture = Fixture { _tmp: tmp, root, entry };
    let server = ServerHandle::new("test_serve_directory_index_policies", &fixture);

    // --- Root index: GET / always renders directory listing even when README.md exists ---
    let root_resp = fetch(&server, "/");
    assert_status(&root_resp, 200);
    assert_header_contains(&root_resp, "content-type", "text/html");
    let root_body = root_resp.body_text();
    assert!(
        root_body.contains("Index of /"),
        "root index header missing\n{}",
        root_resp.context()
    );
    assert!(
        root_body.contains("README.md") || root_body.contains("bare-dir"),
        "root index missing fixture entries\n{}",
        root_resp.context()
    );
    // Root breadcrumb link must be present.
    assert!(
        root_body.contains("href=\"/\""),
        "root breadcrumb link missing\n{}",
        root_resp.context()
    );
    // README.md raw markdown source must NOT be served for GET /.
    assert!(
        !root_body.contains("# Root"),
        "GET / must not serve raw markdown\n{}",
        root_resp.context()
    );

    // --- Bare directory: GET /bare-dir/ renders directory listing ---
    let dir_resp = fetch(&server, "/bare-dir/");
    assert_status(&dir_resp, 200);
    assert_header_contains(&dir_resp, "content-type", "text/html");
    let dir_body = dir_resp.body_text();

    // Must show directory index header with the directory path.
    assert!(
        dir_body.contains("Index of /bare-dir"),
        "directory index header missing\n{}",
        dir_resp.context()
    );

    // Visible files and dirs must be present.
    assert!(
        dir_body.contains("bbb-subdir"),
        "bbb-subdir missing from listing\n{}",
        dir_resp.context()
    );
    assert!(
        dir_body.contains("aaa-file.md"),
        "aaa-file.md missing from listing\n{}",
        dir_resp.context()
    );
    assert!(
        dir_body.contains("zzz-file.txt"),
        "zzz-file.txt missing from listing\n{}",
        dir_resp.context()
    );

    // Dotfile must be excluded.
    assert!(
        !dir_body.contains(".hidden-file"),
        "dotfile must be excluded from listing\n{}",
        dir_resp.context()
    );

    // Directories must appear before files (dirs-first policy).
    let pos_subdir = dir_body
        .find("bbb-subdir")
        .expect("bbb-subdir not found in body");
    let pos_file = dir_body
        .find("aaa-file.md")
        .expect("aaa-file.md not found in body");
    assert!(
        pos_subdir < pos_file,
        "directories must appear before files (bbb-subdir should precede aaa-file.md)\n{}",
        dir_resp.context()
    );

    // Files must be alphabetically sorted within the files group.
    let pos_aaa = dir_body
        .find("aaa-file.md")
        .expect("aaa-file.md not found in body");
    let pos_zzz = dir_body
        .find("zzz-file.txt")
        .expect("zzz-file.txt not found in body");
    assert!(
        pos_aaa < pos_zzz,
        "files must be alphabetically sorted (aaa-file.md before zzz-file.txt)\n{}",
        dir_resp.context()
    );

    // Breadcrumb root link must be present.
    assert!(
        dir_body.contains("href=\"/\""),
        "breadcrumb root link missing\n{}",
        dir_resp.context()
    );
}

/// Verify that an in-root symlink is included while an out-of-root symlink is
/// excluded from directory listings.
#[test]
fn test_serve_directory_index_symlink_policy() {
    let tmp = Tree::new();
    let root = tmp.path().to_path_buf();

    let entry = root.join("README.md");
    tmp.write(&entry, "# Root\n");

    let sym_dir = root.join("sym-test");
    tmp.create_dir_all(&sym_dir);

    // Safe target: inside the serve root.
    let safe_target = root.join("safe-target.txt");
    tmp.write(&safe_target, "safe");
    tmp.symlink(&safe_target, &sym_dir.join("safe-link.txt"));

    // Dangerous target: outside the serve root.
    let outside = "/var/tmp/mdmd_outside_symtest.txt".to_string();
    tmp.write(&outside, "secret");
    tmp.symlink(&outside, &sym_dir.join("escape-link.txt"));

    let fixture = Fixture { _tmp: tmp, root, entry };
    let server = ServerHandle::new("test_serve_directory_index_symlink_policy", &fixture);

    let resp = fetch(&server, "/sym-test/");
    assert_status(&resp, 200);
    let body = resp.body_text();

    // In-root symlink should be included.
    assert!(
        body.contains("safe-link.txt"),
        "in-root symlink must be included in listing\n{}",
        resp.context()
    );

    // Out-of-root symlink must be excluded.
    assert!(
        !body.contains("escape-link.txt"),
        "out-of-root symlink must be excluded from listing\n{}",
        resp.context()
    );
}

/// End-to-end test for the rich HTML 404 page:
/// - Missing path returns 404 with `content-type: text/html`.
/// - Body contains the requested path.
/// - Body contains recovery links: root index, entry document, nearest parent.
/// - Body contains a directory listing for the nearest existing parent.
/// - Security denials (traversal, encoded traversal) continue to return 404.
#[test]
fn test_serve_rich_404_recovery() {
    let tmp = Tree::new();
    let root = tmp.path().to_path_buf();

    let entry = root.join("README.md");
    tmp.write(&entry, "# Root\n");

    // Create a subdirectory with some files.
    let docs = root.join("docs");
    tmp.create_dir_all(&docs);
    tmp.write(&docs.join("intro.md"), "# Intro\n");
    tmp.write(&docs.join("guide.md"), "# Guide\n");

    let fixture = Fixture { _tmp: tmp, root, entry };
    let server = ServerHandle::new("test_serve_rich_404_recovery", &fixture);

    // --- Missing leaf: /docs/nonexistent.md → parent is /docs/ ---
    let resp = fetch(&server, "/docs/nonexistent.md");
    assert_status(&resp, 404);
    assert_header_contains(&resp, "content-type", "text/html");
    assert_header_eq(&resp, "x-content-type-options", "nosniff");

    let body = resp.body_text();

    // The requested path must appear in the page body.
    assert!(
        body.contains("docs/nonexistent.md"),
        "requested path missing from 404 body\n{}",
        resp.context()
    );

    // Root index recovery link must be present.
    assert!(
        body.contains("href=\"/\""),
        "root index recovery link missing\n{}",
        resp.context()
    );

    // Entry document recovery link must be present.
    assert!(
        body.contains("href=\"/README.md\""),
        "entry document link missing\n{}",
        resp.context()
    );

    // Nearest-parent recovery link must point at /docs/.
    assert!(
        body.contains("href=\"/docs/\""),
        "nearest parent link missing\n{}",
        resp.context()
    );

    // Nearest-parent directory listing must include sibling files.
    assert!(
        body.contains("intro.md"),
        "nearest parent listing missing intro.md\n{}",
        resp.context()
    );
    assert!(
        body.contains("guide.md"),
        "nearest parent listing missing guide.md\n{}",
        resp.context()
    );

    // --- Multi-level miss: /docs/a/b/missing.md → nearest parent is /docs/ ---
    let resp2 = fetch(&server, "/docs/a/b/missing.md");
    assert_status(&resp2, 404);
    assert_header_contains(&resp2, "content-type", "text/html");
    let body2 = resp2.body_text();
    assert!(
        body2.contains("href=\"/docs/\"") || body2.contains("href=\"/\""),
        "multi-level miss recovery link missing\n{}",
        resp2.context()
    );

    // --- Entirely missing path: /gone/missing.md → nearest parent is root / ---
    let resp3 = fetch(&server, "/gone/missing.md");
    assert_status(&resp3, 404);
    assert_header_contains(&resp3, "content-type", "text/html");
    let body3 = resp3.body_text();
    assert!(
        body3.contains("href=\"/\""),
        "root fallback recovery link missing\n{}",
        resp3.context()
    );
}

/// End-to-end validation of the fallback order of the resolver.
///
/// Pins the four branches (exact, extensionless, readme, index) so a
/// regression in the fallback logic is detected immediately.
#[test]
fn test_serve_resolve_fallback_order_http() {
    let tmp = Tree::new();
    let root = tmp.path().to_path_buf();

    let entry = root.join("README.md");
    tmp.write(&entry, "# Root\n");

    // Branch 1 – exact: /page.md exists.
    tmp.write(&root.join("page.md"), "# Page\n");

    // Branch 2 – extensionless: /noext → /noext.md.
    tmp.write(&root.join("noext.md"), "# NoExt\n");

    // Branch 3 – readme: /has-readme/ → README.md.
    let has_readme = root.join("has-readme");
    tmp.create_dir_all(&has_readme);
    tmp.write(&has_readme.join("README.md"), "# DirReadme\n");

    // Branch 4 – index: /has-index/ → index.md (no README.md present).
    let has_index = root.join("has-index");
    tmp.create_dir_all(&has_index);
    tmp.write(&has_index.join("index.md"), "# DirIndex\n");

    let fixture = Fixture { _tmp: tmp, root, entry };
    let server = ServerHandle::new("test_serve_resolve_fallback_order_http", &fixture);

    // 1. Exact path.
    let resp = fetch(&server, "/page.md");
    assert_status(&resp, 200);
    assert!(
        resp.body_text().contains("Page"),
        "exact branch: expected 'Page' in body\n{}",
        resp.context()
    );

    // 2. Extensionless → .md appended.
    let resp = fetch(&server, "/noext");
    assert_status(&resp, 200);
    assert!(
        resp.body_text().contains("NoExt"),
        "extensionless branch: expected 'NoExt' in body\n{}",
        resp.context()
    );

    // 3. Directory → README.md.
    let resp = fetch(&server, "/has-readme/");
    assert_status(&resp, 200);
    assert!(
        resp.body_text().contains("DirReadme"),
        "readme branch: expected 'DirReadme' in body\n{}",
        resp.context()
    );

    // 4. Directory → index.md (README.md absent).
    let resp = fetch(&server, "/has-index/");
    assert_status(&resp, 200);
    assert!(
        resp.body_text().contains("DirIndex"),
        "index branch: expected 'DirIndex' in body\n{}",
        resp.context()
    );
}

/// Validates link rewriting when the entry file is nested under
/// a subdirectory (the working directory is the root).
///
/// serve_root = CWD = <fixture root>
/// entry_file = <fixture root>/subdir/README.md
///
/// Links in subdir/README.md must rewrite to root-relative hrefs that include
/// the "subdir/" prefix.  If serve_root were still set to entry_file.parent()
/// these assertions would fail, making this a direct regression guard for the
/// CWD-root change.
#[test]
fn test_serve_nested_entry_rewritten_links_root_relative() {
    let tmp = Tree::new();
    let root = tmp.path().to_path_buf();

    let subdir = root.join("subdir");
    tmp.create_dir_all(&subdir);

    // Entry file with three kinds of relative links.
    tmp.write(&subdir.join("README.md"), "# Nested\n\n\
         [sibling](sibling.md)\n\n\
         [parent file](../other.md)\n\n\
         [extensionless](sibling)\n");

    tmp.write(&subdir.join("sibling.md"), "# Sibling\n");
    tmp.write(&root.join("other.md"), "# Other\n");

    let fixture = Fixture {
        _tmp: tmp,
        root,
        entry: subdir.join("README.md"),
    };
    let server =
        ServerHandle::new("test_serve_nested_entry_rewritten_links_root_relative", &fixture);

    let resp = fetch(&server, "/subdir/README.md");
    assert_status(&resp, 200);
    let body = resp.body_text();

    // Sibling link must be root-relative with the subdir prefix.
    assert!(
        body.contains("href=\"/subdir/sibling.md\""),
        "sibling link must be /subdir/sibling.md\n{}",
        resp.context()
    );

    // Parent-level link (../other.md) must resolve to /other.md.
    assert!(
        body.contains("href=\"/other.md\""),
        "parent link must be /other.md\n{}",
        resp.context()
    );

    // Extensionless link must include the subdir prefix.
    assert!(
        body.contains("href=\"/subdir/sibling\""),
        "extensionless link must be /subdir/sibling\n{}",
        resp.context()
    );
}

/// Validates that rewritten link targets in a nested-entry scenario are all
/// reachable (HTTP 200) via the same server instance.
#[test]
fn test_serve_nested_entry_rewritten_link_targets_reachable() {
    let tmp = Tree::new();
    let root = tmp.path().to_path_buf();

    let subdir = root.join("subdir");
    tmp.create_dir_all(&subdir);

    tmp.write(&subdir.join("README.md"), "# Nested\n\n\
         [sibling](sibling.md)\n\n\
         [parent file](../other.md)\n\n\
         [extensionless](sibling)\n");

    tmp.write(&subdir.join("sibling.md"), "# Sibling\n");
    tmp.write(&root.join("other.md"), "# Other\n");

    let fixture = Fixture {
        _tmp: tmp,
        root,
        entry: subdir.join("README.md"),
    };
    let server = ServerHandle::new(
        "test_serve_nested_entry_rewritten_link_targets_reachable",
        &fixture,
    );

    // /subdir/sibling.md — exact path resolve.
    let resp = fetch(&server, "/subdir/sibling.md");
    assert_status(&resp, 200);

    // /other.md — root-level file reachable from nested entry.
    let resp = fetch(&server, "/other.md");
    assert_status(&resp, 200);

    // /subdir/sibling — extensionless resolve (adds .md).
    let resp = fetch(&server, "/subdir/sibling");
    assert_status(&resp, 200);
}

/// End-to-end navigation flow starting at the root directory index.
///
/// Validates that:
/// 1. `GET /` returns a directory listing (not entry markdown source).
/// 2. The listing contains a navigable href to the entry document.
/// 3. Following that href returns rendered markdown HTML (200, text/html).
/// 4. The entry HTML contains a rendered heading, confirming it is not raw source.
#[test]
fn test_serve_root_index_links_to_entry() {
    let fixture = Fixture::new(FixtureOptions::default());
    let server = ServerHandle::new("test_serve_root_index_links_to_entry", &fixture);

    // Step 1: Root index must be a directory listing.
    let index_resp = fetch(&server, "/");
    assert_status(&index_resp, 200);
    assert_header_contains(&index_resp, "content-type", "text/html");
    let index_body = index_resp.body_text();
    assert!(
        index_body.contains("Index of /"),
        "GET / must return directory index\n{}",
        index_resp.context()
    );

    // Step 2: Listing must contain a navigable href to the entry document.
    // The fixture entry is root/README.md, so the listing must include href="/README.md".
    assert!(
        index_body.contains("href=\"/README.md\""),
        "root index must contain href to entry document /README.md\n{}",
        index_resp.context()
    );

    // Step 3: Following the entry link must return rendered markdown HTML.
    let entry_resp = fetch(&server, "/README.md");
    assert_status(&entry_resp, 200);
    assert_header_contains(&entry_resp, "content-type", "text/html");

    // Step 4: Rendered HTML must contain a heading, confirming markdown was processed.
    let entry_body = entry_resp.body_text();
    assert!(
        entry_body.contains("<h1"),
        "entry document must render as HTML with an h1 heading\n{}",
        entry_resp.context()
    );
    // Raw markdown source must not be served.
    assert!(
        !entry_body.contains("# Home"),
        "entry response must not contain raw markdown source\n{}",
        entry_resp.context()
    );
}

/// Verifies that `FixtureOptions::include_dotfiles` creates a dotfile and that
/// it is excluded from directory listings, and that `include_nested_dirs`
/// creates a navigable nested directory structure.
#[test]
fn test_fixture_options_dotfiles_and_nested_dirs() {
    let fixture = Fixture::new(FixtureOptions {
        include_subdir_readme: false,
        include_large_file: false,
        include_dotfiles: true,
        include_nested_dirs: true,
    });
    let server = ServerHandle::new("test_fixture_options_dotfiles_and_nested_dirs", &fixture);

    // Root index must NOT list the dotfile.
    let root_resp = fetch(&server, "/");
    assert_status(&root_resp, 200);
    let root_body = root_resp.body_text();
    assert!(
        !root_body.contains(".hidden-dotfile"),
        "dotfile must be excluded from root listing\n{}",
        root_resp.context()
    );

    // Nested directory must be listed and navigable.
    assert!(
        root_body.contains("nested"),
        "nested/ dir must appear in root listing\n{}",
        root_resp.context()
    );

    // GET /nested/ must list nested-doc.md and inner/.
    let nested_resp = fetch(&server, "/nested/");
    assert_status(&nested_resp, 200);
    let nested_body = nested_resp.body_text();
    assert!(
        nested_body.contains("nested-doc.md"),
        "nested-doc.md must appear in /nested/ listing\n{}",
        nested_resp.context()
    );
    assert!(
        nested_body.contains("inner"),
        "inner/ subdir must appear in /nested/ listing\n{}",
        nested_resp.context()
    );

    // Nested markdown doc must be directly reachable and render as HTML.
    let doc_resp = fetch(&server, "/nested/nested-doc.md");
    assert_status(&doc_resp, 200);
    assert_header_contains(&doc_resp, "content-type", "text/html");
}

/// Validates that cross-directory links resolve when both the source and target
/// reside within the selected serve_root (broad root scenario).
///
/// Fixture layout:
///   parent/               ← serve_root (CWD = parent/)
///     docs/
///       a.md              ← entry; links to ../other/b.md
///     other/
///       b.md              ← cross-dir target (inside broad root)
///
/// Expected:
/// - GET /other/b.md → 200 (target is inside broad root)
/// - GET /docs/a.md → 200; body contains href="/other/b.md" (link rewritten)
#[test]
fn test_serve_cross_dir_link_broad_root_allows() {
    let tmp = Tree::new();
    let parent = tmp.path().to_path_buf();

    let docs = parent.join("docs");
    let other = parent.join("other");
    tmp.create_dir_all(&docs);
    tmp.create_dir_all(&other);

    tmp.write(&docs.join("a.md"), "# Doc A\n\nSee [Doc B](../other/b.md).\n");
    tmp.write(&other.join("b.md"), "# Doc B\n\nContent of B.\n");

    // Broad root: CWD = parent (entry docs/a.md is inside parent → serve_root = parent)
    let fixture = Fixture {
        _tmp: tmp,
        root: parent.clone(),
        entry: docs.join("a.md"),
    };
    let server = ServerHandle::new("test_serve_cross_dir_link_broad_root_allows", &fixture);

    // Cross-dir target /other/b.md is inside broad root → must be accessible.
    let resp = fetch(&server, "/other/b.md");
    assert_status(&resp, 200);
    assert!(
        resp.body_text().contains("Doc B"),
        "cross-dir target /other/b.md must be accessible with broad root\n{}",
        resp.context()
    );

    // Entry /docs/a.md must be accessible and its link rewritten to /other/b.md.
    let resp = fetch(&server, "/docs/a.md");
    assert_status(&resp, 200);
    let body = resp.body_text();
    assert!(
        body.contains("href=\"/other/b.md\""),
        "cross-dir link must be rewritten to root-relative /other/b.md with broad root\n{}",
        resp.context()
    );
}

/// Validates that cross-directory links are blocked when the target resides
/// outside the selected serve_root (narrow root scenario).
///
/// Fixture layout:
///   parent/
///     docs/               ← serve_root (CWD = parent/docs/)
///       a.md              ← entry; links to ../other/b.md (NOT rewritten: escapes root)
///     other/
///       b.md              ← cross-dir target (OUTSIDE narrow root)
///
/// Expected:
/// - GET /other/b.md → 404 (resolves to docs/other/b.md which does not exist)
/// - GET /a.md → 200; body does NOT contain href="/other/b.md" (link stays unrewritten)
#[test]
fn test_serve_cross_dir_link_narrow_root_blocks() {
    let tmp = Tree::new();
    let parent = tmp.path().to_path_buf();

    let docs = parent.join("docs");
    let other = parent.join("other");
    tmp.create_dir_all(&docs);
    tmp.create_dir_all(&other);

    tmp.write(&docs.join("a.md"), "# Doc A\n\nSee [Doc B](../other/b.md).\n");
    tmp.write(&other.join("b.md"), "# Doc B\n\nContent of B.\n");

    // Narrow root: CWD = docs (entry docs/a.md is inside docs/ → serve_root = docs/)
    let fixture = Fixture {
        _tmp: tmp,
        root: docs.clone(),
        entry: docs.join("a.md"),
    };
    let server = ServerHandle::new("test_serve_cross_dir_link_narrow_root_blocks", &fixture);

    // Cross-dir target is outside narrow root: /other/b.md resolves to docs/other/b.md
    // which does not exist → must return 404.
    let resp = fetch(&server, "/other/b.md");
    assert_status(&resp, 404);

    // Entry /a.md is inside narrow root → accessible.
    let resp = fetch(&server, "/a.md");
    assert_status(&resp, 200);
    let body = resp.body_text();

    // Link must NOT be rewritten to /other/b.md (target escapes narrow serve_root).
    // It stays as the relative ../other/b.md in the rendered output.
    assert!(
        !body.contains("href=\"/other/b.md\""),
        "cross-dir link must NOT be rewritten for narrow root (target escapes root)\n{}",
        resp.context()
    );
    assert!(
        body.contains("href=\"../other/b.md\""),
        "unrewritten cross-dir link must remain as ../other/b.md in narrow root\n{}",
        resp.context()
    );
}

/// Validates that a symlink inside the serve_root pointing to a file outside
/// the root is denied with a 404, and that the server logs the denial with
/// `branch=denied reason=outside-root`.
///
/// This exercises the containment check of the canonical path and verifies
/// the log line emitted there for the blocked path.
#[test]
fn test_serve_symlink_outside_root_denied_with_outside_root_log() {
    let tmp = Tree::new();
    let parent = tmp.path().to_path_buf();

    let docs = parent.join("docs");
    let other = parent.join("other");
    tmp.create_dir_all(&docs);
    tmp.create_dir_all(&other);

    let entry = docs.join("a.md");
    tmp.write(&entry, "# Doc A\n");

    let outside_target = other.join("b.md");
    tmp.write(&outside_target, "# Doc B\n");

    // Create a symlink inside the narrow root (docs/) that points to outside (other/b.md).
    let symlink_path = docs.join("escape.md");
    tmp.symlink(&outside_target, &symlink_path);

    // Narrow root: CWD = docs/
    let fixture = Fixture {
        _tmp: tmp,
        root: docs.clone(),
        entry,
    };
    // Use --verbose so that [resolve] diagnostic lines are emitted.
    let server = ServerHandle::new_verbose(
        "test_serve_symlink_outside_root_denied_with_outside_root_log",
        &fixture,
    );

    // Symlink target is outside narrow root → must be denied.
    let resp = fetch(&server, "/escape.md");
    assert_status(&resp, 404);

    // Shut down and collect server output to verify the denial log.
    let output = server.shutdown_with_sigint();
    let stderr = String::from_utf8_lossy(&output.stderr);

    assert!(
        stderr.contains("branch=denied") && stderr.contains("reason=outside-root"),
        "symlink escape must log branch=denied reason=outside-root\nstderr:\n{}",
        stderr
    );
}

/// Verifies that the backlinks startup hint appears in stdout and the scan
/// count line appears in stderr after server startup.
#[test]
fn test_backlinks_startup_stdout() {
    let fixture = Fixture::new(FixtureOptions::default());
    let server = ServerHandle::new("test_backlinks_startup_stdout", &fixture);

    // Trigger at least one request so the server is fully warmed up.
    let _ = fetch(&server, "/");

    let output = server.shutdown_with_sigint();
    let stdout = String::from_utf8_lossy(&output.stdout);
    let stderr = String::from_utf8_lossy(&output.stderr);

    assert!(
        stdout.contains("backlinks: startup-indexed"),
        "restart reminder missing from stdout\nstdout:\n{stdout}"
    );
    assert!(
        stderr.contains("[backlinks] indexed files="),
        "scan count missing from stderr\nstderr:\n{stderr}"
    );
}

/// b.md has one inbound backlink (from a.md) — verifies populated panel rendering.
#[test]
fn test_backlinks_panel_populated() {
    let fixture = make_backlinks_fixture();
    let server = ServerHandle::new("test_backlinks_panel_populated", &fixture);

    let resp = fetch(&server, "/b.md");
    assert_status(&resp, 200);
    let body = resp.body_text();

    assert!(
        body.contains("Backlinks (1)"),
        "backlinks count header missing\n{}",
        resp.context()
    );
    assert!(
        body.contains("href=\"/a.md\"") || body.contains("href=\"/a.md#"),
        "source link to a.md missing\n{}",
        resp.context()
    );
    assert!(
        body.contains("Page A"),
        "source display title 'Page A' missing\n{}",
        resp.context()
    );
    assert!(
        body.contains("section-1"),
        "fragment hint for section-1 missing\n{}",
        resp.context()
    );
    assert!(
        body.contains("backlinks-panel"),
        "backlinks-panel section class missing\n{}",
        resp.context()
    );
}

/// empty.md has no inbound backlinks — verifies empty state rendering.
#[test]
fn test_backlinks_panel_empty() {
    let fixture = make_backlinks_fixture();
    let server = ServerHandle::new("test_backlinks_panel_empty", &fixture);

    let resp = fetch(&server, "/empty.md");
    assert_status(&resp, 200);
    let body = resp.body_text();

    assert!(
        !body.contains("No backlinks yet."),
        "empty state must not show 'No backlinks yet.'\n{}",
        resp.context()
    );
    assert!(
        !body.contains("backlinks-empty"),
        "empty state must not render aside\n{}",
        resp.context()
    );
    assert!(
        !body.contains("Backlinks ("),
        "populated header shown for empty state\n{}",
        resp.context()
    );
}

/// target.md has two inbound backlinks (c.md, d.md) — verifies count accuracy.
#[test]
fn test_backlinks_count_accuracy() {
    let fixture = make_backlinks_fixture();
    let server = ServerHandle::new("test_backlinks_count_accuracy", &fixture);

    let resp = fetch(&server, "/target.md");
    assert_status(&resp, 200);
    let body = resp.body_text();

    assert!(
        body.contains("Backlinks (2)"),
        "backlinks count must be 2\n{}",
        resp.context()
    );
    assert!(
        body.contains("Page C"),
        "source display 'Page C' missing\n{}",
        resp.context()
    );
    assert!(
        body.contains("Page D"),
        "source display 'Page D' missing\n{}",
        resp.context()
    );
}

/// Every rendered markdown page must include the change-notice div with hidden attribute.
#[test]
fn test_change_notice_div_present_and_hidden() {
    let fixture = make_backlinks_fixture();
    let server = ServerHandle::new("test_change_notice_div_present_and_hidden", &fixture);

    let resp = fetch(&server, "/b.md");
    assert_status(&resp, 200);
    let body = resp.body_text();

    let notice_pos = body.find("id=\"mdmd-change-notice\"");
    assert!(
        notice_pos.is_some(),
        "id=\"mdmd-change-notice\" missing from page\n{}",
        resp.context()
    );
    let context_slice = &body[notice_pos.unwrap()..notice_pos.unwrap() + 100];
    assert!(
        context_slice.contains("hidden"),
        "change-notice div must carry the 'hidden' attribute\ncontext: {context_slice}"
    );
}

/// /assets/mdmd.css must contain scroll-margin-top for heading anchor navigation.
#[test]
fn test_scroll_margin_top_in_css() {
    let fixture = Fixture::new(FixtureOptions::default());
    let server = ServerHandle::new("test_scroll_margin_top_in_css", &fixture);

    let resp = fetch(&server, "/assets/mdmd.css");
    assert_status(&resp, 200);
    assert!(
        resp.body_text().contains("scroll-margin-top"),
        "heading anchor scroll-margin missing from CSS\n{}",
        resp.context()
    );
}

/// No anchor element in a rendered page should have 'back to' as visible link text.
#[test]
fn test_no_back_to_links() {
    let fixture = make_backlinks_fixture();
    let server = ServerHandle::new("test_no_back_to_links", &fixture);

    let resp = fetch(&server, "/b.md");
    assert_status(&resp, 200);
    let body_lower = resp.body_text().to_lowercase();

    // Check that ">back to" does not appear — this pattern catches link text
    // like <a ...>back to ...</a> while ignoring code comments.
    assert!(
        !body_lower.contains(">back to"),
        "found 'back to' as anchor link text\n{}",
        resp.context()
    );
}

/// GET /_mdmd/freshness?path=fixture.md must return 200 with a positive mtime.
#[test]
fn test_freshness_endpoint_returns_mtime() {
    let fixture = make_freshness_fixture();
    let server = ServerHandle::new("test_freshness_endpoint_returns_mtime", &fixture);

    let resp = fetch(&server, "/_mdmd/freshness?path=fixture.md");
    assert_status(&resp, 200);

    let body = resp.body_text();
    let json: serde_json::Value =
        serde_json::from_str(&body).expect("freshness response must be valid JSON");
    let mtime = json["mtime"].as_u64().expect("mtime must be a u64");
    assert!(mtime > 0, "mtime must be positive, got {mtime}");
}

/// After modifying fixture.md the freshness endpoint must return a newer mtime.
#[test]
fn test_freshness_detects_file_change() {
    let fixture = make_freshness_fixture();
    let server = ServerHandle::new("test_freshness_detects_file_change", &fixture);

    // Snapshot the initial mtime.
    let resp1 = fetch(&server, "/_mdmd/freshness?path=fixture.md");
    assert_status(&resp1, 200);
    let mtime1 = mtime_of(&resp1.body_text());

    // A second passes, so that the modification time advances.
    fixture._tmp.advance_clock(1);

    // Mutate the file.
    fixture._tmp.write(&fixture.root.join("fixture.md"), "# Test\n\nUpdated content.\n");

    let resp = fetch(&server, "/_mdmd/freshness?path=fixture.md");
    let mtime2 = mtime_of(&resp.body_text());

    assert!(
        mtime2 > mtime1,
        "freshness endpoint must return newer mtime after file change; mtime1={mtime1} mtime2={mtime2}"
    );
}

/// Two consecutive freshness requests on an unmodified file return the same mtime.
#[test]
fn test_freshness_unchanged_file() {
    let fixture = make_freshness_fixture();
    let server = ServerHandle::new("test_freshness_unchanged_file", &fixture);

    let resp1 = fetch(&server, "/_mdmd/freshness?path=fixture.md");
    let resp2 = fetch(&server, "/_mdmd/freshness?path=fixture.md");
    assert_status(&resp1, 200);
    assert_status(&resp2, 200);

    let mtime1 = serde_json::from_str::<serde_json::Value>(&resp1.body_text())
        .expect("first freshness JSON")["mtime"]
        .as_u64()
        .expect("first mtime u64");
    let mtime2 = serde_json::from_str::<serde_json::Value>(&resp2.body_text())
        .expect("second freshness JSON")["mtime"]
        .as_u64()
        .expect("second mtime u64");

    assert_eq!(
        mtime1, mtime2,
        "mtime must be stable for unmodified file; mtime1={mtime1} mtime2={mtime2}"
    );
}

/// Path traversal via ../../ must return 404 from the freshness endpoint.
#[test]
fn test_freshness_path_traversal_blocked() {
    let fixture = make_freshness_fixture();
    let server = ServerHandle::new("test_freshness_path_traversal_blocked", &fixture);

    let resp = fetch(&server, "/_mdmd/freshness?path=../../etc/passwd");
    assert_status(&resp, 404);
}

/// A rendered markdown page must include the mdmd-mtime and mdmd-path meta tags.
#[test]
fn test_page_has_mtime_meta_tag() {
    let fixture = make_freshness_fixture();
    let server = ServerHandle::new("test_page_has_mtime_meta_tag", &fixture);

    let resp = fetch(&server, "/fixture.md");
    assert_status(&resp, 200);
    let body = resp.body_text();

    assert!(
        body.contains("name=\"mdmd-mtime\""),
        "mdmd-mtime meta tag missing from page\n{}",
        resp.context()
    );
    assert!(
        body.contains("name=\"mdmd-path\""),
        "mdmd-path meta tag missing from page\n{}",
        resp.context()
    );
    assert!(
        body.contains("content=\"fixture.md\""),
        "mdmd-path meta content must equal 'fixture.md'\n{}",
        resp.context()
    );
}

/// A rendered markdown page must contain the change-notice div in the hidden state.
#[test]
fn test_page_has_change_notice_div() {
    let fixture = make_freshness_fixture();
    let server = ServerHandle::new("test_page_has_change_notice_div", &fixture);

    let resp = fetch(&server, "/fixture.md");
    assert_status(&resp, 200);
    let body = resp.body_text();

    assert!(
        body.contains("id=\"mdmd-change-notice\""),
        "change-notice div id missing\n{}",
        resp.context()
    );
    assert!(
        body.contains("Load latest"),
        "Load latest button text missing from change-notice div\n{}",
        resp.context()
    );
}

/// When stdin is /dev/null (non-interactive) the server auto-proceeds past the
/// out-of-cwd warning without any prompt.
#[test]
fn test_out_of_cwd_non_interactive_proceeds() {
    let tmp = Tree::new();
    let entry = tmp.path().join("doc.md");
    tmp.write(&entry, "# Doc\n");

    // A working directory elsewhere ensures the entry is outside it.
    tmp.create_dir_all("/home/user");
    let server = match ServerHandle::start(&tmp, "/home/user", &entry, None, false) {
        Ok(server) => server,
        Err(_) => panic!("server process must still be running after startup"),
    };

    // Server should start and serve requests.
    assert_status(&fetch(&server, "/doc.md"), 200);

    // Shut down cleanly.
    let output = server.shutdown_with_sigint();
    let stderr = String::from_utf8_lossy(&output.stderr);

    assert!(
        stderr.contains("WARNING"),
        "out-of-cwd WARNING missing from stderr\nstderr:\n{stderr}"
    );
}

/// When the user writes 'y' to piped stdin the server proceeds past the warning.
#[test]
fn test_out_of_cwd_interactive_confirm_proceeds() {
    let tmp = Tree::new();
    let entry = tmp.path().join("doc.md");
    tmp.write(&entry, "# Doc\n");

    // Provide 'y' confirmation before the server reads stdin.
    tmp.create_dir_all("/home/user");
    let server = match ServerHandle::start(&tmp, "/home/user", &entry, Some("y\n"), false) {
        Ok(server) => server,
        Err(_) => panic!("server process must be running after 'y' confirmation"),
    };

    let output = server.shutdown_with_sigint();
    let stderr = String::from_utf8_lossy(&output.stderr);

    assert!(
        stderr.contains("WARNING"),
        "out-of-cwd WARNING missing from stderr\nstderr:\n{stderr}"
    );
}

/// When the user writes 'n' to piped stdin the server aborts with a non-zero exit.
#[test]
fn test_out_of_cwd_interactive_decline_exits() {
    let tmp = Tree::new();
    let entry = tmp.path().join("doc.md");
    tmp.write(&entry, "# Doc\n");

    // Provide 'n' to abort.
    tmp.create_dir_all("/home/user");
    let output = match ServerHandle::start(&tmp, "/home/user", &entry, Some("n\n"), false) {
        Ok(_) => panic!("server must not start after declining"),
        Err(output) => output,
    };

    assert!(
        !output.success,
        "process must exit non-zero after declining the out-of-cwd prompt"
    );
    assert!(output.stdout.is_empty(), "nothing is printed before the answer");
    let stderr = String::from_utf8_lossy(&output.stderr);
    assert!(
        stderr.contains("Aborted"),
        "Aborted message missing from stderr\nstderr:\n{stderr}"
    );
}

/// When the entry is inside CWD the server must NOT emit the out-of-cwd WARNING.
#[test]
fn test_in_cwd_no_warning() {
    // The entry lies inside the server's working directory.
    let tmp = Tree::new();
    let entry = tmp.path().join("doc.md");
    tmp.write(&entry, "# Doc\n");

    let fixture = Fixture { root: entry.parent().unwrap().to_path_buf(), _tmp: tmp, entry };

    let server = ServerHandle::new("test_in_cwd_no_warning", &fixture);
    let _ = fetch(&server, "/");

    let output = server.shutdown_with_sigint();
    let stderr = String::from_utf8_lossy(&output.stderr);

    assert!(
        !stderr.contains("WARNING"),
        "in-cwd server must not emit WARNING\nstderr:\n{stderr}"
    );
}

/// When the serve_root is the parent directory both sibling sub-dirs are accessible.
#[test]
fn test_cross_dir_allow_broad_root() {
    let tmp = Tree::new();
    let base = tmp.path().to_path_buf();

    // Layout: base/docs/a.md  base/other/b.md  base/README.md (entry for directory serve)
    tmp.create_dir_all(&base.join("docs"));
    tmp.create_dir_all(&base.join("other"));
    tmp.write(&base.join("README.md"), "# Base\n");
    tmp.write(&base.join("docs").join("a.md"), "# Page A\n\n[Page B](../other/b.md)\n");
    tmp.write(&base.join("other").join("b.md"), "# Page B\n\nContent.\n");

    // Pass the parent directory as entry: serve_root = base/
    tmp.create_dir_all("/home/user");
    let server = match ServerHandle::start(&tmp, "/home/user", &base, None, false) {
        Ok(server) => server,
        Err(_) => panic!("broad-root server must start"),
    };

    // Both sibling paths must be accessible under broad root.
    let resp_a = fetch(&server, "/docs/a.md");
    assert_status(&resp_a, 200);

    let resp_b = fetch(&server, "/other/b.md");
    assert_status(&resp_b, 200);
}

/// When the serve_root is a narrow subdirectory a cross-dir path returns 404.
#[test]
fn test_cross_dir_block_narrow_root() {
    let tmp = Tree::new();
    let base = tmp.path().to_path_buf();

    tmp.create_dir_all(&base.join("docs"));
    tmp.create_dir_all(&base.join("other"));
    tmp.write(&base.join("docs").join("a.md"), "# Page A\n\n[Page B](../other/b.md)\n");
    tmp.write(&base.join("other").join("b.md"), "# Page B\n\nContent.\n");

    // Serve entry is docs/a.md: serve_root = docs/; other/ is outside root.
    let fixture = Fixture {
        entry: base.join("docs").join("a.md"),
        _tmp: tmp,
        root: base.join("docs"),
    };
    let server = ServerHandle::new("test_cross_dir_block_narrow_root", &fixture);

    // /other/b.md resolves to docs/other/b.md which does not exist → 404.
    let resp = fetch(&server, "/other/b.md");
    assert_status(
        &resp,
        404,
    );
}

#[test]
fn every_ok_answer_carries_tag_time_and_nosniff() {
    let fixture = Fixture::new(FixtureOptions { include_nested_dirs: true, ..FixtureOptions::default() });
    let server = ServerHandle::new("every_ok_answer_carries_tag_time_and_nosniff", &fixture);
    for path in [
        "/",
        "/README.md",
        "/README.md?raw=1",
        "/nested/inner/",
        "/nested/inner",
        "/assets/mdmd.css",
        "/assets/mdmd.js",
        "/_mdmd/freshness?path=README.md",
    ] {
        let resp = fetch(&server, path);
        assert_status(&resp, 200);
        assert_header_eq(&resp, "x-content-type-options", "nosniff");
        let tag = resp.header("etag").unwrap_or_else(|| panic!("no tag for {path}"));
        assert_eq!(tag.len(), 18, "{path}");
        assert!(resp.header("last-modified").is_some(), "no time for {path}\n{}", resp.context());
    }
    let listing = fetch(&server, "/nested/inner");
    assert!(
        listing.body_text().contains("<h1>Index of /nested/inner/</h1>"),
        "{}",
        listing.context()
    );
    // The tag of a 200 answer, sent back, is answered with 304.
    let first = fetch(&server, "/README.md");
    let tag = first.header("etag").expect("a tag").to_string();
    let second = fetch_with_headers(&server, "/README.md", &[("if-none-match", &tag)]);
    assert_status(&second, 304);
    assert!(second.body.is_empty());
    assert_header_eq(&second, "etag", &tag);
    assert!(second.header("last-modified").is_some());
}
