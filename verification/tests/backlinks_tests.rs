use mdmd::backlinks::{
    build_backlinks_index, extract_outbound_links, is_indexed_file, is_skipped_dir,
    url_key_from_rel_path, BacklinkRef, BacklinksIndex, SourceFile,
};

/// A tree of files held in memory, walked the way the served tree is.
struct Fixture {
    root: String,
    files: Vec<(String, String)>,
}

impl Fixture {
    fn new() -> Self {
        Fixture { root: "/srv/tree".to_string(), files: Vec::new() }
    }

    fn path(&self) -> &str {
        &self.root
    }

    /// The files that the walk reads: none below a directory that is passed
    /// by, and only those with an indexed extension.
    fn walk(&self) -> Vec<SourceFile> {
        let mut out = Vec::new();
        for (rel, contents) in &self.files {
            let mut dirs: Vec<&str> = rel.split('/').collect();
            dirs.pop();
            if dirs.iter().any(|d| is_skipped_dir(d)) {
                continue;
            }
            let path = format!("{}/{}", self.root, rel);
            if !is_indexed_file(&path) {
                continue;
            }
            out.push(SourceFile { path, contents: contents.clone() });
        }
        out
    }
}

/// Adds the file `rel_path` with `contents` to the tree and returns its path.
fn write_fixture(root: &mut Fixture, rel_path: &str, contents: &str) -> String {
    root.files.push((rel_path.to_string(), contents.to_string()));
    format!("{}/{}", root.root, rel_path)
}

#[test]
fn url_key_adds_leading_slash() {
    assert_eq!(url_key_from_rel_path("docs/readme.md"), "/docs/readme.md");
    assert_eq!(url_key_from_rel_path("readme.md"), "/readme.md");
    assert_eq!(url_key_from_rel_path(""), "/");
}

#[test]
fn url_key_nested_path() {
    assert_eq!(url_key_from_rel_path("a/b/c.md"), "/a/b/c.md");
}

#[test]
fn backlink_ref_fields_accessible() {
    let r = BacklinkRef {
        source_url_path: "/a.md".to_string(),
        source_display: "A Doc".to_string(),
        snippet: "some context".to_string(),
        target_fragment: Some("section".to_string()),
    };
    assert_eq!(r.source_url_path, "/a.md");
    assert_eq!(r.source_display, "A Doc");
    assert_eq!(r.snippet, "some context");
    assert_eq!(r.target_fragment.as_deref(), Some("section"));
}

#[test]
fn backlink_ref_no_fragment() {
    let r = BacklinkRef {
        source_url_path: "/b.md".to_string(),
        source_display: "b.md".to_string(),
        snippet: "".to_string(),
        target_fragment: None,
    };
    assert!(r.target_fragment.is_none());
}

#[test]
fn backlinks_index_type_works() {
    let mut idx: BacklinksIndex = BacklinksIndex::new();
    idx.insert(
        "/target.md".to_string(),
        vec![BacklinkRef {
            source_url_path: "/source.md".to_string(),
            source_display: "Source".to_string(),
            snippet: "see [target](target.md)".to_string(),
            target_fragment: None,
        }],
    );
    assert_eq!(idx.get("/target.md").unwrap().len(), 1);
    assert_eq!(idx.get("/target.md").unwrap()[0].source_url_path, "/source.md");
}

#[test]
fn build_index_basic_inversion() {
    // a.md → b.md; b.md should have one backlink from a.md.
    let mut tmp = Fixture::new();
    write_fixture(&mut tmp, "a.md", "# A Doc\n\nSee [B](b.md).\n");
    write_fixture(&mut tmp, "b.md", "# B Doc\n\nNo outbound links.\n");

    let idx = build_backlinks_index(tmp.path(), &tmp.walk());

    let refs = idx.get("/b.md").expect("b.md should have a backlink");
    assert_eq!(refs.len(), 1, "b.md should have exactly one backlink");
    let r = &refs[0];
    assert_eq!(r.source_url_path, "/a.md");
    assert_eq!(r.source_display, "A Doc", "source_display should be H1 title");
    assert!(!r.snippet.is_empty(), "snippet should not be empty");
}

#[test]
fn build_index_no_entry_for_a_when_only_outbound() {
    // a.md links to b.md; a.md itself should have no backlinks.
    let mut tmp = Fixture::new();
    write_fixture(&mut tmp, "a.md", "See [B](b.md).\n");
    write_fixture(&mut tmp, "b.md", "# B\n");

    let idx = build_backlinks_index(tmp.path(), &tmp.walk());

    assert!(
        !idx.contains_key("/a.md"),
        "a.md has no inbound links so it must not appear as a key"
    );
}

#[test]
fn build_index_self_links_excluded() {
    // a.md links to itself; self-link must not appear in the index.
    let mut tmp = Fixture::new();
    write_fixture(&mut tmp, "a.md", "# Self\n\nLink to [self](a.md).\n");

    let idx = build_backlinks_index(tmp.path(), &tmp.walk());

    assert!(
        !idx.contains_key("/a.md"),
        "self-link must not produce a backlink entry"
    );
}

#[test]
fn build_index_source_display_fallback_to_path() {
    // a.md has no H1 title; source_display should fall back to rel path.
    let mut tmp = Fixture::new();
    write_fixture(&mut tmp, "a.md", "No heading here.\n\nSee [B](b.md).\n");
    write_fixture(&mut tmp, "b.md", "# B\n");

    let idx = build_backlinks_index(tmp.path(), &tmp.walk());

    let refs = idx.get("/b.md").expect("b.md must have a backlink");
    assert_eq!(refs[0].source_display, "a.md", "should fall back to rel path");
}

#[test]
fn build_index_git_dir_excluded() {
    // .git/some.md must not be indexed.
    let mut tmp = Fixture::new();
    write_fixture(&mut tmp, "real.md", "# Real\n");
    write_fixture(&mut tmp, ".git/secret.md", "# Git internals\n\nSee [real](../real.md).\n");

    let idx = build_backlinks_index(tmp.path(), &tmp.walk());

    // real.md must not receive a backlink from .git/secret.md
    assert!(
        !idx.contains_key("/real.md"),
        ".git directory must be skipped; real.md must not have backlinks"
    );
}

#[test]
fn build_index_node_modules_excluded() {
    // node_modules/dep.md must not be indexed.
    let mut tmp = Fixture::new();
    write_fixture(&mut tmp, "main.md", "# Main\n");
    write_fixture(
        &mut tmp,
        "node_modules/dep.md",
        "# Dep\n\nSee [main](../main.md).\n",
    );

    let idx = build_backlinks_index(tmp.path(), &tmp.walk());

    assert!(
        !idx.contains_key("/main.md"),
        "node_modules directory must be skipped"
    );
}

#[test]
fn build_index_jj_dir_excluded() {
    // .jj/internal.md must not be indexed.
    let mut tmp = Fixture::new();
    write_fixture(&mut tmp, "doc.md", "# Doc\n");
    write_fixture(&mut tmp, ".jj/internal.md", "# JJ\n\nSee [doc](../doc.md).\n");

    let idx = build_backlinks_index(tmp.path(), &tmp.walk());

    assert!(
        !idx.contains_key("/doc.md"),
        ".jj directory must be skipped"
    );
}

#[test]
fn build_index_non_markdown_files_skipped() {
    // Only .md and .markdown files should be processed.
    let mut tmp = Fixture::new();
    write_fixture(&mut tmp, "target.md", "# Target\n");
    write_fixture(&mut tmp, "source.txt", "See [target](target.md).\n");
    write_fixture(&mut tmp, "source.html", "<a href=\"target.md\">target</a>\n");

    let idx = build_backlinks_index(tmp.path(), &tmp.walk());

    // target.md has no .md/.markdown sources linking to it → no entry
    assert!(
        !idx.contains_key("/target.md"),
        "non-markdown files must not contribute backlinks"
    );
}

#[test]
fn build_index_dot_markdown_extension() {
    // .markdown extension should be processed.
    let mut tmp = Fixture::new();
    write_fixture(&mut tmp, "source.markdown", "See [target](target.md).\n");
    write_fixture(&mut tmp, "target.md", "# Target\n");

    let idx = build_backlinks_index(tmp.path(), &tmp.walk());

    assert!(
        idx.contains_key("/target.md"),
        ".markdown extension files must be indexed"
    );
    assert_eq!(idx.get("/target.md").unwrap()[0].source_url_path, "/source.markdown");
}

#[test]
fn build_index_subdirectory_links() {
    // docs/a.md → docs/b.md: verify key paths include the subdirectory.
    let mut tmp = Fixture::new();
    write_fixture(&mut tmp, "docs/a.md", "# A\n\nSee [B](b.md).\n");
    write_fixture(&mut tmp, "docs/b.md", "# B\n");

    let idx = build_backlinks_index(tmp.path(), &tmp.walk());

    let refs = idx
        .get("/docs/b.md")
        .expect("docs/b.md must have a backlink");
    assert_eq!(refs[0].source_url_path, "/docs/a.md");
}

#[test]
fn build_index_multiple_sources_to_same_target() {
    // Both a.md and b.md link to target.md; target should have two backlinks.
    let mut tmp = Fixture::new();
    write_fixture(&mut tmp, "a.md", "# A\n\nSee [T](target.md).\n");
    write_fixture(&mut tmp, "b.md", "# B\n\nAlso [T](target.md).\n");
    write_fixture(&mut tmp, "target.md", "# Target\n");

    let idx = build_backlinks_index(tmp.path(), &tmp.walk());

    let refs = idx
        .get("/target.md")
        .expect("target.md must have backlinks");
    assert_eq!(refs.len(), 2, "target.md must have exactly two backlinks");
    let mut sources: Vec<&str> = refs.iter().map(|r| r.source_url_path.as_str()).collect();
    sources.sort_unstable();
    assert_eq!(sources, ["/a.md", "/b.md"]);
}

#[test]
fn extract_outbound_links_cross_dir_broad_root_included() {
    // serve_root = /broad (broad), source = /broad/docs/a.md
    // link: ../other/b.md → resolves to /broad/other/b.md (inside broad root → INCLUDED)
    let src = "# A Doc\n\nSee [B](../other/b.md).\n";
    let result = extract_outbound_links(
        src,
        "/broad/docs/a.md",
        "/broad",
    );
    assert_eq!(
        result.outbound_refs.len(),
        1,
        "cross-dir link inside broad root must be included in outbound_refs"
    );
    assert_eq!(
        result.outbound_refs[0].target_url_path,
        "/other/b.md",
        "target URL path must be root-relative /other/b.md"
    );
}

#[test]
fn extract_outbound_links_cross_dir_narrow_root_excluded() {
    // serve_root = /broad/docs (narrow), source = /broad/docs/a.md
    // link: ../other/b.md → resolves to /broad/other/b.md (outside /broad/docs → EXCLUDED)
    let src = "# A Doc\n\nSee [B](../other/b.md).\n";
    let result = extract_outbound_links(
        src,
        "/broad/docs/a.md",
        "/broad/docs",
    );
    assert!(
        result.outbound_refs.is_empty(),
        "cross-dir link escaping narrow serve_root must be excluded from outbound_refs"
    );
}

#[test]
fn build_index_cross_dir_sibling_edge_broad_root_recorded() {
    // docs/a.md → ../other/b.md; serve_root = tmp.path() (broad root covering both dirs)
    // Both sibling directories are under the root → edge must be recorded.
    let mut tmp = Fixture::new();
    write_fixture(&mut tmp, "docs/a.md", "# A Doc\n\nSee [B](../other/b.md).\n");
    write_fixture(&mut tmp, "other/b.md", "# B Doc\n");

    let idx = build_backlinks_index(tmp.path(), &tmp.walk());

    let refs = idx
        .get("/other/b.md")
        .expect("other/b.md must have a backlink from docs/a.md with broad root");
    assert_eq!(
        refs.len(),
        1,
        "other/b.md must have exactly one backlink"
    );
    assert_eq!(
        refs[0].source_url_path,
        "/docs/a.md",
        "backlink source must be /docs/a.md"
    );
}

#[test]
fn build_index_cross_dir_link_outside_root_not_recorded() {
    // a.md links to ../outside.md; serve_root = tmp.path() (root)
    // ../outside.md resolves one level above tmp.path() (outside root) → edge must be dropped.
    let mut tmp = Fixture::new();
    write_fixture(&mut tmp, "a.md", "# A Doc\n\nSee [outside](../outside.md).\n");
    // Note: ../outside.md resolves above tmp.path(); no file is created there.

    let idx = build_backlinks_index(tmp.path(), &tmp.walk());

    // The index must be empty: no in-root edges were produced.
    assert!(
        idx.is_empty(),
        "link escaping serve_root must not produce any backlink edge; index must be empty"
    );
}

#[test]
fn extract_relative_dot_link() {
    // [text](./other.md) → target_url_path = '/docs/other.md', no fragment.
    let src = "[text](./other.md)\n";
    let result =
        extract_outbound_links(src, "/root/docs/a.md", "/root");
    assert_eq!(
        result.outbound_refs.len(),
        1,
        "relative ./link must produce one outbound ref"
    );
    assert_eq!(result.outbound_refs[0].target_url_path, "/docs/other.md");
    assert!(
        result.outbound_refs[0].target_fragment.is_none(),
        "no fragment expected"
    );
}

#[test]
fn extract_relative_dot_link_with_fragment() {
    // [text](./other.md#section) → target_url_path = '/docs/other.md',
    //         target_fragment = Some("section").
    let src = "[text](./other.md#section)\n";
    let result =
        extract_outbound_links(src, "/root/docs/a.md", "/root");
    assert_eq!(result.outbound_refs.len(), 1);
    assert_eq!(result.outbound_refs[0].target_url_path, "/docs/other.md");
    assert_eq!(
        result.outbound_refs[0].target_fragment.as_deref(),
        Some("section")
    );
}

#[test]
fn extract_parent_relative_link() {
    // [text](../sibling/page.md) → target_url_path = '/sibling/page.md'.
    let src = "[text](../sibling/page.md)\n";
    let result =
        extract_outbound_links(src, "/root/docs/a.md", "/root");
    assert_eq!(
        result.outbound_refs.len(),
        1,
        "parent-relative link inside root must be included"
    );
    assert_eq!(result.outbound_refs[0].target_url_path, "/sibling/page.md");
}

#[test]
fn extract_absolute_local_link() {
    // [text](/absolute/path.md) → target_url_path = '/absolute/path.md'.
    // Absolute-local links are resolved from serve_root.
    let src = "[text](/absolute/path.md)\n";
    let result =
        extract_outbound_links(src, "/root/docs/a.md", "/root");
    assert_eq!(
        result.outbound_refs.len(),
        1,
        "absolute-local link must be included"
    );
    assert_eq!(result.outbound_refs[0].target_url_path, "/absolute/path.md");
}

#[test]
fn extract_external_https_excluded() {
    // [text](https://example.com) → excluded.
    let src = "[text](https://example.com)\n";
    let result =
        extract_outbound_links(src, "/root/docs/a.md", "/root");
    assert!(result.outbound_refs.is_empty(), "https links must be excluded");
}

#[test]
fn extract_external_http_excluded() {
    // [text](http://example.com) → excluded.
    let src = "[text](http://example.com)\n";
    let result =
        extract_outbound_links(src, "/root/docs/a.md", "/root");
    assert!(result.outbound_refs.is_empty(), "http links must be excluded");
}

#[test]
fn extract_fragment_only_excluded() {
    // [text](#heading) → excluded (bare-fragment link).
    let src = "[text](#heading)\n";
    let result =
        extract_outbound_links(src, "/root/docs/a.md", "/root");
    assert!(
        result.outbound_refs.is_empty(),
        "fragment-only links must be excluded"
    );
}

#[test]
fn extract_mailto_excluded() {
    // [text](mailto:foo@bar.com) → excluded.
    let src = "[text](mailto:foo@bar.com)\n";
    let result =
        extract_outbound_links(src, "/root/docs/a.md", "/root");
    assert!(result.outbound_refs.is_empty(), "mailto links must be excluded");
}

#[test]
fn extract_multi_link_doc_counts_local_only() {
    // 2 local + 1 external → outbound_refs.len() == 2.
    let src = "[A](./a2.md) [B](./b.md) [Ext](https://example.com)\n";
    let result =
        extract_outbound_links(src, "/root/docs/a.md", "/root");
    assert_eq!(
        result.outbound_refs.len(),
        2,
        "only local links must appear in outbound_refs"
    );
}

#[test]
fn extract_snippet_contains_context() {
    // link with surrounding text → snippet is not empty; whitespace collapsed.
    let src = "Some text before the link [text](./other.md) and some text after\n";
    let result =
        extract_outbound_links(src, "/root/docs/a.md", "/root");
    assert_eq!(result.outbound_refs.len(), 1);
    let snippet = &result.outbound_refs[0].snippet;
    assert!(!snippet.is_empty(), "snippet must not be empty");
    assert!(
        !snippet.contains("  "),
        "snippet must have whitespace collapsed to single spaces"
    );
}

#[test]
fn extract_snippet_truncated_to_200() {
    // 500+ chars on each side of the link → snippet.len() <= 200.
    let prefix = "a ".repeat(250); // 500 chars
    let suffix = "b ".repeat(250); // 500 chars
    let src = format!("{prefix}[text](./other.md){suffix}");
    let result =
        extract_outbound_links(&src, "/root/docs/a.md", "/root");
    assert_eq!(result.outbound_refs.len(), 1);
    let snippet = &result.outbound_refs[0].snippet;
    assert!(
        snippet.len() <= 200,
        "snippet must be capped at 200 chars, got {}",
        snippet.len()
    );
}

#[test]
fn extract_empty_input_no_panic() {
    // empty &str → DocExtractResult { title: None, outbound_refs: [] }.
    let result = extract_outbound_links("", "/root/docs/a.md", "/root");
    assert!(
        result.title.is_none(),
        "empty input must produce no title"
    );
    assert!(
        result.outbound_refs.is_empty(),
        "empty input must produce no outbound refs"
    );
}

#[test]
fn extract_title_h1() {
    // '# My Title\n\ntext' → title = Some("My Title").
    let src = "# My Title\n\nSome text\n";
    let result =
        extract_outbound_links(src, "/root/docs/a.md", "/root");
    assert_eq!(result.title.as_deref(), Some("My Title"));
}

#[test]
fn extract_title_h2_only_is_none() {
    // '## H2 Only\n\ntext' → title = None (H2 does not set title).
    let src = "## H2 Only\n\nSome text\n";
    let result =
        extract_outbound_links(src, "/root/docs/a.md", "/root");
    assert!(
        result.title.is_none(),
        "H2-only document must produce no title"
    );
}

#[test]
fn extract_title_after_link() {
    // '[link](./a.md)\n\n# Late Title' → title = Some("Late Title").
    // Both the link and the H1 are collected in a single pass.
    let src = "[link](./a.md)\n\n# Late Title\n";
    let result =
        extract_outbound_links(src, "/root/docs/a.md", "/root");
    assert_eq!(
        result.title.as_deref(),
        Some("Late Title"),
        "H1 after a link must still be captured"
    );
}

#[test]
fn extract_first_h1_only() {
    // '# First\n\n# Second' → title = Some("First") (first H1 only).
    let src = "# First\n\n# Second\n";
    let result =
        extract_outbound_links(src, "/root/docs/a.md", "/root");
    assert_eq!(
        result.title.as_deref(),
        Some("First"),
        "only the first H1 must be captured"
    );
}

#[test]
fn extract_title_bold_inline() {
    // '# **Bold** *Title*' → title = Some("Bold Title").
    // Inner text from Strong and Emphasis inlines is joined; markdown syntax dropped.
    let src = "# **Bold** *Title*\n";
    let result =
        extract_outbound_links(src, "/root/docs/a.md", "/root");
    assert_eq!(
        result.title.as_deref(),
        Some("Bold Title"),
        "bold/italic inline markers must be stripped; text joined"
    );
}

#[test]
fn extract_outside_root_link_dropped() {
    // source = /root/docs/a.md, serve_root = /root, link = '../../etc/passwd'.
    // Resolved path = /etc/passwd; strip_prefix(/root) fails → silently dropped.
    let src = "[unsafe](../../etc/passwd)\n";
    let result =
        extract_outbound_links(src, "/root/docs/a.md", "/root");
    assert!(
        result.outbound_refs.is_empty(),
        "outside-root link must be silently dropped"
    );
}


#[test]
fn backlinks_index_self_link_excluded() {
    // source_url_path = '/docs/a.md' links to target_url_path = '/docs/a.md'.
    // Assert backlinks_index.get('/docs/a.md') is absent or empty.
    let mut tmp = Fixture::new();
    write_fixture(&mut tmp, "docs/a.md", "# A Doc\n\nSee [self](a.md).\n");

    let idx = build_backlinks_index(tmp.path(), &tmp.walk());
    let is_empty = idx
        .get("/docs/a.md")
        .map(|v| v.is_empty())
        .unwrap_or(true);
    assert!(
        is_empty,
        "self-link must not produce a backlink entry for /docs/a.md"
    );
}

#[test]
fn backlinks_index_different_files_linked() {
    // /docs/a.md links to /docs/b.md (different files).
    // Assert backlinks_index['/docs/b.md'] contains one BacklinkRef
    // with source_url_path = '/docs/a.md'.
    let mut tmp = Fixture::new();
    write_fixture(&mut tmp, "docs/a.md", "# A Doc\n\nSee [B](b.md).\n");
    write_fixture(&mut tmp, "docs/b.md", "# B Doc\n");

    let idx = build_backlinks_index(tmp.path(), &tmp.walk());
    let refs = idx
        .get("/docs/b.md")
        .expect("/docs/b.md must have a backlink from /docs/a.md");
    assert_eq!(refs.len(), 1);
    assert_eq!(refs[0].source_url_path, "/docs/a.md");
}

