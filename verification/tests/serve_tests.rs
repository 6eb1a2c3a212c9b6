use mdmd::backlinks::url_key_from_rel_path;
use mdmd::listing::{apply_dir_listing_policy, build_breadcrumbs};
use mdmd::serve::{
    default_open_command, derive_entry_url_path, is_headed_for, is_raw_mode, mime_for_ext,
    normalize_path, percent_decode, percent_encode_segment, resolve_open_cmd,
    should_attempt_open, vlog, EnvSnapshot, RuntimePlatform,
};
use mdmd::startup::startup_url;

/// An environment in which none of the variables is set.
fn clear_env() -> EnvSnapshot {
    EnvSnapshot {
        ssh_connection: false,
        ssh_tty: false,
        display: false,
        wayland_display: false,
        ci: false,
        github_actions: false,
    }
}

#[test]
fn encode_unreserved_chars_pass_through() {
    assert_eq!(percent_encode_segment("README.md"), "README.md");
    assert_eq!(percent_encode_segment("guide"), "guide");
    assert_eq!(percent_encode_segment("a-b_c.d~e"), "a-b_c.d~e");
    assert_eq!(percent_encode_segment("ABC123"), "ABC123");
}

#[test]
fn encode_space_as_percent20() {
    assert_eq!(percent_encode_segment("my file.md"), "my%20file.md");
    assert_eq!(percent_encode_segment("hello world"), "hello%20world");
}

#[test]
fn encode_multibyte_unicode() {
    // "é" is U+00E9 → UTF-8: 0xC3 0xA9
    assert_eq!(percent_encode_segment("café"), "caf%C3%A9");
    // ☺ is U+263A → UTF-8: 0xE2 0x98 0xBA
    assert_eq!(percent_encode_segment("☺"), "%E2%98%BA");
}

#[test]
fn encode_reserved_url_chars() {
    assert_eq!(percent_encode_segment("a/b"), "a%2Fb");
    assert_eq!(percent_encode_segment("a#b"), "a%23b");
    assert_eq!(percent_encode_segment("a?b"), "a%3Fb");
    assert_eq!(percent_encode_segment("a%b"), "a%25b");
}

#[test]
fn url_path_simple_nested() {
    let root = "/home/user/docs";
    let entry = "/home/user/docs/playground/README.md";
    assert_eq!(
        derive_entry_url_path(&entry, &root).unwrap(),
        "/playground/README.md"
    );
}

#[test]
fn url_path_top_level_file() {
    let root = "/home/user/docs";
    let entry = "/home/user/docs/README.md";
    assert_eq!(
        derive_entry_url_path(&entry, &root).unwrap(),
        "/README.md"
    );
}

#[test]
fn url_path_entry_equals_root() {
    let root = "/home/user/docs";
    let entry = "/home/user/docs";
    assert_eq!(derive_entry_url_path(&entry, &root).unwrap(), "/");
}

#[test]
fn url_path_deeply_nested() {
    let root = "/repo";
    let entry = "/repo/a/b/c/page.md";
    assert_eq!(
        derive_entry_url_path(&entry, &root).unwrap(),
        "/a/b/c/page.md"
    );
}

#[test]
fn url_path_with_spaces() {
    let root = "/home/user/docs";
    let entry = "/home/user/docs/my docs/guide.md";
    assert_eq!(
        derive_entry_url_path(&entry, &root).unwrap(),
        "/my%20docs/guide.md"
    );
}

#[test]
fn url_path_with_unicode_segment() {
    let root = "/home/user/docs";
    let entry = "/home/user/docs/café/guide.md";
    assert_eq!(
        derive_entry_url_path(&entry, &root).unwrap(),
        "/caf%C3%A9/guide.md"
    );
}

#[test]
fn url_path_outside_root_is_err() {
    let root = "/home/user/docs";
    let entry = "/tmp/other/README.md";
    assert!(derive_entry_url_path(&entry, &root).is_err());
}

/// The local URL line is a bare `http://127.0.0.1:{port}{path}` string —
/// no label prefix, no 'index:' variant, no extra decoration.
#[test]
fn local_url_line_is_bare_http_127_0_0_1() {
    let port: u16 = 4321;
    let path = "/README.md";

    let line = startup_url(None, port, path);

    assert!(
        line.starts_with("http://127.0.0.1:"),
        "local URL must start with 'http://127.0.0.1:', got: {line:?}"
    );
    assert!(
        !line.starts_with("url:"),
        "local URL must not have 'url:' label prefix, got: {line:?}"
    );
    assert!(
        !line.starts_with("mdmd serve"),
        "local URL must not start with 'mdmd serve' banner, got: {line:?}"
    );
    assert!(
        !line.starts_with("root:"),
        "local URL must not start with 'root:' label, got: {line:?}"
    );
    assert!(
        !line.starts_with("index:"),
        "local URL must not start with 'index:' label, got: {line:?}"
    );
    assert_eq!(line, "http://127.0.0.1:4321/README.md");
}

/// When tailscale is present the startup URL block emits exactly one bare URL
/// line using the tailscale hostname — no local 127.0.0.1 line, no labels.
#[test]
fn startup_url_block_tailscale_only_when_tailscale_present() {
    let port: u16 = 8080;
    let path = "/guide.md";
    let ts_host = "myhost.ts.net";

    let tailscale_host: Option<&str> = Some(ts_host);
    let block: Vec<String> = if let Some(h) = tailscale_host {
        vec![startup_url(Some(h), port, path)]
    } else {
        vec![startup_url(None, port, path)]
    };

    assert_eq!(block.len(), 1, "expected exactly one URL line when tailscale is present");
    assert!(
        block[0].starts_with("http://myhost.ts.net:"),
        "sole line must be tailscale URL, got: {:?}",
        block[0]
    );
    assert!(
        !block[0].starts_with("http://127.0.0.1:"),
        "must not emit local URL when tailscale is available, got: {:?}",
        block[0]
    );
    for forbidden in &["url:", "index:", "mdmd serve", "root:", "entry:"] {
        assert!(
            !block[0].starts_with(forbidden),
            "startup URL block must not contain label {forbidden:?}, line: {:?}",
            block[0]
        );
    }
}

/// When tailscale is absent the startup URL block contains exactly one line.
#[test]
fn startup_url_block_local_only_when_no_tailscale() {
    let port: u16 = 9000;
    let path = "/README.md";

    let local_line = startup_url(None, port, path);
    let tailscale_host: Option<&str> = None;

    let mut block: Vec<String> = vec![local_line];
    if let Some(h) = tailscale_host {
        block.push(startup_url(Some(h), port, path));
    }

    assert_eq!(block.len(), 1, "expected exactly one URL line when tailscale is absent");
    assert!(
        block[0].starts_with("http://127.0.0.1:"),
        "sole line must be local URL, got: {:?}",
        block[0]
    );
}

/// When tailscale_host is Some, the startup URL block emits exactly one
/// bare URL line — no 'url:' label prefix, no 'index:' variant line.
#[test]
fn tailscale_url_present_emits_one_bare_url_no_index() {
    let host = "mymachine.ts.net";
    let port: u16 = 8080;
    let path = "/entry.html";

    let tailscale_host: Option<&str> = Some(host);
    let mut lines: Vec<String> = vec![];
    if let Some(h) = tailscale_host {
        lines.push(startup_url(Some(h), port, path));
    }

    assert_eq!(lines.len(), 1, "expected exactly one tailscale URL line");
    let url = &lines[0];
    assert!(
        url.starts_with("http://"),
        "URL must start with 'http://', got: {url:?}"
    );
    assert!(
        !url.starts_with("url:"),
        "URL must not have 'url:' label prefix, got: {url:?}"
    );
    assert!(
        !lines.iter().any(|l| l.starts_with("index:")),
        "no 'index:' line must appear"
    );
}

/// When tailscale_host is None, no extra URL lines are emitted.
#[test]
fn tailscale_url_absent_emits_no_lines() {
    let port: u16 = 8080;
    let path = "/entry.html";

    let tailscale_host: Option<&str> = None;
    let mut lines: Vec<String> = vec![];
    if let Some(h) = tailscale_host {
        lines.push(startup_url(Some(h), port, path));
    }

    assert_eq!(
        lines.len(),
        0,
        "expected zero tailscale URL lines when host is absent"
    );
}

#[test]
fn raw_mode_detected_when_param_present() {
    assert!(is_raw_mode("raw=1"));
    assert!(is_raw_mode("foo=bar&raw=1"));
    assert!(is_raw_mode("raw=1&foo=bar"));
}

#[test]
fn raw_mode_not_detected_when_absent() {
    assert!(!is_raw_mode(""));
    assert!(!is_raw_mode("raw=0"));
    assert!(!is_raw_mode("foo=bar"));
    assert!(!is_raw_mode("raw=1x"));
    assert!(!is_raw_mode("xraw=1"));
}

#[test]
fn decode_plain_ascii() {
    assert_eq!(percent_decode("/docs/guide").unwrap(), "/docs/guide");
}

#[test]
fn decode_dot_dot_lowercase() {
    // %2e%2e → ".."
    assert_eq!(percent_decode("%2e%2e").unwrap(), "..");
}

#[test]
fn decode_dot_dot_uppercase() {
    // %2E%2E → ".."
    assert_eq!(percent_decode("%2E%2E").unwrap(), "..");
}

#[test]
fn decode_slash_lowercase() {
    // %2f → "/"
    assert_eq!(percent_decode("%2f").unwrap(), "/");
}

#[test]
fn decode_slash_uppercase() {
    // %2F → "/"
    assert_eq!(percent_decode("%2F").unwrap(), "/");
}

#[test]
fn decode_mixed_case_encoded_dotdot_slash() {
    // %2e%2e%2f → "../"
    assert_eq!(percent_decode("%2e%2e%2f").unwrap(), "../");
}

#[test]
fn decode_truncated_sequence_is_error() {
    assert!(percent_decode("%2").is_err());
    assert!(percent_decode("%").is_err());
}

#[test]
fn decode_invalid_hex_is_error() {
    assert!(percent_decode("%zz").is_err());
}

#[test]
fn decode_invalid_utf8_sequence_is_error() {
    // %80 is a lone continuation byte — invalid UTF-8.
    assert!(percent_decode("%80").is_err());
}

#[test]
fn normalize_simple_path() {
    assert_eq!(
        normalize_path("/docs/guide").unwrap(),
        "docs/guide"
    );
}

#[test]
fn normalize_root_gives_empty() {
    assert_eq!(normalize_path("/").unwrap(), "");
}

#[test]
fn normalize_dot_components_stripped() {
    assert_eq!(normalize_path("/a/./b").unwrap(), "a/b");
}

#[test]
fn normalize_dotdot_within_root() {
    // /a/b/../c → a/c  (stays inside root)
    assert_eq!(normalize_path("/a/b/../c").unwrap(), "a/c");
}

#[test]
fn normalize_traversal_above_root_rejected() {
    // /../etc/passwd → None (traversal above root)
    assert!(normalize_path("/../etc/passwd").is_none());
}

#[test]
fn normalize_multi_level_traversal_rejected() {
    assert!(normalize_path("/../../etc/passwd").is_none());
}

#[test]
fn normalize_safe_then_escape_rejected() {
    // /a/../../etc/passwd — goes into a, then pops a, then tries to pop empty → None
    assert!(normalize_path("/a/../../etc/passwd").is_none());
}

#[test]
fn normalize_encoded_dotdot_after_decode() {
    // Simulate full pipeline: decode %2e%2e → ".." then normalize
    let decoded = percent_decode("/%2e%2e/etc/passwd").unwrap();
    assert!(
        normalize_path(&decoded).is_none(),
        "traversal via %2e%2e must be rejected"
    );
}

#[test]
fn normalize_encoded_slash_and_dotdot() {
    // %2e%2e%2fetc%2fpasswd → ../etc/passwd  (slash also encoded)
    let decoded = percent_decode("/%2e%2e%2fetc%2fpasswd").unwrap();
    assert!(
        normalize_path(&decoded).is_none(),
        "traversal via %2e%2e%2f must be rejected"
    );
}

#[test]
fn normalize_mixed_case_encoded_dotdot() {
    // /%2E%2E/ → "../" path component
    let decoded = percent_decode("/%2E%2E/").unwrap();
    assert!(
        normalize_path(&decoded).is_none(),
        "%2E%2E traversal must be rejected"
    );
}

#[test]
fn normalize_trailing_slash_ok() {
    // /docs/ → "docs" (trailing slash produces empty component, which is ignored)
    assert_eq!(normalize_path("/docs/").unwrap(), "docs");
}

#[test]
fn mime_html_extensions() {
    assert_eq!(mime_for_ext("html"), "text/html; charset=utf-8");
    assert_eq!(mime_for_ext("htm"), "text/html; charset=utf-8");
    assert_eq!(mime_for_ext("md"), "text/html; charset=utf-8");
}

#[test]
fn mime_css_js() {
    assert_eq!(mime_for_ext("css"), "text/css");
    assert_eq!(mime_for_ext("js"), "text/javascript");
}

#[test]
fn mime_images() {
    assert_eq!(mime_for_ext("png"), "image/png");
    assert_eq!(mime_for_ext("jpg"), "image/jpeg");
    assert_eq!(mime_for_ext("jpeg"), "image/jpeg");
    assert_eq!(mime_for_ext("svg"), "image/svg+xml");
    assert_eq!(mime_for_ext("gif"), "image/gif");
    assert_eq!(mime_for_ext("ico"), "image/x-icon");
}

#[test]
fn mime_fonts_docs() {
    assert_eq!(mime_for_ext("woff2"), "font/woff2");
    assert_eq!(mime_for_ext("pdf"), "application/pdf");
}

#[test]
fn mime_unknown_extension_is_octet_stream() {
    assert_eq!(mime_for_ext("xyz"), "application/octet-stream");
    assert_eq!(mime_for_ext(""), "application/octet-stream");
    assert_eq!(mime_for_ext("bin"), "application/octet-stream");
}

#[test]
fn mime_extension_case_insensitive() {
    assert_eq!(mime_for_ext("PNG"), "image/png");
    assert_eq!(mime_for_ext("SVG"), "image/svg+xml");
    assert_eq!(mime_for_ext("MD"), "text/html; charset=utf-8");
}

#[test]
fn listing_policy_excludes_dotfiles() {
    let entries = vec![
        (".hidden".to_owned(), false),
        ("visible.md".to_owned(), false),
        (".git".to_owned(), true),
    ];
    let result = apply_dir_listing_policy(entries);
    assert_eq!(result.len(), 1);
    assert_eq!(result[0].0, "visible.md");
}

#[test]
fn listing_policy_dirs_before_files() {
    let entries = vec![
        ("zzz-file.txt".to_owned(), false),
        ("aaa-file.md".to_owned(), false),
        ("bbb-dir".to_owned(), true),
        ("aaa-dir".to_owned(), true),
    ];
    let result = apply_dir_listing_policy(entries);
    // Directories first (alphabetical), then files (alphabetical).
    assert_eq!(result[0], ("aaa-dir".to_owned(), true));
    assert_eq!(result[1], ("bbb-dir".to_owned(), true));
    assert_eq!(result[2], ("aaa-file.md".to_owned(), false));
    assert_eq!(result[3], ("zzz-file.txt".to_owned(), false));
}

#[test]
fn listing_policy_case_insensitive_sort() {
    let entries = vec![
        ("Zebra.md".to_owned(), false),
        ("apple.md".to_owned(), false),
        ("Mango.md".to_owned(), false),
    ];
    let result = apply_dir_listing_policy(entries);
    // Case-insensitive: apple < Mango < Zebra
    assert_eq!(result[0].0, "apple.md");
    assert_eq!(result[1].0, "Mango.md");
    assert_eq!(result[2].0, "Zebra.md");
}

#[test]
fn listing_policy_empty_input() {
    let result = apply_dir_listing_policy(vec![]);
    assert!(result.is_empty());
}

#[test]
fn listing_policy_only_dotfiles_filtered_out() {
    let entries = vec![
        (".env".to_owned(), false),
        (".gitignore".to_owned(), false),
    ];
    let result = apply_dir_listing_policy(entries);
    assert!(result.is_empty());
}

#[test]
fn breadcrumbs_root_only() {
    let html = build_breadcrumbs("/");
    assert!(html.contains("href=\"/\""), "root link missing: {html}");
    // Only the root link, no extra segments.
    assert_eq!(html.matches("<a href=").count(), 1);
}

#[test]
fn breadcrumbs_one_segment() {
    let html = build_breadcrumbs("/docs");
    assert!(html.contains("href=\"/\""), "root link missing: {html}");
    assert!(html.contains("href=\"/docs/\""), "docs link missing: {html}");
    assert!(html.contains(">docs<"), "docs text missing: {html}");
}

#[test]
fn breadcrumbs_two_segments() {
    let html = build_breadcrumbs("/docs/guide");
    assert!(html.contains("href=\"/\""), "root link missing: {html}");
    assert!(html.contains("href=\"/docs/\""), "docs link missing: {html}");
    assert!(html.contains("href=\"/docs/guide/\""), "guide link missing: {html}");
    assert!(html.contains(">guide<"), "guide text missing: {html}");
}

#[test]
fn breadcrumbs_encodes_special_chars() {
    let html = build_breadcrumbs("/my docs/sub dir");
    assert!(
        html.contains("href=\"/my%20docs/\""),
        "space encoding missing: {html}"
    );
    assert!(
        html.contains("href=\"/my%20docs/sub%20dir/\""),
        "nested space encoding missing: {html}"
    );
}

#[test]
fn url_key_parity_docs_readme() {
    // url_key_from_rel_path("docs/readme.md") == "/docs/readme.md"
    assert_eq!(
        url_key_from_rel_path("docs/readme.md"),
        "/docs/readme.md"
    );
}

#[test]
fn url_key_parity_empty() {
    // url_key_from_rel_path("") == "/"
    assert_eq!(url_key_from_rel_path(""), "/");
}

#[test]
fn url_key_parity_readme() {
    // url_key_from_rel_path("readme.md") == "/readme.md"
    assert_eq!(
        url_key_from_rel_path("readme.md"),
        "/readme.md"
    );
}

#[test]
fn norm_display_round_trip() {
    // The pipeline of the handler for a percent-encoded path.
    // percent_decode("/docs/read%20me.md") + normalize_path()
    // → norm_display = "docs/read me.md"
    // → url_key_from_rel_path(norm_display) = "/docs/read me.md"
    let decoded = percent_decode("/docs/read%20me.md").unwrap();
    let normalized = normalize_path(&decoded).unwrap();
    let norm_display = normalized.clone();
    assert_eq!(
        norm_display,
        "docs/read me.md",
        "decoded path must produce norm_display without leading slash"
    );
    let key = url_key_from_rel_path(&norm_display);
    assert_eq!(
        key,
        "/docs/read me.md",
        "key must have leading slash and decoded (space-containing) content"
    );
}

#[test]
fn key_has_no_fragment() {
    // The fragment never reaches the handler: the client keeps it.
    // Confirm that normalize_path + url_key_from_rel_path produces a fragment-free key.
    let decoded = percent_decode("/docs/page.md").unwrap();
    let normalized = normalize_path(&decoded).unwrap();
    let norm_display = normalized.clone();
    let key = url_key_from_rel_path(&norm_display);
    assert_eq!(key, "/docs/page.md");
    assert!(
        !key.contains('#'),
        "backlinks lookup key must never contain a fragment"
    );
}

/// `vlog(false, ..)` must not evaluate format arguments.
///
/// The format argument contains a side effect (incrementing a counter).
/// Because the line is made inside `if false { ... }`, the block is
/// never entered, so the counter must remain 0.
#[test]
fn vlog_suppressed_when_verbose_false() {
    let mut count = 0i32;
    let line = vlog(false, || {
        count += 1;
        format!("{}", count)
    });
    assert!(line.is_none());
    assert_eq!(count, 0, "vlog(false, ..) must not evaluate format args");
}

/// `vlog(true, ..)` must evaluate format arguments and produce output.
///
/// The format argument contains a side effect (incrementing a counter).
/// With verbose=true the `eprintln!` body runs, so the counter must be 1.
#[test]
fn vlog_runs_when_verbose_true() {
    let mut count = 0i32;
    let line = vlog(true, || {
        count += 1;
        format!("{}", count)
    });
    assert_eq!(line.as_deref(), Some("1"));
    assert_eq!(count, 1, "vlog(true, ..) must evaluate format args");
}

#[test]
fn macos_no_ssh_is_headed() {
    let env = clear_env();
    assert!(is_headed_for(RuntimePlatform::MacOs, &env));
}

#[test]
fn macos_ssh_connection_is_not_headed() {
    let env = EnvSnapshot { ssh_connection: true, ..clear_env() };
    assert!(!is_headed_for(RuntimePlatform::MacOs, &env));
}

#[test]
fn macos_ssh_tty_is_not_headed() {
    let env = EnvSnapshot { ssh_tty: true, ..clear_env() };
    assert!(!is_headed_for(RuntimePlatform::MacOs, &env));
}

#[test]
fn macos_both_ssh_vars_is_not_headed() {
    let env = EnvSnapshot { ssh_connection: true, ssh_tty: true, ..clear_env() };
    assert!(!is_headed_for(RuntimePlatform::MacOs, &env));
}

/// macOS with DISPLAY set but no SSH — still headed (DISPLAY is irrelevant on macOS).
#[test]
fn macos_display_set_no_ssh_is_headed() {
    let env = EnvSnapshot { display: true, ..clear_env() };
    assert!(is_headed_for(RuntimePlatform::MacOs, &env));
}

#[test]
fn linux_display_no_ssh_no_ci_is_headed() {
    let env = EnvSnapshot { display: true, ..clear_env() };
    assert!(is_headed_for(RuntimePlatform::Linux, &env));
}

#[test]
fn linux_wayland_no_ssh_no_ci_is_headed() {
    let env = EnvSnapshot { wayland_display: true, ..clear_env() };
    assert!(is_headed_for(RuntimePlatform::Linux, &env));
}

#[test]
fn linux_both_display_vars_no_ssh_no_ci_is_headed() {
    let env = EnvSnapshot { display: true, wayland_display: true, ..clear_env() };
    assert!(is_headed_for(RuntimePlatform::Linux, &env));
}

#[test]
fn linux_no_display_no_wayland_is_not_headed() {
    let env = clear_env(); // display=false, wayland_display=false
    assert!(!is_headed_for(RuntimePlatform::Linux, &env));
}

#[test]
fn linux_display_ssh_connection_is_not_headed() {
    let env = EnvSnapshot { display: true, ssh_connection: true, ..clear_env() };
    assert!(!is_headed_for(RuntimePlatform::Linux, &env));
}

#[test]
fn linux_display_ssh_tty_is_not_headed() {
    let env = EnvSnapshot { display: true, ssh_tty: true, ..clear_env() };
    assert!(!is_headed_for(RuntimePlatform::Linux, &env));
}

#[test]
fn linux_display_ci_is_not_headed() {
    let env = EnvSnapshot { display: true, ci: true, ..clear_env() };
    assert!(!is_headed_for(RuntimePlatform::Linux, &env));
}

#[test]
fn linux_display_github_actions_is_not_headed() {
    let env = EnvSnapshot { display: true, github_actions: true, ..clear_env() };
    assert!(!is_headed_for(RuntimePlatform::Linux, &env));
}

#[test]
fn linux_wayland_ci_is_not_headed() {
    let env = EnvSnapshot { wayland_display: true, ci: true, ..clear_env() };
    assert!(!is_headed_for(RuntimePlatform::Linux, &env));
}

#[test]
fn linux_wayland_ssh_connection_is_not_headed() {
    let env = EnvSnapshot { wayland_display: true, ssh_connection: true, ..clear_env() };
    assert!(!is_headed_for(RuntimePlatform::Linux, &env));
}

#[test]
fn other_platform_always_not_headed() {
    // Even with a display set, unknown platforms return false.
    let env = EnvSnapshot { display: true, wayland_display: true, ..clear_env() };
    assert!(!is_headed_for(RuntimePlatform::Other, &env));
}

#[test]
fn other_platform_clear_env_not_headed() {
    assert!(!is_headed_for(RuntimePlatform::Other, &clear_env()));
}

#[test]
fn should_attempt_open_no_open_false_headed_true() {
    assert!(should_attempt_open(false, true));
}

#[test]
fn should_attempt_open_no_open_true_headed_true() {
    assert!(!should_attempt_open(true, true));
}

#[test]
fn should_attempt_open_no_open_false_headed_false() {
    assert!(!should_attempt_open(false, false));
}

#[test]
fn should_attempt_open_no_open_true_headed_false() {
    assert!(!should_attempt_open(true, false));
}

#[test]
fn default_open_command_is_not_empty_on_known_platform() {
    // On macOS or Linux the command must be a non-empty string.
    // On other platforms it must be empty (no browser opener).
    assert!(!default_open_command(RuntimePlatform::MacOs).is_empty());
    assert!(!default_open_command(RuntimePlatform::Linux).is_empty());

    assert!(default_open_command(RuntimePlatform::Other).is_empty());
}

#[test]
fn default_open_command_macos_is_open() {
    assert_eq!(default_open_command(RuntimePlatform::MacOs), "open");
}

#[test]
fn default_open_command_linux_is_xdg_open() {
    assert_eq!(default_open_command(RuntimePlatform::Linux), "xdg-open");
}

/// When `MDMD_OPEN_CMD` is provided as `Some`, `resolve_open_cmd` returns
/// it verbatim, overriding the platform default.
#[test]
fn resolve_open_cmd_uses_override_when_provided() {
    assert_eq!(resolve_open_cmd(Some("my-browser"), RuntimePlatform::Linux), "my-browser");
    assert_eq!(resolve_open_cmd(Some("/usr/bin/xdg-open"), RuntimePlatform::Linux), "/usr/bin/xdg-open");
}

/// An empty string override is accepted as-is (callers decide whether to act on it).
#[test]
fn resolve_open_cmd_empty_override_preserved() {
    assert_eq!(resolve_open_cmd(Some(""), RuntimePlatform::Linux), "");
}

/// When no override is provided (`None`), the function falls back to
/// `default_open_command()` — a non-empty value on macOS/Linux.
#[test]
fn resolve_open_cmd_no_override_falls_back_to_platform_default() {
    let cmd = resolve_open_cmd(None, RuntimePlatform::Linux);
    assert!(!cmd.is_empty(), "platform default must be non-empty on macOS/Linux");
    let cmd = resolve_open_cmd(None, RuntimePlatform::MacOs);
    assert!(!cmd.is_empty(), "platform default must be non-empty on macOS/Linux");
    let cmd = resolve_open_cmd(None, RuntimePlatform::Other);
    assert!(cmd.is_empty(), "platform default must be empty on unsupported platforms");
}

