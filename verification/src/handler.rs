//! One request, step by step. Each function here takes what the last step
//! found out and says what happens next: a response, or one more look at the
//! file system whose answer the caller brings back to the function named in
//! the step. Nothing here reads a file.

use crate::backlinks::{url_key, url_key_from_rel_path, BacklinkRef, BacklinksIndex};
use crate::html::{
    ascii_lowered, backlinks_html, build_page_shell, lemma_backlinks_by_text,
    lemma_headings_by_text, lemma_listed_headings_agree, lists_headings, render_markdown,
    rendered_fragment, rendered_headings, HeadingEntry, PageShellContext,
};
use crate::listing::{
    apply_dir_listing_policy, arranged, build_nearest_parent_listing, directory_index_page,
    index_page, listable, listable_entries, nearest_parent_url, not_found_page,
    not_found_page_html, parent_link, parent_listing, RawDirEntry,
};
use crate::paths::{
    components, components_text, extension_of, extension_text, file_name_of, file_name_text,
    join_path, joined, path_components, path_within, stripped, within,
};
use crate::serve::{
    compute_etag, derive_entry_url_path, lemma_echoed_tag_matches, etag_covered, etag_matches, etag_text, fnv1a,
    format_http_date, has_raw_param, http_date_text, is_raw_mode, mime_for_ext, mime_of,
    normalize_path, normalized_path, not_modified_since, outside_root_message, parsed_http_date,
    percent_decode, percent_decoded_text, url_path_of, HTTP_DATE_LIMIT, MAX_FILE_SIZE,
};
use crate::text::{
    chars_are, chars_of, decimal, has_prefix, lowercase_of, push_chars, push_decimal, split_chars,
    split_on, starts_with, views_of,
};
use vstd::prelude::*;
use vstd::string::*;
use vstd::utf8::*;

verus! {

/// Server configuration. It holds nothing yet.
#[derive(Debug, Clone, Copy)]
pub struct AppConfig;

/// What every request handler reads: set up once at startup and never
/// changed after.
#[derive(Debug)]
pub struct AppState {
    /// The directory that files are served from.
    pub serve_root: String,
    /// The canonical form of `serve_root`, for containment checks.
    pub canonical_root: String,
    /// The markdown file that the server was started for.
    pub entry_file: String,
    /// The URL path of the entry file.
    pub entry_url_path: String,
    /// Server configuration.
    pub config: AppConfig,
    /// The entity tag of the embedded stylesheet.
    pub css_etag: String,
    /// The entity tag of the embedded script.
    pub js_etag: String,
    /// The modification time that the embedded assets are served with, in
    /// whole seconds since the Unix epoch.
    pub asset_mtime_secs: u64,
    /// The backlinks index.
    pub backlinks: BacklinksIndex,
    /// Whether diagnostics are written.
    pub verbose: bool,
    /// The embedded stylesheet, served at `/assets/mdmd.css`.
    pub css: String,
    /// The embedded script, served at `/assets/mdmd.js`.
    pub js: String,
}

/// Whether the tags that the state holds for the embedded assets are those of
/// the assets' bytes.
pub open spec fn assets_tagged(state: AppState) -> bool {
    &&& state.css_etag@ == etag_text(fnv1a(encode_utf8(state.css@)))
    &&& state.js_etag@ == etag_text(fnv1a(encode_utf8(state.js@)))
}

impl AppState {
    /// Puts the state together at startup: derives the URL path of the entry
    /// file and tags the embedded assets. Fails where the entry file does not
    /// lie under the canonical root.
    pub fn assemble(
        serve_root: String,
        canonical_root: String,
        entry_file: String,
        css: String,
        js: String,
        asset_mtime_secs: u64,
        backlinks: BacklinksIndex,
        verbose: bool,
    ) -> (r: Result<AppState, String>)
        ensures
            match stripped(entry_file@, canonical_root@) {
                Some(rest) => r matches Ok(state) && state.entry_url_path@ == url_path_of(rest)
                    && assets_tagged(state) && state.serve_root == serve_root
                    && state.canonical_root == canonical_root && state.entry_file == entry_file
                    && state.css == css && state.js == js && state.asset_mtime_secs
                    == asset_mtime_secs && state.backlinks == backlinks && state.verbose
                    == verbose,
                None => r matches Err(m) && m@ == outside_root_message(
                    entry_file@,
                    canonical_root@,
                ),
            },
    {
        let entry_url_path = match derive_entry_url_path(
            entry_file.as_str(),
            canonical_root.as_str(),
        ) {
            Ok(p) => p,
            Err(m) => {
                return Err(m);
            },
        };
        let css_bytes = css.as_str().as_bytes_vec();
        let js_bytes = js.as_str().as_bytes_vec();
        let css_etag = compute_etag(css_bytes.as_slice());
        let js_etag = compute_etag(js_bytes.as_slice());
        Ok(
            AppState {
                serve_root,
                canonical_root,
                entry_file,
                entry_url_path,
                config: AppConfig,
                css_etag,
                js_etag,
                asset_mtime_secs,
                backlinks,
                verbose,
                css,
                js,
            },
        )
    }
}

/// What of a request the handler reads.
#[derive(Debug, Clone)]
pub struct RequestHead {
    /// The path of the request URL, still percent-encoded.
    pub path: String,
    /// The query string, without its `?`; empty where there is none.
    pub query: String,
    /// The `If-None-Match` header.
    pub if_none_match: Option<String>,
    /// The `If-Modified-Since` header.
    pub if_modified_since: Option<String>,
}

/// A response as plain values.
#[derive(Debug, Clone)]
pub struct HttpResponse {
    /// The status code.
    pub status: u16,
    /// The `Content-Type` header.
    pub content_type: Option<String>,
    /// Whether `X-Content-Type-Options: nosniff` is sent.
    pub nosniff: bool,
    /// The `ETag` header.
    pub etag: Option<String>,
    /// The `Last-Modified` header.
    pub last_modified: Option<String>,
    /// The body.
    pub body: Vec<u8>,
}

/// Why a request was turned away.
#[derive(Debug, Clone, Copy, PartialEq, Eq, Structural)]
pub enum DenyReason {
    InvalidPercentEncoding,
    NullByte,
    PathTraversal,
    CanonicalizeFailed,
    OutsideRoot,
    MetadataFailed,
    TooLarge,
    ReadFailed,
}

/// The word for a reason in a diagnostic line.
pub fn deny_reason_label(reason: DenyReason) -> (r: &'static str)
    ensures
        r@ == match reason {
            DenyReason::InvalidPercentEncoding => "invalid-percent-encoding"@,
            DenyReason::NullByte => "null-byte"@,
            DenyReason::PathTraversal => "path-traversal"@,
            DenyReason::CanonicalizeFailed => "canonicalize-failed"@,
            DenyReason::OutsideRoot => "outside-root"@,
            DenyReason::MetadataFailed => "metadata-failed"@,
            DenyReason::TooLarge => "too-large"@,
            DenyReason::ReadFailed => "read-failed"@,
        },
{
    match reason {
        DenyReason::InvalidPercentEncoding => "invalid-percent-encoding",
        DenyReason::NullByte => "null-byte",
        DenyReason::PathTraversal => "path-traversal",
        DenyReason::CanonicalizeFailed => "canonicalize-failed",
        DenyReason::OutsideRoot => "outside-root",
        DenyReason::MetadataFailed => "metadata-failed",
        DenyReason::TooLarge => "too-large",
        DenyReason::ReadFailed => "read-failed",
    }
}

/// The diagnostic line for a request that was turned away.
pub open spec fn denied_line_text(path: Seq<char>, reason: DenyReason) -> Seq<char> {
    "[resolve] path="@ + path + " branch=denied reason="@ + match reason {
        DenyReason::InvalidPercentEncoding => "invalid-percent-encoding"@,
        DenyReason::NullByte => "null-byte"@,
        DenyReason::PathTraversal => "path-traversal"@,
        DenyReason::CanonicalizeFailed => "canonicalize-failed"@,
        DenyReason::OutsideRoot => "outside-root"@,
        DenyReason::MetadataFailed => "metadata-failed"@,
        DenyReason::TooLarge => "too-large"@,
        DenyReason::ReadFailed => "read-failed"@,
    }
}

/// Builds the diagnostic line for a request that was turned away. It is
/// written only where diagnostics are on, and never sent to the client.
pub fn denied_line(path: &str, reason: DenyReason) -> (line: String)
    ensures
        line@ == denied_line_text(path@, reason),
{
    let mut line = String::new();
    line.append("[resolve] path=");
    line.append(path);
    line.append(" branch=denied reason=");
    line.append(deny_reason_label(reason));
    proof {
        assert(line@ =~= denied_line_text(path@, reason));
    }
    line
}

// ---------------------------------------------------------------------------
// Responses
// ---------------------------------------------------------------------------

/// The `Last-Modified` value of a resource without a usable modification time.
pub const EPOCH_HTTP_DATE: &'static str = "Thu, 01 Jan 1970 00:00:00 GMT";

/// The text of an optional string.
pub open spec fn text_of(s: Option<String>) -> Option<Seq<char>> {
    match s {
        Some(t) => Some(t@),
        None => None,
    }
}

/// The terse response to a request that is turned away or that fails: 404,
/// plain text, nothing of the server's paths.
pub open spec fn is_terse_not_found(r: HttpResponse) -> bool {
    &&& r.status == 404
    &&& text_of(r.content_type) == Some("text/plain; charset=utf-8"@)
    &&& r.nosniff
    &&& r.etag is None
    &&& r.last_modified is None
    &&& r.body@ == encode_utf8("Not Found"@)
}

/// Builds the terse 404 response.
pub fn not_found_response() -> (r: HttpResponse)
    ensures
        is_terse_not_found(r),
{
    HttpResponse {
        status: 404,
        content_type: Some("text/plain; charset=utf-8".to_owned()),
        nosniff: true,
        etag: None,
        last_modified: None,
        body: "Not Found".as_bytes_vec(),
    }
}

/// The body of the response to a request for a file that is too large.
pub open spec fn too_large_text(norm_path: Seq<char>, size: u64) -> Seq<char> {
    "Content Too Large: "@ + norm_path + " ("@ + decimal(size as nat) + " bytes exceeds "@
        + decimal(MAX_FILE_SIZE as nat) + " byte limit)"@
}

/// Whether `r` is the response to a request for a file of `size` bytes,
/// which is above the limit: 413 with a line of plain text and no validators.
pub open spec fn is_too_large(r: HttpResponse, norm_path: Seq<char>, size: u64) -> bool {
    &&& r.status == 413
    &&& text_of(r.content_type) == Some("text/plain; charset=utf-8"@)
    &&& r.nosniff
    &&& r.etag is None
    &&& r.last_modified is None
    &&& r.body@ == encode_utf8(too_large_text(norm_path, size))
}

/// Builds the 413 response for a file above the size limit.
pub fn too_large_response(norm_path: &str, size: u64) -> (r: HttpResponse)
    ensures
        is_too_large(r, norm_path@, size),
{
    let mut body = String::new();
    body.append("Content Too Large: ");
    body.append(norm_path);
    body.append(" (");
    push_decimal(&mut body, size);
    body.append(" bytes exceeds ");
    push_decimal(&mut body, MAX_FILE_SIZE);
    body.append(" byte limit)");
    proof {
        assert(body@ =~= too_large_text(norm_path@, size));
    }
    HttpResponse {
        status: 413,
        content_type: Some("text/plain; charset=utf-8".to_owned()),
        nosniff: true,
        etag: None,
        last_modified: None,
        body: body.as_str().as_bytes_vec(),
    }
}

/// The response that tells a client that what it holds is still good: 304
/// with the validators and no body.
pub fn not_modified_response(etag: &str, last_modified: &str) -> (r: HttpResponse)
    ensures
        r.status == 304,
        r.content_type is None,
        r.nosniff,
        text_of(r.etag) == Some(etag@),
        text_of(r.last_modified) == Some(last_modified@),
        r.body@.len() == 0,
{
    HttpResponse {
        status: 304,
        content_type: None,
        nosniff: true,
        etag: Some(etag.to_owned()),
        last_modified: Some(last_modified.to_owned()),
        body: Vec::new(),
    }
}

/// The `Last-Modified` value for a modification time: its HTTP-date, or the
/// epoch's where there is no time or none that an HTTP-date expresses.
pub open spec fn last_modified_text(mtime_secs: Option<u64>) -> Seq<char> {
    match mtime_secs {
        Some(t) => if t < HTTP_DATE_LIMIT {
            http_date_text(t)
        } else {
            EPOCH_HTTP_DATE@
        },
        None => EPOCH_HTTP_DATE@,
    }
}

/// Formats the `Last-Modified` value for a modification time.
pub fn last_modified_value(mtime_secs: Option<u64>) -> (r: String)
    ensures
        r@ == last_modified_text(mtime_secs),
{
    match mtime_secs {
        Some(t) => match format_http_date(t) {
            Some(s) => s,
            None => EPOCH_HTTP_DATE.to_owned(),
        },
        None => EPOCH_HTTP_DATE.to_owned(),
    }
}

/// Whether the validators of a request say that the client's copy is still
/// good. `If-None-Match` is looked at first and, where present, decides
/// alone; else `If-Modified-Since` decides, against the modification time.
pub open spec fn is_fresh(
    if_none_match: Option<Seq<char>>,
    if_modified_since: Option<Seq<char>>,
    etag: Seq<char>,
    mtime_secs: Option<u64>,
) -> bool {
    match if_none_match {
        Some(inm) => etag_covered(inm, etag),
        None => match (if_modified_since, mtime_secs) {
            (Some(ims), Some(mt)) => parsed_http_date(ims) matches Some(t) && mt <= t,
            _ => false,
        },
    }
}

/// Evaluates the conditional headers of a request against the validators of
/// the response that would be sent.
pub fn client_copy_is_fresh(req: &RequestHead, etag: &str, mtime_secs: Option<u64>) -> (r: bool)
    ensures
        r == is_fresh(
            text_of(req.if_none_match),
            text_of(req.if_modified_since),
            etag@,
            mtime_secs,
        ),
{
    match &req.if_none_match {
        Some(inm) => etag_matches(inm.as_str(), etag),
        None => match &req.if_modified_since {
            Some(ims) => match mtime_secs {
                Some(mt) => not_modified_since(ims.as_str(), mt),
                None => false,
            },
            None => false,
        },
    }
}

/// The response to a request for a representation with the given type, body
/// and validators: 304 without a body where the client's copy is still good,
/// else 200 with the body. Either way it carries `ETag`, `Last-Modified` and
/// `nosniff`.
pub open spec fn is_validated_response(
    r: HttpResponse,
    req: RequestHead,
    content_type: Seq<char>,
    body: Seq<u8>,
    etag: Seq<char>,
    mtime_secs: Option<u64>,
) -> bool {
    &&& r.nosniff
    &&& text_of(r.etag) == Some(etag)
    &&& text_of(r.last_modified) == Some(last_modified_text(mtime_secs))
    &&& if is_fresh(text_of(req.if_none_match), text_of(req.if_modified_since), etag, mtime_secs) {
        r.status == 304 && r.content_type is None && r.body@.len() == 0
    } else {
        r.status == 200 && text_of(r.content_type) == Some(content_type) && r.body@ == body
    }
}

/// Builds the response for a representation, conditional headers applied.
pub fn validated_response(
    req: &RequestHead,
    content_type: &str,
    body: Vec<u8>,
    etag: String,
    mtime_secs: Option<u64>,
) -> (r: HttpResponse)
    ensures
        is_validated_response(r, *req, content_type@, body@, etag@, mtime_secs),
{
    let last_modified = last_modified_value(mtime_secs);
    if client_copy_is_fresh(req, etag.as_str(), mtime_secs) {
        not_modified_response(etag.as_str(), last_modified.as_str())
    } else {
        HttpResponse {
            status: 200,
            content_type: Some(content_type.to_owned()),
            nosniff: true,
            etag: Some(etag),
            last_modified: Some(last_modified),
            body,
        }
    }
}

/// Whether a response carries the headers that are due: `nosniff` always,
/// and with status 200 an `ETag` and a `Last-Modified` as well.
pub open spec fn has_due_headers(r: HttpResponse) -> bool {
    r.nosniff && (r.status == 200 ==> r.etag is Some && r.last_modified is Some)
}

/// Whether the response that a step ends with, if it ends with one, carries
/// the headers that are due.
pub open spec fn step_has_due_headers(s: Step) -> bool {
    match s {
        Step::Done(r) => has_due_headers(r),
        Step::Denied(_, r) => has_due_headers(r),
        Step::Ask(_) => true,
    }
}

/// Whether `r` is the answer with the index page of a directory that was
/// last modified at `mtime_secs`: 200 with the page, the tag of its bytes
/// and the directory's time.
pub open spec fn is_index_response(r: HttpResponse, html: Seq<char>, mtime_secs: Option<u64>) -> bool {
    &&& r.status == 200
    &&& text_of(r.content_type) == Some("text/html; charset=utf-8"@)
    &&& r.nosniff
    &&& text_of(r.etag) == Some(etag_text(fnv1a(encode_utf8(html))))
    &&& text_of(r.last_modified) == Some(last_modified_text(mtime_secs))
    &&& r.body@ == encode_utf8(html)
}

/// Builds the answer with the index page of a directory.
pub fn index_response(html: &str, mtime_secs: Option<u64>) -> (r: HttpResponse)
    ensures
        is_index_response(r, html@, mtime_secs),
{
    let body = html.as_bytes_vec();
    let etag = compute_etag(body.as_slice());
    HttpResponse {
        status: 200,
        content_type: Some("text/html; charset=utf-8".to_owned()),
        nosniff: true,
        etag: Some(etag),
        last_modified: Some(last_modified_value(mtime_secs)),
        body,
    }
}

/// Whether `r` is the answer with the page for a path that names nothing:
/// 404 with the page and no validators.
pub open spec fn is_rich_not_found(r: HttpResponse, html: Seq<char>) -> bool {
    &&& r.status == 404
    &&& text_of(r.content_type) == Some("text/html; charset=utf-8"@)
    &&& r.nosniff
    &&& r.etag is None
    &&& r.last_modified is None
    &&& r.body@ == encode_utf8(html)
}

/// Builds the answer with the page for a path that names nothing.
pub fn rich_not_found_response(html: &str) -> (r: HttpResponse)
    ensures
        is_rich_not_found(r, html@),
{
    HttpResponse {
        status: 404,
        content_type: Some("text/html; charset=utf-8".to_owned()),
        nosniff: true,
        etag: None,
        last_modified: None,
        body: html.as_bytes_vec(),
    }
}


// ---------------------------------------------------------------------------
// Steps
// ---------------------------------------------------------------------------

/// Which rule of the fallback order found the file.
#[derive(Debug, Clone, Copy, PartialEq, Eq, Structural)]
pub enum ResolveBranch {
    /// The path names a file.
    Exact,
    /// The path names a directory that holds `README.md`.
    Readme,
    /// The path names a directory that holds `index.md`.
    Index,
    /// The path has no extension and names a file once `.md` is added.
    Extensionless,
}

/// The word for a branch in a diagnostic line.
pub fn branch_label(branch: ResolveBranch) -> (r: &'static str)
    ensures
        r@ == match branch {
            ResolveBranch::Exact => "exact"@,
            ResolveBranch::Readme => "readme"@,
            ResolveBranch::Index => "index"@,
            ResolveBranch::Extensionless => "extensionless"@,
        },
{
    match branch {
        ResolveBranch::Exact => "exact",
        ResolveBranch::Readme => "readme",
        ResolveBranch::Index => "index",
        ResolveBranch::Extensionless => "extensionless",
    }
}

/// What a path names.
#[derive(Debug, Clone, Copy, PartialEq, Eq, Structural)]
pub enum FileKind {
    /// A regular file.
    File,
    /// A directory.
    Directory,
    /// Nothing, or something that is neither.
    Other,
}

/// What the file system said of the paths that a request may resolve to.
#[derive(Debug, Clone, Copy)]
pub struct CandidateProbe {
    /// What the candidate itself names.
    pub kind: FileKind,
    /// Whether `README.md` under the candidate is a file.
    pub readme_is_file: bool,
    /// Whether `index.md` under the candidate is a file.
    pub index_is_file: bool,
    /// Whether the candidate with `.md` added is a file.
    pub with_md_is_file: bool,
}

/// Size and modification time of a file.
#[derive(Debug, Clone, Copy)]
pub struct FileStat {
    /// The length of the file in bytes.
    pub size: u64,
    /// The modification time in whole seconds since the Unix epoch, where
    /// the file system gives one.
    pub mtime_secs: Option<u64>,
}

/// What the file system said of one ancestor of a missing path.
#[derive(Debug, Clone)]
pub struct AncestorProbe {
    /// Whether the ancestor is a directory.
    pub is_dir: bool,
    /// The canonical path of the ancestor, where it has one.
    pub canonical: Option<String>,
}

/// What the handler needs next. The caller does what the variant says and
/// brings the answer to the function that the variant names.
#[derive(Debug)]
pub enum Pending {
    /// Find out what the four paths name; continue with `after_probe`.
    Probe { norm: String, candidate: String, readme: String, index: String, with_md: Option<String> },
    /// Canonicalize `resolved`; continue with `after_canonicalize`.
    Canonicalize { norm: String, resolved: String, branch: ResolveBranch },
    /// Read size and modification time of `canonical`; continue with `after_stat`.
    Stat { norm: String, canonical: String },
    /// Read `canonical` as text; continue with `after_read_text`.
    ReadText { norm: String, canonical: String, mtime_secs: Option<u64> },
    /// Read the bytes of `canonical`; continue with `after_read_bytes`.
    ReadBytes { norm: String, canonical: String, mtime_secs: Option<u64> },
    /// Read the entries of `dir` and its modification time; continue with
    /// `after_list_directory`.
    ListDirectory { dir: String, url_prefix: String },
    /// Find out which of `candidates` are directories, and their canonical
    /// paths; continue with `after_probe_ancestors`.
    ProbeAncestors { norm: String, candidates: Vec<String> },
    /// Read the entries of `parent`; continue with `after_list_parent`.
    ListParent { norm: String, parent: String, parent_url: String },
    /// Canonicalize `candidate`; continue with `after_freshness_canonicalize`.
    FreshnessCanonicalize { candidate: String },
    /// Read the modification time of `canonical`; continue with
    /// `after_freshness_stat`.
    FreshnessStat { canonical: String },
}

/// The outcome of one step.
#[derive(Debug)]
pub enum Step {
    /// The response to send.
    Done(HttpResponse),
    /// The request was turned away: why, and the response to send.
    Denied(DenyReason, HttpResponse),
    /// What has to be found out first.
    Ask(Pending),
}

/// Where a request path leads.
pub enum Route {
    /// The freshness endpoint.
    Freshness,
    /// The embedded stylesheet.
    Stylesheet,
    /// The embedded script.
    Script,
    /// Nowhere: the path is turned away.
    Denied(DenyReason),
    /// The index of the root directory.
    RootIndex,
    /// The file or directory with this path relative to the root.
    Candidate(Seq<char>),
}

/// Where a decoded and normalised path leads. Decoding comes first, so that
/// an encoded `..` is seen; then null bytes are refused, then paths that
/// climb above the root.
pub open spec fn resolution_of(raw_path: Seq<char>) -> Route {
    match percent_decoded_text(raw_path) {
        None => Route::Denied(DenyReason::InvalidPercentEncoding),
        Some(decoded) => if decoded.contains('\0') {
            Route::Denied(DenyReason::NullByte)
        } else {
            match normalized_path(decoded) {
                None => Route::Denied(DenyReason::PathTraversal),
                Some(n) => if n.len() == 0 {
                    Route::RootIndex
                } else {
                    Route::Candidate(n)
                },
            }
        },
    }
}

/// Where a request path leads.
pub open spec fn route_of(raw_path: Seq<char>) -> Route {
    if raw_path == "/_mdmd/freshness"@ {
        Route::Freshness
    } else if raw_path == "/assets/mdmd.css"@ {
        Route::Stylesheet
    } else if raw_path == "/assets/mdmd.js"@ {
        Route::Script
    } else {
        resolution_of(raw_path)
    }
}

/// Decodes and normalises a request path. `Ok` holds the path relative to
/// the root, empty for the root itself.
pub fn resolve_request_path(raw_path: &str) -> (r: Result<String, DenyReason>)
    ensures
        match resolution_of(raw_path@) {
            Route::Denied(reason) => r == Err::<String, DenyReason>(reason),
            Route::RootIndex => r matches Ok(n) && n@.len() == 0,
            Route::Candidate(p) => r matches Ok(n) && n@ == p,
            _ => false,
        },
{
    let decoded = match percent_decode(raw_path) {
        Ok(d) => d,
        Err(_) => {
            return Err(DenyReason::InvalidPercentEncoding);
        },
    };
    let cs = chars_of(decoded.as_str());
    let mut i: usize = 0;
    while i < cs.len()
        invariant
            i <= cs.len(),
            Some(cs@) == percent_decoded_text(raw_path@),
            forall|j: int| 0 <= j < i ==> cs@[j] != '\0',
        decreases cs.len() - i,
    {
        if cs[i] == '\0' {
            proof {
                assert(cs@[i as int] == '\0');
                assert(cs@.contains('\0'));
            }
            return Err(DenyReason::NullByte);
        }
        i += 1;
    }
    proof {
        assert(!cs@.contains('\0'));
    }
    match normalize_path(decoded.as_str()) {
        Some(n) => Ok(n),
        None => Err(DenyReason::PathTraversal),
    }
}

/// The URL key under which the backlinks index is asked for a request path:
/// `/` and the decoded, normalised path. Building the index and looking a
/// page up go through the same key function.
pub open spec fn request_key_text(raw_path: Seq<char>) -> Option<Seq<char>> {
    match resolution_of(raw_path) {
        Route::RootIndex => Some(url_key(Seq::<char>::empty())),
        Route::Candidate(n) => Some(url_key(n)),
        _ => None,
    }
}

/// Computes the URL key for a request path; `None` for a path that is
/// turned away.
pub fn request_key(raw_path: &str) -> (r: Option<String>)
    ensures
        text_of(r) == request_key_text(raw_path@),
{
    match resolve_request_path(raw_path) {
        Ok(norm) => Some(url_key_from_rel_path(norm.as_str())),
        Err(_) => None,
    }
}

/// The key that a request path is looked up with is `/` followed by the
/// path, decoded and normalised; it always starts with `/`.
pub proof fn lemma_request_key_parity(raw_path: Seq<char>)
    ensures
        match request_key_text(raw_path) {
            Some(key) => percent_decoded_text(raw_path) matches Some(decoded) && normalized_path(
                decoded,
            ) matches Some(n) && key == seq!['/'] + n && key.len() > 0 && key[0] == '/',
            None => true,
        },
{
}

/// A response to a request for a file or an embedded asset carries `ETag`,
/// `Last-Modified` and `nosniff`, with status 200 and with the 304 that takes
/// its place. Every step states the same of its own response, whatever it
/// answers: see `step_has_due_headers`.
pub proof fn lemma_ok_carries_validators(
    r: HttpResponse,
    req: RequestHead,
    content_type: Seq<char>,
    body: Seq<u8>,
    etag: Seq<char>,
    mtime_secs: Option<u64>,
)
    requires
        is_validated_response(r, req, content_type, body, etag, mtime_secs),
    ensures
        r.status == 200 || r.status == 304,
        r.etag is Some,
        r.last_modified is Some,
        r.nosniff,
{
}

/// The path that the extensionless fallback tries: the candidate with `.md`
/// added, where the candidate names something and has no extension.
pub open spec fn md_fallback(candidate: Seq<char>) -> Option<Seq<char>> {
    if file_name_text(candidate) is Some && extension_text(candidate) is None {
        Some(candidate + ".md"@)
    } else {
        None
    }
}

/// The probe for a path relative to the root: the candidate under the root,
/// the two index files under it, and the extensionless fallback.
pub open spec fn is_probe_for(p: Pending, serve_root: Seq<char>, n: Seq<char>) -> bool {
    p matches Pending::Probe { norm, candidate, readme, index, with_md } && {
        &&& norm@ == n
        &&& candidate@ == joined(serve_root, n)
        &&& readme@ == joined(candidate@, "README.md"@)
        &&& index@ == joined(candidate@, "index.md"@)
        &&& text_of(with_md) == md_fallback(candidate@)
    }
}

fn probe_for(serve_root: &str, norm: String) -> (p: Pending)
    ensures
        is_probe_for(p, serve_root@, norm@),
{
    let candidate = join_path(serve_root, norm.as_str());
    let readme = join_path(candidate.as_str(), "README.md");
    let index = join_path(candidate.as_str(), "index.md");
    let has_name = file_name_of(candidate.as_str()).is_some();
    let has_ext = extension_of(candidate.as_str()).is_some();
    let with_md = if has_name && !has_ext {
        let mut m = candidate.clone();
        m.append(".md");
        Some(m)
    } else {
        None
    };
    Pending::Probe { norm, candidate, readme, index, with_md }
}

/// The first step of a request: the embedded assets are answered at once,
/// the freshness endpoint and every other path start their pipelines.
pub fn begin(state: &AppState, req: &RequestHead) -> (r: Step)
    ensures
        match route_of(req.path@) {
            Route::Freshness => is_freshness_start(r, *state, req.query@),
            Route::Stylesheet => r matches Step::Done(resp) && is_validated_response(
                resp,
                *req,
                "text/css; charset=utf-8"@,
                encode_utf8(state.css@),
                state.css_etag@,
                Some(state.asset_mtime_secs),
            ),
            Route::Script => r matches Step::Done(resp) && is_validated_response(
                resp,
                *req,
                "text/javascript; charset=utf-8"@,
                encode_utf8(state.js@),
                state.js_etag@,
                Some(state.asset_mtime_secs),
            ),
            Route::Denied(reason) => r matches Step::Denied(why, resp) && why == reason
                && is_terse_not_found(resp),
            Route::RootIndex => r matches Step::Ask(Pending::ListDirectory { dir, url_prefix })
                && dir@ == state.canonical_root@ && url_prefix@ == "/"@,
            Route::Candidate(n) => r matches Step::Ask(p) && is_probe_for(p, state.serve_root@, n),
        },
        step_has_due_headers(r),
{
    let path = chars_of(req.path.as_str());
    if chars_are(&path, "/_mdmd/freshness") {
        return begin_freshness(state, req.query.as_str());
    }
    if chars_are(&path, "/assets/mdmd.css") {
        return Step::Done(
            validated_response(
                req,
                "text/css; charset=utf-8",
                state.css.as_str().as_bytes_vec(),
                state.css_etag.clone(),
                Some(state.asset_mtime_secs),
            ),
        );
    }
    if chars_are(&path, "/assets/mdmd.js") {
        return Step::Done(
            validated_response(
                req,
                "text/javascript; charset=utf-8",
                state.js.as_str().as_bytes_vec(),
                state.js_etag.clone(),
                Some(state.asset_mtime_secs),
            ),
        );
    }
    match resolve_request_path(req.path.as_str()) {
        Err(reason) => Step::Denied(reason, not_found_response()),
        Ok(norm) => {
            if norm.as_str().is_empty() {
                Step::Ask(
                    Pending::ListDirectory {
                        dir: state.canonical_root.clone(),
                        url_prefix: "/".to_owned(),
                    },
                )
            } else {
                Step::Ask(probe_for(state.serve_root.as_str(), norm))
            }
        },
    }
}

/// The file that a candidate resolves to, in the fixed order: the candidate
/// itself where it is a file; for a directory its `README.md`, else its
/// `index.md`; for anything else the candidate with `.md` added.
pub open spec fn resolved_branch(probe: CandidateProbe, has_fallback: bool) -> Option<ResolveBranch> {
    match probe.kind {
        FileKind::File => Some(ResolveBranch::Exact),
        FileKind::Directory => if probe.readme_is_file {
            Some(ResolveBranch::Readme)
        } else if probe.index_is_file {
            Some(ResolveBranch::Index)
        } else {
            None
        },
        FileKind::Other => if has_fallback && probe.with_md_is_file {
            Some(ResolveBranch::Extensionless)
        } else {
            None
        },
    }
}

/// Picks the rule of the fallback order that applies.
pub fn resolve_candidate(probe: &CandidateProbe, has_fallback: bool) -> (r: Option<ResolveBranch>)
    ensures
        r == resolved_branch(*probe, has_fallback),
{
    match probe.kind {
        FileKind::File => Some(ResolveBranch::Exact),
        FileKind::Directory => {
            if probe.readme_is_file {
                Some(ResolveBranch::Readme)
            } else if probe.index_is_file {
                Some(ResolveBranch::Index)
            } else {
                None
            }
        },
        FileKind::Other => {
            if has_fallback && probe.with_md_is_file {
                Some(ResolveBranch::Extensionless)
            } else {
                None
            }
        },
    }
}

/// The paths that are tried when a path was not found: the parents of the
/// missing path, from the nearest up, as far as one has a parent.
pub open spec fn ancestors(missing: Seq<char>) -> Seq<Seq<char>> {
    let cs = components(missing);
    Seq::new(
        if cs.len() > 0 {
            (cs.len() - 1) as nat
        } else {
            0
        },
        |i: int| components_text(cs.take(cs.len() - 1 - i)),
    )
}

/// Lists the parents of a missing path, from the nearest up.
pub fn ancestor_candidates(missing: &str) -> (out: Vec<String>)
    ensures
        out.len() == ancestors(missing@).len(),
        forall|i: int| 0 <= i < out.len() ==> (#[trigger] out@[i])@ == ancestors(missing@)[i],
{
    let cs = path_components(missing);
    let mut out: Vec<String> = Vec::new();
    if cs.len() == 0 {
        return out;
    }
    let mut n: usize = cs.len() - 1;
    while n > 0
        invariant
            n < cs.len(),
            views_of(cs@) == components(missing@),
            out.len() == cs.len() - 1 - n,
            forall|i: int| 0 <= i < out.len() ==> (#[trigger] out@[i])@ == ancestors(missing@)[i],
        decreases n,
    {
        let mut head: Vec<Vec<char>> = Vec::new();
        let mut k: usize = 0;
        while k < n
            invariant
                k <= n < cs.len(),
                views_of(head@) == views_of(cs@).take(k as int),
            decreases n - k,
        {
            head.push(cs[k].clone());
            proof {
                assert(views_of(head@) =~= views_of(cs@).take(k as int).push(cs@[k as int]@));
                assert(views_of(cs@).take(k + 1) =~= views_of(cs@).take(k as int).push(
                    cs@[k as int]@,
                ));
            }
            k += 1;
        }
        let text = crate::paths::components_to_text(&head, 0);
        proof {
            assert(views_of(head@).skip(0) == views_of(head@));
        }
        out.push(text);
        n -= 1;
    }
    out
}

/// What follows the probe of a candidate: the file that the fallback order
/// finds is canonicalized; a directory without an index file is listed; for
/// anything else the not-found page is prepared.
pub fn after_probe(
    state: &AppState,
    norm: String,
    candidate: String,
    readme: String,
    index: String,
    with_md: Option<String>,
    probe: &CandidateProbe,
) -> (r: Step)
    ensures
        match resolved_branch(*probe, with_md is Some) {
            Some(b) => r matches Step::Ask(Pending::Canonicalize { norm: n, resolved, branch })
                && n == norm && branch == b && resolved == match b {
                ResolveBranch::Exact => candidate,
                ResolveBranch::Readme => readme,
                ResolveBranch::Index => index,
                ResolveBranch::Extensionless => with_md->0,
            },
            None => if probe.kind == FileKind::Directory {
                r matches Step::Ask(Pending::ListDirectory { dir, url_prefix }) && dir == candidate
                    && url_prefix@ == url_key(norm@) + "/"@
            } else {
                r matches Step::Ask(Pending::ProbeAncestors { norm: n, candidates }) && n == norm
                    && candidates.len() == ancestors(joined(state.serve_root@, norm@)).len()
                    && forall|i: int|
                    0 <= i < candidates.len() ==> (#[trigger] candidates@[i])@ == ancestors(
                        joined(state.serve_root@, norm@),
                    )[i]
            },
        },
        step_has_due_headers(r),
{
    match resolve_candidate(probe, with_md.is_some()) {
        Some(branch) => {
            let resolved = match branch {
                ResolveBranch::Exact => candidate,
                ResolveBranch::Readme => readme,
                ResolveBranch::Index => index,
                ResolveBranch::Extensionless => with_md.unwrap(),
            };
            Step::Ask(Pending::Canonicalize { norm, resolved, branch })
        },
        None => {
            match probe.kind {
                FileKind::Directory => {
                    let mut url_prefix = url_key_from_rel_path(norm.as_str());
                    url_prefix.append("/");
                    Step::Ask(Pending::ListDirectory { dir: candidate, url_prefix })
                },
                _ => {
                    let missing = join_path(state.serve_root.as_str(), norm.as_str());
                    let candidates = ancestor_candidates(missing.as_str());
                    Step::Ask(Pending::ProbeAncestors { norm, candidates })
                },
            }
        },
    }
}

/// What follows canonicalizing: a path that has no canonical form, or whose
/// canonical form lies outside the canonical root, is turned away. This is
/// the one defence against a symbolic link that points out of the tree.
pub fn after_canonicalize(state: &AppState, norm: String, canonical: Option<String>) -> (r: Step)
    ensures
        match canonical {
            None => r matches Step::Denied(why, resp) && why == DenyReason::CanonicalizeFailed
                && is_terse_not_found(resp),
            Some(c) => if within(c@, state.canonical_root@) {
                r matches Step::Ask(Pending::Stat { norm: n, canonical: p }) && n == norm && p == c
            } else {
                r matches Step::Denied(why, resp) && why == DenyReason::OutsideRoot
                    && is_terse_not_found(resp)
            },
        },
        step_has_due_headers(r),
{
    match canonical {
        None => Step::Denied(DenyReason::CanonicalizeFailed, not_found_response()),
        Some(c) => {
            if path_within(c.as_str(), state.canonical_root.as_str()) {
                Step::Ask(Pending::Stat { norm, canonical: c })
            } else {
                Step::Denied(DenyReason::OutsideRoot, not_found_response())
            }
        },
    }
}

/// Whether a file extension is that of markdown: `md`, in any ASCII case.
pub open spec fn is_markdown_ext(ext: Option<Seq<char>>) -> bool {
    ext matches Some(e) && ascii_lowered(e) == "md"@
}

fn has_markdown_ext(path: &str) -> (r: bool)
    ensures
        r == is_markdown_ext(extension_text(path@)),
{
    match extension_of(path) {
        None => false,
        Some(e) => {
            let cs = chars_of(e.as_str());
            let mut low: Vec<char> = Vec::new();
            let mut i: usize = 0;
            while i < cs.len()
                invariant
                    i <= cs.len(),
                    low@ == ascii_lowered(cs@.take(i as int)),
                decreases cs.len() - i,
            {
                let c = cs[i];
                let lc = if 'A' <= c && c <= 'Z' {
                    ((c as u8) + 32) as char
                } else {
                    c
                };
                low.push(lc);
                proof {
                    assert(low@ =~= ascii_lowered(cs@.take(i + 1)));
                }
                i += 1;
            }
            proof {
                assert(cs@.take(cs.len() as int) == cs@);
            }
            chars_are(&low, "md")
        },
    }
}

/// What follows reading size and time: a file whose size could not be read
/// is turned away with 404, one above the limit with 413; a markdown file is
/// read as text, any other as bytes. A file of exactly the limit is served.
pub fn after_stat(norm: String, canonical: String, stat: Option<FileStat>) -> (r: Step)
    ensures
        match stat {
            None => r matches Step::Denied(why, resp) && why == DenyReason::MetadataFailed
                && is_terse_not_found(resp),
            Some(st) => if st.size > MAX_FILE_SIZE {
                r matches Step::Denied(why, resp) && why == DenyReason::TooLarge && is_too_large(
                    resp,
                    norm@,
                    st.size,
                )
            } else if is_markdown_ext(extension_text(canonical@)) {
                r matches Step::Ask(Pending::ReadText { norm: n, canonical: c, mtime_secs }) && n
                    == norm && c == canonical && mtime_secs == st.mtime_secs
            } else {
                r matches Step::Ask(Pending::ReadBytes { norm: n, canonical: c, mtime_secs }) && n
                    == norm && c == canonical && mtime_secs == st.mtime_secs
            },
        },
        step_has_due_headers(r),
{
    match stat {
        None => Step::Denied(DenyReason::MetadataFailed, not_found_response()),
        Some(st) => {
            if st.size > MAX_FILE_SIZE {
                Step::Denied(DenyReason::TooLarge, too_large_response(norm.as_str(), st.size))
            } else if has_markdown_ext(canonical.as_str()) {
                Step::Ask(Pending::ReadText { norm, canonical, mtime_secs: st.mtime_secs })
            } else {
                Step::Ask(Pending::ReadBytes { norm, canonical, mtime_secs: st.mtime_secs })
            }
        },
    }
}

/// Whether `resp` answers with the page of the markdown document `text`,
/// conditional headers applied. The tag is that of the page's bytes.
pub open spec fn is_page_answer(
    resp: HttpResponse,
    state: AppState,
    req: RequestHead,
    norm: Seq<char>,
    canonical: Seq<char>,
    mtime_secs: Option<u64>,
    text: Seq<char>,
) -> bool {
    exists|page: Seq<char>|
        #[trigger] is_rendered_page(page, state, norm, canonical, mtime_secs, text)
            && is_validated_response(
            resp,
            req,
            "text/html; charset=utf-8"@,
            encode_utf8(page),
            etag_text(fnv1a(encode_utf8(page))),
            mtime_secs,
        )
}

/// Whether `r` is what follows reading a markdown file. A file that could not
/// be read is turned away with 404. For one that was read the answer is,
/// conditional headers applied, the source as plain text where the query asks
/// for it, else the document's page; its tag is that of the bytes it stands
/// for.
pub open spec fn is_text_answer(
    r: Step,
    state: AppState,
    req: RequestHead,
    norm: Seq<char>,
    canonical: Seq<char>,
    mtime_secs: Option<u64>,
    content: Option<Seq<char>>,
) -> bool {
    match content {
        None => r matches Step::Denied(why, resp) && why == DenyReason::ReadFailed
            && is_terse_not_found(resp),
        Some(text) => r matches Step::Done(resp) && if has_raw_param(req.query@) {
            is_validated_response(
                resp,
                req,
                "text/plain; charset=utf-8"@,
                encode_utf8(text),
                etag_text(fnv1a(encode_utf8(text))),
                mtime_secs,
            )
        } else {
            is_page_answer(resp, state, req, norm, canonical, mtime_secs, text)
        },
    }
}

/// Two answers for the same unchanged markdown file carry the same tag and
/// the same `Last-Modified`, whatever conditional headers the requests bring,
/// as long as both ask for the page or both for the source.
pub proof fn lemma_same_file_same_tag(
    first: Step,
    second: Step,
    state: AppState,
    first_req: RequestHead,
    second_req: RequestHead,
    norm: Seq<char>,
    canonical: Seq<char>,
    mtime_secs: Option<u64>,
    text: Seq<char>,
)
    requires
        is_text_answer(first, state, first_req, norm, canonical, mtime_secs, Some(text)),
        is_text_answer(second, state, second_req, norm, canonical, mtime_secs, Some(text)),
        has_raw_param(first_req.query@) == has_raw_param(second_req.query@),
    ensures
        first matches Step::Done(a) && second matches Step::Done(b) && a.etag is Some && text_of(
            a.etag,
        ) == text_of(b.etag) && text_of(a.last_modified) == text_of(b.last_modified),
{
    if !has_raw_param(first_req.query@) {
        let p1 = choose|page: Seq<char>|
            #[trigger] is_rendered_page(page, state, norm, canonical, mtime_secs, text)
                && is_validated_response(
                first->Done_0,
                first_req,
                "text/html; charset=utf-8"@,
                encode_utf8(page),
                etag_text(fnv1a(encode_utf8(page))),
                mtime_secs,
            );
        let p2 = choose|page: Seq<char>|
            #[trigger] is_rendered_page(page, state, norm, canonical, mtime_secs, text)
                && is_validated_response(
                second->Done_0,
                second_req,
                "text/html; charset=utf-8"@,
                encode_utf8(page),
                etag_text(fnv1a(encode_utf8(page))),
                mtime_secs,
            );
        lemma_one_rendered_page(p1, p2, state, norm, canonical, mtime_secs, text);
    }
}

/// A request without conditional headers is answered in full: 200 with the
/// content type, the body, its tag and its time.
pub proof fn lemma_unconditional_request_is_answered_in_full(
    r: HttpResponse,
    req: RequestHead,
    content_type: Seq<char>,
    body: Seq<u8>,
    etag: Seq<char>,
    mtime_secs: Option<u64>,
)
    requires
        is_validated_response(r, req, content_type, body, etag, mtime_secs),
        req.if_none_match is None,
        req.if_modified_since is None,
    ensures
        r.status == 200,
        text_of(r.content_type) == Some(content_type),
        r.body@ == body,
        text_of(r.etag) == Some(etag),
        r.last_modified is Some,
        r.nosniff,
{
}

/// A client that sends back the tag it was given gets 304 with an empty
/// body, the tag again and a `Last-Modified`.
pub proof fn lemma_echoed_tag_is_not_modified(
    r: HttpResponse,
    req: RequestHead,
    content_type: Seq<char>,
    body: Seq<u8>,
    hash: u64,
    mtime_secs: Option<u64>,
)
    requires
        is_validated_response(r, req, content_type, body, etag_text(hash), mtime_secs),
        text_of(req.if_none_match) == Some(etag_text(hash)),
    ensures
        r.status == 304,
        r.body@.len() == 0,
        text_of(r.etag) == Some(etag_text(hash)),
        r.last_modified is Some,
        r.nosniff,
{
    lemma_echoed_tag_matches(hash);
}

/// The second of two requests for the same unchanged markdown file, sent
/// with the tag of the first answer in `If-None-Match`, is answered with 304,
/// an empty body and that tag.
pub proof fn lemma_second_request_is_not_modified(
    first: Step,
    second: Step,
    state: AppState,
    first_req: RequestHead,
    second_req: RequestHead,
    norm: Seq<char>,
    canonical: Seq<char>,
    mtime_secs: Option<u64>,
    text: Seq<char>,
)
    requires
        is_text_answer(first, state, first_req, norm, canonical, mtime_secs, Some(text)),
        is_text_answer(second, state, second_req, norm, canonical, mtime_secs, Some(text)),
        has_raw_param(first_req.query@) == has_raw_param(second_req.query@),
        first matches Step::Done(a) && text_of(second_req.if_none_match) == text_of(a.etag),
    ensures
        first matches Step::Done(a) && second matches Step::Done(b) && b.status == 304
            && b.body@.len() == 0 && text_of(b.etag) == text_of(a.etag) && b.last_modified
            is Some,
{
    if has_raw_param(first_req.query@) {
        lemma_echoed_tag_is_not_modified(
            second->Done_0,
            second_req,
            "text/plain; charset=utf-8"@,
            encode_utf8(text),
            fnv1a(encode_utf8(text)),
            mtime_secs,
        );
    } else {
        let p1 = choose|page: Seq<char>|
            #[trigger] is_rendered_page(page, state, norm, canonical, mtime_secs, text)
                && is_validated_response(
                first->Done_0,
                first_req,
                "text/html; charset=utf-8"@,
                encode_utf8(page),
                etag_text(fnv1a(encode_utf8(page))),
                mtime_secs,
            );
        let p2 = choose|page: Seq<char>|
            #[trigger] is_rendered_page(page, state, norm, canonical, mtime_secs, text)
                && is_validated_response(
                second->Done_0,
                second_req,
                "text/html; charset=utf-8"@,
                encode_utf8(page),
                etag_text(fnv1a(encode_utf8(page))),
                mtime_secs,
            );
        lemma_one_rendered_page(p1, p2, state, norm, canonical, mtime_secs, text);
        lemma_echoed_tag_is_not_modified(
            second->Done_0,
            second_req,
            "text/html; charset=utf-8"@,
            encode_utf8(p2),
            fnv1a(encode_utf8(p2)),
            mtime_secs,
        );
    }
}

/// The response for a markdown file whose text was read: the source as plain
/// text where the query asks for it, else the rendered page, with the
/// backlinks found under the URL key of the normalised path.
pub fn after_read_text(
    state: &AppState,
    req: &RequestHead,
    norm: &str,
    canonical: &str,
    mtime_secs: Option<u64>,
    content: Option<String>,
) -> (r: Step)
    ensures
        is_text_answer(r, *state, *req, norm@, canonical@, mtime_secs, text_of(content)),
        r matches Step::Done(resp) ==> (resp.status == 200 || resp.status == 304) && resp.nosniff
            && resp.etag is Some && text_of(resp.last_modified) == Some(
            last_modified_text(mtime_secs),
        ) && (resp.status == 200 ==> text_of(resp.etag) == Some(etag_text(fnv1a(resp.body@)))),
        step_has_due_headers(r),
{
    match content {
        None => Step::Denied(DenyReason::ReadFailed, not_found_response()),
        Some(text) => {
            if is_raw_mode(req.query.as_str()) {
                let body = text.as_str().as_bytes_vec();
                let etag = compute_etag(body.as_slice());
                Step::Done(
                    validated_response(req, "text/plain; charset=utf-8", body, etag, mtime_secs),
                )
            } else {
                Step::Done(page_answer(state, req, norm, canonical, mtime_secs, text.as_str()))
            }
        },
    }
}

/// The answer with the page of a markdown document, conditional headers
/// applied.
fn page_answer(
    state: &AppState,
    req: &RequestHead,
    norm: &str,
    canonical: &str,
    mtime_secs: Option<u64>,
    text: &str,
) -> (resp: HttpResponse)
    ensures
        is_page_answer(resp, *state, *req, norm@, canonical@, mtime_secs, text@),
        resp.status == 200 || resp.status == 304,
        resp.nosniff,
        resp.etag is Some,
        text_of(resp.last_modified) == Some(last_modified_text(mtime_secs)),
        resp.status == 200 ==> text_of(resp.etag) == Some(etag_text(fnv1a(resp.body@))),
{
    let page = render_page(state, norm, canonical, mtime_secs, text);
    let body = page.as_str().as_bytes_vec();
    let etag = compute_etag(body.as_slice());
    let resp = validated_response(req, "text/html; charset=utf-8", body, etag, mtime_secs);
    proof {
        assert(is_rendered_page(page@, *state, norm@, canonical@, mtime_secs, text@));
    }
    resp
}

/// Renders a markdown document and wraps it in the page shell, with the
/// backlinks that the index holds under the URL key of `norm`.
pub fn render_page(
    state: &AppState,
    norm: &str,
    canonical: &str,
    mtime_secs: Option<u64>,
    text: &str,
) -> (page: String)
    ensures
        is_rendered_page(page@, *state, norm@, canonical@, mtime_secs, text@),
{
    let (body_html, headings) = render_markdown(text, canonical, state.canonical_root.as_str());
    let key = url_key_from_rel_path(norm);
    let none: Vec<BacklinkRef> = Vec::new();
    let found: &Vec<BacklinkRef> = match state.backlinks.get(key.as_str()) {
        Some(v) => v,
        None => &none,
    };
    let ctx = PageShellContext {
        backlinks: found.as_slice(),
        file_mtime_secs: mtime_secs,
        page_url_path: Some(norm),
    };
    let page = build_page_shell(
        body_html.as_str(),
        headings.as_slice(),
        canonical,
        state.canonical_root.as_str(),
        &ctx,
    );
    proof {
        reveal(is_rendered_page);
        assert(crate::backlinks::backlink_views(found@) =~= state.backlinks.lookup(url_key(norm@)));
        assert(page_shell_with(body_html@, headings@, canonical@, found@, mtime_secs, norm@)
            == page@);
    }
    page
}

/// Whether `page` is the page for the markdown document `source`: the page
/// shell around the rendered fragment, with the document's headings and
/// their anchors, the backlinks that the index holds under the URL key of
/// `norm`, the file's time and `norm` as its path.
#[verifier::opaque]
pub open spec fn is_rendered_page(
    page: Seq<char>,
    state: AppState,
    norm: Seq<char>,
    canonical: Seq<char>,
    mtime_secs: Option<u64>,
    source: Seq<char>,
) -> bool {
    exists|hs: Seq<HeadingEntry>, bs: Seq<BacklinkRef>|
        lists_headings(hs, rendered_headings(source)) && crate::backlinks::backlink_views(bs)
            == state.backlinks.lookup(url_key(norm)) && #[trigger] page_shell_with(
            rendered_fragment(source, canonical, state.canonical_root@),
            hs,
            canonical,
            bs,
            mtime_secs,
            norm,
        ) == page
}

/// There is one page for a document: the strings that carry the headings and
/// the backlinks do not matter, their texts do.
pub proof fn lemma_one_rendered_page(
    first: Seq<char>,
    second: Seq<char>,
    state: AppState,
    norm: Seq<char>,
    canonical: Seq<char>,
    mtime_secs: Option<u64>,
    source: Seq<char>,
)
    requires
        is_rendered_page(first, state, norm, canonical, mtime_secs, source),
        is_rendered_page(second, state, norm, canonical, mtime_secs, source),
    ensures
        first == second,
{
    reveal(is_rendered_page);
    let body = rendered_fragment(source, canonical, state.canonical_root@);
    let (hs1, bs1) = choose|hs: Seq<HeadingEntry>, bs: Seq<BacklinkRef>|
        lists_headings(hs, rendered_headings(source)) && crate::backlinks::backlink_views(bs)
            == state.backlinks.lookup(url_key(norm)) && #[trigger] page_shell_with(
            body,
            hs,
            canonical,
            bs,
            mtime_secs,
            norm,
        ) == first;
    let (hs2, bs2) = choose|hs: Seq<HeadingEntry>, bs: Seq<BacklinkRef>|
        lists_headings(hs, rendered_headings(source)) && crate::backlinks::backlink_views(bs)
            == state.backlinks.lookup(url_key(norm)) && #[trigger] page_shell_with(
            body,
            hs,
            canonical,
            bs,
            mtime_secs,
            norm,
        ) == second;
    lemma_listed_headings_agree(hs1, hs2, rendered_headings(source));
    lemma_headings_by_text(body, canonical, hs1, hs2);
    lemma_backlinks_by_text(bs1, bs2);
}

/// The page shell for a rendered fragment with the given backlinks, time and
/// URL path.
pub open spec fn page_shell_with(
    body: Seq<char>,
    hs: Seq<HeadingEntry>,
    file_path: Seq<char>,
    bs: Seq<BacklinkRef>,
    mtime_secs: Option<u64>,
    norm: Seq<char>,
) -> Seq<char> {
    crate::html::SHELL_OPEN@ + crate::html::html_escaped(crate::html::page_title(hs, file_path))
        + crate::html::SHELL_TITLE_CLOSE@ + crate::html::mtime_meta(mtime_secs)
        + "<meta name=\"mdmd-path\" content=\""@ + crate::html::html_escaped(norm) + "\">\n"@
        + crate::html::THEME_INIT_SCRIPT@ + crate::html::SHELL_BODY_OPEN@ + crate::html::ICON_MOON@
        + crate::html::ICON_SUN@ + crate::html::SHELL_LAYOUT_OPEN@ + crate::html::toc_html(hs)
        + crate::html::SHELL_MAIN_OPEN@ + crate::html::with_heading_ids(body, hs) + backlinks_html(
        bs,
    ) + crate::html::SHELL_MAIN_CLOSE@ + crate::html::MERMAID_CDN_URL@ + crate::html::SHELL_CLOSE@
}

/// The response for any other file whose bytes were read: the bytes, with
/// the content type that the extension gives.
pub fn after_read_bytes(
    req: &RequestHead,
    canonical: &str,
    mtime_secs: Option<u64>,
    bytes: Option<Vec<u8>>,
) -> (r: Step)
    ensures
        match bytes {
            None => r matches Step::Denied(why, resp) && why == DenyReason::ReadFailed
                && is_terse_not_found(resp),
            Some(b) => r matches Step::Done(resp) && is_validated_response(
                resp,
                *req,
                mime_of(
                    lowercase_of(
                        match extension_text(canonical@) {
                            Some(e) => e,
                            None => Seq::<char>::empty(),
                        },
                    ),
                ),
                b@,
                etag_text(fnv1a(b@)),
                mtime_secs,
            ),
        },
        step_has_due_headers(r),
{
    let body = match bytes {
        Some(b) => b,
        None => {
            return Step::Denied(DenyReason::ReadFailed, not_found_response());
        },
    };
    let ext = match extension_of(canonical) {
        Some(e) => e,
        None => String::new(),
    };
    let content_type = mime_for_ext(ext.as_str());
    let etag = compute_etag(body.as_slice());
    Step::Done(validated_response(req, content_type, body, etag, mtime_secs))
}

/// The response for a directory whose entries and modification time were
/// read: its index page with a tag over the body and the directory's time,
/// or the terse 404 where it could not be read.
pub fn after_list_directory(
    state: &AppState,
    url_prefix: &str,
    entries: Option<Vec<RawDirEntry>>,
    mtime_secs: Option<u64>,
) -> (r: Step)
    ensures
        match entries {
            None => r matches Step::Done(resp) && is_terse_not_found(resp),
            Some(es) => r matches Step::Done(resp) && is_index_response(
                resp,
                index_page(url_prefix@, arranged(listable(es@, state.canonical_root@))),
                mtime_secs,
            ),
        },
        step_has_due_headers(r),
{
    match entries {
        None => Step::Done(not_found_response()),
        Some(es) => {
            let shown = apply_dir_listing_policy(
                listable_entries(&es, state.canonical_root.as_str()),
            );
            let page = directory_index_page(url_prefix, &shown);
            Step::Done(index_response(page.as_str(), mtime_secs))
        },
    }
}

/// The nearest existing parent among the probed ancestors: the canonical
/// path of the first that is a directory under the canonical root, or the
/// canonical root where there is none.
pub open spec fn nearest_parent(probes: Seq<AncestorProbe>, canonical_root: Seq<char>) -> Seq<char>
    decreases probes.len(),
{
    if probes.len() == 0 {
        canonical_root
    } else if probes[0].is_dir && probes[0].canonical is Some && within(
        probes[0].canonical->0@,
        canonical_root,
    ) {
        probes[0].canonical->0@
    } else {
        nearest_parent(probes.skip(1), canonical_root)
    }
}

/// Picks the nearest existing parent of a missing path from what was found
/// out of its ancestors, nearest first. The result always lies under the
/// canonical root or is the root.
pub fn nearest_existing_parent(probes: &Vec<AncestorProbe>, canonical_root: &str) -> (r: String)
    ensures
        r@ == nearest_parent(probes@, canonical_root@),
{
    let mut i: usize = 0;
    proof {
        assert(probes@.skip(0) == probes@);
    }
    while i < probes.len()
        invariant
            i <= probes.len(),
            nearest_parent(probes@, canonical_root@) == nearest_parent(
                probes@.skip(i as int),
                canonical_root@,
            ),
        decreases probes.len() - i,
    {
        proof {
            assert(probes@.skip(i as int)[0] == probes@[i as int]);
            assert(probes@.skip(i as int).skip(1) == probes@.skip(i + 1));
        }
        if probes[i].is_dir {
            match &probes[i].canonical {
                Some(c) => {
                    if path_within(c.as_str(), canonical_root) {
                        return c.clone();
                    }
                },
                None => {},
            }
        }
        i += 1;
    }
    canonical_root.to_owned()
}

/// What follows probing the ancestors of a missing path: the nearest
/// existing parent is listed.
pub fn after_probe_ancestors(state: &AppState, norm: String, probes: &Vec<AncestorProbe>) -> (r:
    Step)
    ensures
        r matches Step::Ask(Pending::ListParent { norm: n, parent, parent_url }) && n == norm
            && parent@ == nearest_parent(probes@, state.canonical_root@) && parent_url@
            == parent_link(
            match stripped(parent@, state.canonical_root@) {
                Some(rest) => url_path_of(rest),
                None => seq!['/'],
            },
        ),
        step_has_due_headers(r),
{
    let parent = nearest_existing_parent(probes, state.canonical_root.as_str());
    let parent_url = nearest_parent_url(parent.as_str(), state.canonical_root.as_str());
    Step::Ask(Pending::ListParent { norm, parent, parent_url })
}

/// The response for a path that was not found: the not-found page with the
/// listing of the nearest existing parent, empty where that could not be read.
pub fn after_list_parent(
    state: &AppState,
    norm: &str,
    parent_url: &str,
    entries: Option<Vec<RawDirEntry>>,
) -> (r: Step)
    ensures
        r matches Step::Done(resp) && is_rich_not_found(
            resp,
            not_found_page(
                norm@,
                state.entry_url_path@,
                parent_url@,
                match entries {
                    Some(es) => parent_listing(
                        parent_url@,
                        arranged(listable(es@, state.canonical_root@)),
                    ),
                    None => Seq::<char>::empty(),
                },
            ),
        ),
        step_has_due_headers(r),
{
    let listing = match entries {
        Some(es) => {
            let shown = apply_dir_listing_policy(
                listable_entries(&es, state.canonical_root.as_str()),
            );
            build_nearest_parent_listing(parent_url, &shown)
        },
        None => String::new(),
    };
    let page = not_found_page_html(
        norm,
        state.entry_url_path.as_str(),
        parent_url,
        listing.as_str(),
    );
    Step::Done(rich_not_found_response(page.as_str()))
}

// ---------------------------------------------------------------------------
// The freshness endpoint
// ---------------------------------------------------------------------------

/// The value of the first `path=` parameter among the `&`-separated pieces.
pub open spec fn path_param_in(pieces: Seq<Seq<char>>) -> Seq<char>
    decreases pieces.len(),
{
    if pieces.len() == 0 {
        Seq::<char>::empty()
    } else if has_prefix(pieces[0], "path="@) {
        pieces[0].skip("path="@.len() as int)
    } else {
        path_param_in(pieces.skip(1))
    }
}

/// The value of the `path` parameter of a query string; empty where it has
/// none.
pub open spec fn path_param(query: Seq<char>) -> Seq<char> {
    path_param_in(split_on(query, '&'))
}

/// Reads the `path` parameter of a query string.
pub fn freshness_path_param(query: &str) -> (r: String)
    ensures
        r@ == path_param(query@),
{
    let q = chars_of(query);
    let pieces = split_chars(&q, '&');
    let key = chars_of("path=");
    let ghost all = views_of(pieces@);
    let mut i: usize = 0;
    proof {
        assert(all.skip(0) == all);
    }
    while i < pieces.len()
        invariant
            i <= pieces.len(),
            all == views_of(pieces@),
            all == split_on(query@, '&'),
            key@ == "path="@,
            path_param_in(all) == path_param_in(all.skip(i as int)),
        decreases pieces.len() - i,
    {
        proof {
            assert(all.skip(i as int)[0] == pieces@[i as int]@);
            assert(all.skip(i as int).skip(1) == all.skip(i + 1));
        }
        if starts_with(&pieces[i], "path=") {
            let mut out = String::new();
            push_chars(&mut out, &pieces[i], key.len(), pieces[i].len());
            proof {
                assert(pieces@[i as int]@.subrange(key.len() as int, pieces@[i as int]@.len() as int)
                    == pieces@[i as int]@.skip(key.len() as int));
            }
            return out;
        }
        i += 1;
    }
    String::new()
}

/// The body of a freshness answer: the modification time in seconds.
pub open spec fn freshness_text(mtime_secs: u64) -> Seq<char> {
    "{\"mtime\":"@ + decimal(mtime_secs as nat) + "}"@
}

/// The answer of the freshness endpoint to anything that it does not serve.
pub open spec fn is_freshness_not_found(r: HttpResponse) -> bool {
    &&& r.status == 404
    &&& text_of(r.content_type) == Some("application/json"@)
    &&& r.nosniff
    &&& r.etag is None
    &&& r.last_modified is None
    &&& r.body@ == encode_utf8("{\"error\":\"not found\"}"@)
}

/// Builds the 404 answer of the freshness endpoint.
pub fn freshness_404() -> (r: HttpResponse)
    ensures
        is_freshness_not_found(r),
{
    HttpResponse {
        status: 404,
        content_type: Some("application/json".to_owned()),
        nosniff: true,
        etag: None,
        last_modified: None,
        body: "{\"error\":\"not found\"}".as_bytes_vec(),
    }
}

/// The first step of the freshness endpoint, as `begin_freshness` takes it.
pub open spec fn is_freshness_start(r: Step, state: AppState, query: Seq<char>) -> bool {
    match resolution_of(path_param(query)) {
        Route::Candidate(n) => r matches Step::Ask(Pending::FreshnessCanonicalize { candidate })
            && candidate@ == joined(state.canonical_root@, n),
        _ => r matches Step::Done(resp) && is_freshness_not_found(resp),
    }
}

/// The first step of the freshness endpoint: the `path` parameter goes
/// through the same decoding and normalising as a request path; anything
/// that is turned away there, and the empty path, is answered with 404.
pub fn begin_freshness(state: &AppState, query: &str) -> (r: Step)
    ensures
        is_freshness_start(r, *state, query@),
        step_has_due_headers(r),
{
    let raw = freshness_path_param(query);
    match resolve_request_path(raw.as_str()) {
        Err(_) => Step::Done(freshness_404()),
        Ok(norm) => {
            if norm.as_str().is_empty() {
                Step::Done(freshness_404())
            } else {
                Step::Ask(
                    Pending::FreshnessCanonicalize {
                        candidate: join_path(state.canonical_root.as_str(), norm.as_str()),
                    },
                )
            }
        },
    }
}

/// What follows canonicalizing for the freshness endpoint: a path without a
/// canonical form or outside the canonical root is answered with 404.
pub fn after_freshness_canonicalize(state: &AppState, canonical: Option<String>) -> (r: Step)
    ensures
        match canonical {
            Some(c) => if within(c@, state.canonical_root@) {
                r matches Step::Ask(Pending::FreshnessStat { canonical: p }) && p == c
            } else {
                r matches Step::Done(resp) && is_freshness_not_found(resp)
            },
            None => r matches Step::Done(resp) && is_freshness_not_found(resp),
        },
        step_has_due_headers(r),
{
    match canonical {
        None => Step::Done(freshness_404()),
        Some(c) => {
            if path_within(c.as_str(), state.canonical_root.as_str()) {
                Step::Ask(Pending::FreshnessStat { canonical: c })
            } else {
                Step::Done(freshness_404())
            }
        },
    }
}

/// Whether `r` is the answer of the freshness endpoint for a file that was
/// last modified at `mtime_secs`: 200 with the time in seconds as JSON, zero
/// where the file system gives none, the tag of the body and the file's time.
pub open spec fn is_freshness_ok(r: HttpResponse, mtime_secs: Option<u64>) -> bool {
    let body = encode_utf8(
        freshness_text(
            match mtime_secs {
                Some(t) => t,
                None => 0,
            },
        ),
    );
    &&& r.status == 200
    &&& text_of(r.content_type) == Some("application/json"@)
    &&& r.nosniff
    &&& text_of(r.etag) == Some(etag_text(fnv1a(body)))
    &&& text_of(r.last_modified) == Some(last_modified_text(mtime_secs))
    &&& r.body@ == body
}

/// The answer of the freshness endpoint once the file was looked at: its
/// modification time, zero where the file system gives none, or 404 where
/// the file could not be looked at.
pub fn after_freshness_stat(stat: Option<FileStat>) -> (r: Step)
    ensures
        match stat {
            None => r matches Step::Done(resp) && is_freshness_not_found(resp),
            Some(st) => r matches Step::Done(resp) && is_freshness_ok(resp, st.mtime_secs),
        },
        step_has_due_headers(r),
{
    match stat {
        None => Step::Done(freshness_404()),
        Some(st) => {
            let secs = match st.mtime_secs {
                Some(t) => t,
                None => 0,
            };
            let mut text = String::new();
            text.append("{\"mtime\":");
            push_decimal(&mut text, secs);
            text.append("}");
            proof {
                assert(text@ =~= freshness_text(secs));
            }
            let body = text.as_str().as_bytes_vec();
            let etag = compute_etag(body.as_slice());
            Step::Done(
                HttpResponse {
                    status: 200,
                    content_type: Some("application/json".to_owned()),
                    nosniff: true,
                    etag: Some(etag),
                    last_modified: Some(last_modified_value(st.mtime_secs)),
                    body,
                },
            )
        },
    }
}

} // verus!
