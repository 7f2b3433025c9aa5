//! Templates between nodes: what is served of them, how they are pulled, and what
//! is accepted of what was pulled.
use crate::decimal::{decimal, is_digit, render_u64};
use crate::error::{failure, EngineError, ErrorCode, ErrorView};
use crate::json::{filled_at, members_of, text_at, Json, JsonMap, JsonView, ObjectView};
use crate::net::addr::{invalid_input, IpAddr};
use crate::net::refresh::{ip_text, render_ip};
use crate::outside::{chars_in, extend_url, extended_url, is_lower_hex, parse_url, url_of, UrlParts, UrlView};
use crate::paths::{file_name, final_component, join_path, joined_path};
use crate::text::{cat2, cat3, cat4, chars_of, opt_text, starts_with, string_of, strings, text_eq, texts, trim, trimmed};
use vstd::prelude::*;

verus! {

/// The size of a page of memory, in bytes.
pub const PAGE_SIZE: u64 = 4096;

/// Whether a text is the digest of a template: sixty-four lower-case hexadecimal
/// digits.
pub open spec fn is_digest(s: Seq<char>) -> bool {
    s.len() == 64 && forall|i: int| 0 <= i < s.len() ==> is_lower_hex(#[trigger] s[i])
}

pub open spec fn bad_digest() -> ErrorView {
    invalid_input("template digest must be a lowercase SHA-256 hex digest"@)
}

/// Whether a text is the digest of a template.
pub fn digest_text(s: &str) -> (r: bool)
    ensures
        r == is_digest(s@),
{
    let chars = chars_of(s);
    if chars.len() != 64 {
        return false;
    }
    let mut i: usize = 0;
    while i < 64
        invariant
            i <= 64,
            chars@.len() == 64,
            chars@ == s@,
            forall|j: int| 0 <= j < i ==> is_lower_hex(#[trigger] s@[j]),
        decreases 64 - i,
    {
        let c = chars[i];
        if !(('0' <= c && c <= '9') || ('a' <= c && c <= 'f')) {
            assert(!is_lower_hex(s@[i as int]));
            return false;
        }
        i = i + 1;
    }
    true
}

/// Refuses what is not the digest of a template.
pub fn validate_digest(digest: &str) -> (r: Result<(), EngineError>)
    ensures
        match r {
            Ok(_) => is_digest(digest@),
            Err(e) => !is_digest(digest@) && e@ == bad_digest(),
        },
{
    if digest_text(digest) {
        Ok(())
    } else {
        Err(EngineError::invalid("template digest must be a lowercase SHA-256 hex digest".to_owned()))
    }
}

/// A template that is served: its directory, and whether its memory is left out.
#[derive(Debug)]
pub struct TemplateBundle {
    pub dir: String,
    pub metadata_only: bool,
    pub filename: String,
    pub media_type: String,
}

pub ghost struct BundleView {
    pub dir: Seq<char>,
    pub metadata_only: bool,
    pub filename: Seq<char>,
    pub media_type: Seq<char>,
}

impl View for TemplateBundle {
    type V = BundleView;

    open spec fn view(&self) -> BundleView {
        BundleView {
            dir: self.dir@,
            metadata_only: self.metadata_only,
            filename: self.filename@,
            media_type: self.media_type@,
        }
    }
}

pub open spec fn missing(message: Seq<char>) -> ErrorView {
    failure(ErrorCode::NotFound, message)
}

/// The bundle of an exported replica: its directory has to be there and to have
/// the digest.
pub fn snapshot_bundle_for_path(
    dir: String,
    digest: &str,
    is_dir: bool,
    actual: Result<String, EngineError>,
) -> (r: Result<TemplateBundle, EngineError>)
    ensures
        match r {
            Ok(b) => is_digest(digest@) && is_dir && (actual matches Ok(d) && d@ == digest@) && b@ == (BundleView {
                dir: dir@,
                metadata_only: false,
                filename: digest@ + ".vbundle"@,
                media_type: "application/octet-stream"@,
            }),
            Err(e) => if !is_digest(digest@) {
                e@ == bad_digest()
            } else if !is_dir {
                e@ == missing("replica export is unavailable"@)
            } else {
                match actual {
                    Err(a) => e@ == a@,
                    Ok(d) => d@ != digest@ && e@ == invalid_input("replica export digest mismatch"@),
                }
            },
        },
{
    match validate_digest(digest) {
        Err(e) => return Err(e),
        Ok(_) => {},
    }
    if !is_dir {
        return Err(EngineError::not_found("replica export is unavailable".to_owned()));
    }
    match actual {
        Err(e) => Err(e),
        Ok(d) => if !text_eq(d.as_str(), digest) {
            Err(EngineError::invalid("replica export digest mismatch".to_owned()))
        } else {
            Ok(
                TemplateBundle {
                    dir,
                    metadata_only: false,
                    filename: cat2(digest, ".vbundle"),
                    media_type: "application/octet-stream".to_owned(),
                },
            )
        },
    }
}

/// What comes of looking a template up.
pub open spec fn looked_up(found: Result<Option<String>, EngineError>) -> Result<Seq<char>, ErrorView> {
    match found {
        Err(e) => Err(e@),
        Ok(None) => Err(missing("unknown template"@)),
        Ok(Some(dir)) => Ok(dir@),
    }
}

fn known_template(found: Result<Option<String>, EngineError>) -> (r: Result<String, EngineError>)
    ensures
        match r {
            Ok(dir) => looked_up(found) == Ok::<Seq<char>, ErrorView>(dir@),
            Err(e) => looked_up(found) == Err::<Seq<char>, ErrorView>(e@),
        },
{
    match found {
        Err(e) => Err(e),
        Ok(None) => Err(EngineError::not_found("unknown template".to_owned())),
        Ok(Some(dir)) => Ok(dir),
    }
}

/// The bundle of a template, where there is one with the digest.
pub fn bundle_for_digest(digest: &str, found: Result<Option<String>, EngineError>) -> (r: Result<
    TemplateBundle,
    EngineError,
>)
    ensures
        match r {
            Ok(b) => looked_up(found) matches Ok(dir) && b@ == (BundleView {
                dir,
                metadata_only: false,
                filename: digest@ + ".vbundle"@,
                media_type: "application/x-vmon-bundle"@,
            }),
            Err(e) => looked_up(found) == Err::<Seq<char>, ErrorView>(e@),
        },
{
    match known_template(found) {
        Err(e) => Err(e),
        Ok(dir) => Ok(
            TemplateBundle {
                dir,
                metadata_only: false,
                filename: cat2(digest, ".vbundle"),
                media_type: "application/x-vmon-bundle".to_owned(),
            },
        ),
    }
}

/// The bundle of a template without its memory, where there is one with the
/// digest.
pub fn metadata_bundle_for_digest(digest: &str, found: Result<Option<String>, EngineError>) -> (r: Result<
    TemplateBundle,
    EngineError,
>)
    ensures
        match r {
            Ok(b) => looked_up(found) matches Ok(dir) && b@ == (BundleView {
                dir,
                metadata_only: true,
                filename: digest@ + ".metadata.vbundle"@,
                media_type: "application/x-vmon-bundle"@,
            }),
            Err(e) => looked_up(found) == Err::<Seq<char>, ErrorView>(e@),
        },
{
    match known_template(found) {
        Err(e) => Err(e),
        Ok(dir) => Ok(
            TemplateBundle {
                dir,
                metadata_only: true,
                filename: cat2(digest, ".metadata.vbundle"),
                media_type: "application/x-vmon-bundle".to_owned(),
            },
        ),
    }
}

/// Whether a text is made of digits alone.
pub open spec fn only_digits(s: Seq<char>) -> bool {
    forall|i: int| 0 <= i < s.len() ==> is_digit(#[trigger] s[i])
}

fn is_only_digits(s: &str) -> (r: bool)
    ensures
        r == only_digits(s@),
{
    let chars = chars_of(s);
    let mut i: usize = 0;
    while i < chars.len()
        invariant
            i <= chars@.len(),
            chars@ == s@,
            forall|j: int| 0 <= j < i ==> is_digit(#[trigger] s@[j]),
        decreases chars@.len() - i,
    {
        let c = chars[i];
        if !('0' <= c && c <= '9') {
            assert(!is_digit(s@[i as int]));
            return false;
        }
        i = i + 1;
    }
    true
}

/// Where a template's memory is, by what its generation file says.
pub open spec fn memory_path(dir: Seq<char>, generation: Seq<char>) -> Result<Seq<char>, ErrorView> {
    if only_digits(trimmed(generation)) {
        Ok(joined_path(dir, "memory."@ + trimmed(generation) + ".bin"@))
    } else {
        Err(missing("template has invalid snapshot generation"@))
    }
}

/// Where a template's memory is, by what its generation file says.
pub fn memory_file(dir: &str, generation: &str) -> (r: Result<String, EngineError>)
    ensures
        match r {
            Ok(p) => memory_path(dir@, generation@) == Ok::<Seq<char>, ErrorView>(p@),
            Err(e) => memory_path(dir@, generation@) == Err::<Seq<char>, ErrorView>(e@),
        },
{
    let generation = trim(generation);
    if !is_only_digits(generation.as_str()) {
        return Err(EngineError::not_found("template has invalid snapshot generation".to_owned()));
    }
    let name = cat3("memory.", generation.as_str(), ".bin");
    proof {
        reveal_strlit("memory.");
        assert(name@[0] == 'm');
    }
    Ok(join_path(dir, name.as_str()))
}

/// Where a page begins in a template's memory.
pub fn page_offset(page: u64) -> (r: u64)
    ensures
        r == if page * PAGE_SIZE > u64::MAX {
            u64::MAX as int
        } else {
            page * PAGE_SIZE
        },
{
    if page > u64::MAX / PAGE_SIZE {
        u64::MAX
    } else {
        page * PAGE_SIZE
    }
}

/// What was read of a template's memory: how long it is, and what lies where a page
/// begins, a page of it at most.
pub struct MemoryRead {
    pub len: u64,
    pub bytes: Vec<u8>,
}

/// Whether a page lies in the memory as a whole, and was read as a whole.
pub open spec fn holds_page(read: MemoryRead, page: u64) -> bool {
    PAGE_SIZE * (page + 1) <= read.len && read.bytes@.len() >= PAGE_SIZE
}

/// A page of a template's memory: what was found, what its generation file says,
/// and what was read of the memory.
pub fn page_for_digest(
    found: Result<Option<String>, EngineError>,
    generation: Result<String, EngineError>,
    memory: Result<MemoryRead, EngineError>,
    page: u64,
) -> (r: Result<Vec<u8>, EngineError>)
    ensures
        match looked_up(found) {
            Err(e) => r matches Err(f) && f@ == e,
            Ok(dir) => match generation {
                Err(e) => r matches Err(f) && f@ == e@,
                Ok(g) => match memory_path(dir, g@) {
                    Err(e) => r matches Err(f) && f@ == e,
                    Ok(_) => match memory {
                        Err(e) => r matches Err(f) && f@ == e@,
                        Ok(read) => if holds_page(read, page) {
                            r matches Ok(b) && b@ == read.bytes@.take(PAGE_SIZE as int)
                        } else {
                            r matches Err(f) && f@ == missing(
                                "template page "@ + decimal(page as nat) + " is outside the memory image"@,
                            )
                        },
                    },
                },
            },
        },
{
    let dir = match known_template(found) {
        Ok(dir) => dir,
        Err(e) => return Err(e),
    };
    let generation = match generation {
        Ok(g) => g,
        Err(e) => return Err(e),
    };
    match memory_file(dir.as_str(), generation.as_str()) {
        Ok(_) => {},
        Err(e) => return Err(e),
    }
    let read = match memory {
        Ok(read) => read,
        Err(e) => return Err(e),
    };
    let pages: u64 = read.len / PAGE_SIZE;
    let whole = page < pages && read.bytes.len() >= 4096;
    assert(whole == holds_page(read, page));
    if whole {
        let mut bytes = read.bytes;
        bytes.truncate(4096);
        return Ok(bytes);
    }
    let digits = render_u64(page);
    Err(EngineError::not_found(cat3("template page ", digits.as_str(), " is outside the memory image")))
}

/// A text without the slashes at its end.
pub open spec fn without_slashes(s: Seq<char>) -> Seq<char>
    decreases s.len(),
{
    if s.len() > 0 && s.last() == '/' {
        without_slashes(s.drop_last())
    } else {
        s
    }
}

/// A text without the slashes at its end.
pub fn trim_slashes(s: &str) -> (r: String)
    ensures
        r@ == without_slashes(s@),
        r@.len() <= s@.len(),
{
    let chars = chars_of(s);
    let mut end: usize = chars.len();
    assert(s@.take(end as int) =~= s@);
    while end > 0 && chars[end - 1] == '/'
        invariant
            end <= chars@.len(),
            chars@ == s@,
            without_slashes(s@.take(end as int)) == without_slashes(s@),
        decreases end,
    {
        assert(s@.take(end as int).drop_last() =~= s@.take(end - 1));
        end = end - 1;
    }
    let r = string_of(&chars, 0, end);
    assert(r@ =~= s@.take(end as int));
    r
}

/// Where a peer serves a template, or what of it is not its memory.
pub fn template_url(peer_url: &str, digest: &str, metadata: bool) -> (r: String)
    ensures
        r@ == without_slashes(peer_url@) + "/v1/templates/"@ + digest@ + if metadata {
            "/metadata"@
        } else {
            ""@
        },
{
    let base = trim_slashes(peer_url);
    let tail = if metadata {
        "/metadata"
    } else {
        ""
    };
    cat4(base.as_str(), "/v1/templates/", digest, tail)
}

/// The parts of a peer's address; it has to name a host.
pub open spec fn peer_parts(peer_url: Seq<char>) -> Option<UrlView> {
    match url_of(without_slashes(peer_url)) {
        Some(u) => if u.host is Some {
            Some(u)
        } else {
            None
        },
        None => None,
    }
}

/// The parts of a peer's address.
pub fn peer_address(peer_url: &str) -> (r: Result<UrlParts, EngineError>)
    ensures
        match r {
            Ok(p) => peer_parts(peer_url@) == Some(p@),
            Err(e) => peer_parts(peer_url@) is None && e@ == invalid_input("invalid peer URL"@),
        },
{
    let base = trim_slashes(peer_url);
    match parse_url(base.as_str()) {
        None => Err(EngineError::invalid("invalid peer URL".to_owned())),
        Some(parts) => if parts.host.is_some() {
            Ok(parts)
        } else {
            Err(EngineError::invalid("invalid peer URL".to_owned()))
        },
    }
}

/// The host and port to resolve for a peer's address: only where it is reached
/// without encryption.
pub fn page_host(parts: &UrlParts) -> (r: Option<(String, u16)>)
    ensures
        match r {
            Some((host, port)) => parts@.scheme == "http"@ && parts@.host == Some(host@) && port == match parts@.known_port {
                Some(p) => p,
                None => 80,
            },
            None => parts@.scheme != "http"@ || parts@.host is None,
        },
{
    if !text_eq(parts.scheme.as_str(), "http") {
        return None;
    }
    match &parts.host {
        None => None,
        Some(host) => Some(
            (
                host.clone(),
                match parts.known_port {
                    Some(p) => p,
                    None => 80,
                },
            ),
        ),
    }
}

/// The host of the pages' address: the address it was resolved to where it is
/// reached without encryption.
pub open spec fn page_host_text(parts: UrlView, resolved: Option<IpAddr>) -> Seq<char> {
    match resolved {
        Some(ip) if parts.scheme == "http"@ => ip_text(ip),
        _ => parts.host->0,
    }
}

/// Where a peer serves a template's pages.
pub open spec fn pages_url(parts: UrlView, digest: Seq<char>, resolved: Option<IpAddr>) -> Seq<char> {
    let host = page_host_text(parts, resolved);
    let bracketed = if host.contains(':') {
        "["@ + host + "]"@
    } else {
        host
    };
    let netloc = match parts.port {
        Some(p) => bracketed + ":"@ + decimal(
            match parts.known_port {
                Some(k) => k as nat,
                None => 80,
            },
        ),
        None => bracketed,
    };
    parts.scheme + "://"@ + netloc + "/v1/templates/"@ + digest + "/pages"@
}

fn has_colon(s: &str) -> (r: bool)
    ensures
        r == s@.contains(':'),
{
    let chars = chars_of(s);
    let mut i: usize = 0;
    while i < chars.len()
        invariant
            i <= chars@.len(),
            chars@ == s@,
            forall|j: int| 0 <= j < i ==> s@[j] != ':',
        decreases chars@.len() - i,
    {
        if chars[i] == ':' {
            assert(s@[i as int] == ':');
            return true;
        }
        i = i + 1;
    }
    false
}

/// Where a peer serves a template's pages.
pub fn pages_address(parts: &UrlParts, digest: &str, resolved: Option<IpAddr>) -> (r: String)
    requires
        parts@.host is Some,
    ensures
        r@ == pages_url(parts@, digest@, resolved),
{
    let named = match &parts.host {
        Some(h) => h.clone(),
        None => String::new(),
    };
    let host = match resolved {
        Some(ip) => if text_eq(parts.scheme.as_str(), "http") {
            render_ip(ip)
        } else {
            named
        },
        None => named,
    };
    let host = if has_colon(host.as_str()) {
        cat3("[", host.as_str(), "]")
    } else {
        host
    };
    let netloc = match parts.port {
        Some(_) => {
            let port: u16 = match parts.known_port {
                Some(k) => k,
                None => 80,
            };
            let digits = render_u64(port as u64);
            cat3(host.as_str(), ":", digits.as_str())
        },
        None => host,
    };
    let mut out = parts.scheme.clone();
    out.append("://");
    out.append(netloc.as_str());
    out.append("/v1/templates/");
    out.append(digest);
    out.append("/pages");
    out
}

/// Where a peer serves a template's pages, or what is wrong with the arguments.
pub open spec fn remote_pages(peer_url: Seq<char>, digest: Seq<char>, resolved: Option<IpAddr>) -> Result<
    Seq<char>,
    ErrorView,
> {
    if !is_digest(digest) {
        Err(bad_digest())
    } else {
        match peer_parts(peer_url) {
            None => Err(invalid_input("invalid peer URL"@)),
            Some(parts) => Ok(pages_url(parts, digest, resolved)),
        }
    }
}

/// Where a peer serves a template's pages. `resolved` is the address that the
/// peer's host was resolved to, if any.
pub fn remote_page_url(peer_url: &str, digest: &str, resolved: Option<IpAddr>) -> (r: Result<String, EngineError>)
    ensures
        match r {
            Ok(url) => remote_pages(peer_url@, digest@, resolved) == Ok::<Seq<char>, ErrorView>(url@),
            Err(e) => remote_pages(peer_url@, digest@, resolved) == Err::<Seq<char>, ErrorView>(e@),
        },
{
    match validate_digest(digest) {
        Err(e) => return Err(e),
        Ok(_) => {},
    }
    match peer_address(peer_url) {
        Err(e) => Err(e),
        Ok(parts) => Ok(pages_address(&parts, digest, resolved)),
    }
}

/// Where a replica is pulled from, or what is wrong with the arguments.
pub open spec fn replica_address(
    peer_url: Seq<char>,
    sid: Seq<char>,
    object_key: Seq<char>,
    digest: Seq<char>,
) -> Result<Seq<char>, ErrorView> {
    let base = without_slashes(peer_url);
    if !is_digest(digest) {
        Err(bad_digest())
    } else if sid.len() == 0 {
        Err(invalid_input("replica snapshot sid is required"@))
    } else {
        match url_of(base) {
            None => Err(invalid_input("invalid peer URL"@)),
            Some(u) => if !u.takes_path {
                Err(invalid_input("peer URL cannot accept a replica path"@))
            } else {
                Ok(extended_url(base, seq!["v1"@, "replicas"@, sid, digest], "object_key"@, object_key)->0)
            },
        }
    }
}

/// Where a replica is pulled from.
pub fn replica_url(peer_url: &str, sid: &str, object_key: &str, digest: &str) -> (r: Result<String, EngineError>)
    requires
        peer_url@.len() + sid@.len() + object_key@.len() <= 0xfff_e000,
    ensures
        match r {
            Ok(url) => replica_address(peer_url@, sid@, object_key@, digest@) == Ok::<Seq<char>, ErrorView>(url@),
            Err(e) => replica_address(peer_url@, sid@, object_key@, digest@) == Err::<Seq<char>, ErrorView>(e@),
        },
{
    match validate_digest(digest) {
        Err(e) => return Err(e),
        Ok(_) => {},
    }
    if sid.is_empty() {
        return Err(EngineError::invalid("replica snapshot sid is required".to_owned()));
    }
    let base = trim_slashes(peer_url);
    if parse_url(base.as_str()).is_none() {
        return Err(EngineError::invalid("invalid peer URL".to_owned()));
    }
    let segments = strings(["v1", "replicas", sid, digest]);
    proof {
        reveal_strlit("v1");
        reveal_strlit("replicas");
        reveal_strlit("object_key");
        assert(texts(segments@) =~= seq!["v1"@, "replicas"@, sid@, digest@]);
        assert(digest@.len() == 64);
        reveal_with_fuel(chars_in, 5);
        assert(texts(segments@).drop_last().drop_last().drop_last() =~= seq!["v1"@]);
        assert(texts(segments@).drop_last().drop_last() =~= seq!["v1"@, "replicas"@]);
        assert(texts(segments@).drop_last() =~= seq!["v1"@, "replicas"@, sid@]);
    }
    match extend_url(base.as_str(), &segments, "object_key", object_key) {
        Some(url) => Ok(url),
        None => Err(EngineError::invalid("peer URL cannot accept a replica path".to_owned())),
    }
}

/// What is kept of where a template's pages come from.
#[derive(Debug)]
pub struct RemotePageMetadata {
    pub peer_url: String,
    pub digest: String,
    pub page_url: String,
}

pub ghost struct RemotePageView {
    pub peer_url: Seq<char>,
    pub digest: Seq<char>,
    pub page_url: Seq<char>,
}

impl View for RemotePageMetadata {
    type V = RemotePageView;

    open spec fn view(&self) -> RemotePageView {
        RemotePageView { peer_url: self.peer_url@, digest: self.digest@, page_url: self.page_url@ }
    }
}

/// What is written of it.
pub open spec fn page_object(v: RemotePageView) -> ObjectView {
    Map::<Seq<char>, JsonView>::empty().insert("peer_url"@, JsonView::Str(v.peer_url)).insert(
        "digest"@,
        JsonView::Str(v.digest),
    ).insert("page_url"@, JsonView::Str(v.page_url))
}

/// What an object says of it.
pub open spec fn read_page_object(m: ObjectView) -> Option<RemotePageView> {
    match (text_at(m, "peer_url"@), text_at(m, "digest"@), text_at(m, "page_url"@)) {
        (Some(peer_url), Some(digest), Some(page_url)) => Some(RemotePageView { peer_url, digest, page_url }),
        _ => None,
    }
}

impl RemotePageMetadata {
    /// What is kept for a peer and a template.
    pub fn describe(peer_url: &str, digest: &str, resolved: Option<IpAddr>) -> (r: Result<
        RemotePageMetadata,
        EngineError,
    >)
        ensures
            match r {
                Ok(m) => remote_pages(peer_url@, digest@, resolved) == Ok::<Seq<char>, ErrorView>(m@.page_url)
                    && m@.peer_url == without_slashes(peer_url@) && m@.digest == digest@,
                Err(e) => remote_pages(peer_url@, digest@, resolved) == Err::<Seq<char>, ErrorView>(e@),
            },
    {
        match remote_page_url(peer_url, digest, resolved) {
            Err(e) => Err(e),
            Ok(page_url) => Ok(
                RemotePageMetadata { peer_url: trim_slashes(peer_url), digest: digest.to_owned(), page_url },
            ),
        }
    }

    /// What is written.
    pub fn write(&self) -> (r: JsonMap)
        ensures
            r@ == page_object(self@),
    {
        let mut m = JsonMap::new();
        m.insert("peer_url".to_owned(), Json::Str(self.peer_url.clone()));
        m.insert("digest".to_owned(), Json::Str(self.digest.clone()));
        m.insert("page_url".to_owned(), Json::Str(self.page_url.clone()));
        m
    }

    /// What was written.
    pub fn parse(m: &JsonMap) -> (r: Option<RemotePageMetadata>)
        ensures
            match r {
                Some(v) => read_page_object(m@) == Some(v@),
                None => read_page_object(m@) is None,
            },
    {
        match (m.text_at("peer_url"), m.text_at("digest"), m.text_at("page_url")) {
            (Some(peer_url), Some(digest), Some(page_url)) => Some(
                RemotePageMetadata { peer_url, digest, page_url },
            ),
            _ => None,
        }
    }
}

/// What is written for a peer that serves a template's pages.
pub fn remote_page_metadata_value(peer_url: &str, digest: &str, resolved: Option<IpAddr>) -> (r: Result<
    JsonMap,
    EngineError,
>)
    ensures
        match r {
            Ok(m) => remote_pages(peer_url@, digest@, resolved) matches Ok(page_url) && m@ == page_object(
                RemotePageView { peer_url: without_slashes(peer_url@), digest: digest@, page_url },
            ),
            Err(e) => remote_pages(peer_url@, digest@, resolved) == Err::<Seq<char>, ErrorView>(e@),
        },
{
    match RemotePageMetadata::describe(peer_url, digest, resolved) {
        Ok(metadata) => Ok(metadata.write()),
        Err(e) => Err(e),
    }
}

/// What is written of where pages come from reads back.
pub proof fn law_page_metadata_survives(v: RemotePageView)
    ensures
        read_page_object(page_object(v)) == Some(v),
{
    reveal_strlit("peer_url");
    reveal_strlit("digest");
    reveal_strlit("page_url");
    assert("peer_url"@.len() == 8 && "peer_url"@[1] == 'e');
    assert("page_url"@.len() == 8 && "page_url"@[1] == 'a');
    assert("digest"@.len() == 6);
}

/// The name that a template is kept under: the one its marker tells, else its
/// directory's, as far as it is a plain name, else one made of its digest.
pub open spec fn template_name(marker: JsonView, dir: Seq<char>, digest: Seq<char>) -> Seq<char> {
    let told = match members_of(marker) {
        Some(m) => filled_at(m, "tpl_name"@),
        None => None,
    };
    let raw = match told {
        Some(name) => name,
        None => match final_component(dir) {
            Some(name) => name,
            None => ""@,
        },
    };
    match final_component(raw) {
        Some(name) => name,
        None => "tpl-"@ + digest.take(12),
    }
}

/// The name that a template is kept under.
pub fn template_name_from_marker(marker: &Json, dir: &str, digest: &str) -> (r: String)
    requires
        is_digest(digest@),
    ensures
        r@ == template_name(marker@, dir@, digest@),
{
    let told = match marker.as_object() {
        Some(m) => m.filled_at("tpl_name"),
        None => None,
    };
    let raw = match told {
        Some(name) => name,
        None => match file_name(dir) {
            Some(name) => name,
            None => "".to_owned(),
        },
    };
    match file_name(raw.as_str()) {
        Some(name) => name,
        None => {
            let chars = chars_of(digest);
            let start = string_of(&chars, 0, 12);
            assert(start@ =~= digest@.take(12));
            cat2("tpl-", start.as_str())
        },
    }
}

/// A template is kept under a plain name, whatever its marker tells.
pub proof fn law_template_name_is_plain(marker: JsonView, dir: Seq<char>, digest: Seq<char>)
    requires
        is_digest(digest),
    ensures
        template_name(marker, dir, digest).len() > 0,
        !template_name(marker, dir, digest).contains('/'),
        template_name(marker, dir, digest) != "."@,
        template_name(marker, dir, digest) != ".."@,
{
    let told = match members_of(marker) {
        Some(m) => filled_at(m, "tpl_name"@),
        None => None,
    };
    let raw = match told {
        Some(name) => name,
        None => match final_component(dir) {
            Some(name) => name,
            None => ""@,
        },
    };
    crate::paths::law_final_component_is_plain(raw);
    reveal_strlit("tpl-");
    reveal_strlit(".");
    reveal_strlit("..");
    if final_component(raw) is None {
        let s = "tpl-"@ + digest.take(12);
        assert(s.len() == 16);
        if s.contains('/') {
            let i = choose|i: int| 0 <= i < s.len() && s[i] == '/';
            if i >= 4 {
                assert(s[i] == digest[i - 4]);
                assert(is_lower_hex(digest[i - 4]));
            }
        }
    }
}

/// The digest that a template's marker tells.
pub open spec fn told_digest(marker: JsonView) -> Option<Seq<char>> {
    match members_of(marker) {
        None => None,
        Some(m) => match text_at(m, "content_digest"@) {
            Some(d) => if is_digest(d) {
                Some(d)
            } else {
                None
            },
            None => None,
        },
    }
}

/// The digest that a template's marker tells.
pub fn marker_digest(marker: &Json) -> (r: Option<String>)
    ensures
        opt_text(r) == told_digest(marker@),
{
    match marker.as_object() {
        None => None,
        Some(m) => match m.text_at("content_digest") {
            Some(d) => if digest_text(d.as_str()) {
                Some(d)
            } else {
                None
            },
            None => None,
        },
    }
}

/// Whether a file holds a template's memory.
pub open spec fn holds_memory(path: Seq<char>) -> bool {
    match final_component(path) {
        Some(name) => "memory."@.is_prefix_of(name) && ends_in(name, ".bin"@),
        None => false,
    }
}

pub open spec fn ends_in(s: Seq<char>, end: Seq<char>) -> bool {
    s.len() >= end.len() && s.skip(s.len() - end.len()) == end
}

/// Whether a file holds a template's memory.
pub fn is_memory_page(path: &str) -> (r: bool)
    ensures
        r == holds_memory(path@),
{
    match file_name(path) {
        None => false,
        Some(name) => {
            if !starts_with(name.as_str(), "memory.") {
                return false;
            }
            let chars = chars_of(name.as_str());
            let n = chars.len();
            proof {
                reveal_strlit(".bin");
            }
            if n < 4 {
                return false;
            }
            let tail = string_of(&chars, n - 4, n);
            assert(tail@ =~= name@.skip(n - 4));
            text_eq(tail.as_str(), ".bin")
        },
    }
}

/// Whether a file goes into a bundle.
pub fn bundled(bundle: &TemplateBundle, path: &str) -> (r: bool)
    ensures
        r == (!bundle@.metadata_only || !holds_memory(path@)),
{
    !bundle.metadata_only || !is_memory_page(path)
}

/// Which digest a pulled tree is held to.
#[derive(Clone, Copy, PartialEq, Eq, Structural, Debug)]
pub enum IndexedDigest {
    Template,
    Checkpoint,
}

pub open spec fn mismatch_text(kind: IndexedDigest) -> Seq<char> {
    match kind {
        IndexedDigest::Template => "pulled template digest mismatch"@,
        IndexedDigest::Checkpoint => "pulled migration checkpoint digest mismatch"@,
    }
}

/// What stands where a tree is to be installed.
#[derive(Clone, Copy, PartialEq, Eq, Structural, Debug)]
pub enum Standing {
    Nothing,
    /// A directory with the digest that is wanted.
    Same,
    Other,
}

/// How a tree is installed.
#[derive(Clone, Copy, PartialEq, Eq, Structural, Debug)]
pub enum InstallStep {
    /// What stands there is used.
    Reuse,
    /// What stands there is removed, and the tree put in its place.
    Replace,
    /// The tree is put there.
    Place,
}

pub open spec fn install_step(standing: Standing) -> InstallStep {
    match standing {
        Standing::Nothing => InstallStep::Place,
        Standing::Same => InstallStep::Reuse,
        Standing::Other => InstallStep::Replace,
    }
}

/// How a tree is installed.
pub fn next_install_step(standing: Standing) -> (r: InstallStep)
    ensures
        r == install_step(standing),
{
    match standing {
        Standing::Nothing => InstallStep::Place,
        Standing::Same => InstallStep::Reuse,
        Standing::Other => InstallStep::Replace,
    }
}

/// Where a pulled template is installed, once its digest is the one that is
/// wanted.
pub fn install_pulled_template(
    templates: &str,
    source: &str,
    marker: &Json,
    digest: &str,
    actual: Result<String, EngineError>,
) -> (r: Result<String, EngineError>)
    ensures
        match r {
            Ok(target) => install_target(
                templates@,
                source@,
                marker@,
                digest@,
                actual,
                IndexedDigest::Template,
            ) == Ok::<Seq<char>, ErrorView>(target@),
            Err(e) => install_target(templates@, source@, marker@, digest@, actual, IndexedDigest::Template) == Err::<
                Seq<char>,
                ErrorView,
            >(e@),
        },
{
    install_pulled_indexed(templates, source, marker, digest, actual, IndexedDigest::Template)
}

/// Where a pulled tree is installed, or why it is not.
pub open spec fn install_target(
    templates: Seq<char>,
    source: Seq<char>,
    marker: JsonView,
    digest: Seq<char>,
    actual: Result<String, EngineError>,
    kind: IndexedDigest,
) -> Result<Seq<char>, ErrorView> {
    if !is_digest(digest) {
        Err(bad_digest())
    } else {
        match actual {
            Err(e) => Err(e@),
            Ok(d) => if d@ != digest {
                Err(invalid_input(mismatch_text(kind)))
            } else {
                Ok(joined_path(templates, template_name(marker, source, digest)))
            },
        }
    }
}

/// Where a pulled tree is installed.
pub fn install_pulled_indexed(
    templates: &str,
    source: &str,
    marker: &Json,
    digest: &str,
    actual: Result<String, EngineError>,
    kind: IndexedDigest,
) -> (r: Result<String, EngineError>)
    ensures
        match r {
            Ok(target) => install_target(templates@, source@, marker@, digest@, actual, kind) == Ok::<
                Seq<char>,
                ErrorView,
            >(target@),
            Err(e) => install_target(templates@, source@, marker@, digest@, actual, kind) == Err::<
                Seq<char>,
                ErrorView,
            >(e@),
        },
{
    match validate_digest(digest) {
        Err(e) => return Err(e),
        Ok(_) => {},
    }
    let actual = match actual {
        Ok(d) => d,
        Err(e) => return Err(e),
    };
    if !text_eq(actual.as_str(), digest) {
        let text = match kind {
            IndexedDigest::Template => "pulled template digest mismatch",
            IndexedDigest::Checkpoint => "pulled migration checkpoint digest mismatch",
        };
        return Err(EngineError::invalid(text.to_owned()));
    }
    let name = template_name_from_marker(marker, source, digest);
    proof {
        law_template_name_is_plain(marker@, source@, digest@);
        if name@[0] == '/' {
            assert(name@.contains('/'));
        }
    }
    Ok(join_path(templates, name.as_str()))
}

/// A tree whose digest is not the one that is wanted is never installed.
pub proof fn law_installed_tree_is_verified(
    templates: Seq<char>,
    source: Seq<char>,
    marker: JsonView,
    digest: Seq<char>,
    actual: Result<String, EngineError>,
    kind: IndexedDigest,
)
    ensures
        install_target(templates, source, marker, digest, actual, kind) is Ok ==> is_digest(digest) && (
        actual matches Ok(d) && d@ == digest),
{
}

/// Where a pulled replica is installed, or why it is not.
pub open spec fn replica_target(
    cache_root: Seq<char>,
    source: Seq<char>,
    digest: Seq<char>,
    actual: Result<String, EngineError>,
) -> Result<Seq<char>, ErrorView> {
    if !is_digest(digest) {
        Err(bad_digest())
    } else {
        match actual {
            Err(e) => Err(e@),
            Ok(d) => if d@ != digest {
                Err(invalid_input("pulled replica snapshot digest mismatch"@))
            } else {
                match final_component(source) {
                    None => Err(invalid_input("replica snapshot has no valid root name"@)),
                    Some(name) => Ok(joined_path(cache_root, name)),
                }
            },
        }
    }
}

/// Where a pulled replica is installed.
pub fn install_pulled_snapshot(
    cache_root: &str,
    source: &str,
    digest: &str,
    actual: Result<String, EngineError>,
) -> (r: Result<String, EngineError>)
    ensures
        match r {
            Ok(target) => replica_target(cache_root@, source@, digest@, actual) == Ok::<Seq<char>, ErrorView>(target@),
            Err(e) => replica_target(cache_root@, source@, digest@, actual) == Err::<Seq<char>, ErrorView>(e@),
        },
{
    match validate_digest(digest) {
        Err(e) => return Err(e),
        Ok(_) => {},
    }
    let actual = match actual {
        Ok(d) => d,
        Err(e) => return Err(e),
    };
    if !text_eq(actual.as_str(), digest) {
        return Err(EngineError::invalid("pulled replica snapshot digest mismatch".to_owned()));
    }
    match file_name(source) {
        None => Err(EngineError::invalid("replica snapshot has no valid root name".to_owned())),
        Some(name) => {
            proof {
                crate::paths::law_final_component_is_plain(source@);
                if name@[0] == '/' {
                    assert(name@.contains('/'));
                }
            }
            Ok(join_path(cache_root, name.as_str()))
        },
    }
}

/// Where a template is installed whose memory stays with its peer, or why it is
/// not: its marker has to tell the digest, and its state and its disk have to be
/// there.
pub open spec fn stub_target(
    templates: Seq<char>,
    source: Seq<char>,
    marker: JsonView,
    digest: Seq<char>,
    generation: Result<String, EngineError>,
    has_state: bool,
    has_rootfs: bool,
) -> Result<Seq<char>, ErrorView> {
    if !is_digest(digest) {
        Err(bad_digest())
    } else if told_digest(marker) != Some(digest) {
        Err(invalid_input("pulled template metadata digest mismatch"@))
    } else {
        match generation {
            Err(e) => Err(e@),
            Ok(g) => if !only_digits(trimmed(g@)) || !has_state {
                Err(invalid_input("pulled template metadata is missing snapshot state"@))
            } else if !has_rootfs {
                Err(invalid_input("pulled template metadata is missing rootfs.img"@))
            } else {
                Ok(joined_path(templates, "remote-"@ + template_name(marker, source, digest)))
            },
        }
    }
}

/// The name of the file that holds a template's state.
pub fn state_file(generation: &str) -> (r: String)
    ensures
        r@ == "vmstate."@ + trimmed(generation@) + ".bin"@,
{
    let g = trim(generation);
    cat3("vmstate.", g.as_str(), ".bin")
}

/// Where a template is installed whose memory stays with its peer.
pub fn install_lazy_template_stub(
    templates: &str,
    source: &str,
    marker: &Json,
    digest: &str,
    generation: Result<String, EngineError>,
    has_state: bool,
    has_rootfs: bool,
) -> (r: Result<String, EngineError>)
    ensures
        match r {
            Ok(t) => stub_target(templates@, source@, marker@, digest@, generation, has_state, has_rootfs) == Ok::<
                Seq<char>,
                ErrorView,
            >(t@),
            Err(e) => stub_target(templates@, source@, marker@, digest@, generation, has_state, has_rootfs) == Err::<
                Seq<char>,
                ErrorView,
            >(e@),
        },
{
    match validate_digest(digest) {
        Err(e) => return Err(e),
        Ok(_) => {},
    }
    let told = match marker_digest(marker) {
        Some(d) => text_eq(d.as_str(), digest),
        None => false,
    };
    if !told {
        return Err(EngineError::invalid("pulled template metadata digest mismatch".to_owned()));
    }
    let generation = match generation {
        Ok(g) => trim(g.as_str()),
        Err(e) => return Err(e),
    };
    if !is_only_digits(generation.as_str()) || !has_state {
        return Err(EngineError::invalid("pulled template metadata is missing snapshot state".to_owned()));
    }
    if !has_rootfs {
        return Err(EngineError::invalid("pulled template metadata is missing rootfs.img".to_owned()));
    }
    let name = template_name_from_marker(marker, source, digest);
    let named = cat2("remote-", name.as_str());
    proof {
        reveal_strlit("remote-");
        assert(named@[0] == 'r');
    }
    Ok(join_path(templates, named.as_str()))
}

/// Where an extracted template begins: at the directory itself where the marker is
/// there, else in the first directory in it that has one. Each entry tells whether
/// it is a directory and whether it has the marker.
pub fn extracted_template_root(root_has_marker: bool, entries: &Vec<(bool, bool)>) -> (r: Result<
    Option<usize>,
    EngineError,
>)
    ensures
        match r {
            Ok(None) => root_has_marker,
            Ok(Some(i)) => !root_has_marker && i < entries@.len() && entries@[i as int].0 && entries@[i as int].1
                && forall|j: int| 0 <= j < i ==> !((#[trigger] entries@[j]).0 && entries@[j].1),
            Err(e) => !root_has_marker && (forall|j: int|
                0 <= j < entries@.len() ==> !((#[trigger] entries@[j]).0 && entries@[j].1)) && e@ == invalid_input(
                "template archive did not contain an agent-ready marker"@,
            ),
        },
{
    if root_has_marker {
        return Ok(None);
    }
    let mut i: usize = 0;
    while i < entries.len()
        invariant
            i <= entries@.len(),
            !root_has_marker,
            forall|j: int| 0 <= j < i ==> !((#[trigger] entries@[j]).0 && entries@[j].1),
        decreases entries@.len() - i,
    {
        if entries[i].0 && entries[i].1 {
            return Ok(Some(i));
        }
        i = i + 1;
    }
    Err(EngineError::invalid("template archive did not contain an agent-ready marker".to_owned()))
}

/// What came of a pull: what the extraction says counts first, then how the stream
/// ended.
pub fn pull_outcome(extracted: Result<(), EngineError>, stream_error: Option<EngineError>) -> (r: Result<(), EngineError>)
    ensures
        match (extracted, stream_error) {
            (Err(e), _) => r matches Err(f) && f@ == e@,
            (Ok(_), Some(e)) => r matches Err(f) && f@ == e@,
            (Ok(_), None) => r is Ok,
        },
{
    match (extracted, stream_error) {
        (Err(e), _) => Err(e),
        (Ok(_), Some(e)) => Err(e),
        (Ok(_), None) => Ok(()),
    }
}

/// The answer when a peer does not know a template.
pub fn unknown_digest(digest: &str) -> (r: EngineError)
    ensures
        r@ == missing("unknown template digest "@ + digest@),
{
    EngineError::not_found(cat2("unknown template digest ", digest))
}

/// A digest is sixty-four lower-case hexadecimal digits.
pub proof fn law_digest_is_lower_hex(s: Seq<char>, i: int)
    ensures
        is_digest(s) ==> s.len() == 64,
        is_digest(s) && 0 <= i < s.len() ==> '0' <= s[i] <= '9' || 'a' <= s[i] <= 'f',
        s.len() == 64 && (forall|j: int| 0 <= j < s.len() ==> '0' <= #[trigger] s[j] <= '9' || 'a' <= s[j] <= 'f')
            ==> is_digest(s),
{
    if s.len() == 64 && (forall|j: int| 0 <= j < s.len() ==> '0' <= #[trigger] s[j] <= '9' || 'a' <= s[j] <= 'f') {
        assert forall|j: int| 0 <= j < s.len() implies is_lower_hex(#[trigger] s[j]) by {
            assert('0' <= s[j] <= '9' || 'a' <= s[j] <= 'f');
        }
    }
}

/// A tree is installed exactly where it has the digest it was asked for by, and then
/// inside the directory for it.
pub proof fn law_verified_tree_is_installed(
    templates: Seq<char>,
    source: Seq<char>,
    marker: JsonView,
    digest: Seq<char>,
    actual: Result<String, EngineError>,
    kind: IndexedDigest,
)
    requires
        is_digest(digest),
        templates.len() > 0,
        templates.last() != '/',
    ensures
        ({
            let r = install_target(templates, source, marker, digest, actual, kind);
            &&& r is Ok <==> actual is Ok && actual->Ok_0@ == digest
            &&& r is Ok ==> r->Ok_0 == templates + "/"@ + template_name(marker, source, digest)
            &&& actual is Err ==> r == Err::<Seq<char>, ErrorView>(actual->Err_0@)
        }),
{
}

/// A replica's tree is kept exactly where it has the digest it was asked for by and a
/// name of its own.
pub proof fn law_verified_replica_is_kept(
    cache_root: Seq<char>,
    source: Seq<char>,
    digest: Seq<char>,
    actual: Result<String, EngineError>,
)
    requires
        is_digest(digest),
    ensures
        replica_target(cache_root, source, digest, actual) is Ok <==> actual is Ok && actual->Ok_0@ == digest
            && final_component(source) is Some,
        !is_digest(digest.drop_last()),
        replica_target(cache_root, source, digest.drop_last(), actual) is Err,
{
}

/// Metadata of a template is taken for it only where it tells the same digest, and has
/// a generation, a state and a root file system.
pub proof fn law_metadata_belongs_to_its_template(
    templates: Seq<char>,
    source: Seq<char>,
    marker: JsonView,
    digest: Seq<char>,
    generation: Result<String, EngineError>,
    has_state: bool,
    has_rootfs: bool,
)
    ensures
        stub_target(templates, source, marker, digest, generation, has_state, has_rootfs) is Ok <==> {
            &&& is_digest(digest)
            &&& told_digest(marker) == Some(digest)
            &&& generation is Ok
            &&& only_digits(trimmed(generation->Ok_0@))
            &&& has_state
            &&& has_rootfs
        },
        told_digest(marker) matches Some(d) ==> is_digest(d) && marker is Object && marker->Object_0.contains_key(
            "content_digest"@,
        ) && marker->Object_0["content_digest"@] == JsonView::Str(d),
{
}

/// A page is served where all of it is there.
pub proof fn law_whole_pages_are_served(read: MemoryRead, page: u64)
    ensures
        holds_page(read, page) <==> 4096 * page + 4096 <= read.len && read.bytes@.len() >= 4096,
{
    assert(PAGE_SIZE * (page + 1) == 4096 * page + 4096);
}

/// Trailing slashes, and nothing else, are taken off.
pub proof fn law_trailing_slashes_go(s: Seq<char>)
    ensures
        without_slashes(s).len() <= s.len(),
        without_slashes(s) == s.take(without_slashes(s).len() as int),
        without_slashes(s).len() > 0 ==> without_slashes(s).last() != '/',
        forall|i: int| without_slashes(s).len() <= i < s.len() ==> #[trigger] s[i] == '/',
    decreases s.len(),
{
    if s.len() > 0 && s.last() == '/' {
        law_trailing_slashes_go(s.drop_last());
        assert(s.drop_last().take(without_slashes(s).len() as int) =~= s.take(without_slashes(s).len() as int));
        assert forall|i: int| without_slashes(s).len() <= i < s.len() implies #[trigger] s[i] == '/' by {
            if i < s.len() - 1 {
                assert(s.drop_last()[i] == s[i]);
            }
        }
    } else {
        assert(s.take(s.len() as int) =~= s);
    }
}

/// What is in place is left where it is the same, and replaced where it is not.
pub proof fn law_same_tree_is_reused(standing: Standing)
    ensures
        install_step(standing) == InstallStep::Reuse <==> standing == Standing::Same,
        install_step(standing) == InstallStep::Place <==> standing == Standing::Nothing,
        install_step(standing) == InstallStep::Replace <==> standing == Standing::Other,
{
}

/// A template keeps the name that it tells of itself, where that is a plain one.
pub proof fn law_template_keeps_its_name(m: ObjectView, name: Seq<char>, dir: Seq<char>, digest: Seq<char>)
    requires
        m.contains_key("tpl_name"@),
        m["tpl_name"@] == JsonView::Str(name),
        final_component(name) == Some(name),
        name.len() > 0,
    ensures
        template_name(JsonView::Object(m), dir, digest) == name,
{
}

/// A generation's memory lies in the template's directory, under the generation's number.
pub proof fn law_memory_lies_with_its_template(dir: Seq<char>, generation: Seq<char>)
    requires
        dir.len() > 0,
        dir.last() != '/',
    ensures
        only_digits(trimmed(generation)) ==> memory_path(dir, generation) == Ok::<Seq<char>, ErrorView>(
            dir + "/"@ + ("memory."@ + trimmed(generation) + ".bin"@),
        ),
        !only_digits(trimmed(generation)) ==> memory_path(dir, generation) is Err,
{
}

} // verus!
