//! Dropbox integration: what is sent to Dropbox API v2, and what its answers mean.

use vstd::prelude::*;
use vstd::string::*;

use crate::clock::unix_seconds;
use crate::integrations::http::{api_error, retry_after};
use crate::integrations::oauth::{OAuthConfig, OAuthProvider, OAuthToken};
use crate::integrations::{
    refresh_grant, CloudFile, CloudFolder, CloudProvider, IntegrationError, ProviderType,
    StorageQuota,
};
use crate::text::{contains, or_empty_string, same, to_chars, trim_end_char};

verus! {

pub const API_BASE: &'static str = "https://api.dropboxapi.com/2";

pub const CONTENT_BASE: &'static str = "https://content.dropboxapi.com/2";

/// The lower-case hexadecimal digit of a value below 16.
pub open spec fn lower_hex(d: nat) -> char {
    if d < 10 {
        (d + '0' as nat) as char
    } else {
        (d - 10 + 'a' as nat) as char
    }
}

/// The JSON escape of a UTF-16 unit.
pub open spec fn unit_escape(u: nat) -> Seq<char> {
    seq![
        '\\',
        'u',
        lower_hex(u / 4096 % 16),
        lower_hex(u / 256 % 16),
        lower_hex(u / 16 % 16),
        lower_hex(u % 16),
    ]
}

/// A character of a header-safe JSON text: ASCII stays, but for DEL; any other is escaped, as a
/// surrogate pair where it takes two units.
pub open spec fn header_safe_char(c: char) -> Seq<char> {
    let n = c as nat;
    if n < 0x7f {
        seq![c]
    } else if n < 0x1_0000 {
        unit_escape(n)
    } else {
        unit_escape((0xd800 + (n - 0x1_0000) / 0x400) as nat) + unit_escape(
            (0xdc00 + (n - 0x1_0000) % 0x400) as nat,
        )
    }
}

/// A JSON text with each character made header-safe.
pub open spec fn header_safe(json: Seq<char>) -> Seq<char>
    decreases json.len(),
{
    if json.len() == 0 {
        Seq::empty()
    } else {
        header_safe(json.drop_last()) + header_safe_char(json.last())
    }
}

fn push_hex(out: &mut String, d: u32)
    requires
        d < 16,
    ensures
        final(out)@ == old(out)@.push(lower_hex(d as nat)),
{
    let b: u8 = d as u8;
    if b < 10 {
        out.push((48 + b) as char);
    } else {
        out.push((87 + b) as char);
    }
}

fn push_unit(out: &mut String, u: u32)
    requires
        u < 0x1_0000,
    ensures
        final(out)@ == old(out)@ + unit_escape(u as nat),
{
    let ghost was = out@;
    out.push('\\');
    out.push('u');
    push_hex(out, u / 4096 % 16);
    push_hex(out, u / 256 % 16);
    push_hex(out, u / 16 % 16);
    push_hex(out, u % 16);
    assert(out@ =~= was + unit_escape(u as nat));
}

fn push_safe(out: &mut String, c: char)
    ensures
        final(out)@ == old(out)@ + header_safe_char(c),
{
    let n: u32 = c as u32;
    let ghost was = out@;
    if n < 0x7f {
        out.push(c);
        assert(out@ =~= was + header_safe_char(c));
    } else if n < 0x1_0000 {
        push_unit(out, n);
    } else {
        let high: u32 = 0xd800 + (n - 0x1_0000) / 0x400;
        let low: u32 = 0xdc00 + (n - 0x1_0000) % 0x400;
        push_unit(out, high);
        push_unit(out, low);
        assert(was + unit_escape(high as nat) + unit_escape(low as nat) =~= was + (unit_escape(
            high as nat,
        ) + unit_escape(low as nat)));
    }
}

/// Make a JSON `Dropbox-API-Arg` value header-safe: HTTP header values must be visible ASCII, so
/// Dropbox requires DEL and every non-ASCII character escaped as `\uXXXX` (UTF-16). Without this,
/// a path like `/Notes/café.pdf` makes the request fail before it is sent.
pub fn header_safe_json(json: &str) -> (r: String)
    ensures
        r@ == header_safe(json@),
{
    let cs = to_chars(json);
    let mut out = String::new();
    let mut i: usize = 0;
    assert(out@ =~= header_safe(json@.take(0)));
    while i < cs.len()
        invariant
            i <= cs@.len(),
            cs@ == json@,
            out@ == header_safe(json@.take(i as int)),
        decreases cs@.len() - i,
    {
        assert(json@.take(i as int + 1).drop_last() =~= json@.take(i as int));
        push_safe(&mut out, cs[i]);
        i += 1;
    }
    assert(json@.take(i as int) =~= json@);
    out
}

/// A header-safe text is visible ASCII wherever the JSON it was made from has no control
/// characters, which JSON never has outside its white space.
pub proof fn law_header_is_ascii(json: Seq<char>)
    requires
        forall|i: int| 0 <= i < json.len() ==> #[trigger] json[i] >= ' ',
    ensures
        forall|i: int|
            0 <= i < header_safe(json).len() ==> ' ' <= #[trigger] header_safe(json)[i] <= '~',
    decreases json.len(),
{
    if json.len() > 0 {
        let rest = json.drop_last();
        assert forall|i: int| 0 <= i < rest.len() implies #[trigger] rest[i] >= ' ' by {
            assert(rest[i] == json[i]);
        }
        law_header_is_ascii(rest);
        let c = json.last();
        assert(json[json.len() - 1] == c);
        let piece = header_safe_char(c);
        assert forall|i: int| 0 <= i < piece.len() implies ' ' <= #[trigger] piece[i] <= '~' by {}
        let before = header_safe(rest);
        let whole = before + piece;
        assert forall|i: int| 0 <= i < whole.len() implies ' ' <= #[trigger] whole[i] <= '~' by {
            if i < before.len() {
                assert(whole[i] == before[i]);
            } else {
                assert(whole[i] == piece[i - before.len()]);
            }
        }
    }
}

/// Dropbox provider.
#[derive(Debug)]
pub struct Dropbox {
    pub config: OAuthConfig,
    pub token: Option<OAuthToken>,
    pub api_base: String,
    pub content_base: String,
}

impl Dropbox {
    pub fn new(config: OAuthConfig) -> (r: Self)
        ensures
            r.config == config,
            r.token is None,
            r.api_base@ == API_BASE@,
            r.content_base@ == CONTENT_BASE@,
    {
        Dropbox {
            config,
            token: None,
            api_base: API_BASE.to_owned(),
            content_base: CONTENT_BASE.to_owned(),
        }
    }

    pub fn with_token(config: OAuthConfig, token: OAuthToken) -> (r: Self)
        ensures
            r.config == config,
            r.token == Some(token),
            r.api_base@ == API_BASE@,
            r.content_base@ == CONTENT_BASE@,
    {
        Dropbox {
            config,
            token: Some(token),
            api_base: API_BASE.to_owned(),
            content_base: CONTENT_BASE.to_owned(),
        }
    }

    /// Point the provider at different API / content endpoints (tests, proxies).
    pub fn with_base_urls(self, api_base: &str, content_base: &str) -> (r: Self)
        ensures
            r.config == self.config,
            r.token == self.token,
            r.api_base@ == crate::text::trimmed_end(api_base@, '/'),
            r.content_base@ == crate::text::trimmed_end(content_base@, '/'),
    {
        Dropbox {
            config: self.config,
            token: self.token,
            api_base: trim_end_char(api_base, '/').to_owned(),
            content_base: trim_end_char(content_base, '/').to_owned(),
        }
    }

    /// The token that requests carry; without one the provider is not configured.
    pub fn access_token(&self) -> (r: Result<&str, IntegrationError>)
        ensures
            match self.token {
                Some(t) => r matches Ok(s) && s@ == t.access_token@,
                None => r matches Err(e) && e
                    == IntegrationError::NotConfigured,
            },
    {
        match &self.token {
            Some(t) => Ok(t.access_token.as_str()),
            None => Err(IntegrationError::NotConfigured),
        }
    }

    /// The refresh token to ask for a new token with.
    pub fn refresh_grant(&self) -> (r: Result<&str, IntegrationError>)
        ensures
            crate::integrations::is_refresh_grant(r, self.token),
    {
        refresh_grant(&self.token)
    }

    /// Where an API request goes.
    pub fn api_url(&self, endpoint: &str) -> (r: String)
        ensures
            r@ == self.api_base@ + "/"@ + endpoint@,
    {
        let mut out = self.api_base.clone();
        out.push_str("/");
        out.push_str(endpoint);
        out
    }

    /// Where content is up- or downloaded.
    pub fn content_url(&self, endpoint: &str) -> (r: String)
        ensures
            r@ == self.content_base@ + "/"@ + endpoint@,
    {
        let mut out = self.content_base.clone();
        out.push_str("/");
        out.push_str(endpoint);
        out
    }
}

impl CloudProvider for Dropbox {
    open spec fn kind(&self) -> ProviderType {
        ProviderType::Dropbox
    }

    open spec fn token(&self) -> Option<OAuthToken> {
        self.token
    }

    fn provider_type(&self) -> (r: ProviderType) {
        ProviderType::Dropbox
    }

    fn is_authenticated(&self) -> (r: bool) {
        self.token.is_some()
    }

    fn get_token(&self) -> (r: Option<&OAuthToken>) {
        match &self.token {
            Some(t) => Some(t),
            None => None,
        }
    }

    fn set_token(&mut self, token: OAuthToken) {
        self.token = Some(token);
    }
}

impl OAuthProvider for Dropbox {
    open spec fn config(&self) -> OAuthConfig {
        self.config
    }

    fn oauth_config(&self) -> (r: &OAuthConfig) {
        &self.config
    }

    fn oauth_config_mut(&mut self) -> (r: &mut OAuthConfig) {
        &mut self.config
    }
}

/// What a response that is no success means. A missing path (409 `path/not_found`, or a plain
/// 404) and content that can't be downloaded (409 `unsupported_file`, e.g. Paper docs) are
/// permanent; auth, rate limits and 5xx stay retryable.
pub open spec fn error_of(
    status: u16,
    retry_after: Option<Seq<char>>,
    body: Seq<char>,
) -> crate::integrations::IntegrationErrorView {
    if status == 401 {
        crate::integrations::IntegrationErrorView::TokenExpired
    } else if status == 429 {
        crate::integrations::IntegrationErrorView::RateLimited(
            crate::integrations::http::wait_of(retry_after),
        )
    } else if status == 404 || (status == 409 && crate::text::holds(body, "path/not_found"@)) {
        crate::integrations::IntegrationErrorView::NotFound("Path not found"@)
    } else if status == 409 {
        if crate::text::holds(body, "unsupported_file"@) {
            crate::integrations::IntegrationErrorView::NotDownloadable(body)
        } else if crate::text::holds(body, "insufficient_space"@) {
            crate::integrations::IntegrationErrorView::QuotaExceeded
        } else {
            crate::integrations::IntegrationErrorView::Conflict(body)
        }
    } else {
        crate::integrations::IntegrationErrorView::Api(
            crate::integrations::http::status_text(status) + ": "@ + body,
        )
    }
}

/// Map a non-success Dropbox response, its `Retry-After` header and its body to an error.
pub fn response_error(status: u16, retry: Option<&str>, body: &str) -> (r: IntegrationError)
    requires
        100 <= status <= 999,
    ensures
        r@ == error_of(status, crate::text::text_of_str(retry), body@),
{
    if status == 401 {
        IntegrationError::TokenExpired
    } else if status == 429 {
        IntegrationError::RateLimited { retry_after_secs: retry_after(retry) }
    } else if status == 404 {
        IntegrationError::NotFound("Path not found".to_owned())
    } else if status == 409 {
        if contains(body, "path/not_found") {
            IntegrationError::NotFound("Path not found".to_owned())
        } else if contains(body, "unsupported_file") {
            IntegrationError::NotDownloadable(body.to_owned())
        } else if contains(body, "insufficient_space") {
            IntegrationError::QuotaExceeded
        } else {
            IntegrationError::Conflict(body.to_owned())
        }
    } else {
        api_error(status, body)
    }
}

/// Dropbox file metadata.
#[derive(Debug)]
pub struct DropboxEntry {
    pub tag: String,
    pub id: Option<String>,
    pub name: String,
    pub path_display: Option<String>,
    pub size: u64,
    pub server_modified: Option<String>,
    pub content_hash: Option<String>,
}

impl DropboxEntry {
    /// The file that an entry is.
    pub open spec fn file(self) -> crate::integrations::CloudFileView {
        crate::integrations::CloudFileView {
            id: crate::text::or_empty(self.id),
            name: self.name@,
            mime_type: None,
            size: self.size,
            modified_at: crate::clock::seconds_of(self.server_modified),
            content_hash: crate::text::text_of(self.content_hash),
            parent_id: None,
            is_folder: self.tag@ == "folder"@,
            path: crate::text::or_empty(self.path_display),
            deleted: false,
        }
    }

    /// The folder that an entry is.
    pub open spec fn folder(self) -> crate::integrations::CloudFolderView {
        crate::integrations::CloudFolderView {
            id: crate::text::or_empty(self.id),
            name: self.name@,
            path: crate::text::or_empty(self.path_display),
            parent_id: None,
        }
    }

    /// The entry as a file. Dropbox doesn't provide MIME types.
    pub fn to_cloud_file(&self) -> (r: CloudFile)
        ensures
            r@ == self.file(),
            r.name@ == self.name@,
            match self.id {
                Some(id) => r.id@ == id@,
                None => r.id@.len() == 0,
            },
            match self.path_display {
                Some(path) => r.path@ == path@,
                None => r.path@.len() == 0,
            },
            r.size == self.size,
            r.modified_at == (match self.server_modified {
                Some(t) => match crate::clock::rfc3339_value(t@) {
                    Some((seconds, _)) => seconds,
                    None => 0,
                },
                None => 0,
            }),
            match self.content_hash {
                Some(h) => r.content_hash matches Some(c) && c@ == h@,
                None => r.content_hash is None,
            },
            r.is_folder <==> self.tag@ == "folder"@,
            r.mime_type is None,
            r.parent_id is None,
            !r.deleted,
    {
        CloudFile {
            id: or_empty_string(self.id.clone()),
            name: self.name.clone(),
            mime_type: None,
            size: self.size,
            modified_at: unix_seconds(&self.server_modified),
            content_hash: self.content_hash.clone(),
            parent_id: None,
            is_folder: same(self.tag.as_str(), "folder"),
            path: or_empty_string(self.path_display.clone()),
            deleted: false,
        }
    }

    /// The entry as a folder.
    pub fn to_cloud_folder(&self) -> (r: CloudFolder)
        ensures
            r@ == self.folder(),
            r.name@ == self.name@,
            match self.id {
                Some(id) => r.id@ == id@,
                None => r.id@.len() == 0,
            },
            match self.path_display {
                Some(path) => r.path@ == path@,
                None => r.path@.len() == 0,
            },
            r.parent_id is None,
    {
        CloudFolder {
            id: or_empty_string(self.id.clone()),
            name: self.name.clone(),
            path: or_empty_string(self.path_display.clone()),
            parent_id: None,
        }
    }
}

/// A page of a folder listing.
#[derive(Debug)]
pub struct ListFolderResponse {
    pub entries: Vec<DropboxEntry>,
    pub cursor: String,
    pub has_more: bool,
}

/// What a folder listing came to so far, and where it goes on.
#[derive(Debug)]
pub struct Listing {
    pub files: Vec<CloudFile>,
    pub folders: Vec<CloudFolder>,
    pub cursor: String,
    pub has_more: bool,
}

/// The files that entries are.
pub open spec fn files_of(entries: Seq<DropboxEntry>) -> Seq<crate::integrations::CloudFileView> {
    entries.map_values(|e: DropboxEntry| e.file())
}

/// The folders among entries.
pub open spec fn folders_of(entries: Seq<DropboxEntry>) -> Seq<
    crate::integrations::CloudFolderView,
>
    decreases entries.len(),
{
    if entries.len() == 0 {
        Seq::empty()
    } else {
        let before = folders_of(entries.drop_last());
        if entries.last().tag@ == "folder"@ {
            before.push(entries.last().folder())
        } else {
            before
        }
    }
}

/// Folders with their texts as characters.
pub open spec fn folder_views(
    folders: Seq<CloudFolder>,
) -> Seq<crate::integrations::CloudFolderView> {
    folders.map_values(|f: CloudFolder| f@)
}

impl Listing {
    /// A listing of which nothing is there yet.
    pub fn new() -> (r: Self)
        ensures
            r.files@.len() == 0,
            r.folders@.len() == 0,
            r.cursor@.len() == 0,
            r.has_more,
    {
        Listing { files: Vec::new(), folders: Vec::new(), cursor: String::new(), has_more: true }
    }

    /// Take up a page: its entries as files, the folders among them as folders, and where the
    /// listing goes on.
    pub fn page(&mut self, page: &ListFolderResponse)
        ensures
            crate::integrations::file_views(final(self).files@) == crate::integrations::file_views(old(self).files@) + files_of(
                page.entries@,
            ),
            folder_views(final(self).folders@) == folder_views(old(self).folders@) + folders_of(
                page.entries@,
            ),
            final(self).cursor@ == page.cursor@,
            final(self).has_more == page.has_more,
    {
        let ghost files = crate::integrations::file_views(self.files@);
        let ghost folders = folder_views(self.folders@);
        let mut i: usize = 0;
        assert(files + files_of(page.entries@.take(0)) =~= files);
        assert(folders + folders_of(page.entries@.take(0)) =~= folders);
        while i < page.entries.len()
            invariant
                i <= page.entries@.len(),
                crate::integrations::file_views(self.files@) == files + files_of(page.entries@.take(i as int)),
                folder_views(self.folders@) == folders + folders_of(page.entries@.take(i as int)),
            decreases page.entries@.len() - i,
        {
            let entry = &page.entries[i];
            let ghost seen = page.entries@.take(i as int);
            let ghost now = page.entries@.take(i as int + 1);
            assert(now.drop_last() =~= seen);
            let ghost file_was = crate::integrations::file_views(self.files@);
            self.files.push(entry.to_cloud_file());
            assert(crate::integrations::file_views(self.files@) =~= file_was.push(entry.file()));
            assert(files_of(now) =~= files_of(seen).push(entry.file()));
            if same(entry.tag.as_str(), "folder") {
                let ghost folder_was = folder_views(self.folders@);
                self.folders.push(entry.to_cloud_folder());
                assert(folder_views(self.folders@) =~= folder_was.push(entry.folder()));
                assert(folders_of(now) =~= folders_of(seen).push(entry.folder()));
            }
            i += 1;
        }
        assert(page.entries@.take(i as int) =~= page.entries@);
        self.cursor = page.cursor.clone();
        self.has_more = page.has_more;
    }
}

/// The path of an entry `name` of a folder; of the root without one.
pub open spec fn path_in(parent: Option<Seq<char>>, name: Seq<char>) -> Seq<char> {
    match parent {
        Some(p) => p + "/"@ + name,
        None => "/"@ + name,
    }
}

/// The path that a file is uploaded, moved, or a folder created at.
pub fn entry_path(parent: Option<&str>, name: &str) -> (r: String)
    ensures
        r@ == path_in(crate::text::text_of_str(parent), name@),
{
    let mut out = match parent {
        Some(p) => p.to_owned(),
        None => String::new(),
    };
    let ghost start = out@;
    out.push_str("/");
    out.push_str(name);
    proof {
        if parent is None {
            assert(start =~= Seq::empty());
            assert(out@ =~= "/"@ + name@);
        }
    }
    out
}

/// The quota that the account's usage tells; Dropbox doesn't report trash size separately.
pub fn quota(used: u64, allocated: Option<u64>) -> (r: StorageQuota)
    ensures
        r == (StorageQuota { used, total: allocated, trash: None }),
{
    StorageQuota { used, total: allocated, trash: None }
}

/// A header keeps its plain characters, and joins as its text does.
pub proof fn law_header_goes_by_character(a: Seq<char>, b: Seq<char>, c: char)
    ensures
        header_safe(a + b) == header_safe(a) + header_safe(b),
        (c as nat) < 0x7f ==> header_safe(seq![c]) == seq![c],
    decreases b.len(),
{
    assert(header_safe(Seq::<char>::empty()) =~= Seq::<char>::empty());
    assert(seq![c].drop_last() =~= Seq::empty());
    assert(header_safe(seq![c]) =~= header_safe_char(c));
    if b.len() == 0 {
        assert(a + b =~= a);
        assert(header_safe(a + b) =~= header_safe(a) + header_safe(b));
    } else {
        assert((a + b).drop_last() =~= a + b.drop_last());
        law_header_goes_by_character(a, b.drop_last(), c);
        assert(header_safe(a + b) =~= header_safe(a) + header_safe(b));
    }
}

/// What JSON reads a hexadecimal digit as.
pub open spec fn hex_value(c: char) -> nat {
    if '0' <= c <= '9' {
        (c as nat - 0x30) as nat
    } else {
        (c as nat - 0x57) as nat
    }
}

/// An escaped character is told by its number in four hexadecimal digits; one beyond the first
/// 65,536 by those of its two surrogates.
pub proof fn law_escapes_tell_the_character(c: char)
    requires
        c as nat >= 0x7f,
    ensures
        ({
            let e = header_safe(seq![c]);
            let first = hex_value(e[2]) * 4096 + hex_value(e[3]) * 256 + hex_value(e[4]) * 16
                + hex_value(e[5]);
            &&& e[0] == '\\' && e[1] == 'u'
            &&& (c as nat) < 0x1_0000 ==> e.len() == 6 && first == c as nat
            &&& c as nat >= 0x1_0000 ==> {
                let second = hex_value(e[8]) * 4096 + hex_value(e[9]) * 256 + hex_value(e[10]) * 16
                    + hex_value(e[11]);
                &&& e.len() == 12
                &&& e[6] == '\\' && e[7] == 'u'
                &&& 0xd800 <= first < 0xdc00
                &&& 0xdc00 <= second < 0xe000
                &&& c as nat == 0x1_0000 + (first - 0xd800) * 0x400 + (second - 0xdc00)
            }
        }),
{
    law_header_goes_by_character(Seq::empty(), Seq::empty(), c);
    assert(seq![c].drop_last() =~= Seq::empty());
    assert(header_safe(Seq::<char>::empty()) =~= Seq::<char>::empty());
    assert(header_safe(seq![c]) =~= header_safe_char(c));
    let n = c as nat;
    if n < 0x1_0000 {
        lemma_unit_escape(n);
    } else {
        let high = (0xd800 + (n - 0x1_0000) / 0x400) as nat;
        let low = (0xdc00 + (n - 0x1_0000) % 0x400) as nat;
        assert(n <= 0x10_ffff);
        lemma_unit_escape(high);
        lemma_unit_escape(low);
        let e = unit_escape(high) + unit_escape(low);
        assert(e[2] == unit_escape(high)[2] && e[3] == unit_escape(high)[3] && e[4] == unit_escape(
            high,
        )[4] && e[5] == unit_escape(high)[5]);
        assert(e[8] == unit_escape(low)[2] && e[9] == unit_escape(low)[3] && e[10] == unit_escape(
            low,
        )[4] && e[11] == unit_escape(low)[5]);
    }
}

proof fn lemma_unit_escape(u: nat)
    requires
        u < 0x1_0000,
    ensures
        ({
            let e = unit_escape(u);
            &&& e.len() == 6
            &&& e[0] == '\\' && e[1] == 'u'
            &&& hex_value(e[2]) * 4096 + hex_value(e[3]) * 256 + hex_value(e[4]) * 16 + hex_value(
                e[5],
            ) == u
        }),
{
    lemma_lower_hex(u / 4096 % 16);
    lemma_lower_hex(u / 256 % 16);
    lemma_lower_hex(u / 16 % 16);
    lemma_lower_hex(u % 16);
    assert((u / 4096 % 16) * 4096 + (u / 256 % 16) * 256 + (u / 16 % 16) * 16 + u % 16 == u)
        by (nonlinear_arith)
        requires
            u < 0x1_0000,
    ;
}

proof fn lemma_lower_hex(d: nat)
    requires
        d < 16,
    ensures
        hex_value(lower_hex(d)) == d,
{
}

/// What Dropbox tells of an entry is what the file is taken for; only an entry told to be a folder
/// is one.
pub proof fn law_an_entry_is_what_dropbox_tells(e: DropboxEntry)
    ensures
        e.file().name == e.name@,
        e.file().size == e.size,
        e.id matches Some(id) ==> e.file().id == id@ && e.folder().id == id@,
        e.path_display matches Some(p) ==> e.file().path == p@ && e.folder().path == p@,
        e.content_hash matches Some(h) ==> e.file().content_hash == Some(h@),
        e.content_hash is None ==> e.file().content_hash is None,
        e.server_modified matches Some(t) ==> e.file().modified_at == (
        match crate::clock::rfc3339_value(t@) {
            Some((seconds, _)) => seconds,
            None => 0,
        }),
        e.file().is_folder <==> e.tag@ == "folder"@,
        e.folder().name == e.name@,
        !e.file().deleted,
{
}

/// A listing tells every entry as a file, in order, and each folder among them once more as one.
pub proof fn law_a_listing_tells_every_entry(entries: Seq<DropboxEntry>, last: DropboxEntry)
    ensures
        files_of(entries).len() == entries.len(),
        forall|i: int|
            0 <= i < entries.len() ==> (#[trigger] files_of(entries)[i]).name == entries[i].name@,
        files_of(entries.push(last)) == files_of(entries).push(last.file()),
        last.tag@ == "folder"@ ==> folders_of(entries.push(last)) == folders_of(entries).push(
            last.folder(),
        ),
        last.tag@ != "folder"@ ==> folders_of(entries.push(last)) == folders_of(entries),
        folders_of(Seq::empty()).len() == 0,
{
    assert(entries.push(last).drop_last() =~= entries);
    assert(files_of(entries.push(last)) =~= files_of(entries).push(last.file()));
}

/// A refusal is told apart by its status, and at 409 by what the answer says.
pub proof fn law_refusals_are_told_apart(
    status: u16,
    retry_after: Option<Seq<char>>,
    body: Seq<char>,
)
    ensures
        error_of(401, retry_after, body) is TokenExpired,
        error_of(429, None, body) == crate::integrations::IntegrationErrorView::RateLimited(60),
        error_of(429, retry_after, body) is RateLimited,
        error_of(404, retry_after, body) is NotFound,
        crate::text::holds(body, "path/not_found"@) ==> error_of(409, retry_after, body)
            is NotFound,
        !crate::text::holds(body, "path/not_found"@) ==> {
            &&& crate::text::holds(body, "unsupported_file"@) ==> error_of(409, retry_after, body)
                is NotDownloadable
            &&& !crate::text::holds(body, "unsupported_file"@) && crate::text::holds(
                body,
                "insufficient_space"@,
            ) ==> error_of(409, retry_after, body) is QuotaExceeded
            &&& !crate::text::holds(body, "unsupported_file"@) && !crate::text::holds(
                body,
                "insufficient_space"@,
            ) ==> error_of(409, retry_after, body) is Conflict
        },
        status != 401 && status != 404 && status != 409 && status != 429 ==> error_of(
            status,
            retry_after,
            body,
        ) is Api,
{
}

/// A path in a folder is the folder's and the name, and in the root a slash and the name.
pub proof fn law_a_path_in_a_folder(parent: Seq<char>, name: Seq<char>)
    ensures
        path_in(Some(parent), name) == parent + "/"@ + name,
        path_in(None, name) == "/"@ + name,
{
}

} // verus!
