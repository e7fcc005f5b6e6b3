//! The server's settings: what its command line and its environment ask for.

use vstd::prelude::*;
use vstd::string::*;

use crate::integrations::paths::join_path;
use crate::text::{char_count, find_char, same, slice, split, trim};

verus! {

/// Single local account every paired device syncs into.
pub const PAIRING_USER: &'static str = "local-user";

/// How often the feed scheduler looks for subscriptions due a refresh (each has its own interval).
pub const FEED_CHECK_SECS: u64 = 300;

/// Max upload body for blob routes: smaller limits reject PDFs, EPUBs and large notebook pages, which
/// the device reports as "Failed uploading".
pub const MAX_BLOB_BYTES: usize = 1024 * 1024 * 1024;

/// What `--help` prints.
pub const HELP: &'static str = "remarkable-server - Local reMarkable sync server\n\nUsage: remarkable-server [OPTIONS]\n\nOptions:\n  -b, --bind <ADDR>     Address to bind (default: 127.0.0.1:8080)\n  -H, --host <NAME>     Hostname the device uses to reach us (default: local.tectonic.remarkable.com)\n  -s, --storage <PATH>  Storage directory (default: ./remarkable-storage)\n  -r, --region <NAME>   Region name (default: local)\n  -c, --cert <PATH>     TLS certificate file (PEM)\n  -k, --key <PATH>      TLS private key file (PEM)\n      --pair            Print a one-time pairing code for a new device and exit\n  -h, --help            Show this help";

#[derive(Debug, Clone)]
pub struct ServerConfig {
    pub bind: String,
    /// Public hostname the device reaches us by (discovery + JWT issuer).
    pub host: String,
    pub storage_path: String,
    pub db_path: String,
    pub region: String,
    pub enable_calendar: bool,
    pub enable_cloud_integrations: bool,
    pub cert_path: Option<String>,
    pub key_path: Option<String>,
}

/// [`ServerConfig`] with its texts as characters.
pub struct ServerConfigView {
    pub bind: Seq<char>,
    pub host: Seq<char>,
    pub storage_path: Seq<char>,
    pub db_path: Seq<char>,
    pub region: Seq<char>,
    pub enable_calendar: bool,
    pub enable_cloud_integrations: bool,
    pub cert_path: Option<Seq<char>>,
    pub key_path: Option<Seq<char>>,
}

impl View for ServerConfig {
    type V = ServerConfigView;

    open spec fn view(&self) -> ServerConfigView {
        ServerConfigView {
            bind: self.bind@,
            host: self.host@,
            storage_path: self.storage_path@,
            db_path: self.db_path@,
            region: self.region@,
            enable_calendar: self.enable_calendar,
            enable_cloud_integrations: self.enable_cloud_integrations,
            cert_path: crate::text::text_of(self.cert_path),
            key_path: crate::text::text_of(self.key_path),
        }
    }
}

/// The settings where nothing is asked for.
pub open spec fn defaults() -> ServerConfigView {
    ServerConfigView {
        bind: "127.0.0.1:8080"@,
        host: "local.tectonic.remarkable.com"@,
        storage_path: "./remarkable-storage"@,
        db_path: "./remarkable-storage/devices.db"@,
        region: "local"@,
        enable_calendar: true,
        enable_cloud_integrations: true,
        cert_path: None,
        key_path: None,
    }
}

impl Default for ServerConfig {
    fn default() -> (r: Self)
        ensures
            r@ == defaults(),
    {
        ServerConfig {
            bind: "127.0.0.1:8080".to_owned(),
            host: "local.tectonic.remarkable.com".to_owned(),
            storage_path: "./remarkable-storage".to_owned(),
            db_path: "./remarkable-storage/devices.db".to_owned(),
            region: "local".to_owned(),
            enable_calendar: true,
            enable_cloud_integrations: true,
            cert_path: None,
            key_path: None,
        }
    }
}

/// An option of the command line.
#[derive(Debug, Clone, Copy, PartialEq, Eq, Structural)]
pub enum Flag {
    Bind,
    Host,
    Storage,
    Region,
    Cert,
    Key,
    Help,
}

/// The option that an argument is.
pub open spec fn flag_of(arg: Seq<char>) -> Option<Flag> {
    if arg == "--bind"@ || arg == "-b"@ {
        Some(Flag::Bind)
    } else if arg == "--host"@ || arg == "-H"@ {
        Some(Flag::Host)
    } else if arg == "--storage"@ || arg == "-s"@ {
        Some(Flag::Storage)
    } else if arg == "--region"@ || arg == "-r"@ {
        Some(Flag::Region)
    } else if arg == "--cert"@ || arg == "-c"@ {
        Some(Flag::Cert)
    } else if arg == "--key"@ || arg == "-k"@ {
        Some(Flag::Key)
    } else if arg == "--help"@ || arg == "-h"@ {
        Some(Flag::Help)
    } else {
        None
    }
}

fn flag(arg: &str) -> (r: Option<Flag>)
    ensures
        r == flag_of(arg@),
{
    if same(arg, "--bind") || same(arg, "-b") {
        Some(Flag::Bind)
    } else if same(arg, "--host") || same(arg, "-H") {
        Some(Flag::Host)
    } else if same(arg, "--storage") || same(arg, "-s") {
        Some(Flag::Storage)
    } else if same(arg, "--region") || same(arg, "-r") {
        Some(Flag::Region)
    } else if same(arg, "--cert") || same(arg, "-c") {
        Some(Flag::Cert)
    } else if same(arg, "--key") || same(arg, "-k") {
        Some(Flag::Key)
    } else if same(arg, "--help") || same(arg, "-h") {
        Some(Flag::Help)
    } else {
        None
    }
}

/// Settings with the value of an option.
pub open spec fn with_option(c: ServerConfigView, f: Flag, v: Seq<char>) -> ServerConfigView {
    match f {
        Flag::Bind => ServerConfigView { bind: v, ..c },
        Flag::Host => ServerConfigView { host: v, ..c },
        Flag::Storage => ServerConfigView { storage_path: v, ..c },
        Flag::Region => ServerConfigView { region: v, ..c },
        Flag::Cert => ServerConfigView { cert_path: Some(v), ..c },
        Flag::Key => ServerConfigView { key_path: Some(v), ..c },
        Flag::Help => c,
    }
}

/// What a command line asks for, from the argument at `i` on: settings, or the help. An option takes
/// the argument behind it, whatever that is; an argument that is no option is passed over.
pub open spec fn asked(args: Seq<Seq<char>>, i: int, c: ServerConfigView) -> Option<ServerConfigView>
    decreases args.len() - i,
{
    if i >= args.len() {
        Some(c)
    } else {
        match flag_of(args[i]) {
            None => asked(args, i + 1, c),
            Some(Flag::Help) => None,
            Some(f) => if i + 1 < args.len() {
                asked(args, i + 2, with_option(c, f, args[i + 1]))
            } else {
                Some(c)
            },
        }
    }
}

/// What a command line asks for: settings, or `None` for the help. The first argument is the name of
/// the program.
pub fn parse_args(args: &Vec<String>) -> (r: Option<ServerConfig>)
    ensures
        match r {
            Some(c) => asked(crate::text::texts(args@), 1, defaults()) == Some(c@),
            None => asked(crate::text::texts(args@), 1, defaults()) is None,
        },
{
    let ghost texts = crate::text::texts(args@);
    let mut config = ServerConfig::default();
    let mut i: usize = 1;
    while i < args.len()
        invariant
            1 <= i,
            texts == crate::text::texts(args@),
            asked(texts, i as int, config@) == asked(texts, 1, defaults()),
        decreases args.len() - i,
    {
        assert(texts[i as int] == args@[i as int]@);
        match flag(args[i].as_str()) {
            None => {
                i += 1;
            },
            Some(Flag::Help) => {
                return None;
            },
            Some(f) => {
                if i + 1 >= args.len() {
                    return Some(config);
                }
                assert(texts[i as int + 1] == args@[i as int + 1]@);
                let value = args[i + 1].clone();
                let ghost was = config@;
                match f {
                    Flag::Bind => {
                        config.bind = value;
                    },
                    Flag::Host => {
                        config.host = value;
                    },
                    Flag::Storage => {
                        config.storage_path = value;
                    },
                    Flag::Region => {
                        config.region = value;
                    },
                    Flag::Cert => {
                        config.cert_path = Some(value);
                    },
                    Flag::Key => {
                        config.key_path = Some(value);
                    },
                    Flag::Help => {},
                }
                assert(config@ == with_option(was, f, texts[i as int + 1]));
                i += 2;
            },
        }
    }
    Some(config)
}

/// Whether a one-time pairing code is asked for.
pub fn wants_pairing(args: &Vec<String>) -> (r: bool)
    ensures
        r == crate::text::texts(args@).contains("--pair"@),
{
    crate::integrations::walk::member(args, "--pair")
}

/// A setting of the environment that counts: one that is not empty.
pub open spec fn given(v: Option<String>) -> Option<Seq<char>> {
    match v {
        Some(s) => if s@.len() > 0 {
            Some(s@)
        } else {
            None
        },
        None => None,
    }
}

/// A setting of the environment, unless it is empty.
pub fn nonempty(v: Option<String>) -> (r: Option<String>)
    ensures
        crate::text::text_of(r) == given(v),
{
    match v {
        Some(s) => if char_count(s.as_str()) > 0 {
            Some(s)
        } else {
            None
        },
        None => None,
    }
}

/// A setting, and else another.
pub open spec fn either(a: Option<Seq<char>>, b: Option<Seq<char>>) -> Option<Seq<char>> {
    match a {
        Some(s) => Some(s),
        None => b,
    }
}

/// The screenshare broker's listener: where, and the certificate and key it uses.
#[derive(Debug)]
pub struct BrokerListener {
    pub bind: String,
    pub cert: String,
    pub key: String,
}

/// What the operator is told where the broker has no certificate.
pub const NEEDS_CERT: &'static str =
    "SCREENSHARE_BIND needs a cert: set SCREENSHARE_CERT/SCREENSHARE_KEY or pass --cert/--key";

/// The screenshare broker's listener, where one is asked for. The broker is TLS-only: its own
/// certificate and key come before those of the HTTP listener, and it needs both.
pub fn screenshare_listener(
    bind: Option<String>,
    cert: Option<String>,
    key: Option<String>,
    config: &ServerConfig,
) -> (r: Result<Option<BrokerListener>, &'static str>)
    ensures
        ({
            let cert = either(given(cert), config@.cert_path);
            let key = either(given(key), config@.key_path);
            match r {
                Ok(None) => given(bind) is None,
                Ok(Some(l)) => given(bind) == Some(l.bind@) && cert == Some(l.cert@) && key == Some(
                    l.key@,
                ),
                Err(e) => given(bind) is Some && (cert is None || key is None) && e@ == NEEDS_CERT@,
            }
        }),
{
    let bind = match nonempty(bind) {
        Some(b) => b,
        None => return Ok(None),
    };
    let cert = match nonempty(cert) {
        Some(c) => Some(c),
        None => config.cert_path.clone(),
    };
    let key = match nonempty(key) {
        Some(k) => Some(k),
        None => config.key_path.clone(),
    };
    match (cert, key) {
        (Some(cert), Some(key)) => Ok(Some(BrokerListener { bind, cert, key })),
        _ => Err(NEEDS_CERT),
    }
}

/// What the environment says of the screenshare viewer.
#[derive(Debug)]
pub struct ViewerEnv {
    pub enabled: Option<String>,
    pub admin_token: Option<String>,
    pub udp_ports: Option<String>,
    pub ice: Option<String>,
    pub user: Option<String>,
}

/// The screenshare viewer's settings.
#[derive(Debug)]
pub struct ViewerSettings {
    pub user_id: String,
    pub udp_ports: Option<(u16, u16)>,
    pub ice_servers: Vec<String>,
}

/// Why there is no screenshare viewer though one is asked for.
#[derive(Debug, Clone, PartialEq, Eq)]
pub enum ViewerError {
    /// No admin token protects the page.
    NoAdminToken,
    /// The ports are no range.
    NoPortRange,
    /// An end of the range is no port, for the reason that is told.
    BadPort(String),
}

/// [`ViewerError`] with its text as characters.
pub enum ViewerErrorView {
    NoAdminToken,
    NoPortRange,
    BadPort(Seq<char>),
}

impl View for ViewerError {
    type V = ViewerErrorView;

    open spec fn view(&self) -> ViewerErrorView {
        match self {
            ViewerError::NoAdminToken => ViewerErrorView::NoAdminToken,
            ViewerError::NoPortRange => ViewerErrorView::NoPortRange,
            ViewerError::BadPort(why) => ViewerErrorView::BadPort(why@),
        }
    }
}

/// What the operator is told.
pub open spec fn viewer_error_text(e: ViewerErrorView) -> Seq<char> {
    match e {
        ViewerErrorView::NoAdminToken => {
            "SCREENSHARE_VIEWER needs ADMIN_TOKEN, which protects the viewer page"@
        },
        ViewerErrorView::NoPortRange => "SCREENSHARE_VIEWER_UDP_PORTS must look like 50000-50100"@,
        ViewerErrorView::BadPort(why) => why,
    }
}

impl ViewerError {
    /// What the operator is told.
    pub fn message(&self) -> (r: String)
        ensures
            r@ == viewer_error_text(self@),
    {
        match self {
            ViewerError::NoAdminToken => {
                "SCREENSHARE_VIEWER needs ADMIN_TOKEN, which protects the viewer page".to_owned()
            },
            ViewerError::NoPortRange => {
                "SCREENSHARE_VIEWER_UDP_PORTS must look like 50000-50100".to_owned()
            },
            ViewerError::BadPort(why) => why.clone(),
        }
    }
}

/// A text without the white space at its ends.
pub open spec fn trimmed(s: Seq<char>) -> Seq<char> {
    crate::text::trimmed_space_end(crate::text::trimmed_start(s))
}

/// The port that a text is, or why it is none.
pub open spec fn port_of(s: Seq<char>) -> Result<u16, ViewerErrorView> {
    if crate::text::is_number(trimmed(s), u16::MAX as nat) {
        Ok(crate::text::number(crate::text::unsigned(trimmed(s))) as u16)
    } else {
        Err(ViewerErrorView::BadPort(u16_refusal(trimmed(s))))
    }
}

/// The ports that a text is a range of: two, with a hyphen between them.
pub open spec fn ports_of(s: Seq<char>) -> Result<(u16, u16), ViewerErrorView> {
    let i = crate::text::first_index(s, '-');
    if i >= s.len() {
        Err(ViewerErrorView::NoPortRange)
    } else {
        match (port_of(s.take(i as int)), port_of(s.skip(i as int + 1))) {
            (Ok(min), Ok(max)) => Ok((min, max)),
            (Err(e), _) => Err(e),
            (_, Err(e)) => Err(e),
        }
    }
}

/// Those of some texts that hold more than white space, without it at their ends.
pub open spec fn entries_of(pieces: Seq<Seq<char>>) -> Seq<Seq<char>>
    decreases pieces.len(),
{
    if pieces.len() == 0 {
        Seq::empty()
    } else {
        let before = entries_of(pieces.drop_last());
        if trimmed(pieces.last()).len() == 0 {
            before
        } else {
            before.push(trimmed(pieces.last()))
        }
    }
}

/// Whether the viewer is asked for.
pub open spec fn viewer_enabled(v: Option<String>) -> bool {
    v matches Some(s) && (s@ == "1"@ || s@ == "true"@ || s@ == "on"@)
}

/// Whether an admin token is set that protects anything.
pub open spec fn has_token(v: Option<String>) -> bool {
    v matches Some(s) && trimmed(s@).len() > 0
}

/// What `u16`'s `FromStr` says of a text that it refuses.
pub uninterp spec fn u16_refusal(s: Seq<char>) -> Seq<char>;

/// `str::parse` into `u16`: it takes decimal digits, behind one `+` at most, whose number fits. What
/// it says of any other text is a function of the text, named [`u16_refusal`].
#[verifier::external_body]
fn parse_u16(s: &str) -> (r: Result<u16, String>)
    ensures
        match r {
            Ok(n) => crate::text::is_number(s@, u16::MAX as nat) && n == crate::text::number(
                crate::text::unsigned(s@),
            ),
            Err(why) => !crate::text::is_number(s@, u16::MAX as nat) && why@ == u16_refusal(s@),
        },
{
    s.parse::<u16>().map_err(|e| e.to_string())
}

/// What a result says, its error by its view.
spec fn told<T>(r: Result<T, ViewerError>) -> Result<T, ViewerErrorView> {
    match r {
        Ok(t) => Ok(t),
        Err(e) => Err(e@),
    }
}

fn port(s: &str) -> (r: Result<u16, ViewerError>)
    ensures
        told(r) == port_of(s@),
{
    match parse_u16(trim(s)) {
        Ok(n) => Ok(n),
        Err(why) => Err(ViewerError::BadPort(why)),
    }
}

fn ports(s: &str) -> (r: Result<(u16, u16), ViewerError>)
    ensures
        told(r) == ports_of(s@),
{
    let n: usize = char_count(s);
    let i: usize = find_char(s, '-');
    if i >= n {
        return Err(ViewerError::NoPortRange);
    }
    let low = slice(s, 0, i);
    let high = slice(s, i + 1, n);
    assert(s@.subrange(0, i as int) =~= s@.take(i as int));
    assert(s@.subrange(i as int + 1, n as int) =~= s@.skip(i as int + 1));
    match (port(low), port(high)) {
        (Ok(min), Ok(max)) => Ok((min, max)),
        (Err(e), _) => Err(e),
        (_, Err(e)) => Err(e),
    }
}

fn entries(s: &str) -> (r: Vec<String>)
    ensures
        crate::text::texts(r@) == entries_of(crate::text::split_on(s@, ',')),
{
    let pieces = split(s, ',');
    let ghost all = crate::text::slice_texts(pieces@);
    let mut out: Vec<String> = Vec::new();
    let mut i: usize = 0;
    assert(all.take(0) =~= Seq::empty());
    assert(crate::text::texts(out@) =~= Seq::empty());
    while i < pieces.len()
        invariant
            i <= pieces@.len(),
            all == crate::text::slice_texts(pieces@),
            crate::text::texts(out@) == entries_of(all.take(i as int)),
        decreases pieces@.len() - i,
    {
        let ghost was = crate::text::texts(out@);
        assert(all.take(i as int + 1).drop_last() =~= all.take(i as int));
        assert(all[i as int] == pieces@[i as int]@);
        let piece = trim(pieces[i]);
        if char_count(piece) > 0 {
            out.push(piece.to_owned());
            assert(crate::text::texts(out@) =~= was.push(piece@));
        }
        i += 1;
    }
    assert(all.take(i as int) =~= all);
    out
}

/// The screenshare viewer's settings, where it is asked for. It needs an admin token, which guards
/// it.
pub fn screenshare_viewer(env: ViewerEnv) -> (r: Result<Option<ViewerSettings>, ViewerError>)
    ensures
        ({
            let ports = match given(env.udp_ports) {
                Some(range) => match ports_of(range) {
                    Ok(p) => Ok(Some(p)),
                    Err(e) => Err(e),
                },
                None => Ok(None),
            };
            match r {
                Ok(None) => !viewer_enabled(env.enabled),
                Ok(Some(v)) => {
                    &&& viewer_enabled(env.enabled)
                    &&& has_token(env.admin_token)
                    &&& ports == Ok::<Option<(u16, u16)>, ViewerErrorView>(v.udp_ports)
                    &&& crate::text::texts(v.ice_servers@) == entries_of(
                        crate::text::split_on(crate::text::or_empty(env.ice), ','),
                    )
                    &&& v.user_id@ == match given(env.user) {
                        Some(u) => u,
                        None => PAIRING_USER@,
                    }
                },
                Err(e) => {
                    &&& viewer_enabled(env.enabled)
                    &&& if has_token(env.admin_token) {
                        ports == Err::<Option<(u16, u16)>, ViewerErrorView>(e@)
                    } else {
                        e@ == ViewerErrorView::NoAdminToken
                    }
                },
            }
        }),
{
    let enabled = match &env.enabled {
        Some(s) => same(s.as_str(), "1") || same(s.as_str(), "true") || same(s.as_str(), "on"),
        None => false,
    };
    if !enabled {
        return Ok(None);
    }
    let guarded = match &env.admin_token {
        Some(t) => char_count(trim(t.as_str())) > 0,
        None => false,
    };
    if !guarded {
        return Err(ViewerError::NoAdminToken);
    }
    let udp_ports = match nonempty(env.udp_ports) {
        Some(range) => match ports(range.as_str()) {
            Ok(p) => Some(p),
            Err(e) => return Err(e),
        },
        None => None,
    };
    let ice = crate::text::or_empty_string(env.ice);
    let ice_servers = entries(ice.as_str());
    let user_id = match nonempty(env.user) {
        Some(u) => u,
        None => PAIRING_USER.to_owned(),
    };
    Ok(Some(ViewerSettings { user_id, udp_ports, ice_servers }))
}

/// Where the calendars are kept.
pub fn init_calendar_manager(storage_path: &str) -> (r: String)
    ensures
        r@ == crate::integrations::paths::entry_of(storage_path@, "calendars.db"@),
{
    join_path(storage_path, "calendars.db")
}

/// Where what is to be read later is kept, and the directory of its articles.
pub fn init_readlater_manager(storage_path: &str) -> (r: (String, String))
    ensures
        r.0@ == crate::integrations::paths::entry_of(storage_path@, "readlater.db"@),
        r.1@ == crate::integrations::paths::entry_of(storage_path@, "articles"@),
{
    (join_path(storage_path, "readlater.db"), join_path(storage_path, "articles"))
}

/// Where devices are kept.
pub fn devices_path(storage_path: &str) -> (r: String)
    ensures
        r@ == crate::integrations::paths::entry_of(storage_path@, "devices.db"@),
{
    join_path(storage_path, "devices.db")
}

/// The directory under which cloud syncs may touch anything.
pub fn sync_base(storage_path: &str) -> (r: String)
    ensures
        r@ == crate::integrations::paths::entry_of(storage_path@, "integrations"@),
{
    join_path(storage_path, "integrations")
}

/// What comes behind the help is not looked at.
pub proof fn law_help_comes_first(args: Seq<Seq<char>>, more: Seq<Seq<char>>, i: int, c: ServerConfigView)
    requires
        0 <= i,
        asked(args, i, c) is None,
    ensures
        asked(args + more, i, c) is None,
    decreases args.len() - i,
{
    if i < args.len() {
        assert((args + more)[i] == args[i]);
        match flag_of(args[i]) {
            None => {
                law_help_comes_first(args, more, i + 1, c);
            },
            Some(Flag::Help) => {},
            Some(f) => {
                assert((args + more)[i + 1] == args[i + 1]);
                law_help_comes_first(args, more, i + 2, with_option(c, f, args[i + 1]));
            },
        }
    }
}

/// The last value of an option is the one that counts: behind arguments that ask for settings and do
/// not end in an option, an option and its value set it, whatever came before.
pub proof fn law_the_last_value_counts(
    args: Seq<Seq<char>>,
    option: Seq<char>,
    value: Seq<char>,
    f: Flag,
    i: int,
    c: ServerConfigView,
)
    requires
        0 <= i <= args.len(),
        flag_of(option) == Some(f),
        f != Flag::Help,
        asked(args, i, c) is Some,
        complete(args, i),
    ensures
        asked(args + seq![option, value], i, c) == Some(
            with_option(asked(args, i, c).unwrap(), f, value),
        ),
    decreases args.len() - i,
{
    let all = args + seq![option, value];
    if i < args.len() {
        assert(all[i] == args[i]);
        match flag_of(args[i]) {
            None => {
                law_the_last_value_counts(args, option, value, f, i + 1, c);
            },
            Some(g) => {
                assert(all[i + 1] == args[i + 1]);
                law_the_last_value_counts(
                    args,
                    option,
                    value,
                    f,
                    i + 2,
                    with_option(c, g, args[i + 1]),
                );
            },
        }
    } else {
        assert(all[i] == option);
        assert(all[i + 1] == value);
        assert(all.len() == i + 2);
        assert(asked(all, i + 2, with_option(c, f, value)) == Some(with_option(c, f, value)));
    }
}

/// Whether every option has its value.
pub open spec fn complete(args: Seq<Seq<char>>, i: int) -> bool
    decreases args.len() - i,
{
    if i >= args.len() {
        true
    } else {
        match flag_of(args[i]) {
            None => complete(args, i + 1),
            Some(_) => i + 1 < args.len() && complete(args, i + 2),
        }
    }
}

/// Each option sets what it names, and nothing else.
pub proof fn law_an_option_sets_what_it_names(c: ServerConfigView, v: Seq<char>)
    ensures
        asked(seq!["--bind"@, v], 0, c) == Some(ServerConfigView { bind: v, ..c }),
        asked(seq!["-b"@, v], 0, c) == Some(ServerConfigView { bind: v, ..c }),
        asked(seq!["--host"@, v], 0, c) == Some(ServerConfigView { host: v, ..c }),
        asked(seq!["-H"@, v], 0, c) == Some(ServerConfigView { host: v, ..c }),
        asked(seq!["--storage"@, v], 0, c) == Some(ServerConfigView { storage_path: v, ..c }),
        asked(seq!["-s"@, v], 0, c) == Some(ServerConfigView { storage_path: v, ..c }),
        asked(seq!["--region"@, v], 0, c) == Some(ServerConfigView { region: v, ..c }),
        asked(seq!["-r"@, v], 0, c) == Some(ServerConfigView { region: v, ..c }),
        asked(seq!["--cert"@, v], 0, c) == Some(ServerConfigView { cert_path: Some(v), ..c }),
        asked(seq!["-c"@, v], 0, c) == Some(ServerConfigView { cert_path: Some(v), ..c }),
        asked(seq!["--key"@, v], 0, c) == Some(ServerConfigView { key_path: Some(v), ..c }),
        asked(seq!["-k"@, v], 0, c) == Some(ServerConfigView { key_path: Some(v), ..c }),
        asked(seq!["--help"@], 0, c) is None,
        asked(seq!["-h"@], 0, c) is None,
        asked(Seq::empty(), 0, c) == Some(c),
{
    lemma_flags();
    lemma_one_option("--bind"@, v, c);
    lemma_one_option("-b"@, v, c);
    lemma_one_option("--host"@, v, c);
    lemma_one_option("-H"@, v, c);
    lemma_one_option("--storage"@, v, c);
    lemma_one_option("-s"@, v, c);
    lemma_one_option("--region"@, v, c);
    lemma_one_option("-r"@, v, c);
    lemma_one_option("--cert"@, v, c);
    lemma_one_option("-c"@, v, c);
    lemma_one_option("--key"@, v, c);
    lemma_one_option("-k"@, v, c);
}

proof fn lemma_one_option(option: Seq<char>, v: Seq<char>, c: ServerConfigView)
    ensures
        flag_of(option) matches Some(f) && f != Flag::Help ==> asked(seq![option, v], 0, c) == Some(
            with_option(c, flag_of(option)->0, v),
        ),
{
    let args = seq![option, v];
    if flag_of(option) is Some && flag_of(option) != Some(Flag::Help) {
        assert(asked(args, 2, with_option(c, flag_of(option)->0, v)) == Some(
            with_option(c, flag_of(option)->0, v),
        ));
    }
}

proof fn lemma_flags()
    ensures
        flag_of("--bind"@) == Some(Flag::Bind) && flag_of("-b"@) == Some(Flag::Bind),
        flag_of("--host"@) == Some(Flag::Host) && flag_of("-H"@) == Some(Flag::Host),
        flag_of("--storage"@) == Some(Flag::Storage) && flag_of("-s"@) == Some(Flag::Storage),
        flag_of("--region"@) == Some(Flag::Region) && flag_of("-r"@) == Some(Flag::Region),
        flag_of("--cert"@) == Some(Flag::Cert) && flag_of("-c"@) == Some(Flag::Cert),
        flag_of("--key"@) == Some(Flag::Key) && flag_of("-k"@) == Some(Flag::Key),
        flag_of("--help"@) == Some(Flag::Help) && flag_of("-h"@) == Some(Flag::Help),
{
    reveal_strlit("--bind");
    reveal_strlit("-b");
    reveal_strlit("--host");
    reveal_strlit("-H");
    reveal_strlit("--storage");
    reveal_strlit("-s");
    reveal_strlit("--region");
    reveal_strlit("-r");
    reveal_strlit("--cert");
    reveal_strlit("-c");
    reveal_strlit("--key");
    reveal_strlit("-k");
    reveal_strlit("--help");
    reveal_strlit("-h");
    assert("--bind"@[2] == 'b' && "--host"@[2] == 'h' && "--storage"@[2] == 's' && "--region"@[2]
        == 'r' && "--cert"@[2] == 'c' && "--key"@[2] == 'k' && "--help"@[2] == 'h');
    assert("--host"@[3] == 'o' && "--help"@[3] == 'e');
    assert("-b"@[1] == 'b' && "-H"@[1] == 'H' && "-s"@[1] == 's' && "-r"@[1] == 'r' && "-c"@[1]
        == 'c' && "-k"@[1] == 'k' && "-h"@[1] == 'h');
    assert("-b"@.len() == 2 && "-H"@.len() == 2 && "-s"@.len() == 2 && "-r"@.len() == 2
        && "-c"@.len() == 2 && "-k"@.len() == 2 && "-h"@.len() == 2);
    assert("--bind"@.len() > 2 && "--host"@.len() > 2 && "--storage"@.len() > 2 && "--region"@.len()
        > 2 && "--cert"@.len() > 2 && "--key"@.len() > 2 && "--help"@.len() > 2);
}

/// A range of ports is told by its ends, with a hyphen between them.
pub proof fn law_a_range_of_ports_reads_back(min: u16, max: u16)
    ensures
        ports_of(
            crate::text::decimal(min as nat) + seq!['-'] + crate::text::decimal(max as nat),
        ) == Ok::<(u16, u16), ViewerErrorView>((min, max)),
{
    let a = crate::text::decimal(min as nat);
    let b = crate::text::decimal(max as nat);
    let s = a + seq!['-'] + b;
    crate::text::law_numbers_read_back(min as nat);
    crate::text::law_numbers_read_back(max as nat);
    crate::text::law_first_index(s, '-');
    assert(s[a.len() as int] == '-');
    let i = crate::text::first_index(s, '-') as int;
    assert(i == a.len()) by {
        if i < a.len() {
            assert(s[i] == a[i]);
            assert('0' <= a[i]);
        }
        if i > a.len() {
            assert(s[a.len() as int] != '-');
        }
    }
    assert(s.take(i) =~= a);
    assert(s.skip(i + 1) =~= b);
    lemma_digits_are_trimmed(a);
    lemma_digits_are_trimmed(b);
    assert(crate::text::is_number(a, u16::MAX as nat));
    assert(crate::text::is_number(b, u16::MAX as nat));
    assert('0' <= a[0] && '0' <= b[0]);
    assert(port_of(a) == Ok::<u16, ViewerErrorView>(min));
    assert(port_of(b) == Ok::<u16, ViewerErrorView>(max));
}

proof fn lemma_digits_are_trimmed(s: Seq<char>)
    requires
        s.len() > 0,
        forall|i: int| 0 <= i < s.len() ==> '0' <= #[trigger] s[i] <= '9',
    ensures
        trimmed(s) == s,
{
    assert('0' <= s[0] <= '9');
    assert('0' <= s[s.len() - 1] <= '9');
    assert(!crate::text::is_space(s[0]));
    assert(!crate::text::is_space(s.last()));
    assert(crate::text::trimmed_start(s) == s);
}

/// A list's entries are its pieces without the white space around them; a piece of nothing else is
/// no entry.
pub proof fn law_entries_are_trimmed_pieces(pieces: Seq<Seq<char>>, piece: Seq<char>)
    ensures
        entries_of(Seq::empty()).len() == 0,
        crate::text::trimmed_space_end(crate::text::trimmed_start(piece)).len() == 0 ==> entries_of(
            pieces.push(piece),
        ) == entries_of(pieces),
        crate::text::trimmed_space_end(crate::text::trimmed_start(piece)).len() > 0 ==> entries_of(
            pieces.push(piece),
        ) == entries_of(pieces).push(
            crate::text::trimmed_space_end(crate::text::trimmed_start(piece)),
        ),
{
    assert(pieces.push(piece).drop_last() =~= pieces);
}

/// The viewer is off unless it is switched on in one of three words, and a token of nothing but
/// white space is none.
pub proof fn law_the_viewer_is_switched_on(v: String)
    ensures
        viewer_enabled(Some(v)) <==> v@ == "1"@ || v@ == "true"@ || v@ == "on"@,
        !viewer_enabled(None),
        !has_token(None),
        has_token(Some(v)) <==> crate::text::trimmed_space_end(crate::text::trimmed_start(v@)).len()
            > 0,
{
}

/// A setting that is given counts, one that is empty does not; and the first that is given counts
/// before the second.
pub proof fn law_given_settings_count(v: String, a: Option<Seq<char>>, b: Option<Seq<char>>)
    ensures
        v@.len() > 0 ==> given(Some(v)) == Some(v@),
        v@.len() == 0 ==> given(Some(v)) is None,
        given(None) is None,
        a is Some ==> either(a, b) == a,
        a is None ==> either(a, b) == b,
{
}

/// Without any option the server listens on the machine itself only, stores beside itself, and has
/// no certificate.
pub proof fn law_a_server_starts_locally()
    ensures
        defaults().bind == "127.0.0.1:8080"@,
        defaults().host == "local.tectonic.remarkable.com"@,
        defaults().storage_path == "./remarkable-storage"@,
        defaults().db_path == defaults().storage_path + "/devices.db"@,
        defaults().region == "local"@,
        defaults().cert_path is None && defaults().key_path is None,
        defaults().enable_calendar && defaults().enable_cloud_integrations,
{
    reveal_strlit("./remarkable-storage");
    reveal_strlit("./remarkable-storage/devices.db");
    reveal_strlit("/devices.db");
    assert("./remarkable-storage/devices.db"@ =~= "./remarkable-storage"@ + "/devices.db"@);
}

} // verus!
