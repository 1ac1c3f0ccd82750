//! Configuration model: the already-validated settings the lifecycle core
//! reads, together with the environment-variable overlay pipeline that turns
//! `LAZYMC_`-prefixed variables into a nested configuration table.

use vstd::prelude::*;
use vstd::slice::slice_subrange;

use crate::text::{
    spec_trim, spec_contains, spec_eq_ignore_ascii_case, spec_starts_with, spec_split,
    spec_split2, spec_parse_i64, spec_unescape, all_digits, seq_views, trim_chars, str_chars,
    chars_string, contains_char, eq_ignore_ascii_case, starts_with, split_chars, split2_chars,
    parse_i64_chars, unescape_basic, subvec, lemma_trim_le, lemma_split_piece_le,
    lemma_split_piece_lt,
};

verus! {

/// Default sleep-after threshold in seconds.
pub const DEFAULT_SLEEP_AFTER: u32 = 60;

/// Default minimum online time in seconds.
pub const DEFAULT_MIN_ONLINE_TIME: u32 = 60;

/// Public (client-facing) configuration.
pub struct Public {
    /// Public address, as text.
    pub address: String,

    /// Protocol version name hint.
    pub version: String,

    /// Protocol version number hint.
    pub protocol: u32,
}

impl Default for Public {
    fn default() -> (r: Self)
        ensures
            r.address@ == "0.0.0.0:25565"@,
            r.version@ == crate::protocol::PROTO_DEFAULT_VERSION@,
            r.protocol == crate::protocol::PROTO_DEFAULT_PROTOCOL,
    {
        Public {
            address: "0.0.0.0:25565".to_owned(),
            version: crate::protocol::PROTO_DEFAULT_VERSION.to_owned(),
            protocol: crate::protocol::PROTO_DEFAULT_PROTOCOL,
        }
    }
}

/// Managed-server configuration.
pub struct Server {
    /// Server directory, as text, if known.
    pub directory: Option<String>,

    /// Start command.
    pub command: String,

    /// Server address, as text.
    pub address: String,

    /// Freeze the server process instead of stopping it when idle.
    pub freeze_process: bool,

    /// Immediately wake server on startup.
    pub wake_on_start: bool,

    /// Immediately wake server after a crash.
    pub wake_on_crash: bool,

    /// Probe server details on startup, which wakes the server once.
    pub probe_on_start: bool,

    /// Whether this server runs a modded (Forge-style) stack.
    pub forge: bool,

    /// Starting timeout in seconds; force kill when exceeded.
    pub start_timeout: u32,

    /// Stopping timeout in seconds; force kill when exceeded.
    pub stop_timeout: u32,

    /// Require whitelisted users to wake the server.
    pub wake_whitelist: bool,

    /// Block banned IPs.
    pub block_banned_ips: bool,

    /// Drop connections from banned IPs.
    pub drop_banned_ips: bool,

    /// Add proxy-protocol-v2 header to proxied connections.
    pub send_proxy_v2: bool,
}

impl Default for Server {
    fn default() -> (r: Self)
        ensures
            (r.directory matches Some(d) && d@ == "."@),
            r.command@ == ""@,
            r.address@ == "127.0.0.1:25566"@,
            r.freeze_process,
            !r.wake_on_start,
            !r.wake_on_crash,
            !r.probe_on_start,
            !r.forge,
            r.start_timeout == 300,
            r.stop_timeout == 300,
            r.wake_whitelist,
            r.block_banned_ips,
            !r.drop_banned_ips,
            !r.send_proxy_v2,
    {
        Server {
            directory: option_pathbuf_dot(),
            command: "".to_owned(),
            address: "127.0.0.1:25566".to_owned(),
            freeze_process: bool_true(),
            wake_on_start: false,
            wake_on_crash: false,
            probe_on_start: false,
            forge: false,
            start_timeout: u32_300(),
            stop_timeout: u32_150(),
            wake_whitelist: bool_true(),
            block_banned_ips: bool_true(),
            drop_banned_ips: false,
            send_proxy_v2: false,
        }
    }
}

/// Time configuration.
pub struct Time {
    /// Sleep after this many seconds of inactivity.
    pub sleep_after: u32,

    /// Minimum time in seconds to stay online once started.
    pub min_online_time: u32,
}

impl Default for Time {
    fn default() -> (r: Self)
        ensures
            r.sleep_after == DEFAULT_SLEEP_AFTER,
            r.min_online_time == DEFAULT_MIN_ONLINE_TIME,
    {
        Time { sleep_after: DEFAULT_SLEEP_AFTER, min_online_time: DEFAULT_MIN_ONLINE_TIME }
    }
}

/// MOTD configuration.
pub struct Motd {
    /// MOTD when the server is sleeping.
    pub sleeping: String,

    /// MOTD when the server is starting.
    pub starting: String,

    /// MOTD when the server is stopping.
    pub stopping: String,

    /// Use the MOTD from the managed server once known.
    pub from_server: bool,
}

impl Default for Motd {
    fn default() -> (r: Self)
        ensures
            r.sleeping@ == "☠ Server is sleeping\n§2☻ Join to start it up"@,
            r.starting@ == "§2☻ Server is starting...\n§7⌛ Please wait..."@,
            r.stopping@ == "☠ Server going to sleep...\n⌛ Please wait..."@,
            !r.from_server,
    {
        Motd {
            sleeping: "☠ Server is sleeping\n§2☻ Join to start it up".to_owned(),
            starting: "§2☻ Server is starting...\n§7⌛ Please wait...".to_owned(),
            stopping: "☠ Server going to sleep...\n⌛ Please wait...".to_owned(),
            from_server: false,
        }
    }
}

/// Join method types.
#[derive(Copy, Clone, Debug, PartialEq, Eq, Structural)]
pub enum Method {
    /// Kick the client with a message.
    Kick,

    /// Hold the client connection until the server is ready.
    Hold,

    /// Forward the connection to another host.
    Forward,

    /// Keep the client in a temporary lobby until the server is ready.
    Lobby,
}

/// Join configuration.
pub struct Join {
    /// Join methods, in order of preference.
    pub methods: Vec<Method>,

    /// Kick method configuration.
    pub kick: JoinKick,

    /// Hold method configuration.
    pub hold: JoinHold,

    /// Forward method configuration.
    pub forward: JoinForward,

    /// Lobby method configuration.
    pub lobby: JoinLobby,
}

impl Default for Join {
    fn default() -> (r: Self)
        ensures
            r.methods@ == seq![Method::Hold, Method::Kick],
            r.kick.starting@ == "Server is starting... §c♥§r\n\nThis may take some time.\n\nPlease try to reconnect in a minute."@,
            r.kick.stopping@ == "Server is going to sleep... §7☠§r\n\nPlease try to reconnect in a minute to wake it again."@,
            r.hold.timeout == 25,
            r.forward.address@ == "127.0.0.1:25565"@,
            !r.forward.send_proxy_v2,
            r.lobby.timeout == 600,
            r.lobby.message@ == "§2Server is starting\n§7⌛ Please wait..."@,
            (r.lobby.ready_sound matches Some(s) && s@ == "block.note_block.chime"@),
    {
        let methods: Vec<Method> = vec![Method::Hold, Method::Kick];
        Join {
            methods,
            kick: Default::default(),
            hold: Default::default(),
            forward: Default::default(),
            lobby: Default::default(),
        }
    }
}

/// Kick join method configuration.
pub struct JoinKick {
    /// Kick message while the server is starting.
    pub starting: String,

    /// Kick message while the server is stopping.
    pub stopping: String,
}

impl Default for JoinKick {
    fn default() -> (r: Self)
        ensures
            r.starting@ == "Server is starting... §c♥§r\n\nThis may take some time.\n\nPlease try to reconnect in a minute."@,
            r.stopping@ == "Server is going to sleep... §7☠§r\n\nPlease try to reconnect in a minute to wake it again."@,
    {
        JoinKick {
            starting: "Server is starting... §c♥§r\n\nThis may take some time.\n\nPlease try to reconnect in a minute.".to_owned(),
            stopping: "Server is going to sleep... §7☠§r\n\nPlease try to reconnect in a minute to wake it again.".to_owned(),
        }
    }
}

/// Hold join method configuration.
pub struct JoinHold {
    /// Hold the client for this many seconds while the server starts.
    pub timeout: u32,
}

impl Default for JoinHold {
    fn default() -> (r: Self)
        ensures
            r.timeout == 25,
    {
        JoinHold { timeout: 25 }
    }
}

/// Forward join method configuration.
pub struct JoinForward {
    /// Address to forward to, as text.
    pub address: String,

    /// Add proxy-protocol-v2 header to forwarded connections.
    pub send_proxy_v2: bool,
}

impl Default for JoinForward {
    fn default() -> (r: Self)
        ensures
            r.address@ == "127.0.0.1:25565"@,
            !r.send_proxy_v2,
    {
        JoinForward { address: "127.0.0.1:25565".to_owned(), send_proxy_v2: false }
    }
}

/// Lobby join method configuration.
pub struct JoinLobby {
    /// Keep the client in the lobby for this many seconds while the server starts.
    pub timeout: u32,

    /// Message banner shown to the client in the lobby.
    pub message: String,

    /// Sound effect to play when the server is ready.
    pub ready_sound: Option<String>,
}

impl Default for JoinLobby {
    fn default() -> (r: Self)
        ensures
            r.timeout == 600,
            r.message@ == "§2Server is starting\n§7⌛ Please wait..."@,
            (r.ready_sound matches Some(s) && s@ == "block.note_block.chime"@),
    {
        JoinLobby {
            timeout: 600,
            message: "§2Server is starting\n§7⌛ Please wait...".to_owned(),
            ready_sound: Some("block.note_block.chime".to_owned()),
        }
    }
}

/// Lockout configuration.
pub struct Lockout {
    /// Prevent everybody from connecting; instantly kicks.
    pub enabled: bool,

    /// Kick message while locked out.
    pub message: String,
}

impl Default for Lockout {
    fn default() -> (r: Self)
        ensures
            !r.enabled,
            r.message@ == "Server is closed §7☠§r\n\nPlease come back another time."@,
    {
        Lockout {
            enabled: false,
            message: "Server is closed §7☠§r\n\nPlease come back another time.".to_owned(),
        }
    }
}

/// RCON configuration.
pub struct Rcon {
    /// Enable sleeping-server control through RCON.
    pub enabled: bool,

    /// RCON port.
    pub port: u16,

    /// RCON password.
    pub password: String,

    /// Randomize the RCON password on each start.
    pub randomize_password: bool,

    /// Add proxy-protocol-v2 header to RCON connections.
    pub send_proxy_v2: bool,
}

impl Default for Rcon {
    fn default() -> (r: Self)
        ensures
            !r.enabled,
            r.port == 25575,
            r.password@ == ""@,
            r.randomize_password,
            !r.send_proxy_v2,
    {
        Rcon {
            enabled: false,
            port: 25575,
            password: "".to_owned(),
            randomize_password: true,
            send_proxy_v2: false,
        }
    }
}

/// Advanced configuration.
pub struct Advanced {
    /// Rewrite the managed server's properties file.
    pub rewrite_server_properties: bool,
}

impl Default for Advanced {
    fn default() -> (r: Self)
        ensures
            r.rewrite_server_properties,
    {
        Advanced { rewrite_server_properties: true }
    }
}

/// Configuration metadata.
pub struct ConfigConfig {
    /// Configuration format version.
    pub version: Option<String>,
}

impl Default for ConfigConfig {
    fn default() -> (r: Self)
        ensures
            r.version is None,
    {
        ConfigConfig { version: None }
    }
}

/// The full, already-validated configuration the lifecycle core reads.
pub struct Config {
    /// Public configuration.
    pub public: Public,

    /// Managed-server configuration.
    pub server: Server,

    /// Time configuration.
    pub time: Time,

    /// MOTD configuration.
    pub motd: Motd,

    /// Join configuration.
    pub join: Join,

    /// Lockout configuration.
    pub lockout: Lockout,

    /// RCON configuration.
    pub rcon: Rcon,

    /// Advanced configuration.
    pub advanced: Advanced,

    /// Configuration metadata.
    pub config: ConfigConfig,
}

/// Default server directory: the working directory.
pub fn option_pathbuf_dot() -> (r: Option<String>)
    ensures
        (r matches Some(d) && d@ == "."@),
{
    Some(".".to_owned())
}

/// Default starting timeout in seconds.
pub fn u32_300() -> (r: u32)
    ensures
        r == 300,
{
    300
}

/// Default stopping timeout in seconds.
pub fn u32_150() -> (r: u32)
    ensures
        r == 300,
{
    300
}

/// Default for flags that are on unless disabled.
pub fn bool_true() -> (r: bool)
    ensures
        r,
{
    true
}



/// The environment variable prefix for configuration overrides.
pub const ENV_PREFIX: &'static str = "LAZYMC_";

/// The configuration format version current configurations carry.
pub const CONFIG_VERSION: &'static str = "0.2.8";

/// A raw configuration value, as the environment overlay builds it: the
/// shape of a configuration document before deserialization. A float is kept
/// as its literal text, since no arithmetic is done on it here; a table
/// keeps insertion order, first occurrence of a key winning lookups.
#[derive(Debug, PartialEq)]
pub enum TomlValue {
    /// A boolean.
    Bool(bool),

    /// An integer.
    Int(i64),

    /// A float, kept as its literal text.
    Float(String),

    /// A string.
    Str(String),

    /// An array of values.
    Array(Vec<TomlValue>),

    /// A table of key-value pairs.
    Table(Vec<(String, TomlValue)>),
}

/// One or more decimal digits.
pub open spec fn is_digits(s: Seq<char>) -> bool {
    s.len() > 0 && all_digits(s)
}

/// A well-placed decimal point: digits on the left and optional digits on
/// the right, or nothing on the left and digits on the right.
pub open spec fn mantissa_dot_ok(s: Seq<char>, i: int) -> bool {
    let a = s.subrange(0, i);
    let b = s.subrange(i + 1, s.len() as int);
    (is_digits(a) && all_digits(b)) || (a.len() == 0 && is_digits(b))
}

/// The mantissa of a float literal: digits, with at most one well-placed
/// decimal point.
pub open spec fn is_mantissa(s: Seq<char>) -> bool {
    is_digits(s) || (exists|i: int| 0 <= i < s.len() && s[i] == '.' && #[trigger] mantissa_dot_ok(s, i))
}

/// Digits with an optional leading sign.
pub open spec fn is_signed_digits(s: Seq<char>) -> bool {
    if s.len() > 0 && (s[0] == '+' || s[0] == '-') {
        is_digits(s.skip(1))
    } else {
        is_digits(s)
    }
}

/// A valid exponent split at position `i`.
pub open spec fn exp_split_ok(s: Seq<char>, i: int) -> bool {
    (s[i] == 'e' || s[i] == 'E') && is_mantissa(s.subrange(0, i))
        && is_signed_digits(s.subrange(i + 1, s.len() as int))
}

/// A float literal without sign: a mantissa with an optional exponent part.
pub open spec fn spec_is_f64_number(s: Seq<char>) -> bool {
    is_mantissa(s) || (exists|i: int| 0 <= i < s.len() && #[trigger] exp_split_ok(s, i))
}

/// What `str::parse` to a 64-bit float accepts: an optional sign, then the
/// words `inf`, `infinity` or `nan` in any case, or a number with optional
/// decimal point and exponent.
pub open spec fn spec_is_f64_lit(s: Seq<char>) -> bool {
    let b = if s.len() > 0 && (s[0] == '+' || s[0] == '-') {
        s.skip(1)
    } else {
        s
    };
    ||| spec_eq_ignore_ascii_case(b, "inf"@)
    ||| spec_eq_ignore_ascii_case(b, "infinity"@)
    ||| spec_eq_ignore_ascii_case(b, "nan"@)
    ||| spec_is_f64_number(b)
}

/// A mantissa holds only digits and the decimal point.
proof fn lemma_mantissa_chars(s: Seq<char>)
    requires
        is_mantissa(s),
    ensures
        forall|j: int| 0 <= j < s.len() ==> s[j] == '.' || #[trigger] crate::text::spec_is_digit(s[j]),
{
    if is_digits(s) {
    } else {
        let i = choose|i: int| 0 <= i < s.len() && s[i] == '.' && #[trigger] mantissa_dot_ok(s, i);
        let a = s.subrange(0, i);
        let b = s.subrange(i + 1, s.len() as int);
        assert forall|j: int| 0 <= j < s.len() implies s[j] == '.' || #[trigger] crate::text::spec_is_digit(s[j]) by {
            if j < i {
                assert(s[j] == a[j]);
            } else if j > i {
                assert(s[j] == b[j - i - 1]);
            }
        }
    }
}

/// Whether every character in the index range is a decimal digit.
fn range_all_digits(v: &Vec<char>, from: usize, to: usize) -> (r: bool)
    requires
        from <= to <= v@.len(),
    ensures
        r == all_digits(v@.subrange(from as int, to as int)),
{
    let ghost sub = v@.subrange(from as int, to as int);
    let mut i: usize = from;
    while i < to
        invariant
            from <= i <= to <= v@.len(),
            sub == v@.subrange(from as int, to as int),
            forall|j: int| from <= j < i ==> crate::text::spec_is_digit(v@[j]),
        decreases to - i,
    {
        let c = v[i] as u32;
        if c < 48 || c > 57 {
            assert(sub[i - from] == v@[i as int]);
            return false;
        }
        i = i + 1;
    }
    assert forall|j: int| 0 <= j < sub.len() implies crate::text::spec_is_digit(sub[j]) by {
        assert(sub[j] == v@[j + from]);
    }
    true
}

/// The first position in the range holding either character.
fn find_first2(v: &Vec<char>, from: usize, to: usize, c1: char, c2: char) -> (r: Option<usize>)
    requires
        from <= to <= v@.len(),
    ensures
        (match r {
            Some(i) => from <= i < to && (v@[i as int] == c1 || v@[i as int] == c2)
                && (forall|j: int| from <= j < i ==> v@[j] != c1 && v@[j] != c2),
            None => forall|j: int| from <= j < to ==> v@[j] != c1 && v@[j] != c2,
        }),
{
    let mut i: usize = from;
    while i < to
        invariant
            from <= i <= to <= v@.len(),
            forall|j: int| from <= j < i ==> v@[j] != c1 && v@[j] != c2,
        decreases to - i,
    {
        if v[i] == c1 || v[i] == c2 {
            return Some(i);
        }
        i = i + 1;
    }
    None
}

/// Whether the index range is a mantissa.
fn check_mantissa(v: &Vec<char>, from: usize, to: usize) -> (r: bool)
    requires
        from <= to <= v@.len(),
    ensures
        r == is_mantissa(v@.subrange(from as int, to as int)),
{
    let ghost sub = v@.subrange(from as int, to as int);
    match find_first2(v, from, to, '.', '.') {
        None => {
            let all = range_all_digits(v, from, to);
            let r = to > from && all;
            proof {
                if !r {
                    assert forall|i: int| 0 <= i < sub.len() implies !(sub[i] == '.'
                        && #[trigger] mantissa_dot_ok(sub, i)) by {
                        assert(sub[i] == v@[i + from]);
                    }
                }
            }
            r
        }
        Some(d) => {
            let ghost di = d - from as int;
            let a_nonempty = d > from;
            let a_ok = if a_nonempty {
                range_all_digits(v, from, d)
            } else {
                false
            };
            let b_all = range_all_digits(v, d + 1, to);
            let b_nonempty = to > d + 1;
            let r = (a_ok && b_all) || (!a_nonempty && b_all && b_nonempty);
            proof {
                let a = sub.subrange(0, di);
                let b = sub.subrange(di + 1, sub.len() as int);
                assert(a =~= v@.subrange(from as int, d as int));
                assert(b =~= v@.subrange(d + 1 as int, to as int));
                assert(sub[di] == v@[d as int]);
                if r {
                    assert(mantissa_dot_ok(sub, di));
                } else {
                    assert(!is_digits(sub)) by {
                        assert(sub[di] == '.');
                    }
                    assert forall|i: int| 0 <= i < sub.len() implies !(sub[i] == '.'
                        && #[trigger] mantissa_dot_ok(sub, i)) by {
                        assert(sub[i] == v@[i + from]);
                        if sub[i] == '.' {
                            if i < di {
                                assert(v@[i + from] != '.');
                            } else if i > di {
                                let ai = sub.subrange(0, i);
                                assert(ai[di] == sub[di]);
                                assert(!all_digits(ai) && ai.len() > 0);
                            }
                        }
                    }
                }
            }
            r
        }
    }
}

/// Whether the index range is digits with an optional leading sign.
fn check_signed_digits(v: &Vec<char>, from: usize, to: usize) -> (r: bool)
    requires
        from <= to <= v@.len(),
    ensures
        r == is_signed_digits(v@.subrange(from as int, to as int)),
{
    let ghost sub = v@.subrange(from as int, to as int);
    let dfrom: usize = if from < to && (v[from] == '+' || v[from] == '-') {
        from + 1
    } else {
        from
    };
    proof {
        if from < to {
            assert(sub[0] == v@[from as int]);
            assert(sub.skip(1) =~= v@.subrange(from + 1 as int, to as int));
        }
    }
    let all = range_all_digits(v, dfrom, to);
    to > dfrom && all
}

/// Whether the characters are a float literal `str::parse` would accept.
pub fn is_f64_lit(v: &Vec<char>) -> (r: bool)
    ensures
        r == spec_is_f64_lit(v@),
{
    let bfrom: usize = if v.len() > 0 && (v[0] == '+' || v[0] == '-') {
        1
    } else {
        0
    };
    let ghost b = if bfrom == 1 { v@.skip(1) } else { v@ };
    proof {
        if bfrom == 0 {
            assert(b =~= v@.subrange(0, v@.len() as int));
        } else {
            assert(b =~= v@.subrange(1, v@.len() as int));
        }
    }
    let body = subvec(v, bfrom, v.len());
    assert(body@ == b);
    if eq_ignore_ascii_case(&body, "inf") || eq_ignore_ascii_case(&body, "infinity")
        || eq_ignore_ascii_case(&body, "nan") {
        return true;
    }
    match find_first2(v, bfrom, v.len(), 'e', 'E') {
        None => {
            let r = check_mantissa(v, bfrom, v.len());
            proof {
                assert(b =~= v@.subrange(bfrom as int, v@.len() as int));
                if !r {
                    assert forall|i: int| 0 <= i < b.len() implies !(#[trigger] exp_split_ok(b, i)) by {
                        assert(b[i] == v@[i + bfrom]);
                    }
                }
            }
            r
        }
        Some(e) => {
            let ghost ei = e - bfrom as int;
            let mant_ok = check_mantissa(v, bfrom, e);
            let exp_ok = check_signed_digits(v, e + 1, v.len());
            let r = mant_ok && exp_ok;
            proof {
                assert(b =~= v@.subrange(bfrom as int, v@.len() as int));
                assert(b.subrange(0, ei) =~= v@.subrange(bfrom as int, e as int));
                assert(b.subrange(ei + 1, b.len() as int) =~= v@.subrange(e + 1 as int, v@.len() as int));
                assert(b[ei] == v@[e as int]);
                if r {
                    assert(exp_split_ok(b, ei));
                } else {
                    assert(!is_digits(b)) by {
                        assert(b[ei] == 'e' || b[ei] == 'E');
                    }
                    assert(!is_mantissa(b)) by {
                        if is_mantissa(b) {
                            lemma_mantissa_chars(b);
                            assert(b[ei] == '.' || crate::text::spec_is_digit(b[ei]));
                        }
                    }
                    assert forall|i: int| 0 <= i < b.len() implies !(#[trigger] exp_split_ok(b, i)) by {
                        assert(b[i] == v@[i + bfrom]);
                        if b[i] == 'e' || b[i] == 'E' {
                            if i < ei {
                                assert(v@[i + bfrom] != 'e' && v@[i + bfrom] != 'E');
                            } else if i > ei {
                                let m = b.subrange(0, i);
                                assert(m[ei] == b[ei]);
                                if is_mantissa(m) {
                                    lemma_mantissa_chars(m);
                                    assert(m[ei] == '.' || crate::text::spec_is_digit(m[ei]));
                                }
                            }
                        }
                    }
                }
            }
            r
        }
    }
}

/// How an inferred value relates to the text of an environment variable:
/// bracket-wrapped text becomes an array of its comma pieces (trimmed, empty
/// pieces dropped); `true`/`false` in any case a boolean; a decimal integer
/// an integer; text with a decimal point, no comma, parseable as a float, a
/// float literal; comma-separated text an array of its trimmed pieces; and
/// anything else a string with backslash escapes replaced. Each array
/// element is related to its piece by this same relation.
pub open spec fn infer_rel(s: Seq<char>, v: TomlValue) -> bool
    decreases s.len(), 1int, 0int,
{
    let t = spec_trim(s);
    if t.len() >= 2 && t[0] == '[' && t.last() == ']' {
        v matches TomlValue::Array(items)
            && infer_rel_list(spec_split(t.subrange(1, t.len() - 1), ','), items@, s.len() as int, true)
    } else if spec_eq_ignore_ascii_case(s, "true"@) {
        v == TomlValue::Bool(true)
    } else if spec_eq_ignore_ascii_case(s, "false"@) {
        v == TomlValue::Bool(false)
    } else if spec_parse_i64(s) is Some {
        v matches TomlValue::Int(n) && Some(n) == spec_parse_i64(s)
    } else if spec_contains(s, '.') && !spec_contains(s, ',') && spec_is_f64_lit(s) {
        v matches TomlValue::Float(t2) && t2@ == s
    } else if spec_contains(s, ',') {
        v matches TomlValue::Array(items)
            && infer_rel_list(spec_split(s, ','), items@, s.len() as int, false)
    } else {
        v matches TomlValue::Str(t2) && t2@ == spec_unescape(s)
    }
}

/// How inferred array items relate to the raw pieces of a split: each piece
/// is trimmed, an empty piece is dropped when `skip_empty` holds, and each
/// kept piece (always shorter than `bound`) infers the matching item.
pub open spec fn infer_rel_list(pieces: Seq<Seq<char>>, items: Seq<TomlValue>, bound: int, skip_empty: bool) -> bool
    decreases bound, 0int, pieces.len(),
{
    if pieces.len() == 0 {
        items.len() == 0
    } else {
        let p = spec_trim(pieces[0]);
        if skip_empty && p.len() == 0 {
            infer_rel_list(pieces.skip(1), items, bound, skip_empty)
        } else {
            &&& items.len() >= 1
            &&& p.len() < bound
            &&& infer_rel(p, items[0])
            &&& infer_rel_list(pieces.skip(1), items.skip(1), bound, skip_empty)
        }
    }
}

/// Appending a piece whose trim is empty leaves a skipping list relation.
proof fn lemma_rel_list_push_skip(pieces: Seq<Seq<char>>, items: Seq<TomlValue>, bound: int, p: Seq<char>)
    requires
        infer_rel_list(pieces, items, bound, true),
        spec_trim(p).len() == 0,
    ensures
        infer_rel_list(pieces.push(p), items, bound, true),
    decreases pieces.len(),
{
    if pieces.len() == 0 {
        assert(items.len() == 0);
        assert(pieces.push(p) =~= seq![p]);
        assert((seq![p])[0] == p);
        assert(seq![p].skip(1) =~= Seq::<Seq<char>>::empty());
        assert(infer_rel_list(Seq::<Seq<char>>::empty(), items, bound, true));
        assert(infer_rel_list(seq![p], items, bound, true));
    } else {
        assert(pieces.push(p)[0] == pieces[0]);
        assert(pieces.push(p).skip(1) =~= pieces.skip(1).push(p));
        let q = spec_trim(pieces[0]);
        if q.len() == 0 {
            lemma_rel_list_push_skip(pieces.skip(1), items, bound, p);
        } else {
            lemma_rel_list_push_skip(pieces.skip(1), items.skip(1), bound, p);
        }
        assert(infer_rel_list(pieces.push(p), items, bound, true));
    }
}

/// Appending a kept piece and its inferred item extends the list relation.
proof fn lemma_rel_list_push_item(pieces: Seq<Seq<char>>, items: Seq<TomlValue>, bound: int, skip_empty: bool, p: Seq<char>, x: TomlValue)
    requires
        infer_rel_list(pieces, items, bound, skip_empty),
        !(skip_empty && spec_trim(p).len() == 0),
        spec_trim(p).len() < bound,
        infer_rel(spec_trim(p), x),
    ensures
        infer_rel_list(pieces.push(p), items.push(x), bound, skip_empty),
    decreases pieces.len(),
{
    if pieces.len() == 0 {
        assert(items.len() == 0);
        assert(items.push(x) =~= seq![x]);
        assert(pieces.push(p) =~= seq![p]);
        assert((seq![p])[0] == p);
        assert((seq![x])[0] == x);
        assert(seq![p].skip(1) =~= Seq::<Seq<char>>::empty());
        assert(seq![x].skip(1) =~= Seq::<TomlValue>::empty());
        assert(infer_rel_list(Seq::<Seq<char>>::empty(), Seq::<TomlValue>::empty(), bound, skip_empty));
        assert(infer_rel_list(seq![p], seq![x], bound, skip_empty));
    } else {
        assert(pieces.push(p)[0] == pieces[0]);
        assert(pieces.push(p).skip(1) =~= pieces.skip(1).push(p));
        let q = spec_trim(pieces[0]);
        if skip_empty && q.len() == 0 {
            lemma_rel_list_push_item(pieces.skip(1), items, bound, skip_empty, p, x);
        } else {
            assert(items.len() >= 1);
            assert(items.push(x)[0] == items[0]);
            assert(items.push(x).skip(1) =~= items.skip(1).push(x));
            lemma_rel_list_push_item(pieces.skip(1), items.skip(1), bound, skip_empty, p, x);
        }
        assert(infer_rel_list(pieces.push(p), items.push(x), bound, skip_empty));
    }
}

/// Infer the type of a raw environment variable value: bracket arrays,
/// booleans in any case, integers, float literals (only with a decimal point
/// and no comma), comma arrays, else a string with common backslash escapes
/// replaced so environment values behave like quoted configuration strings.
pub fn infer_toml_value(s: &str) -> (r: TomlValue)
    ensures
        infer_rel(s@, r),
    decreases s@.len(),
{
    let cs = str_chars(s);
    let t = trim_chars(&cs);
    proof {
        lemma_trim_le(cs@);
    }
    if t.len() >= 2 && t[0] == '[' && t[t.len() - 1] == ']' {
        assert(t@.last() == t@[t@.len() - 1]);
        let inner = subvec(&t, 1, t.len() - 1);
        let pieces = split_chars(&inner, ',');
        proof {
            lemma_split_piece_le(inner@, ',');
        }
        let ghost spieces = spec_split(t@.subrange(1, t@.len() - 1), ',');
        assert(seq_views(pieces@) == spieces);
        let mut items: Vec<TomlValue> = Vec::new();
        let mut j: usize = 0;
        assert(spieces.subrange(0, 0) =~= Seq::<Seq<char>>::empty());
        assert(infer_rel_list(spieces.subrange(0, 0), items@, s@.len() as int, true));
        while j < pieces.len()
            invariant
                0 <= j <= pieces@.len(),
                seq_views(pieces@) == spieces,
                s@ == cs@,
                forall|i: int| 0 <= i < spieces.len() ==> (#[trigger] spieces[i]).len() + 2 <= s@.len(),
                infer_rel_list(spieces.subrange(0, j as int), items@, s@.len() as int, true),
            decreases pieces@.len() - j,
        {
            let piece = &pieces[j];
            assert(piece@ == spieces[j as int]);
            let tp = trim_chars(piece);
            proof {
                lemma_trim_le(piece@);
            }
            if tp.len() > 0 {
                let ps = chars_string(&tp);
                let item = infer_toml_value(ps.as_str());
                proof {
                    lemma_rel_list_push_item(spieces.subrange(0, j as int), items@,
                        s@.len() as int, true, spieces[j as int], item);
                }
                items.push(item);
            } else {
                proof {
                    lemma_rel_list_push_skip(spieces.subrange(0, j as int), items@,
                        s@.len() as int, spieces[j as int]);
                }
            }
            assert(spieces.subrange(0, j + 1 as int) =~= spieces.subrange(0, j as int).push(spieces[j as int]));
            j = j + 1;
        }
        assert(spieces.subrange(0, spieces.len() as int) =~= spieces);
        return TomlValue::Array(items);
    }
    if eq_ignore_ascii_case(&cs, "true") {
        return TomlValue::Bool(true);
    }
    if eq_ignore_ascii_case(&cs, "false") {
        return TomlValue::Bool(false);
    }
    match parse_i64_chars(&cs) {
        Some(n) => {
            return TomlValue::Int(n);
        }
        None => {}
    }
    let has_dot = contains_char(&cs, '.');
    let has_comma = contains_char(&cs, ',');
    if has_dot && !has_comma && is_f64_lit(&cs) {
        let lit = chars_string(&cs);
        return TomlValue::Float(lit);
    }
    if has_comma {
        let pieces = split_chars(&cs, ',');
        proof {
            lemma_split_piece_lt(cs@, ',');
        }
        let ghost spieces = spec_split(cs@, ',');
        assert(seq_views(pieces@) == spieces);
        let mut items: Vec<TomlValue> = Vec::new();
        let mut j: usize = 0;
        assert(spieces.subrange(0, 0) =~= Seq::<Seq<char>>::empty());
        assert(infer_rel_list(spieces.subrange(0, 0), items@, s@.len() as int, false));
        while j < pieces.len()
            invariant
                0 <= j <= pieces@.len(),
                seq_views(pieces@) == spieces,
                s@ == cs@,
                forall|i: int| 0 <= i < spieces.len() ==> (#[trigger] spieces[i]).len() < s@.len(),
                infer_rel_list(spieces.subrange(0, j as int), items@, s@.len() as int, false),
            decreases pieces@.len() - j,
        {
            let piece = &pieces[j];
            assert(piece@ == spieces[j as int]);
            let tp = trim_chars(piece);
            proof {
                lemma_trim_le(piece@);
            }
            let ps = chars_string(&tp);
            let item = infer_toml_value(ps.as_str());
            proof {
                lemma_rel_list_push_item(spieces.subrange(0, j as int), items@,
                    s@.len() as int, false, spieces[j as int], item);
            }
            items.push(item);
            assert(spieces.subrange(0, j + 1 as int) =~= spieces.subrange(0, j as int).push(spieces[j as int]));
            j = j + 1;
        }
        assert(spieces.subrange(0, spieces.len() as int) =~= spieces);
        return TomlValue::Array(items);
    }
    let unescaped = unescape_basic(s);
    TomlValue::Str(unescaped)
}



/// The first occurrence of a key in a table is at index `i`.
pub open spec fn key_at(bt: Seq<(String, TomlValue)>, k: Seq<char>, i: int) -> bool {
    &&& 0 <= i < bt.len()
    &&& bt[i].0@ == k
    &&& (forall|j: int| 0 <= j < i ==> (#[trigger] bt[j]).0@ != k)
}

/// A table holds no entry under the key.
pub open spec fn no_key(bt: Seq<(String, TomlValue)>, k: Seq<char>) -> bool {
    forall|j: int| 0 <= j < bt.len() ==> (#[trigger] bt[j]).0@ != k
}

/// How merging relates two values to the result: two tables merge entry by
/// entry, overlay values winning and nested tables merged recursively; an
/// overlay scalar replacing a base array is wrapped into a one-element
/// array; anything else is replaced by the overlay wholesale.
pub open spec fn merge_rel(b: TomlValue, o: TomlValue, r: TomlValue) -> bool
    decreases o, 0int, 0int,
{
    if b is Table && o is Table {
        r is Table && merge_entries_rel(b->Table_0@, o->Table_0@, r->Table_0@)
    } else if b is Array && !(o is Array) {
        r matches TomlValue::Array(items) && items@ =~= seq![o]
    } else {
        r == o
    }
}

/// How one overlay entry lands in a table: an existing key (at its first
/// occurrence) keeps its place and its value is merged in; a new key is
/// appended.
pub open spec fn merge_step_rel(bt: Seq<(String, TomlValue)>, k: Seq<char>, ov: TomlValue, rt: Seq<(String, TomlValue)>) -> bool
    decreases ov, 1int, 0int,
{
    ||| (exists|i: int| #[trigger] key_at(bt, k, i)
        && rt =~= bt.update(i, (bt[i].0, rt[i].1))
        && merge_rel(bt[i].1, ov, rt[i].1))
    ||| (no_key(bt, k) && rt.len() == bt.len() + 1 && rt.drop_last() =~= bt
        && rt.last().0@ == k && rt.last().1 == ov)
}

/// Marks an intermediate table as the witness of a step-by-step relation;
/// always true, used only to guide the prover to the witness.
pub open spec fn step_witness(mid: Seq<(String, TomlValue)>) -> bool {
    true
}

/// How overlay entries, applied left to right, relate base entries to the
/// result.
pub open spec fn merge_entries_rel(bt: Seq<(String, TomlValue)>, ot: Seq<(String, TomlValue)>, rt: Seq<(String, TomlValue)>) -> bool
    decreases ot, 2int, ot.len(),
{
    if ot.len() == 0 {
        rt =~= bt
    } else {
        exists|mid: Seq<(String, TomlValue)>|
            #[trigger] step_witness(mid)
            && merge_entries_rel(bt, ot.drop_last(), mid)
            && merge_step_rel(mid, ot.last().0@, ot.last().1, rt)
    }
}

/// Applying one more overlay entry extends the left-to-right evidence.
proof fn lemma_entries_snoc(bt: Seq<(String, TomlValue)>, ot: Seq<(String, TomlValue)>, mid: Seq<(String, TomlValue)>, e: (String, TomlValue), rt: Seq<(String, TomlValue)>)
    requires
        merge_entries_rel(bt, ot, mid),
        merge_step_rel(mid, e.0@, e.1, rt),
    ensures
        merge_entries_rel(bt, ot.push(e), rt),
{
    assert(ot.push(e).drop_last() =~= ot);
    assert(ot.push(e).last() == e);
    assert(step_witness(mid));
    assert(merge_entries_rel(bt, ot.push(e).drop_last(), mid));
    assert(merge_step_rel(mid, ot.push(e).last().0@, ot.push(e).last().1, rt));
    assert(ot.push(e).len() > 0);
}

/// The first position of a key in a table, scanning from the front.
fn table_find(table: &Vec<(String, TomlValue)>, k: &String) -> (r: Option<usize>)
    ensures
        (match r {
            Some(i) => key_at(table@, k@, i as int),
            None => no_key(table@, k@),
        }),
{
    let mut i: usize = 0;
    while i < table.len()
        invariant
            0 <= i <= table@.len(),
            forall|j: int| 0 <= j < i ==> (#[trigger] table@[j]).0@ != k@,
        decreases table@.len() - i,
    {
        let pair = &table[i];
        if pair.0 == *k {
            return Some(i);
        }
        i = i + 1;
    }
    None
}

/// Recursively merge two values: overlay values win; nested tables are
/// merged key by key, existing keys keeping their place and new keys
/// appended; a scalar overlaying an array is auto-wrapped into a one-element
/// array so a single environment value deserializes into a list-valued
/// setting.
pub fn deep_merge(base: TomlValue, overlay: TomlValue) -> (r: TomlValue)
    ensures
        merge_rel(base, overlay, r),
    decreases overlay,
{
    match (base, overlay) {
        (TomlValue::Table(bt), TomlValue::Table(ot)) => {
            let ghost btv = bt@;
            let ghost otv = ot@;
            let mut acc = bt;
            let mut rest = ot;
            proof {
                assert(otv.subrange(0, 0) =~= Seq::<(String, TomlValue)>::empty());
                assert(merge_entries_rel(btv, otv.subrange(0, 0), acc@));
            }
            let mut k: usize = 0;
            let total_len: usize = rest.len();
            assert(otv.len() == total_len as int);
            while rest.len() > 0
                invariant
                    0 <= k <= otv.len(),
                    otv.len() <= usize::MAX,
                    rest@ =~= otv.skip(k as int),
                    overlay is Table,
                    overlay->Table_0@ == otv,
                    merge_entries_rel(btv, otv.subrange(0, k as int), acc@),
                decreases rest@.len(),
            {
                proof {
                    assert(k < otv.len());
                }
                let ghost e = otv[k as int];
                proof {
                    assert(rest@[0] == otv.skip(k as int)[0]);
                }
                let (key, ov) = rest.remove(0);
                proof {
                    assert(rest@ =~= otv.skip(k + 1 as int));
                    assert((key, ov) == e);
                    assert(decreases_to!(overlay => overlay->Table_0));
                    assert(decreases_to!(overlay->Table_0 => overlay->Table_0@));
                    assert(decreases_to!(overlay->Table_0@ => overlay->Table_0@[k as int]));
                    assert(decreases_to!(overlay->Table_0@[k as int] => overlay->Table_0@[k as int].1));
                    assert(ov == overlay->Table_0@[k as int].1);
                    assert(decreases_to!(overlay => ov));
                }
                let idx = table_find(&acc, &key);
                let ghost mid = acc@;
                match idx {
                    Some(i) => {
                        let (bk, bv) = acc.remove(i);
                        let m = deep_merge(bv, ov);
                        acc.insert(i, (bk, m));
                        proof {
                            assert(acc@ =~= mid.update(i as int, (mid[i as int].0, m)));
                            assert(acc@[i as int].1 == m);
                            assert(key_at(mid, e.0@, i as int));
                            assert(acc@ =~= mid.update(i as int, (mid[i as int].0, acc@[i as int].1)));
                            assert(merge_step_rel(mid, e.0@, e.1, acc@));
                        }
                    }
                    None => {
                        acc.push((key, ov));
                        proof {
                            assert(acc@.drop_last() =~= mid);
                            assert(merge_step_rel(mid, e.0@, e.1, acc@));
                        }
                    }
                }
                proof {
                    lemma_entries_snoc(btv, otv.subrange(0, k as int), mid, e, acc@);
                    assert(otv.subrange(0, k as int).push(e) =~= otv.subrange(0, k + 1 as int));
                }
                k = k + 1;
            }
            proof {
                assert(k == otv.len());
                assert(otv.subrange(0, otv.len() as int) =~= otv);
            }
            let result = TomlValue::Table(acc);
            proof {
                assert(result->Table_0@ == acc@);
                assert(base->Table_0@ == btv);
            }
            result
        }
        (TomlValue::Array(_items), TomlValue::Array(oitems)) => {
            TomlValue::Array(oitems)
        }
        (TomlValue::Array(_items), o) => {
            let mut wrapped: Vec<TomlValue> = Vec::new();
            let ghost ov = o;
            wrapped.push(o);
            proof {
                assert(wrapped@ =~= seq![ov]);
            }
            TomlValue::Array(wrapped)
        }
        (_, o) => o,
    }
}

/// The views of a list of keys.
pub open spec fn key_views(ks: Seq<String>) -> Seq<Seq<char>> {
    Seq::new(ks.len(), |i: int| ks[i]@)
}

/// How a nested insertion relates a table to the result. With no keys
/// nothing changes. With one key the value lands under it: replacing the
/// first occurrence in place, or appended under a new key. With more keys
/// the insertion recurses into the table under the first key: into the
/// existing table (an existing non-table entry blocks the insertion and
/// nothing changes), or into a fresh empty table appended under a new key.
pub open spec fn insert_rel(bt: Seq<(String, TomlValue)>, keys: Seq<Seq<char>>, value: TomlValue, rt: Seq<(String, TomlValue)>) -> bool
    decreases keys.len(),
{
    if keys.len() == 0 {
        rt =~= bt
    } else if keys.len() == 1 {
        ||| (exists|i: int| #[trigger] key_at(bt, keys[0], i)
            && rt =~= bt.update(i, (bt[i].0, value)))
        ||| (no_key(bt, keys[0]) && rt.len() == bt.len() + 1 && rt.drop_last() =~= bt
            && rt.last().0@ == keys[0] && rt.last().1 == value)
    } else {
        ||| (exists|i: int| #[trigger] key_at(bt, keys[0], i) && bt[i].1 is Table
            && rt =~= bt.update(i, (bt[i].0, rt[i].1)) && rt[i].1 is Table
            && insert_rel(bt[i].1->Table_0@, keys.skip(1), value, rt[i].1->Table_0@))
        ||| (exists|i: int| #[trigger] key_at(bt, keys[0], i) && !(bt[i].1 is Table)
            && rt =~= bt)
        ||| (no_key(bt, keys[0]) && rt.len() == bt.len() + 1 && rt.drop_last() =~= bt
            && rt.last().0@ == keys[0] && rt.last().1 is Table
            && insert_rel(Seq::empty(), keys.skip(1), value, rt.last().1->Table_0@))
    }
}

/// Insert a value into nested tables under a path of keys: intermediate
/// tables are created as needed, an existing key keeps its place, and an
/// intermediate entry that is not a table blocks the insertion silently.
pub fn insert_nested(table: &mut Vec<(String, TomlValue)>, keys: &[String], value: TomlValue)
    ensures
        insert_rel(old(table)@, key_views(keys@), value, final(table)@),
    decreases keys@.len(),
{
    let ghost kv = key_views(keys@);
    if keys.len() == 0 {
        return;
    }
    let k = vstd::slice::slice_index_get(keys, 0);
    assert(k@ == kv[0]);
    let idx = table_find(table, k);
    if keys.len() == 1 {
        match idx {
            Some(i) => {
                let ghost bt = table@;
                let (bk, _old_val) = table.remove(i);
                table.insert(i, (bk, value));
                proof {
                    assert(table@ =~= bt.update(i as int, (bt[i as int].0, value)));
                }
            }
            None => {
                let ghost bt = table@;
                table.push((k.clone(), value));
                proof {
                    assert(table@.drop_last() =~= bt);
                }
            }
        }
    } else {
        let rest = slice_subrange(keys, 1, keys.len());
        proof {
            assert(key_views(rest@) =~~= kv.skip(1));
        }
        match idx {
            Some(i) => {
                let ghost bt = table@;
                let (bk, bv) = table.remove(i);
                match bv {
                    TomlValue::Table(mut sub) => {
                        let ghost subv = sub@;
                        insert_nested(&mut sub, rest, value);
                        let entry = TomlValue::Table(sub);
                        table.insert(i, (bk, entry));
                        proof {
                            assert(bt[i as int].1->Table_0@ == subv);
                            assert(table@ =~= bt.update(i as int, (bt[i as int].0, table@[i as int].1)));
                        }
                    }
                    other => {
                        table.insert(i, (bk, other));
                        proof {
                            assert(table@ =~= bt);
                        }
                    }
                }
            }
            None => {
                let ghost bt = table@;
                let mut sub: Vec<(String, TomlValue)> = Vec::new();
                insert_nested(&mut sub, rest, value);
                table.push((k.clone(), TomlValue::Table(sub)));
                proof {
                    assert(table@.drop_last() =~= bt);
                }
            }
        }
    }
}


/// The text lower-cased, as the standard library does it.
pub uninterp spec fn lower_of(s: Seq<char>) -> Seq<char>;

/// Relies on str::to_lowercase: the result depends on the characters alone.
#[verifier::external_body]
fn to_lowercase(s: &str) -> (r: String)
    ensures
        r@ == lower_of(s@),
{
    s.to_lowercase()
}

/// The key path an override variable names: the text after the prefix,
/// split on double underscores, each part lower-cased.
pub open spec fn env_parts(key: Seq<char>) -> Seq<Seq<char>> {
    spec_split2(key.skip(7), '_', '_').map_values(|p: Seq<char>| lower_of(p))
}

/// Whether a variable is an override: it starts with the prefix and names at
/// least one character after it.
pub open spec fn is_env_override(key: Seq<char>) -> bool {
    spec_starts_with(key, "LAZYMC_"@) && key.len() > 7
}

/// How one environment variable lands in the override table: an override
/// variable's value is inferred and inserted under its key path; any other
/// variable changes nothing.
pub open spec fn collect_step_rel(tbl: Seq<(String, TomlValue)>, key: Seq<char>, val: Seq<char>, rt: Seq<(String, TomlValue)>) -> bool {
    if is_env_override(key) {
        exists|v: TomlValue| #[trigger] infer_rel(val, v) && insert_rel(tbl, env_parts(key), v, rt)
    } else {
        rt =~= tbl
    }
}

/// How a list of environment variables, read left to right, builds the
/// override table.
pub open spec fn collect_rel(vars: Seq<(String, String)>, rt: Seq<(String, TomlValue)>) -> bool
    decreases vars.len(),
{
    if vars.len() == 0 {
        rt =~= Seq::empty()
    } else {
        exists|mid: Seq<(String, TomlValue)>| #[trigger] step_witness(mid)
            && collect_rel(vars.drop_last(), mid)
            && collect_step_rel(mid, vars.last().0@, vars.last().1@, rt)
    }
}

/// Reading one more variable extends the left-to-right evidence.
proof fn lemma_collect_snoc(vars: Seq<(String, String)>, mid: Seq<(String, TomlValue)>, e: (String, String), rt: Seq<(String, TomlValue)>)
    requires
        collect_rel(vars, mid),
        collect_step_rel(mid, e.0@, e.1@, rt),
    ensures
        collect_rel(vars.push(e), rt),
{
    assert(vars.push(e).drop_last() =~= vars);
    assert(vars.push(e).last() == e);
    assert(step_witness(mid));
    assert(collect_rel(vars.push(e).drop_last(), mid));
    assert(vars.push(e).len() > 0);
}

/// Collect environment variables into a nested override table: each
/// variable whose name starts with the prefix contributes its inferred value
/// under the key path its name spells, double underscores separating nested
/// keys and names lower-cased.
pub fn collect_env_config(vars: &Vec<(String, String)>) -> (r: TomlValue)
    ensures
        (r matches TomlValue::Table(t) && collect_rel(vars@, t@)),
{
    let mut root: Vec<(String, TomlValue)> = Vec::new();
    let mut k: usize = 0;
    proof {
        assert(vars@.subrange(0, 0) =~= Seq::<(String, String)>::empty());
        assert(collect_rel(vars@.subrange(0, 0), root@));
    }
    while k < vars.len()
        invariant
            0 <= k <= vars@.len(),
            collect_rel(vars@.subrange(0, k as int), root@),
        decreases vars@.len() - k,
    {
        let ghost e = vars@[k as int];
        let ghost mid = root@;
        let pair = &vars[k];
        let kc = str_chars(pair.0.as_str());
        if starts_with(&kc, "LAZYMC_") && kc.len() > 7 {
            let suffix = subvec(&kc, 7, kc.len());
            assert(suffix@ =~= kc@.skip(7));
            let parts_raw = split2_chars(&suffix, '_', '_');
            let ghost sparts = env_parts(kc@);
            let mut parts: Vec<String> = Vec::new();
            let mut j: usize = 0;
            while j < parts_raw.len()
                invariant
                    0 <= j <= parts_raw@.len(),
                    seq_views(parts_raw@) == spec_split2(kc@.skip(7), '_', '_'),
                    sparts == env_parts(kc@),
                    parts@.len() == j,
                    forall|i: int| 0 <= i < j ==> (#[trigger] parts@[i])@ == sparts[i],
                decreases parts_raw@.len() - j,
            {
                let piece = chars_string(&parts_raw[j]);
                let low = to_lowercase(piece.as_str());
                proof {
                    assert(parts_raw@[j as int]@ == spec_split2(kc@.skip(7), '_', '_')[j as int]);
                }
                parts.push(low);
                j = j + 1;
            }
            proof {
                assert(key_views(parts@) =~~= sparts);
            }
            let value = infer_toml_value(pair.1.as_str());
            insert_nested(&mut root, parts.as_slice(), value);
            proof {
                assert(is_env_override(e.0@));
                assert(infer_rel(e.1@, value));
                assert(insert_rel(mid, env_parts(e.0@), value, root@));
                assert(collect_step_rel(mid, e.0@, e.1@, root@));
            }
        } else {
            proof {
                assert(!is_env_override(e.0@));
                assert(collect_step_rel(mid, e.0@, e.1@, root@));
            }
        }
        proof {
            lemma_collect_snoc(vars@.subrange(0, k as int), mid, e, root@);
            assert(vars@.subrange(0, k as int).push(e) =~= vars@.subrange(0, k + 1 as int));
        }
        k = k + 1;
    }
    proof {
        assert(vars@.subrange(0, vars@.len() as int) =~= vars@);
    }
    TomlValue::Table(root)
}

/// Whether any environment variable carries the override prefix.
pub fn has_env_config(vars: &Vec<(String, String)>) -> (r: bool)
    ensures
        r == exists|i: int| 0 <= i < vars@.len()
            && spec_starts_with((#[trigger] vars@[i]).0@, "LAZYMC_"@),
{
    let mut i: usize = 0;
    while i < vars.len()
        invariant
            0 <= i <= vars@.len(),
            forall|j: int| 0 <= j < i ==> !spec_starts_with((#[trigger] vars@[j]).0@, "LAZYMC_"@),
        decreases vars@.len() - i,
    {
        let kc = str_chars(vars[i].0.as_str());
        if starts_with(&kc, "LAZYMC_") {
            return true;
        }
        i = i + 1;
    }
    false
}

/// What a configuration's version field says of it.
#[derive(Copy, Clone, Debug, PartialEq, Eq, Structural)]
pub enum VersionCheck {
    /// No version is recorded; the configuration may be outdated.
    Unknown,

    /// The version is current or newer.
    Current,

    /// The version is older than the current format.
    Older,

    /// The version does not parse as a version.
    Invalid,
}

/// Whether one version string is at least another, when both parse.
pub uninterp spec fn version_ge_of(a: Seq<char>, b: Seq<char>) -> Option<bool>;

/// Relies on version_compare::compare_to with the at-least operator: the
/// comparison depends on the two version strings alone.
#[verifier::external_body]
fn version_at_least(a: &str, b: &str) -> (r: Option<bool>)
    ensures
        r == version_ge_of(a@, b@),
{
    version_compare::compare_to(a, b, version_compare::Cmp::Ge).ok()
}

/// Judge a configuration's recorded version against the current format
/// version: absent is unknown, at least the current version is current,
/// older is older, and one that does not compare is invalid.
pub fn config_version_state(version: &Option<String>) -> (r: VersionCheck)
    ensures
        version is None ==> r == VersionCheck::Unknown,
        (version matches Some(v) ==> r == (match version_ge_of(v@, CONFIG_VERSION@) {
            Some(true) => VersionCheck::Current,
            Some(false) => VersionCheck::Older,
            None => VersionCheck::Invalid,
        })),
{
    match version {
        None => VersionCheck::Unknown,
        Some(v) => match version_at_least(v.as_str(), CONFIG_VERSION) {
            Some(true) => VersionCheck::Current,
            Some(false) => VersionCheck::Older,
            None => VersionCheck::Invalid,
        },
    }
}

} // verus!
