//! The service's settings, read from the values of its environment variables.
//! The caller looks the variables up; this module validates them and applies
//! the defaults.

use vstd::prelude::*;
use crate::email_parser::opt_view;
use crate::text::{chars_of, comma_list, concat, owned, split_comma_list, string_of, trim, trimmed, views};

verus! {

/// The values of the recognised environment variables; `None` when unset.
#[derive(Debug, Clone, Default)]
pub struct EnvVars {
    /// `MAIL_LASER_TARGET_EMAILS`
    pub target_emails: Option<String>,
    /// `MAIL_LASER_WEBHOOK_URL`
    pub webhook_url: Option<String>,
    /// `MAIL_LASER_BIND_ADDRESS`
    pub bind_address: Option<String>,
    /// `MAIL_LASER_PORT`
    pub port: Option<String>,
    /// `MAIL_LASER_HEALTH_BIND_ADDRESS`
    pub health_bind_address: Option<String>,
    /// `MAIL_LASER_HEALTH_PORT`
    pub health_port: Option<String>,
    /// `MAIL_LASER_HEADER_PREFIX`
    pub header_prefix: Option<String>,
    /// `MAIL_LASER_WEBHOOK_TIMEOUT`
    pub webhook_timeout: Option<String>,
    /// `MAIL_LASER_WEBHOOK_MAX_RETRIES`
    pub webhook_max_retries: Option<String>,
    /// `MAIL_LASER_CIRCUIT_BREAKER_THRESHOLD`
    pub circuit_breaker_threshold: Option<String>,
    /// `MAIL_LASER_CIRCUIT_BREAKER_RESET`
    pub circuit_breaker_reset: Option<String>,
}

/// The settings of the service.
#[derive(Debug, Clone)]
pub struct Config {
    /// The allow-list of recipients; never empty.
    pub target_emails: Vec<String>,
    pub webhook_url: String,
    pub smtp_bind_address: String,
    pub smtp_port: u16,
    pub health_check_bind_address: String,
    pub health_check_port: u16,
    /// Header-name prefixes to capture; empty disables capture.
    pub header_prefixes: Vec<String>,
    pub webhook_timeout_secs: u64,
    /// Attempts after the first.
    pub webhook_max_retries: u32,
    pub circuit_breaker_threshold: u32,
    pub circuit_breaker_reset_secs: u64,
}

/// Why the settings were refused.
#[derive(Debug, Clone, PartialEq, Eq)]
pub enum ConfigError {
    /// A required variable is unset; it carries the variable's name.
    Missing(String),
    /// The allow-list is empty text.
    EmptyTargets,
    /// The allow-list holds only commas and white space.
    NoValidTargets,
    /// A port is not an unsigned 16-bit number; name and value.
    InvalidPort(String, String),
    /// A count or a duration is not an unsigned number in range; name and value.
    InvalidNumber(String, String),
}

/// ASCII decimal digits only, at least one.
pub open spec fn all_digits(s: Seq<char>) -> bool {
    s.len() > 0 && forall|k: int| 0 <= k < s.len() ==> '0' <= #[trigger] s[k] && s[k] <= '9'
}

/// The number that decimal digits write.
pub open spec fn digits_value(s: Seq<char>) -> nat
    decreases s.len(),
{
    if s.len() == 0 {
        0
    } else {
        digits_value(s.drop_last()) * 10 + ((s.last() as nat) - ('0' as nat)) as nat
    }
}

/// The unsigned number that `s` writes, with an optional leading `+`, when it
/// is at most `max`.
pub open spec fn number_in(s: Seq<char>, max: nat) -> Option<nat> {
    let d = if s.len() > 0 && s[0] == '+' {
        s.drop_first()
    } else {
        s
    };
    if all_digits(d) && digits_value(d) <= max {
        Some(digits_value(d))
    } else {
        None
    }
}

/// An optional numeric setting: its default when unset.
pub open spec fn setting(v: Option<Seq<char>>, default: nat, max: nat) -> Option<nat> {
    match v {
        Some(s) => number_in(s, max),
        None => Some(default),
    }
}

/// An optional text setting: its default when unset.
pub open spec fn text_setting(v: Option<Seq<char>>, default: Seq<char>) -> Seq<char> {
    match v {
        Some(s) => s,
        None => default,
    }
}

pub open spec fn prefixes_setting(v: Option<Seq<char>>) -> Seq<Seq<char>> {
    match v {
        Some(s) => comma_list(s),
        None => Seq::empty(),
    }
}

/// The unsigned number that `s` writes, when it is at most `max`.
pub fn parse_number(s: &[char], max: u64) -> (r: Option<u64>)
    ensures
        match r {
            Some(v) => number_in(s@, max as nat) == Some(v as nat),
            None => number_in(s@, max as nat) is None,
        },
{
    let start: usize = if s.len() > 0 && s[0] == '+' {
        1
    } else {
        0
    };
    let ghost d = if s@.len() > 0 && s@[0] == '+' {
        s@.drop_first()
    } else {
        s@
    };
    assert(d =~= s@.subrange(start as int, s@.len() as int));
    if start == s.len() {
        return None;
    }
    let mut v: u64 = 0;
    let mut over = false;
    let mut i: usize = start;
    assert(d.subrange(0, 0) =~= Seq::<char>::empty());
    while i < s.len()
        invariant
            start <= i <= s@.len(),
            d == s@.subrange(start as int, s@.len() as int),
            d == (if s@.len() > 0 && s@[0] == '+' {
                s@.drop_first()
            } else {
                s@
            }),
            forall|k: int| 0 <= k < i - start ==> '0' <= #[trigger] d[k] && d[k] <= '9',
            !over ==> v as nat == digits_value(d.subrange(0, i - start)),
            over ==> digits_value(d.subrange(0, i - start)) > max,
            v <= max,
        decreases s@.len() - i,
    {
        let c = s[i];
        if c < '0' || c > '9' {
            assert(d[i - start] == c);
            assert(!('0' <= d[i - start] && d[i - start] <= '9'));
            assert(!all_digits(d));
            return None;
        }
        let digit: u64 = (c as u32 - '0' as u32) as u64;
        assert(d.subrange(0, i + 1 - start).drop_last() =~= d.subrange(0, i - start));
        assert(d.subrange(0, i + 1 - start).last() == c);
        if !over {
            let w: u128 = (v as u128) * 10 + (digit as u128);
            if w > max as u128 {
                over = true;
            } else {
                v = w as u64;
            }
        }
        i += 1;
    }
    assert(d.subrange(0, d.len() as int) =~= d);
    if over {
        None
    } else {
        Some(v)
    }
}

/// An optional numeric setting.
fn numeric_setting(v: &Option<String>, default: u64, max: u64) -> (r: Option<u64>)
    requires
        default <= max,
    ensures
        match r {
            Some(n) => setting(opt_view(*v), default as nat, max as nat) == Some(n as nat),
            None => setting(opt_view(*v), default as nat, max as nat) is None,
        },
{
    match v {
        Some(s) => parse_number(chars_of(s.as_str()).as_slice(), max),
        None => Some(default),
    }
}

/// The value of a variable that is set.
fn value_of(v: &Option<String>) -> (r: String)
    requires
        v is Some,
    ensures
        Some(r@) == opt_view(*v),
{
    match v {
        Some(s) => s.clone(),
        None => String::new(),
    }
}

fn text_or(v: &Option<String>, default: &str) -> (r: String)
    ensures
        r@ == text_setting(opt_view(*v), default@),
{
    match v {
        Some(s) => s.clone(),
        None => owned(default),
    }
}

fn strings_of(items: Vec<Vec<char>>) -> (r: Vec<String>)
    ensures
        views(r@) == items@.map_values(|v: Vec<char>| v@),
{
    let mut out: Vec<String> = Vec::new();
    let mut i: usize = 0;
    while i < items.len()
        invariant
            i <= items@.len(),
            views(out@) == items@.map_values(|v: Vec<char>| v@).subrange(0, i as int),
        decreases items@.len() - i,
    {
        let s = string_of(items[i].as_slice());
        let ghost before = views(out@);
        out.push(s);
        assert(views(out@) =~= before.push(s@));
        i += 1;
        assert(views(out@) =~= items@.map_values(|v: Vec<char>| v@).subrange(0, i as int));
    }
    assert(items@.map_values(|v: Vec<char>| v@).subrange(0, items@.len() as int)
        =~= items@.map_values(|v: Vec<char>| v@));
    out
}

impl ConfigError {
    /// The error as one line of text for the log.
    pub fn message(&self) -> (r: String)
        ensures
            r@ == error_message(*self),
    {
        match self {
            ConfigError::Missing(var) => {
                let t = concat(
                    chars_of(var.as_str()).as_slice(),
                    chars_of(" environment variable must be set").as_slice(),
                );
                string_of(t.as_slice())
            },
            ConfigError::EmptyTargets => owned("MAIL_LASER_TARGET_EMAILS cannot be empty"),
            ConfigError::NoValidTargets => owned(
                "MAIL_LASER_TARGET_EMAILS must contain at least one valid email",
            ),
            ConfigError::InvalidPort(var, value) => {
                let t = concat(chars_of(var.as_str()).as_slice(), chars_of(" ('").as_slice());
                let t = concat(t.as_slice(), chars_of(value.as_str()).as_slice());
                let t = concat(t.as_slice(), chars_of("') must be a valid u16 port number").as_slice());
                string_of(t.as_slice())
            },
            ConfigError::InvalidNumber(var, value) => {
                let t = concat(chars_of(var.as_str()).as_slice(), chars_of(" ('").as_slice());
                let t = concat(t.as_slice(), chars_of(value.as_str()).as_slice());
                let t = concat(t.as_slice(), chars_of("') must be a valid unsigned number").as_slice());
                string_of(t.as_slice())
            },
        }
    }
}

/// The text of a configuration error.
pub open spec fn error_message(e: ConfigError) -> Seq<char> {
    match e {
        ConfigError::Missing(var) => var@ + " environment variable must be set"@,
        ConfigError::EmptyTargets => "MAIL_LASER_TARGET_EMAILS cannot be empty"@,
        ConfigError::NoValidTargets => "MAIL_LASER_TARGET_EMAILS must contain at least one valid email"@,
        ConfigError::InvalidPort(var, value) => var@ + " ('"@ + value@ + "') must be a valid u16 port number"@,
        ConfigError::InvalidNumber(var, value) => var@ + " ('"@ + value@ + "') must be a valid unsigned number"@,
    }
}

/// The allow-list is usable: set, and holding at least one address.
pub open spec fn targets_valid(v: EnvVars) -> bool {
    v.target_emails matches Some(t) && comma_list(t@).len() > 0
}

/// Every variable is usable.
pub open spec fn env_valid(v: EnvVars) -> bool {
    &&& targets_valid(v)
    &&& v.webhook_url is Some
    &&& setting(opt_view(v.port), 2525, u16::MAX as nat) is Some
    &&& setting(opt_view(v.health_port), 8080, u16::MAX as nat) is Some
    &&& setting(opt_view(v.webhook_timeout), 30, u64::MAX as nat) is Some
    &&& setting(opt_view(v.webhook_max_retries), 3, u32::MAX as nat) is Some
    &&& setting(opt_view(v.circuit_breaker_threshold), 5, u32::MAX as nat) is Some
    &&& setting(opt_view(v.circuit_breaker_reset), 60, u64::MAX as nat) is Some
}

/// `e` names variable `var` and carries its value.
pub open spec fn invalid_setting(e: ConfigError, var: Seq<char>, value: Option<String>, port: bool) -> bool {
    match e {
        ConfigError::InvalidPort(n, val) => port && n@ == var && Some(val@) == opt_view(value),
        ConfigError::InvalidNumber(n, val) => !port && n@ == var && Some(val@) == opt_view(value),
        _ => false,
    }
}

impl Config {
    /// Validates the variables' values and applies the defaults. The first
    /// problem, in the order of the variables below, is reported.
    pub fn from_env(vars: &EnvVars) -> (r: Result<Config, ConfigError>)
        ensures
            r is Ok <==> env_valid(*vars),
            vars.target_emails is None ==> (r matches Err(ConfigError::Missing(n)) && n@
                == "MAIL_LASER_TARGET_EMAILS"@),
            vars.target_emails matches Some(t) ==> (trim(t@).len() == 0 ==> r matches Err(
                ConfigError::EmptyTargets,
            )),
            vars.target_emails matches Some(t) ==> (trim(t@).len() > 0 && comma_list(t@).len()
                == 0 ==> r matches Err(ConfigError::NoValidTargets)),
            targets_valid(*vars) && vars.webhook_url is None ==> (r matches Err(
                ConfigError::Missing(n),
            ) && n@ == "MAIL_LASER_WEBHOOK_URL"@),
            targets_valid(*vars) && vars.webhook_url is Some && setting(
                opt_view(vars.port),
                2525,
                u16::MAX as nat,
            ) is None ==> (r matches Err(e) && invalid_setting(
                e,
                "MAIL_LASER_PORT"@,
                vars.port,
                true,
            )),
            targets_valid(*vars) && vars.webhook_url is Some && setting(
                opt_view(vars.port),
                2525,
                u16::MAX as nat,
            ) is Some && setting(opt_view(vars.health_port), 8080, u16::MAX as nat) is None
                ==> (r matches Err(e) && invalid_setting(
                e,
                "MAIL_LASER_HEALTH_PORT"@,
                vars.health_port,
                true,
            )),
            r matches Ok(c) ==> {
                &&& views(c.target_emails@) == comma_list(vars.target_emails->Some_0@)
                &&& c.webhook_url@ == vars.webhook_url->Some_0@
                &&& c.smtp_bind_address@ == text_setting(opt_view(vars.bind_address), "0.0.0.0"@)
                &&& Some(c.smtp_port as nat) == setting(opt_view(vars.port), 2525, u16::MAX as nat)
                &&& c.health_check_bind_address@ == text_setting(
                    opt_view(vars.health_bind_address),
                    "0.0.0.0"@,
                )
                &&& Some(c.health_check_port as nat) == setting(
                    opt_view(vars.health_port),
                    8080,
                    u16::MAX as nat,
                )
                &&& views(c.header_prefixes@) == prefixes_setting(opt_view(vars.header_prefix))
                &&& Some(c.webhook_timeout_secs as nat) == setting(
                    opt_view(vars.webhook_timeout),
                    30,
                    u64::MAX as nat,
                )
                &&& Some(c.webhook_max_retries as nat) == setting(
                    opt_view(vars.webhook_max_retries),
                    3,
                    u32::MAX as nat,
                )
                &&& Some(c.circuit_breaker_threshold as nat) == setting(
                    opt_view(vars.circuit_breaker_threshold),
                    5,
                    u32::MAX as nat,
                )
                &&& Some(c.circuit_breaker_reset_secs as nat) == setting(
                    opt_view(vars.circuit_breaker_reset),
                    60,
                    u64::MAX as nat,
                )
            },
    {
        let targets_text = match &vars.target_emails {
            Some(t) => chars_of(t.as_str()),
            None => {
                return Err(ConfigError::Missing(owned("MAIL_LASER_TARGET_EMAILS")));
            },
        };
        if trimmed(targets_text.as_slice()).len() == 0 {
            proof {
                lemma_blank_list_empty(targets_text@);
            }
            return Err(ConfigError::EmptyTargets);
        }
        let targets = split_comma_list(targets_text.as_slice());
        if targets.len() == 0 {
            return Err(ConfigError::NoValidTargets);
        }
        let webhook_url = match &vars.webhook_url {
            Some(u) => u.clone(),
            None => {
                return Err(ConfigError::Missing(owned("MAIL_LASER_WEBHOOK_URL")));
            },
        };
        let smtp_port = match numeric_setting(&vars.port, 2525, 65535) {
            Some(p) => p as u16,
            None => {
                return Err(
                    ConfigError::InvalidPort(owned("MAIL_LASER_PORT"), value_of(&vars.port)),
                );
            },
        };
        let health_check_port = match numeric_setting(&vars.health_port, 8080, 65535) {
            Some(p) => p as u16,
            None => {
                return Err(
                    ConfigError::InvalidPort(
                        owned("MAIL_LASER_HEALTH_PORT"),
                        value_of(&vars.health_port),
                    ),
                );
            },
        };
        let webhook_timeout_secs = match numeric_setting(&vars.webhook_timeout, 30, u64::MAX) {
            Some(n) => n,
            None => {
                return Err(
                    ConfigError::InvalidNumber(
                        owned("MAIL_LASER_WEBHOOK_TIMEOUT"),
                        value_of(&vars.webhook_timeout),
                    ),
                );
            },
        };
        let webhook_max_retries = match numeric_setting(
            &vars.webhook_max_retries,
            3,
            u32::MAX as u64,
        ) {
            Some(n) => n as u32,
            None => {
                return Err(
                    ConfigError::InvalidNumber(
                        owned("MAIL_LASER_WEBHOOK_MAX_RETRIES"),
                        value_of(&vars.webhook_max_retries),
                    ),
                );
            },
        };
        let circuit_breaker_threshold = match numeric_setting(
            &vars.circuit_breaker_threshold,
            5,
            u32::MAX as u64,
        ) {
            Some(n) => n as u32,
            None => {
                return Err(
                    ConfigError::InvalidNumber(
                        owned("MAIL_LASER_CIRCUIT_BREAKER_THRESHOLD"),
                        value_of(&vars.circuit_breaker_threshold),
                    ),
                );
            },
        };
        let circuit_breaker_reset_secs = match numeric_setting(
            &vars.circuit_breaker_reset,
            60,
            u64::MAX,
        ) {
            Some(n) => n,
            None => {
                return Err(
                    ConfigError::InvalidNumber(
                        owned("MAIL_LASER_CIRCUIT_BREAKER_RESET"),
                        value_of(&vars.circuit_breaker_reset),
                    ),
                );
            },
        };
        let header_prefixes = match &vars.header_prefix {
            Some(p) => strings_of(split_comma_list(chars_of(p.as_str()).as_slice())),
            None => Vec::new(),
        };
        proof {
            assert(views(header_prefixes@) =~= prefixes_setting(opt_view(vars.header_prefix)));
        }
        Ok(
            Config {
                target_emails: strings_of(targets),
                webhook_url,
                smtp_bind_address: text_or(&vars.bind_address, "0.0.0.0"),
                smtp_port,
                health_check_bind_address: text_or(&vars.health_bind_address, "0.0.0.0"),
                health_check_port,
                header_prefixes,
                webhook_timeout_secs,
                webhook_max_retries,
                circuit_breaker_threshold,
                circuit_breaker_reset_secs,
            },
        )
    }
}

/// Trimming a piece of a blank text leaves nothing.
proof fn lemma_trim_blank(s: Seq<char>)
    requires
        forall|k: int| 0 <= k < s.len() ==> crate::text::is_space(#[trigger] s[k]),
    ensures
        trim(s).len() == 0,
    decreases s.len(),
{
    if s.len() > 0 {
        assert forall|k: int| 0 <= k < s.drop_first().len() implies crate::text::is_space(
            #[trigger] s.drop_first()[k],
        ) by {
            assert(s.drop_first()[k] == s[k + 1]);
        }
        lemma_trim_blank(s.drop_first());
    }
}

/// A text that is all white space before trimming.
proof fn lemma_trim_start_empty_means_blank(s: Seq<char>)
    requires
        crate::text::trim_start(s).len() == 0,
    ensures
        forall|k: int| 0 <= k < s.len() ==> crate::text::is_space(#[trigger] s[k]),
    decreases s.len(),
{
    if s.len() > 0 {
        lemma_trim_start_empty_means_blank(s.drop_first());
        assert forall|k: int| 0 <= k < s.len() implies crate::text::is_space(#[trigger] s[k]) by {
            if k > 0 {
                assert(s[k] == s.drop_first()[k - 1]);
            }
        }
    }
}

/// An empty trimmed end of a text means its start trimmed to nothing.
proof fn lemma_trim_end_empty(s: Seq<char>)
    requires
        crate::text::trim_end(s).len() == 0,
    ensures
        forall|k: int| 0 <= k < s.len() ==> crate::text::is_space(#[trigger] s[k]),
    decreases s.len(),
{
    if s.len() > 0 {
        lemma_trim_end_empty(s.drop_last());
        assert forall|k: int| 0 <= k < s.len() implies crate::text::is_space(#[trigger] s[k]) by {
            if k < s.len() - 1 {
                assert(s[k] == s.drop_last()[k]);
            }
        }
    }
}

/// Every piece of a text that is all white space is all white space.
proof fn lemma_blank_pieces(s: Seq<char>, sep: char)
    requires
        forall|k: int| 0 <= k < s.len() ==> crate::text::is_space(#[trigger] s[k]),
    ensures
        forall|i: int, k: int|
            0 <= i < crate::text::split_on(s, sep).len() && 0 <= k < crate::text::split_on(
                s,
                sep,
            )[i].len() ==> crate::text::is_space(#[trigger] crate::text::split_on(s, sep)[i][k]),
    decreases s.len(),
{
    if s.len() > 0 {
        let t = s.drop_last();
        assert forall|k: int| 0 <= k < t.len() implies crate::text::is_space(#[trigger] t[k]) by {
            assert(t[k] == s[k]);
        }
        lemma_blank_pieces(t, sep);
        let init = crate::text::split_on(t, sep);
        let all = crate::text::split_on(s, sep);
        assert(init.len() > 0) by {
            reveal_with_fuel(crate::text::split_on, 2);
            lemma_split_nonempty(t, sep);
        }
        assert forall|i: int, k: int| 0 <= i < all.len() && 0 <= k < all[i].len() implies crate::text::is_space(
            #[trigger] all[i][k],
        ) by {
            if s.last() == sep {
                if i < init.len() {
                    assert(all[i] == init[i]);
                }
            } else {
                if i < init.len() - 1 {
                    assert(all[i] == init[i]);
                } else {
                    assert(all[i] == init.last().push(s.last()));
                    if k < init.last().len() {
                        assert(all[i][k] == init[init.len() - 1][k]);
                    } else {
                        assert(all[i][k] == s[s.len() - 1]);
                    }
                }
            }
        }
    }
}

/// A split always has at least one piece.
proof fn lemma_split_nonempty(s: Seq<char>, sep: char)
    ensures
        crate::text::split_on(s, sep).len() > 0,
    decreases s.len(),
{
    if s.len() > 0 {
        lemma_split_nonempty(s.drop_last(), sep);
    }
}

/// A text trimmed at its start begins with a character that is not white space.
proof fn lemma_trim_start_head(s: Seq<char>)
    ensures
        crate::text::trim_start(s).len() > 0 ==> !crate::text::is_space(
            crate::text::trim_start(s)[0],
        ),
    decreases s.len(),
{
    if s.len() > 0 && crate::text::is_space(s[0]) {
        lemma_trim_start_head(s.drop_first());
    }
}

/// A list of pieces that all trim to nothing yields no item.
proof fn lemma_trimmed_nonempty_blank(pieces: Seq<Seq<char>>)
    requires
        forall|i: int| 0 <= i < pieces.len() ==> trim(#[trigger] pieces[i]).len() == 0,
    ensures
        crate::text::trimmed_nonempty(pieces).len() == 0,
    decreases pieces.len(),
{
    if pieces.len() > 0 {
        assert forall|i: int| 0 <= i < pieces.drop_last().len() implies trim(
            #[trigger] pieces.drop_last()[i],
        ).len() == 0 by {
            assert(pieces.drop_last()[i] == pieces[i]);
        }
        lemma_trimmed_nonempty_blank(pieces.drop_last());
    }
}

/// A text that trims to nothing holds no list item.
proof fn lemma_blank_list_empty(s: Seq<char>)
    requires
        trim(s).len() == 0,
    ensures
        comma_list(s).len() == 0,
{
    lemma_trim_end_empty(crate::text::trim_start(s));
    lemma_trim_start_head(s);
    lemma_trim_start_empty_means_blank(s);
    lemma_blank_pieces(s, ',');
    let pieces = crate::text::split_on(s, ',');
    assert forall|i: int| 0 <= i < pieces.len() implies trim(#[trigger] pieces[i]).len() == 0 by {
        assert forall|k: int| 0 <= k < pieces[i].len() implies crate::text::is_space(
            #[trigger] pieces[i][k],
        ) by {}
        lemma_trim_blank(pieces[i]);
    }
    lemma_trimmed_nonempty_blank(pieces);
}

} // verus!
