//! Settings that the process environment gives, with their defaults.

use vstd::prelude::*;

use crate::text::{
    decimal, decimal_reads_back, digits_value, is_digit, nothing_else_is_a_number, number,
    number_is_some_digits, parse_number, same_text, texts,
};

verus! {

/// The port that the server asks for first.
pub const DEFAULT_PORT: u16 = 3000;

/// How many seconds reading a request body may take.
pub const BODY_TIMEOUT_SECS: u64 = 30;

/// How many seconds an API handler may take.
pub const HANDLER_TIMEOUT_SECS: u64 = 30;

/// How many bytes a request body may hold.
pub const BODY_SIZE_LIMIT: usize = 10 * 1024 * 1024;

/// How many idle connections to the API process are kept.
pub const POOL_MAX_IDLE: usize = 32;

/// Environment variables, by name.
pub struct Vars {
    entries: Vec<(String, String)>,
}

/// What a list of variables stands for, where a later entry replaces an earlier one of the same
/// name.
spec fn entries_map(entries: Seq<(String, String)>) -> Map<Seq<char>, Seq<char>>
    decreases entries.len(),
{
    if entries.len() == 0 {
        Map::empty()
    } else {
        entries_map(entries.drop_last()).insert(entries.last().0@, entries.last().1@)
    }
}

impl View for Vars {
    type V = Map<Seq<char>, Seq<char>>;

    closed spec fn view(&self) -> Map<Seq<char>, Seq<char>> {
        entries_map(self.entries@)
    }
}

impl Vars {
    /// An environment without variables.
    pub fn new() -> (vars: Vars)
        ensures
            vars@ == Map::<Seq<char>, Seq<char>>::empty(),
    {
        Vars { entries: Vec::new() }
    }

    /// Gives a variable a value.
    pub fn set(&mut self, name: String, value: String)
        ensures
            final(self)@ == old(self)@.insert(name@, value@),
    {
        let ghost before = self.entries@;
        self.entries.push((name, value));
        assert(self.entries@.drop_last() == before);
    }

    /// The value of a variable.
    pub fn get(&self, name: &str) -> (value: Option<String>)
        ensures
            match value {
                Some(v) => self@.contains_key(name@) && v@ == self@[name@],
                None => !self@.contains_key(name@),
            },
    {
        let mut n: usize = self.entries.len();
        assert(self.entries@.take(n as int) == self.entries@);
        while n > 0
            invariant
                n <= self.entries.len(),
                self@.contains_key(name@) == entries_map(
                    self.entries@.take(n as int),
                ).contains_key(name@),
                self@.contains_key(name@) ==> self@[name@] == entries_map(
                    self.entries@.take(n as int),
                )[name@],
            decreases n,
        {
            assert(self.entries@.take(n as int).drop_last() == self.entries@.take(n - 1));
            if same_text(self.entries[n - 1].0.as_str(), name) {
                return Some(self.entries[n - 1].1.clone());
            }
            n = n - 1;
        }
        None
    }
}

/// The variables that hold settings.
pub open spec fn setting_keys() -> Seq<Seq<char>> {
    seq![
        "PORT"@,
        "BINI_API_DIR"@,
        "BINI_DIST_DIR"@,
        "BINI_BODY_TIMEOUT_SECS"@,
        "BINI_HANDLER_TIMEOUT_SECS"@,
        "BINI_BODY_SIZE_LIMIT"@,
        "BINI_POOL_MAX_IDLE"@,
    ]
}

/// Lists the variables that hold settings. No other variable has a say in them.
pub fn setting_names() -> (names: Vec<String>)
    ensures
        texts(names@) == setting_keys(),
{
    let mut names: Vec<String> = Vec::new();
    names.push("PORT".to_owned());
    names.push("BINI_API_DIR".to_owned());
    names.push("BINI_DIST_DIR".to_owned());
    names.push("BINI_BODY_TIMEOUT_SECS".to_owned());
    names.push("BINI_HANDLER_TIMEOUT_SECS".to_owned());
    names.push("BINI_BODY_SIZE_LIMIT".to_owned());
    names.push("BINI_POOL_MAX_IDLE".to_owned());
    assert(texts(names@) =~= setting_keys());
    names
}

/// The number that a variable holds, or a default where there is none that fits.
pub open spec fn number_or(
    vars: Map<Seq<char>, Seq<char>>,
    key: Seq<char>,
    max: nat,
    default: nat,
) -> nat {
    if vars.contains_key(key) && number(vars[key], max) is Some {
        number(vars[key], max)->0
    } else {
        default
    }
}

/// The text that a variable holds, or a default where there is none.
pub open spec fn text_or(
    vars: Map<Seq<char>, Seq<char>>,
    key: Seq<char>,
    default: Seq<char>,
) -> Seq<char> {
    if vars.contains_key(key) {
        vars[key]
    } else {
        default
    }
}

fn number_setting(vars: &Vars, key: &str, max: u64, default: u64) -> (n: u64)
    requires
        default <= max,
    ensures
        n == number_or(vars@, key@, max as nat, default as nat),
        n <= max,
{
    match vars.get(key) {
        Some(text) => match parse_number(text.as_str(), max) {
            Some(n) => n,
            None => default,
        },
        None => default,
    }
}

/// Reads a 64 bit setting.
pub fn env_u64(vars: &Vars, key: &str, default: u64) -> (n: u64)
    ensures
        n == number_or(vars@, key@, u64::MAX as nat, default as nat),
{
    number_setting(vars, key, u64::MAX, default)
}

/// Reads a setting that counts bytes or things in memory.
pub fn env_usize(vars: &Vars, key: &str, default: usize) -> (n: usize)
    ensures
        n == number_or(vars@, key@, usize::MAX as nat, default as nat),
{
    number_setting(vars, key, usize::MAX as u64, default as u64) as usize
}

/// The limits that the server works under.
#[derive(Clone, Copy, Debug, PartialEq, Eq, Structural)]
pub struct Config {
    pub body_timeout_secs: u64,
    pub handler_timeout_secs: u64,
    pub body_size_limit: usize,
    pub pool_max_idle_per_host: usize,
}

impl Config {
    /// Reads the limits. A variable that is missing, or that holds no number in range, leaves the
    /// default in place.
    pub fn from_env(vars: &Vars) -> (config: Config)
        ensures
            config.body_timeout_secs == number_or(
                vars@,
                "BINI_BODY_TIMEOUT_SECS"@,
                u64::MAX as nat,
                BODY_TIMEOUT_SECS as nat,
            ),
            config.handler_timeout_secs == number_or(
                vars@,
                "BINI_HANDLER_TIMEOUT_SECS"@,
                u64::MAX as nat,
                HANDLER_TIMEOUT_SECS as nat,
            ),
            config.body_size_limit == number_or(
                vars@,
                "BINI_BODY_SIZE_LIMIT"@,
                usize::MAX as nat,
                BODY_SIZE_LIMIT as nat,
            ),
            config.pool_max_idle_per_host == number_or(
                vars@,
                "BINI_POOL_MAX_IDLE"@,
                usize::MAX as nat,
                POOL_MAX_IDLE as nat,
            ),
    {
        Config {
            body_timeout_secs: env_u64(vars, "BINI_BODY_TIMEOUT_SECS", BODY_TIMEOUT_SECS),
            handler_timeout_secs: env_u64(vars, "BINI_HANDLER_TIMEOUT_SECS", HANDLER_TIMEOUT_SECS),
            body_size_limit: env_usize(vars, "BINI_BODY_SIZE_LIMIT", BODY_SIZE_LIMIT),
            pool_max_idle_per_host: env_usize(vars, "BINI_POOL_MAX_IDLE", POOL_MAX_IDLE),
        }
    }
}

/// The port that the server asks for first.
pub fn default_port(vars: &Vars) -> (port: u16)
    ensures
        port == number_or(vars@, "PORT"@, u16::MAX as nat, DEFAULT_PORT as nat),
{
    number_setting(vars, "PORT", u16::MAX as u64, DEFAULT_PORT as u64) as u16
}

/// The directory that holds the API handlers.
pub fn api_dir(vars: &Vars) -> (dir: String)
    ensures
        dir@ == text_or(vars@, "BINI_API_DIR"@, "src/app/api"@),
{
    match vars.get("BINI_API_DIR") {
        Some(dir) => dir,
        None => "src/app/api".to_owned(),
    }
}

/// Where the built site is.
pub enum DistDir {
    /// The path that was configured.
    Configured(String),
    /// A path below the working directory.
    Below(String),
}

/// Finds out where the built site is.
pub fn dist_dir(vars: &Vars) -> (dir: DistDir)
    ensures
        match dir {
            DistDir::Configured(path) => vars@.contains_key("BINI_DIST_DIR"@) && path@
                == vars@["BINI_DIST_DIR"@],
            DistDir::Below(path) => !vars@.contains_key("BINI_DIST_DIR"@) && path@ == "dist"@,
        },
{
    match vars.get("BINI_DIST_DIR") {
        Some(dir) => DistDir::Configured(dir),
        None => DistDir::Below("dist".to_owned()),
    }
}

/// Writing a limit in decimal into its variable sets that limit.
pub proof fn written_limit_is_read(
    vars: Map<Seq<char>, Seq<char>>,
    key: Seq<char>,
    n: nat,
    max: nat,
    default: nat,
)
    requires
        n <= max,
    ensures
        number_or(vars.insert(key, decimal(n)), key, max, default) == n,
{
    decimal_reads_back(n, max);
}

/// The defaults: port 3000, thirty seconds for a body and for a handler, ten megabytes for a body,
/// and 32 idle connections.
pub proof fn defaults_are_the_documented_ones()
    ensures
        DEFAULT_PORT == 3000,
        BODY_TIMEOUT_SECS == 30,
        HANDLER_TIMEOUT_SECS == 30,
        BODY_SIZE_LIMIT == 10485760,
        POOL_MAX_IDLE == 32,
{
}

/// Every variable that has a say in the settings is looked up, and no other one is.
pub proof fn settings_are_these_variables(name: Seq<char>)
    ensures
        setting_keys().contains(name) <==> {
            ||| name == "PORT"@
            ||| name == "BINI_API_DIR"@
            ||| name == "BINI_DIST_DIR"@
            ||| name == "BINI_BODY_TIMEOUT_SECS"@
            ||| name == "BINI_HANDLER_TIMEOUT_SECS"@
            ||| name == "BINI_BODY_SIZE_LIMIT"@
            ||| name == "BINI_POOL_MAX_IDLE"@
        },
{
    let keys = setting_keys();
    assert(keys[0] == "PORT"@);
    assert(keys[1] == "BINI_API_DIR"@);
    assert(keys[2] == "BINI_DIST_DIR"@);
    assert(keys[3] == "BINI_BODY_TIMEOUT_SECS"@);
    assert(keys[4] == "BINI_HANDLER_TIMEOUT_SECS"@);
    assert(keys[5] == "BINI_BODY_SIZE_LIMIT"@);
    assert(keys[6] == "BINI_POOL_MAX_IDLE"@);
}

/// A variable that holds digits, with or without a plus sign, sets a limit to what they stand for,
/// as long as that is in range; out of range it leaves the default in place.
pub proof fn written_digits_are_read(
    vars: Map<Seq<char>, Seq<char>>,
    key: Seq<char>,
    digits: Seq<char>,
    max: nat,
    default: nat,
)
    requires
        vars.contains_key(key),
        vars[key] == digits || vars[key] == seq!['+'] + digits,
        digits.len() > 0,
        forall|i: int| 0 <= i < digits.len() ==> is_digit(#[trigger] digits[i]),
    ensures
        number_or(vars, key, max, default) == if digits_value(digits) <= max {
            digits_value(digits)
        } else {
            default
        },
{
    number_is_some_digits(vars[key], digits, max);
}

/// A variable that is missing, empty, or holds anything but digits after its first character leaves
/// the default in place, and so does one that begins with anything but a digit or a plus sign.
pub proof fn unreadable_limit_is_the_default(
    vars: Map<Seq<char>, Seq<char>>,
    key: Seq<char>,
    max: nat,
    default: nat,
)
    requires
        vars.contains_key(key) ==> {
            ||| vars[key].len() == 0
            ||| !is_digit(vars[key].last())
            ||| vars[key][0] != '+' && !is_digit(vars[key][0])
            ||| exists|i: int| 0 < i < vars[key].len() && !is_digit(#[trigger] vars[key][i])
        },
    ensures
        number_or(vars, key, max, default) == default,
{
    if vars.contains_key(key) && number(vars[key], max) is Some {
        nothing_else_is_a_number(vars[key], max);
    }
}

/// A text setting is what its variable holds, whatever that is; without the variable it is the
/// default.
pub proof fn written_text_is_read(
    vars: Map<Seq<char>, Seq<char>>,
    key: Seq<char>,
    text: Seq<char>,
    default: Seq<char>,
)
    ensures
        text_or(vars.insert(key, text), key, default) == text,
        text_or(vars.remove(key), key, default) == default,
{
}

/// No variable but its own has a say in a setting.
pub proof fn other_variables_have_no_say(
    vars: Map<Seq<char>, Seq<char>>,
    key: Seq<char>,
    other: Seq<char>,
    text: Seq<char>,
    max: nat,
    number_default: nat,
    text_default: Seq<char>,
)
    requires
        other != key,
    ensures
        number_or(vars.insert(other, text), key, max, number_default) == number_or(
            vars,
            key,
            max,
            number_default,
        ),
        text_or(vars.insert(other, text), key, text_default) == text_or(vars, key, text_default),
{
}

} // verus!
