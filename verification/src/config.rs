//! Settings of the daemon and of the monitor.
use vstd::prelude::*;
use crate::error::NetWatchError;
use crate::text::{push_str, string_of_range, chars_of};

verus! {

/// How traffic amounts are shown.
#[derive(Debug, Clone, Copy, PartialEq, Eq, Structural)]
pub enum Units {
    Auto,
    Bytes,
    Bits,
}

impl Default for Units {
    fn default() -> (r: Self)
        ensures
            r == Units::Auto,
    {
        Units::Auto
    }
}

/// All settings, with the defaults of the configuration file format.
#[derive(Debug)]
pub struct Config {
    pub sample_interval: u64,
    pub database: String,
    pub ignore: Vec<String>,
    pub theme: String,
    pub units: Units,
    pub history_days: u32,
    pub batch_write_interval: u64,
    pub skip_loopback: bool,
}

impl Config {
    /// Equal settings: equal fields, the ignore list element by element.
    pub open spec fn same_as(self, other: Config) -> bool {
        &&& self.sample_interval == other.sample_interval
        &&& self.database == other.database
        &&& self.ignore@ == other.ignore@
        &&& self.theme == other.theme
        &&& self.units == other.units
        &&& self.history_days == other.history_days
        &&& self.batch_write_interval == other.batch_write_interval
        &&& self.skip_loopback == other.skip_loopback
    }
}

impl Clone for Config {
    fn clone(&self) -> (r: Self)
        ensures
            r.same_as(*self),
    {
        let ignore = self.ignore.clone();
        proof {
            assert(ignore@ =~= self.ignore@);
        }
        Config {
            sample_interval: self.sample_interval,
            database: self.database.clone(),
            ignore,
            theme: self.theme.clone(),
            units: self.units,
            history_days: self.history_days,
            batch_write_interval: self.batch_write_interval,
            skip_loopback: self.skip_loopback,
        }
    }
}

pub fn default_sample_interval() -> (r: u64)
    ensures
        r == 1,
{
    1
}

pub open spec fn default_database_text() -> Seq<char> {
    "~/.local/share/netwatch/netwatch.db"@
}

pub fn default_database() -> (r: String)
    ensures
        r@ == default_database_text(),
{
    "~/.local/share/netwatch/netwatch.db".to_owned()
}

pub open spec fn default_ignore_texts() -> Seq<Seq<char>> {
    seq!["docker*"@, "virbr*"@, "veth*"@]
}

/// The views of a list of strings.
pub open spec fn views(v: Seq<String>) -> Seq<Seq<char>> {
    v.map_values(|s: String| s@)
}

pub fn default_ignore() -> (r: Vec<String>)
    ensures
        views(r@) == default_ignore_texts(),
{
    let r = vec!["docker*".to_owned(), "virbr*".to_owned(), "veth*".to_owned()];
    assert(views(r@) =~= default_ignore_texts());
    r
}

pub open spec fn default_theme_text() -> Seq<char> {
    "default"@
}

pub fn default_theme() -> (r: String)
    ensures
        r@ == default_theme_text(),
{
    "default".to_owned()
}

pub fn default_history_days() -> (r: u32)
    ensures
        r == 365,
{
    365
}

pub fn default_batch_write_interval() -> (r: u64)
    ensures
        r == 5,
{
    5
}

pub fn default_skip_loopback() -> (r: bool)
    ensures
        r == true,
{
    true
}

impl Config {
    /// The settings that an empty configuration file gives.
    pub open spec fn is_default(self) -> bool {
        &&& self.sample_interval == 1
        &&& self.database@ == default_database_text()
        &&& views(self.ignore@) == default_ignore_texts()
        &&& self.theme@ == default_theme_text()
        &&& self.units == Units::Auto
        &&& self.history_days == 365
        &&& self.batch_write_interval == 5
        &&& self.skip_loopback
    }
}

impl Default for Config {
    fn default() -> (r: Self)
        ensures
            r.is_default(),
    {
        Config {
            sample_interval: default_sample_interval(),
            database: default_database(),
            ignore: default_ignore(),
            theme: default_theme(),
            units: Units::default(),
            history_days: default_history_days(),
            batch_write_interval: default_batch_write_interval(),
            skip_loopback: default_skip_loopback(),
        }
    }
}

/// Whether `pattern` is a glob pattern that `glob::Pattern::new` accepts.
pub uninterp spec fn glob_valid(pattern: Seq<char>) -> bool;

/// Whether the compiled glob `pattern` matches `name` (`Pattern::matches`).
pub uninterp spec fn glob_matches(pattern: Seq<char>, name: Seq<char>) -> bool;

/// The text of the error that `Pattern::new` reports for an invalid pattern.
pub uninterp spec fn glob_error_text(pattern: Seq<char>) -> Seq<char>;

/// Compiles `pattern` with `glob::Pattern::new` and, when it compiles, tests
/// `name` against it with `Pattern::matches`; an invalid pattern gives the
/// error's text. All three results are named: the contract ties each to its
/// arguments and says nothing of glob syntax itself.
#[verifier::external_body]
fn glob_match(pattern: &str, name: &str) -> (r: Result<bool, String>)
    ensures
        r is Ok <==> glob_valid(pattern@),
        r matches Ok(b) ==> b == glob_matches(pattern@, name@),
        r matches Err(e) ==> e@ == glob_error_text(pattern@),
{
    match glob::Pattern::new(pattern) {
        Ok(p) => Ok(p.matches(name)),
        Err(e) => Err(e.to_string()),
    }
}

/// Whether the patterns from index `i` on exclude `name`; the first invalid
/// pattern met before a match is an error.
pub open spec fn ignored_from(patterns: Seq<Seq<char>>, name: Seq<char>, i: int) -> Result<
    bool,
    Seq<char>,
>
    decreases patterns.len() - i,
{
    if i < 0 || i >= patterns.len() {
        Ok(false)
    } else if !glob_valid(patterns[i]) {
        Err(glob_error_text(patterns[i]))
    } else if glob_matches(patterns[i], name) {
        Ok(true)
    } else {
        ignored_from(patterns, name, i + 1)
    }
}

/// Whether the collector skips the interface `name`: the loopback interface
/// `lo` when `skip_loopback` is set, and any name that an ignore pattern
/// matches.
pub open spec fn ignored(cfg: Config, name: Seq<char>) -> Result<bool, Seq<char>> {
    if cfg.skip_loopback && name == "lo"@ {
        Ok(true)
    } else {
        ignored_from(views(cfg.ignore@), name, 0)
    }
}

/// A result whose error is a configuration error with the given text.
pub open spec fn config_result<T>(r: Result<T, NetWatchError>, s: Result<T, Seq<char>>) -> bool {
    match (r, s) {
        (Ok(a), Ok(b)) => a == b,
        (Err(NetWatchError::Config(m)), Err(t)) => m@ == t,
        _ => false,
    }
}

impl Config {
    pub fn should_ignore(&self, name: &str) -> (r: Result<bool, NetWatchError>)
        ensures
            config_result(r, ignored(*self, name@)),
    {
        if self.skip_loopback && crate::types::str_is(name, "lo") {
            return Ok(true);
        }
        let ghost pats = views(self.ignore@);
        let mut i: usize = 0;
        while i < self.ignore.len()
            invariant
                i <= self.ignore@.len(),
                pats == views(self.ignore@),
                ignored(*self, name@) == ignored_from(pats, name@, i as int),
            decreases self.ignore@.len() - i,
        {
            match glob_match(self.ignore[i].as_str(), name) {
                Ok(true) => {
                    return Ok(true);
                },
                Ok(false) => {},
                Err(e) => {
                    return Err(NetWatchError::Config(e));
                },
            }
            i = i + 1;
        }
        Ok(false)
    }

    /// The database path with a leading `~/` replaced by the home directory.
    pub fn database_path_in(&self, home: &str) -> (r: String)
        ensures
            r@ == expand_home(self.database@, home@),
    {
        expand_home_dir(&self.database, home)
    }
}

/// `path` with a leading `~/` replaced by `home` followed by `/`.
pub open spec fn expand_home(path: Seq<char>, home: Seq<char>) -> Seq<char> {
    if path.len() >= 2 && path[0] == '~' && path[1] == '/' {
        home + path.skip(1)
    } else {
        path
    }
}

pub fn expand_home_dir(path: &String, home: &str) -> (r: String)
    ensures
        r@ == expand_home(path@, home@),
{
    let cs = chars_of(path.as_str());
    if cs.len() >= 2 && cs[0] == '~' && cs[1] == '/' {
        let mut out = home.to_owned();
        let rest = string_of_range(&cs, 1, cs.len());
        push_str(&mut out, rest.as_str());
        assert(cs@.subrange(1, cs@.len() as int) =~= path@.skip(1));
        out
    } else {
        path.clone()
    }
}

} // verus!
