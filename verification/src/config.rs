//! Settings: their defaults, the overrides from the environment, and where
//! the cache lives.
use vstd::prelude::*;

use crate::text::{chars_of, push_char, push_str, slice_chars, starts_with, str_eq, string_of};

verus! {

/// All settings.
pub struct Config {
    pub username: String,
    pub github_token: Option<String>,
    pub cache: CacheConfig,
    pub display: DisplayConfig,
    pub icons: IconsConfig,
}

/// How long each kind of answer is kept, and where.
pub struct CacheConfig {
    pub avatar_ttl_hours: u64,
    pub profile_ttl_hours: u64,
    pub contributions_ttl_hours: u64,
    pub cache_dir: String,
}

/// What is shown.
pub struct DisplayConfig {
    pub show_avatar: bool,
    pub show_system_info: bool,
    pub show_header: bool,
    pub show_greeting: bool,
    pub show_contributions: bool,
    pub avatar_width: Option<usize>,
    pub nerd_font_icons: bool,
    pub max_contrib_weeks: usize,
}

/// The icons: the one used for every line, and the Nerd Font glyphs chosen
/// for some keys, as (key, glyph) pairs (a key stands once, as in a map).
pub struct IconsConfig {
    pub ghost_icon: String,
    pub overrides: Vec<(String, String)>,
}

/// No key stands twice among the icon overrides: they form a map from key
/// to glyph.
pub open spec fn keys_unique(overrides: Seq<(String, String)>) -> bool {
    forall|i: int, j: int|
        0 <= i < j < overrides.len() ==> #[trigger] overrides[i].0@ != #[trigger] overrides[j].0@
}

/// The default cache directory, relative to the user's cache directory.
pub open spec fn default_cache_dir_seq() -> Seq<char> {
    seq!['.', 'c', 'a', 'c', 'h', 'e', '/', 'g', 'h', 'f', 'e', 't', 'c', 'h']
}

/// No user name until one is configured or detected.
pub fn default_username() -> (s: String)
    ensures
        s@.len() == 0,
{
    String::new()
}

/// Avatars are kept 24 hours.
pub fn default_cache_ttl_avatar() -> (h: u64)
    ensures
        h == 24,
{
    24
}

/// Profiles are kept 1 hour.
pub fn default_cache_ttl_profile() -> (h: u64)
    ensures
        h == 1,
{
    1
}

/// Contribution calendars are kept 2 hours.
pub fn default_cache_ttl_contrib() -> (h: u64)
    ensures
        h == 2,
{
    2
}

/// `.cache/ghfetch`, which stands for the user's cache directory.
pub fn default_cache_dir() -> (s: String)
    ensures
        s@ == default_cache_dir_seq(),
{
    let v = vec!['.', 'c', 'a', 'c', 'h', 'e', '/', 'g', 'h', 'f', 'e', 't', 'c', 'h'];
    assert(v@ =~= default_cache_dir_seq());
    string_of(v.as_slice())
}

/// Switches that are on unless configured off.
pub fn default_true() -> (b: bool)
    ensures
        b,
{
    true
}

/// At most 53 weeks of contributions.
pub fn default_max_contrib_weeks() -> (n: usize)
    ensures
        n == 53,
{
    53
}

/// The ghost emoji.
pub fn default_ghost_icon() -> (s: String)
    ensures
        s@ == crate::theme::ghost_icon(),
{
    String::from_str("\u{1F47B}")
}

impl Default for CacheConfig {
    fn default() -> (c: Self)
        ensures
            c.avatar_ttl_hours == 24,
            c.profile_ttl_hours == 1,
            c.contributions_ttl_hours == 2,
            c.cache_dir@ == default_cache_dir_seq(),
    {
        CacheConfig {
            avatar_ttl_hours: default_cache_ttl_avatar(),
            profile_ttl_hours: default_cache_ttl_profile(),
            contributions_ttl_hours: default_cache_ttl_contrib(),
            cache_dir: default_cache_dir(),
        }
    }
}

impl Default for DisplayConfig {
    fn default() -> (d: Self)
        ensures
            d.show_avatar,
            d.show_system_info,
            !d.show_header,
            d.show_greeting,
            d.show_contributions,
            d.avatar_width is None,
            !d.nerd_font_icons,
            d.max_contrib_weeks == 53,
    {
        DisplayConfig {
            show_avatar: true,
            show_system_info: true,
            show_header: false,
            show_greeting: true,
            show_contributions: true,
            avatar_width: None,
            nerd_font_icons: false,
            max_contrib_weeks: default_max_contrib_weeks(),
        }
    }
}

impl Default for IconsConfig {
    fn default() -> (i: Self)
        ensures
            i.ghost_icon@ == crate::theme::ghost_icon(),
            i.overrides@.len() == 0,
            keys_unique(i.overrides@),
    {
        IconsConfig { ghost_icon: default_ghost_icon(), overrides: Vec::new() }
    }
}

/// The settings when nothing is configured.
pub open spec fn is_default_config(c: Config) -> bool {
    &&& c.username@.len() == 0
    &&& c.github_token is None
    &&& c.cache.avatar_ttl_hours == 24
    &&& c.cache.profile_ttl_hours == 1
    &&& c.cache.contributions_ttl_hours == 2
    &&& c.cache.cache_dir@ == default_cache_dir_seq()
    &&& c.display.show_avatar
    &&& c.display.show_system_info
    &&& !c.display.show_header
    &&& c.display.show_greeting
    &&& c.display.show_contributions
    &&& c.display.avatar_width is None
    &&& !c.display.nerd_font_icons
    &&& c.display.max_contrib_weeks == 53
    &&& c.icons.ghost_icon@ == crate::theme::ghost_icon()
    &&& c.icons.overrides@.len() == 0
}

impl Default for Config {
    fn default() -> (c: Self)
        ensures
            is_default_config(c),
    {
        Config {
            username: default_username(),
            github_token: None,
            cache: CacheConfig::default(),
            display: DisplayConfig::default(),
            icons: IconsConfig::default(),
        }
    }
}

// ---------------------------------------------------------------------------
// Paths
// ---------------------------------------------------------------------------
/// `base` joined with `rest` as `Path::join` does on Unix: an absolute
/// `rest` replaces `base`; otherwise one `/` separates them unless `base` is
/// empty or already ends with one.
pub open spec fn path_join(base: Seq<char>, rest: Seq<char>) -> Seq<char> {
    if rest.len() > 0 && rest[0] == '/' {
        rest
    } else if base.len() == 0 {
        rest
    } else if base.last() == '/' {
        base + rest
    } else {
        base + seq!['/'] + rest
    }
}

/// `base` joined with `rest`.
pub fn join_path(base: &str, rest: &str) -> (r: String)
    ensures
        r@ == path_join(base@, rest@),
{
    let b = chars_of(base);
    let t = chars_of(rest);
    if t.len() > 0 && t[0] == '/' {
        return string_of(t.as_slice());
    }
    if b.len() == 0 {
        return string_of(t.as_slice());
    }
    let mut r = string_of(b.as_slice());
    if b[b.len() - 1] != '/' {
        push_char(&mut r, '/');
    }
    push_str(&mut r, rest);
    r
}

/// Where the cache lives, from the configured `raw` value: `~` and `~/`
/// stand for the home directory, the default `.cache/ghfetch` for `ghfetch`
/// in the user's cache directory, and another relative path starting with
/// `.` is taken from the home directory; a directory that is not known
/// leaves the value to the next rule, and in the end as it is.
pub open spec fn cache_dir_for(raw: Seq<char>, home: Option<Seq<char>>, cache: Option<Seq<char>>) -> Seq<
    char,
> {
    if starts_with(raw, seq!['~']) && home is Some {
        let rest = if starts_with(raw, seq!['~', '/']) {
            raw.skip(2)
        } else {
            raw.skip(1)
        };
        path_join(home->0, rest)
    } else if raw == default_cache_dir_seq() && cache is Some {
        path_join(cache->0, seq!['g', 'h', 'f', 'e', 't', 'c', 'h'])
    } else if starts_with(raw, seq!['.']) && home is Some {
        path_join(home->0, raw)
    } else {
        raw
    }
}

/// The view of an optional string.
pub open spec fn opt_view(s: Option<String>) -> Option<Seq<char>> {
    match s {
        Some(t) => Some(t@),
        None => None,
    }
}

/// Where the cache lives, given the home and cache directories.
pub fn resolve_cache_dir_from(raw: &str, home: Option<String>, cache: Option<String>) -> (r:
    String)
    ensures
        r@ == cache_dir_for(raw@, opt_view(home), opt_view(cache)),
{
    let v = chars_of(raw);
    if v.len() > 0 && v[0] == '~' {
        assert(v@.take(1) =~= seq!['~']);
        if let Some(h) = &home {
            let rest = if v.len() > 1 && v[1] == '/' {
                assert(v@.take(2) =~= seq!['~', '/']);
                slice_chars(v.as_slice(), 2, v.len())
            } else {
                assert(!starts_with(v@, seq!['~', '/']));
                slice_chars(v.as_slice(), 1, v.len())
            };
            let rest_s = string_of(rest.as_slice());
            return join_path(h.as_str(), rest_s.as_str());
        }
    } else {
        proof {
            if v@.len() > 0 {
                assert(v@.take(1)[0] == v@[0]);
            }
        }
        assert(!starts_with(v@, seq!['~']));
    }
    let dflt = default_cache_dir();
    if str_eq(raw, dflt.as_str()) {
        if let Some(c) = &cache {
            let name = vec!['g', 'h', 'f', 'e', 't', 'c', 'h'];
            assert(name@ =~= seq!['g', 'h', 'f', 'e', 't', 'c', 'h']);
            let name_s = string_of(name.as_slice());
            return join_path(c.as_str(), name_s.as_str());
        }
    }
    if v.len() > 0 && v[0] == '.' {
        assert(v@.take(1) =~= seq!['.']);
        if let Some(h) = &home {
            return join_path(h.as_str(), raw);
        }
    } else {
        proof {
            if v@.len() > 0 {
                assert(v@.take(1)[0] == v@[0]);
            }
        }
        assert(!starts_with(v@, seq!['.']));
    }
    string_of(v.as_slice())
}

/// `dirs::home_dir`: the user's home directory, when one is known. It
/// depends on the environment, so nothing is stated of it.
#[verifier::external_body]
fn home_dir() -> Option<String> {
    dirs::home_dir().map(|p| p.to_string_lossy().to_string())
}

/// `dirs::cache_dir`: the user's cache directory, when one is known. It
/// depends on the environment, so nothing is stated of it.
#[verifier::external_body]
fn cache_dir() -> Option<String> {
    dirs::cache_dir().map(|p| p.to_string_lossy().to_string())
}

/// Where the cache lives, from the configured value and this user's
/// directories.
pub fn resolve_cache_dir(raw: &str) -> (r: String)
    ensures
        exists|home: Option<Seq<char>>, cache: Option<Seq<char>>|
            r@ == cache_dir_for(raw@, home, cache),
{
    let home = home_dir();
    let cache = cache_dir();
    let ghost h = opt_view(home);
    let ghost c = opt_view(cache);
    let r = resolve_cache_dir_from(raw, home, cache);
    assert(r@ == cache_dir_for(raw@, h, c));
    r
}

/// The settings after the environment has spoken: `GITHUB_TOKEN` (`token`)
/// replaces the token, `GHFETCH_USERNAME` (`username`) the user name, and
/// the cache directory is resolved.
pub fn apply_environment(cfg: Config, token: Option<String>, username: Option<String>) -> (r:
    Config)
    ensures
        r.github_token == (match token {
            Some(t) => Some(t),
            None => cfg.github_token,
        }),
        r.username@ == (match username {
            Some(u) => u@,
            None => cfg.username@,
        }),
        exists|home: Option<Seq<char>>, cache: Option<Seq<char>>|
            r.cache.cache_dir@ == cache_dir_for(cfg.cache.cache_dir@, home, cache),
        r.cache.avatar_ttl_hours == cfg.cache.avatar_ttl_hours,
        r.cache.profile_ttl_hours == cfg.cache.profile_ttl_hours,
        r.cache.contributions_ttl_hours == cfg.cache.contributions_ttl_hours,
        r.display == cfg.display,
        r.icons == cfg.icons,
{
    let mut cfg = cfg;
    if let Some(t) = token {
        cfg.github_token = Some(t);
    }
    if let Some(u) = username {
        cfg.username = u;
    }
    let dir = resolve_cache_dir(cfg.cache.cache_dir.as_str());
    cfg.cache.cache_dir = dir;
    cfg
}

} // verus!
