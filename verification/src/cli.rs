//! The decisions of the command line: who the user is, which switches the
//! flags turn, and how wide the avatar is drawn.
use vstd::prelude::*;

use crate::config::Config;
use crate::text::{chars_of, find_chars, find_from, lines, slice_chars, split_lines, string_of, trim, trim_chars, views};

verus! {

/// The user that `git config --global github.user` printed: its output
/// trimmed, when that is not empty.
pub open spec fn git_config_user(out: Seq<char>) -> Option<Seq<char>> {
    if trim(out).len() > 0 {
        Some(trim(out))
    } else {
        None
    }
}

/// The user named by `gh auth status`: on the first line that says
/// `Logged in to github.com as `, what follows it, trimmed.
pub open spec fn gh_status_user_from(ls: Seq<Seq<char>>) -> Option<Seq<char>>
    decreases ls.len(),
{
    if ls.len() == 0 {
        None
    } else {
        match find_from(ls[0], "Logged in to github.com as "@, 0) {
            Some(k) => Some(trim(ls[0].skip(k + "Logged in to github.com as "@.len()))),
            None => gh_status_user_from(ls.drop_first()),
        }
    }
}

/// The user from the output of `git config --global github.user`.
pub fn user_from_git_config(out: &str) -> (r: Option<String>)
    ensures
        r matches Some(u) ==> git_config_user(out@) == Some(u@),
        r is None ==> git_config_user(out@) is None,
{
    let v = chars_of(out);
    let t = trim_chars(v.as_slice());
    if t.len() > 0 {
        Some(string_of(t.as_slice()))
    } else {
        None
    }
}

/// The user from the output of `gh auth status`.
pub fn user_from_gh_status(out: &str) -> (r: Option<String>)
    ensures
        r matches Some(u) ==> gh_status_user_from(lines(out@)) == Some(u@),
        r is None ==> gh_status_user_from(lines(out@)) is None,
{
    let v = chars_of(out);
    let ls = split_lines(v.as_slice());
    let key = chars_of("Logged in to github.com as ");
    let mut i: usize = 0;
    assert(views(ls@).skip(0) =~= views(ls@));
    while i < ls.len()
        invariant
            i <= ls@.len(),
            key@ == "Logged in to github.com as "@,
            views(ls@) == lines(out@),
            gh_status_user_from(lines(out@)) == gh_status_user_from(views(ls@).skip(i as int)),
        decreases ls@.len() - i,
    {
        assert(views(ls@).skip(i as int)[0] == ls@[i as int]@);
        assert(views(ls@).skip(i as int).drop_first() =~= views(ls@).skip(i + 1));
        match find_chars(ls[i].as_slice(), key.as_slice(), 0) {
            Some(k) => {
                proof {
                    crate::text::lemma_find_from_found(ls@[i as int]@, key@, 0);
                }
                let line = &ls[i];
                assert(k + key@.len() <= line@.len());
                assert(line@.len() == line.len());
                let rest = slice_chars(line.as_slice(), k + key.len(), line.len());
                assert(rest@ =~= line@.skip(k + key@.len()));
                let t = trim_chars(rest.as_slice());
                return Some(string_of(t.as_slice()));
            },
            None => {},
        }
        i = i + 1;
    }
    assert(views(ls@).skip(i as int).len() == 0);
    None
}

/// The user, in the order the documentation gives: the `-u` flag, then
/// `GHFETCH_USERNAME`, then `git config`, then `gh auth status`, then the
/// configuration file; empty values do not count.
pub open spec fn chosen_user(
    flag: Option<Seq<char>>,
    env: Option<Seq<char>>,
    git: Option<Seq<char>>,
    gh: Option<Seq<char>>,
    configured: Seq<char>,
) -> Option<Seq<char>> {
    if flag is Some && flag->0.len() > 0 {
        flag
    } else if env is Some && env->0.len() > 0 {
        env
    } else if git is Some && git->0.len() > 0 {
        git
    } else if gh is Some && gh->0.len() > 0 {
        gh
    } else if configured.len() > 0 {
        Some(configured)
    } else {
        None
    }
}

/// The view of an optional string.
pub open spec fn opt_seq(s: Option<String>) -> Option<Seq<char>> {
    match s {
        Some(t) => Some(t@),
        None => None,
    }
}

/// The user to show, `None` when no source names one.
pub fn resolve_username(
    flag: Option<String>,
    env: Option<String>,
    git: Option<String>,
    gh: Option<String>,
    configured: String,
) -> (r: Option<String>)
    ensures
        opt_seq(r) == chosen_user(opt_seq(flag), opt_seq(env), opt_seq(git), opt_seq(gh), configured@),
{
    if let Some(u) = flag {
        if u.as_str().unicode_len() > 0 {
            return Some(u);
        }
    }
    if let Some(u) = env {
        if u.as_str().unicode_len() > 0 {
            return Some(u);
        }
    }
    if let Some(u) = git {
        if u.as_str().unicode_len() > 0 {
            return Some(u);
        }
    }
    if let Some(u) = gh {
        if u.as_str().unicode_len() > 0 {
            return Some(u);
        }
    }
    if configured.as_str().unicode_len() > 0 {
        Some(configured)
    } else {
        None
    }
}

/// The settings after the command-line switches: each `--no-...` switch
/// turns its part off, `-w` and `-m` set the avatar width and the number of
/// weeks, `--nerd-font-icons` turns the glyphs on; what a switch does not
/// name stays as it was.
pub fn apply_flags(
    config: Config,
    no_avatar: bool,
    no_system: bool,
    no_header: bool,
    no_contributions: bool,
    avatar_width: Option<usize>,
    max_weeks: Option<usize>,
    nerd_font_icons: bool,
) -> (r: Config)
    ensures
        r.display.show_avatar == (config.display.show_avatar && !no_avatar),
        r.display.show_system_info == (config.display.show_system_info && !no_system),
        r.display.show_header == (config.display.show_header && !no_header),
        r.display.show_contributions == (config.display.show_contributions && !no_contributions),
        r.display.show_greeting == config.display.show_greeting,
        r.display.avatar_width == (if avatar_width is Some {
            avatar_width
        } else {
            config.display.avatar_width
        }),
        r.display.max_contrib_weeks == (match max_weeks {
            Some(w) => w,
            None => config.display.max_contrib_weeks,
        }),
        r.display.nerd_font_icons == (config.display.nerd_font_icons || nerd_font_icons),
        r.username == config.username,
        r.github_token == config.github_token,
        r.cache == config.cache,
        r.icons == config.icons,
{
    let mut config = config;
    if no_avatar {
        config.display.show_avatar = false;
    }
    if no_system {
        config.display.show_system_info = false;
    }
    if no_header {
        config.display.show_header = false;
    }
    if no_contributions {
        config.display.show_contributions = false;
    }
    if let Some(w) = avatar_width {
        config.display.avatar_width = Some(w);
    }
    if let Some(w) = max_weeks {
        config.display.max_contrib_weeks = w;
    }
    if nerd_font_icons {
        config.display.nerd_font_icons = true;
    }
    config
}

/// The avatar's width in pixels: the configured one, or else the height of
/// the right column, kept between 16 and half of what 45 columns leave of
/// the terminal (but at least 16).
pub open spec fn avatar_width_for(configured: Option<usize>, right_height: nat, term_width: nat) -> nat {
    match configured {
        Some(w) => w as nat,
        None => {
            let room: nat = ((if term_width >= 45 {
                term_width - 45
            } else {
                0
            }) / 2) as nat;
            let hi: nat = if room >= 16 {
                room
            } else {
                16
            };
            if right_height < 16 {
                16
            } else if right_height > hi {
                hi
            } else {
                right_height
            }
        },
    }
}

/// The avatar's width in pixels.
pub fn choose_avatar_width(configured: Option<usize>, right_height: usize, term_width: usize) -> (w:
    usize)
    ensures
        w == avatar_width_for(configured, right_height as nat, term_width as nat),
{
    match configured {
        Some(w) => w,
        None => {
            let room = term_width.saturating_sub(45) / 2;
            let hi = if room >= 16 {
                room
            } else {
                16
            };
            if right_height < 16 {
                16
            } else if right_height > hi {
                hi
            } else {
                right_height
            }
        },
    }
}

} // verus!
