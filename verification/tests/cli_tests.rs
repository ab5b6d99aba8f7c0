use ghfetch::cli::{
    apply_flags, choose_avatar_width, resolve_username, user_from_gh_status, user_from_git_config,
};
use ghfetch::config::Config;
use ghfetch::greeting::{generate, greeting_at};

fn s(x: &str) -> Option<String> {
    Some(x.to_string())
}

#[test]
fn git_config_output() {
    assert_eq!(user_from_git_config("octocat\n"), s("octocat"));
    assert_eq!(user_from_git_config("  \n"), None);
    assert_eq!(user_from_git_config(""), None);
}

#[test]
fn gh_status_output() {
    let out = "github.com\n  \u{2713} Logged in to github.com as hubot (oauth_token)\n  \u{2713} Git operations";
    assert_eq!(user_from_gh_status(out), s("hubot (oauth_token)"));
    assert_eq!(user_from_gh_status("Logged in to github.com as   mona  \n"), s("mona"));
    assert_eq!(user_from_gh_status("not logged in"), None);
}

#[test]
fn username_order() {
    let cfg = "file".to_string();
    assert_eq!(resolve_username(s("flag"), s("env"), s("git"), s("gh"), cfg.clone()), s("flag"));
    assert_eq!(resolve_username(None, s("env"), s("git"), s("gh"), cfg.clone()), s("env"));
    assert_eq!(resolve_username(None, None, s("git"), s("gh"), cfg.clone()), s("git"));
    assert_eq!(resolve_username(None, None, None, s("gh"), cfg.clone()), s("gh"));
    assert_eq!(resolve_username(None, None, None, None, cfg.clone()), s("file"));
    assert_eq!(resolve_username(s(""), s(""), None, None, String::new()), None);
}

#[test]
fn flags_override_config() {
    let c = apply_flags(Config::default(), true, false, true, true, Some(50), Some(10), true);
    assert!(!c.display.show_avatar);
    assert!(c.display.show_system_info);
    assert!(!c.display.show_header);
    assert!(!c.display.show_contributions);
    assert_eq!(c.display.avatar_width, Some(50));
    assert_eq!(c.display.max_contrib_weeks, 10);
    assert!(c.display.nerd_font_icons);
    let d = apply_flags(Config::default(), false, false, false, false, None, None, false);
    assert!(d.display.show_avatar);
    assert_eq!(d.display.avatar_width, None);
    assert_eq!(d.display.max_contrib_weeks, 53);
}

#[test]
fn avatar_width() {
    assert_eq!(choose_avatar_width(Some(7), 22, 200), 7);
    assert_eq!(choose_avatar_width(None, 22, 200), 22);
    assert_eq!(choose_avatar_width(None, 10, 200), 16);
    assert_eq!(choose_avatar_width(None, 60, 120), 37);
    assert_eq!(choose_avatar_width(None, 60, 40), 16);
}

#[test]
fn greetings_by_hour() {
    let g = greeting_at("Ana", 0);
    assert_eq!(g.emoji, "\u{1F305}");
    assert_eq!(g.text, "Buenos d\u{ed}as, Ana");
    assert_eq!(greeting_at("Ana", 11).text, "Buenos d\u{ed}as, Ana");
    let g = greeting_at("Ana", 12);
    assert_eq!(g.emoji, "\u{2600}\u{FE0F}");
    assert_eq!(g.text, "Buenas tardes, Ana");
    assert_eq!(greeting_at("Ana", 17).text, "Buenas tardes, Ana");
    let g = greeting_at("Ana", 18);
    assert_eq!(g.emoji, "\u{1F319}");
    assert_eq!(g.text, "Buenas noches, Ana");
    assert!(generate("Ana").text.ends_with(", Ana"));
}
