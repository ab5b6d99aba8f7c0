use ghfetch::cache::Cache;
use ghfetch::config::{
    apply_environment, default_cache_dir, default_cache_ttl_avatar, default_cache_ttl_contrib,
    default_cache_ttl_profile, default_ghost_icon, default_max_contrib_weeks, default_true,
    default_username, join_path, resolve_cache_dir, resolve_cache_dir_from, CacheConfig, Config,
    DisplayConfig, IconsConfig,
};

#[test]
fn defaults_match_documentation() {
    let c = Config::default();
    assert_eq!(c.username, "");
    assert!(c.github_token.is_none());
    assert_eq!(c.cache.avatar_ttl_hours, 24);
    assert_eq!(c.cache.profile_ttl_hours, 1);
    assert_eq!(c.cache.contributions_ttl_hours, 2);
    assert_eq!(c.cache.cache_dir, ".cache/ghfetch");
    assert!(c.display.show_avatar);
    assert!(c.display.show_system_info);
    assert!(!c.display.show_header);
    assert!(c.display.show_greeting);
    assert!(c.display.show_contributions);
    assert!(c.display.avatar_width.is_none());
    assert!(!c.display.nerd_font_icons);
    assert_eq!(c.display.max_contrib_weeks, 53);
    assert_eq!(c.icons.ghost_icon, "\u{1F47B}");
    assert!(c.icons.overrides.is_empty());
}

#[test]
fn default_helpers() {
    assert_eq!(default_username(), "");
    assert_eq!(default_cache_ttl_avatar(), 24);
    assert_eq!(default_cache_ttl_profile(), 1);
    assert_eq!(default_cache_ttl_contrib(), 2);
    assert_eq!(default_cache_dir(), ".cache/ghfetch");
    assert!(default_true());
    assert_eq!(default_max_contrib_weeks(), 53);
    assert_eq!(default_ghost_icon(), "\u{1F47B}");
    assert_eq!(CacheConfig::default().cache_dir, ".cache/ghfetch");
    assert_eq!(DisplayConfig::default().max_contrib_weeks, 53);
    assert_eq!(IconsConfig::default().ghost_icon, "\u{1F47B}");
}

#[test]
fn joining_paths() {
    assert_eq!(join_path("/home/a", "x"), "/home/a/x");
    assert_eq!(join_path("/home/a/", "x"), "/home/a/x");
    assert_eq!(join_path("/home/a", "/abs"), "/abs");
    assert_eq!(join_path("", "x"), "x");
    assert_eq!(join_path("/home/a", ""), "/home/a/");
}

#[test]
fn cache_dir_resolution() {
    let home = Some("/home/u".to_string());
    let cache = Some("/home/u/.cache".to_string());
    assert_eq!(resolve_cache_dir_from("~/c", home.clone(), cache.clone()), "/home/u/c");
    assert_eq!(resolve_cache_dir_from("~", home.clone(), cache.clone()), "/home/u/");
    assert_eq!(resolve_cache_dir_from("~x", home.clone(), cache.clone()), "/home/u/x");
    assert_eq!(resolve_cache_dir_from(".cache/ghfetch", home.clone(), cache.clone()), "/home/u/.cache/ghfetch");
    assert_eq!(resolve_cache_dir_from(".cache/ghfetch", home.clone(), None), "/home/u/.cache/ghfetch");
    assert_eq!(resolve_cache_dir_from(".other", home.clone(), cache.clone()), "/home/u/.other");
    assert_eq!(resolve_cache_dir_from("/var/c", home.clone(), cache.clone()), "/var/c");
    assert_eq!(resolve_cache_dir_from("~/c", None, cache.clone()), "~/c");
    assert_eq!(resolve_cache_dir_from(".cache/ghfetch", None, None), ".cache/ghfetch");
    assert_eq!(resolve_cache_dir("/var/c"), "/var/c");
}

#[test]
fn environment_overrides() {
    let mut c = Config::default();
    c.cache.cache_dir = "/tmp/ghfetch-cache".to_string();
    c.username = "file-user".to_string();
    let r = apply_environment(c, Some("tok".to_string()), None);
    assert_eq!(r.github_token, Some("tok".to_string()));
    assert_eq!(r.username, "file-user");
    assert_eq!(r.cache.cache_dir, "/tmp/ghfetch-cache");
    let r2 = apply_environment(r, None, Some("env-user".to_string()));
    assert_eq!(r2.github_token, Some("tok".to_string()));
    assert_eq!(r2.username, "env-user");
}

#[test]
fn cache_files() {
    let c = Cache::new("/tmp/cache");
    assert_eq!(c.dir(), "/tmp/cache");
    assert_eq!(c.path("profile_octocat"), "/tmp/cache/profile_octocat.json");
    assert_eq!(
        c.path("avatar_raw_https://a.b/u/1?v=4"),
        "/tmp/cache/avatar_raw_https___a.b_u_1_v=4.json"
    );
    assert_eq!(c.raw_path("a\\b:c*d\"e<f>g|h"), "/tmp/cache/a_b_c_d_e_f_g_h");
    assert_eq!(Cache::new("").raw_path("k"), "k");
}

#[test]
fn cache_expiry() {
    assert!(!Cache::is_expired(0, 0, 1));
    assert!(!Cache::is_expired(3600, 0, 1));
    assert!(Cache::is_expired(3600, 1, 1));
    assert!(Cache::is_expired(3601, 0, 1));
    assert!(Cache::is_expired(1, 0, 0));
    assert!(!Cache::is_expired(24 * 3600, 0, 24));
}
