use usage_core::discovery::{
    claude_config_dir, credentials_path, default_projects_dir, default_snapshot_path, home_dir,
    settings_path, Environment, Place,
};
use usage_core::product;
use usage_core::settings::{config_dir, log_path, settings_path as panel_settings_path, Settings};

fn nothing() -> Environment<&'static str> {
    Environment {
        userprofile: None,
        home: None,
        config_dir: None,
        config_dir_empty: false,
        appdata: None,
    }
}

fn path(p: Option<Place<&str>>) -> Option<String> {
    p.map(full)
}

fn full(p: Place<&str>) -> String {
    let mut s = p.base.to_string();
    for n in p.names {
        s.push('/');
        s.push_str(&n);
    }
    s
}

#[test]
fn the_name_of_the_product() {
    assert_eq!(product::name(), product::CONFIG_VAR.split('_').next().unwrap().to_lowercase());
    assert_eq!(product::title().to_uppercase() + "_CONFIG_DIR", product::CONFIG_VAR);
    assert!(product::title().chars().next().unwrap().is_uppercase());
    assert_eq!(product::title().to_lowercase(), product::name());
}

#[test]
fn the_home_directory() {
    assert_eq!(home_dir(nothing()), None);
    assert_eq!(home_dir(Environment { home: Some("/h"), ..nothing() }), Some("/h"));
    let both = Environment { home: Some("/h"), userprofile: Some("/u"), ..nothing() };
    assert_eq!(home_dir(both), Some("/u"));
}

#[test]
fn the_config_directory() {
    assert_eq!(path(claude_config_dir(nothing())), None);
    let home = Environment { home: Some("/h"), ..nothing() };
    let hidden = format!("/h/.{}", product::name());
    assert_eq!(path(claude_config_dir(home.clone())), Some(hidden.clone()));
    assert_eq!(path(default_projects_dir(home.clone())), Some(format!("{hidden}/projects")));
    assert_eq!(path(settings_path(home.clone())), Some(format!("{hidden}/settings.json")));
    assert_eq!(
        path(default_snapshot_path(home.clone())),
        Some(format!("{hidden}/usage-snapshot.json"))
    );
    assert_eq!(path(credentials_path(home.clone())), Some(format!("{hidden}/.credentials.json")));
    let moved = Environment { config_dir: Some("/c"), ..home.clone() };
    assert_eq!(path(default_projects_dir(moved.clone())), Some("/c/projects".into()));
    let empty = Environment { config_dir_empty: true, ..moved };
    assert_eq!(path(claude_config_dir(empty)), Some(hidden));
}

#[test]
fn the_directory_of_the_panel() {
    let dir = format!("{}-usage-panel", product::name());
    assert_eq!(full(config_dir(nothing(), ".")), format!("./{dir}"));
    let home = Environment { home: Some("/h"), ..nothing() };
    assert_eq!(full(log_path(home.clone(), ".")), format!("/h/{dir}/panel.log"));
    let appdata = Environment { appdata: Some("/a"), userprofile: Some("/u"), ..home };
    assert_eq!(full(panel_settings_path(appdata, ".")), format!("/a/{dir}/settings.json"));
}

#[test]
fn default_settings() {
    let s = Settings::defaults(0.18, 0.06, "id".to_string());
    assert_eq!((s.hot_zone_width_fraction, s.exit_margin_fraction), (0.18, 0.06));
    assert_eq!((s.dwell_ms, s.hide_delay_ms, s.poll_ms, s.animation_ms), (200, 450, 40, 180));
    assert_eq!((s.hot_zone_height_px, s.exit_margin_px, s.panel_width_px), (3, 40, 340));
    assert_eq!((s.rescan_visible_secs, s.rescan_hidden_secs), (15, 300));
    assert_eq!((s.limits_visible_secs, s.limits_hidden_secs, s.limits_min_gap_secs), (60, 300, 60));
    assert_eq!((s.stale_after_secs, s.refresh_retry_secs, s.retain_days), (900, 3600, 60));
    assert_eq!(s.display, "internal");
    assert_eq!(s.oauth_client_id, "id");
    assert!(s.oauth_token.is_none() && s.auto_refresh_token && !s.run_at_login);
}
