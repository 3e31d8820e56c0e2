//! Hand-editable settings, in a directory of the panel under `%APPDATA%`.
//! Missing fields take defaults, so a partial file is fine.

use vstd::prelude::*;

use crate::discovery::{home, Environment, Place, PlaceView};
use crate::product;

verus! {

/// The settings of the panel, with fractions of type `F`.
#[derive(Debug, Clone, PartialEq)]
pub struct Settings<F> {
    /// Width of the entry hot zone as a fraction of the display width (centered).
    pub hot_zone_width_fraction: F,
    /// Height of the entry hot zone in logical pixels (DPI-scaled).
    pub hot_zone_height_px: u32,
    /// Extra width on each side for the exit zone, as a fraction of display width.
    pub exit_margin_fraction: F,
    /// Extra height below the panel for the exit zone, logical pixels.
    pub exit_margin_px: u32,
    /// Cursor must stay in the hot zone this long before the panel shows.
    pub dwell_ms: u64,
    /// Cursor must stay outside the exit zone this long before the panel hides.
    pub hide_delay_ms: u64,
    /// Cursor polling period.
    pub poll_ms: u64,
    /// Slide animation duration.
    pub animation_ms: u64,
    /// "internal" (laptop panel), "primary", or a GDI device name like "\\\\.\\DISPLAY2".
    pub display: String,
    /// JSONL rescan period while the panel is visible / hidden.
    pub rescan_visible_secs: u64,
    pub rescan_hidden_secs: u64,
    /// Limit-endpoint polling period while visible / hidden, and the hard minimum gap.
    pub limits_visible_secs: u64,
    pub limits_hidden_secs: u64,
    pub limits_min_gap_secs: u64,
    /// Readings older than this are drawn as stale.
    pub stale_after_secs: u64,
    /// Long-lived OAuth token. Leave null to fall back to the environment, then to the stored
    /// access token.
    pub oauth_token: Option<String>,
    /// Renew the stored token with its refresh token when it has expired.
    pub auto_refresh_token: bool,
    /// OAuth client id used for the refresh.
    pub oauth_client_id: String,
    /// After a failed refresh, wait this long before trying again.
    pub refresh_retry_secs: u64,
    /// Only look at transcripts modified in the last N days.
    pub retain_days: i64,
    /// Start the panel at login.
    pub run_at_login: bool,
    /// Panel width in logical pixels.
    pub panel_width_px: u32,
}

impl<F> Settings<F> {
    /// The default settings, with these fractions and this client id.
    pub fn defaults(
        hot_zone_width_fraction: F,
        exit_margin_fraction: F,
        oauth_client_id: String,
    ) -> (s: Settings<F>)
        ensures
            s.hot_zone_width_fraction == hot_zone_width_fraction,
            s.hot_zone_height_px == 3,
            s.exit_margin_fraction == exit_margin_fraction,
            s.exit_margin_px == 40,
            s.dwell_ms == 200,
            s.hide_delay_ms == 450,
            s.poll_ms == 40,
            s.animation_ms == 180,
            s.display@ == "internal"@,
            s.rescan_visible_secs == 15,
            s.rescan_hidden_secs == 300,
            s.limits_visible_secs == 60,
            s.limits_hidden_secs == 300,
            s.limits_min_gap_secs == 60,
            s.stale_after_secs == 900,
            s.oauth_token is None,
            s.auto_refresh_token,
            s.oauth_client_id == oauth_client_id,
            s.refresh_retry_secs == 3600,
            s.retain_days == 60,
            !s.run_at_login,
            s.panel_width_px == 340,
    {
        Settings {
            hot_zone_width_fraction,
            hot_zone_height_px: 3,
            exit_margin_fraction,
            exit_margin_px: 40,
            dwell_ms: 200,
            hide_delay_ms: 450,
            poll_ms: 40,
            animation_ms: 180,
            display: "internal".to_owned(),
            rescan_visible_secs: 15,
            rescan_hidden_secs: 300,
            limits_visible_secs: 60,
            limits_hidden_secs: 300,
            limits_min_gap_secs: 60,
            stale_after_secs: 900,
            oauth_token: None,
            auto_refresh_token: true,
            oauth_client_id,
            refresh_retry_secs: 3600,
            retain_days: 60,
            run_at_login: false,
            panel_width_px: 340,
        }
    }
}

/// The name of the panel's directory.
pub open spec fn panel_dir() -> Seq<char> {
    product::small() + "-usage-panel"@
}

/// Where the panel keeps its files: in `APPDATA`, or else in the home directory, or else in
/// the current directory `here`.
pub open spec fn panel_place<B>(env: Environment<B>, here: B) -> PlaceView<B> {
    PlaceView {
        base: if env.appdata is Some {
            env.appdata->0
        } else if home(env) is Some {
            home(env)->0
        } else {
            here
        },
        names: seq![panel_dir()],
    }
}

pub fn config_dir<B>(env: Environment<B>, here: B) -> (r: Place<B>)
    ensures
        r@ == panel_place(env, here),
{
    let base = match env.appdata {
        Some(d) => d,
        None => match env.userprofile {
            Some(d) => d,
            None => match env.home {
                Some(d) => d,
                None => here,
            },
        },
    };
    let p = Place { base, names: Vec::new() };
    let mut dir = product::name();
    dir.append("-usage-panel");
    let r = p.join(dir.as_str());
    assert(r@.names =~= seq![panel_dir()]);
    r
}

pub fn settings_path<B>(env: Environment<B>, here: B) -> (r: Place<B>)
    ensures
        r@.base == panel_place(env, here).base,
        r@.names == panel_place(env, here).names.push("settings.json"@),
{
    config_dir(env, here).join("settings.json")
}

pub fn log_path<B>(env: Environment<B>, here: B) -> (r: Place<B>)
    ensures
        r@.base == panel_place(env, here).base,
        r@.names == panel_place(env, here).names.push("panel.log"@),
{
    config_dir(env, here).join("panel.log")
}

/// The panel keeps its files in a directory of its own, below the application data, or else the
/// user's profile, or else the home directory, or else the current one.
pub proof fn where_the_panel_keeps_its_files<B>(env: Environment<B>, here: B)
    ensures
        ({
            let p = panel_place(env, here);
            &&& p.names == seq![product::small() + "-usage-panel"@]
            &&& env.appdata is Some ==> p.base == env.appdata->0
            &&& env.appdata is None && env.userprofile is Some ==> p.base == env.userprofile->0
            &&& env.appdata is None && env.userprofile is None && env.home is Some ==> p.base
                == env.home->0
            &&& env.appdata is None && env.userprofile is None && env.home is None ==> p.base == here
        }),
{
}

} // verus!
