//! Settings, built once at start-up and passed to whatever needs them.
use vstd::prelude::*;
use vstd::string::StringExecFns;

verus! {

#[derive(Debug)]
pub struct Config {
    pub http_addr: String,
    pub database_url: String,
    pub mqtt_host: Option<String>,
    pub mqtt_port: u16,
    pub mqtt_keep_alive: u64,
    pub mqtt_auth: bool,
    pub mqtt_client_id: String,
    pub mqtt_topic: String,
    pub mqtt_username: Option<String>,
    pub mqtt_password: Option<String>,
    pub map_glyphs_url: String,
    pub open_browser: bool,
    pub hide_private_messages: bool,
    /// How far apart, in seconds, two copies of one transmission may be recorded.
    pub duplicate_window_secs: u32,
    /// How often, in seconds, staged envelopes are processed.
    pub poll_interval_secs: u64,
}

/// The settings that hold until a configuration source says otherwise.
pub fn get_config() -> (r: Config)
    ensures
        r.http_addr@ == "127.0.0.1:3000"@,
        r.database_url@ == "sqlite://meshstellar.db?mode=rwc"@,
        r.mqtt_host is None,
        r.mqtt_port == 1883,
        r.mqtt_keep_alive == 15,
        r.mqtt_auth,
        r.mqtt_client_id@ == "meshstellar"@,
        r.mqtt_topic@ == "meshtastic/#"@,
        r.mqtt_username is None,
        r.mqtt_password is None,
        r.map_glyphs_url@ == "https://protomaps.github.io/basemaps-assets/fonts/{fontstack}/{range}.pbf"@,
        r.open_browser,
        !r.hide_private_messages,
        r.duplicate_window_secs == 3600,
        r.poll_interval_secs == 1,
{
    Config {
        http_addr: String::from_str("127.0.0.1:3000"),
        database_url: String::from_str("sqlite://meshstellar.db?mode=rwc"),
        mqtt_host: None,
        mqtt_port: 1883,
        mqtt_keep_alive: 15,
        mqtt_auth: true,
        mqtt_client_id: String::from_str("meshstellar"),
        mqtt_topic: String::from_str("meshtastic/#"),
        mqtt_username: None,
        mqtt_password: None,
        map_glyphs_url: String::from_str(
            "https://protomaps.github.io/basemaps-assets/fonts/{fontstack}/{range}.pbf",
        ),
        open_browser: true,
        hide_private_messages: false,
        duplicate_window_secs: 3600,
        poll_interval_secs: 1,
    }
}

} // verus!
