//! Configuration records and their defaults.  Loading the file is the
//! shell's business; the records and every default value are fixed here.

use vstd::prelude::*;

verus! {

pub fn default_port() -> (r: u16)
    ensures
        r == 15924u16,
{
    15924
}

pub fn default_max_events_age() -> (r: u64)
    ensures
        r == 86400u64,
{
    86400
}

pub fn default_session_ttl() -> (r: u64)
    ensures
        r == 86400u64,
{
    86400
}

pub fn default_permission_timeout() -> (r: u64)
    ensures
        r == 600u64,
{
    600
}

pub fn default_true() -> (r: bool)
    ensures
        r,
{
    true
}

pub fn default_hotkey() -> (r: String)
    ensures
        r@ == "Alt+D"@,
{
    "Alt+D".to_owned()
}

pub fn default_transparency() -> (r: String)
    ensures
        r@ == "off"@,
{
    "off".to_owned()
}

pub fn default_pill_width() -> (r: u32)
    ensures
        r == 300u32,
{
    300
}

pub fn default_pill_width_active() -> (r: u32)
    ensures
        r == 360u32,
{
    360
}

pub fn default_panel_width() -> (r: u32)
    ensures
        r == 480u32,
{
    480
}

pub fn default_panel_height() -> (r: u32)
    ensures
        r == 320u32,
{
    320
}

pub fn default_auto_collapse_ms() -> (r: u64)
    ensures
        r == 3000u64,
{
    3000
}

pub fn default_hover_expand_ms() -> (r: u64)
    ensures
        r == 400u64,
{
    400
}

pub fn default_hover_collapse_ms() -> (r: u64)
    ensures
        r == 300u64,
{
    300
}

pub fn default_background() -> (r: String)
    ensures
        r@ == "#000000"@,
{
    "#000000".to_owned()
}

pub fn default_color_active() -> (r: String)
    ensures
        r@ == "#D97857"@,
{
    "#D97857".to_owned()
}

pub fn default_color_ready() -> (r: String)
    ensures
        r@ == "#66BF73"@,
{
    "#66BF73".to_owned()
}

pub fn default_color_permission() -> (r: String)
    ensures
        r@ == "#6699FF"@,
{
    "#6699FF".to_owned()
}

pub fn default_color_notification() -> (r: String)
    ensures
        r@ == "#FFB300"@,
{
    "#FFB300".to_owned()
}

pub fn default_sound_stop() -> (r: String)
    ensures
        r@ == "asterisk"@,
{
    "asterisk".to_owned()
}

pub fn default_sound_notification() -> (r: String)
    ensures
        r@ == "exclamation"@,
{
    "exclamation".to_owned()
}

pub fn default_sound_permission() -> (r: String)
    ensures
        r@ == "question"@,
{
    "question".to_owned()
}

pub fn default_agent_cli() -> (r: String)
    ensures
        r@ == "agent-cli"@,
{
    "agent-cli".to_owned()
}

/// Push over Telegram.
#[derive(Clone, Debug)]
pub struct TelegramConfig {
    pub enabled: bool,
    pub bot_token: String,
    pub chat_id: String,
    pub allowed_user_ids: Vec<i64>,
}

impl Default for TelegramConfig {
    fn default() -> (r: Self)
        ensures
            !r.enabled,
            r.bot_token@.len() == 0,
            r.chat_id@.len() == 0,
            r.allowed_user_ids@.len() == 0,
    {
        TelegramConfig {
            enabled: false,
            bot_token: String::new(),
            chat_id: String::new(),
            allowed_user_ids: Vec::new(),
        }
    }
}

/// Push over a DingTalk webhook.
#[derive(Clone, Debug)]
pub struct DingTalkConfig {
    pub enabled: bool,
    pub webhook_url: String,
    pub access_token: String,
    pub secret: String,
}

impl Default for DingTalkConfig {
    fn default() -> (r: Self)
        ensures
            !r.enabled,
            r.webhook_url@.len() == 0,
            r.access_token@.len() == 0,
            r.secret@.len() == 0,
    {
        DingTalkConfig {
            enabled: false,
            webhook_url: String::new(),
            access_token: String::new(),
            secret: String::new(),
        }
    }
}

/// Push over WeChat providers.
#[derive(Clone, Debug)]
pub struct WeChatConfig {
    pub enabled: bool,
    pub provider: String,
    pub pushplus_token: String,
    pub serverchan_sendkey: String,
}

impl Default for WeChatConfig {
    fn default() -> (r: Self)
        ensures
            !r.enabled,
            r.provider@.len() == 0,
            r.pushplus_token@.len() == 0,
            r.serverchan_sendkey@.len() == 0,
    {
        WeChatConfig {
            enabled: false,
            provider: String::new(),
            pushplus_token: String::new(),
            serverchan_sendkey: String::new(),
        }
    }
}

/// The core server and event log.
#[derive(Clone, Debug)]
pub struct ManagerConfig {
    pub port: u16,
    pub events_file: String,
    /// Seconds an event may age before compaction drops it.
    pub max_events_age: u64,
    pub open_browser: bool,
}

impl Default for ManagerConfig {
    fn default() -> (r: Self)
        ensures
            r.port == 15924u16,
            r.events_file@ == "events.jsonl"@,
            r.max_events_age == 86400u64,
            r.open_browser,
    {
        ManagerConfig {
            port: 15924,
            events_file: "events.jsonl".to_owned(),
            max_events_age: 86400,
            open_browser: true,
        }
    }
}

/// The desktop widget.
#[derive(Clone, Debug)]
pub struct WidgetConfig {
    pub enabled: bool,
    pub on_top: bool,
}

impl Default for WidgetConfig {
    fn default() -> (r: Self)
        ensures
            r.enabled,
            r.on_top,
    {
        WidgetConfig { enabled: true, on_top: true }
    }
}

/// Paths and timings shared by the whole daemon.
#[derive(Clone, Debug)]
pub struct GeneralConfig {
    pub sessions_file: String,
    pub agent_cli: String,
    pub git_bash_path: String,
    /// Seconds a session stays in TTL reads after its last update.
    pub session_ttl: u64,
}

impl Default for GeneralConfig {
    fn default() -> (r: Self)
        ensures
            r.sessions_file@ == "sessions.json"@,
            r.agent_cli@ == "agent-cli"@,
            r.git_bash_path@.len() == 0,
            r.session_ttl == 86400u64,
    {
        GeneralConfig {
            sessions_file: "sessions.json".to_owned(),
            agent_cli: "agent-cli".to_owned(),
            git_bash_path: String::new(),
            session_ttl: 86400,
        }
    }
}

/// The indicator window: sizes, timings, colors, sounds, and the
/// permission-gate timeout.
#[derive(Clone, Debug)]
pub struct IslandConfig {
    pub pill_width: u32,
    pub pill_width_active: u32,
    pub panel_width: u32,
    pub panel_height: u32,
    pub auto_collapse_ms: u64,
    pub hover_expand_ms: u64,
    pub hover_collapse_ms: u64,
    pub background: String,
    pub color_active: String,
    pub color_ready: String,
    pub color_permission: String,
    pub color_notification: String,
    pub hotkey: String,
    pub transparency: String,
    pub sound_enabled: bool,
    pub sound_stop: String,
    pub sound_notification: String,
    pub sound_permission: String,
    pub autostart: bool,
    /// Seconds a permission request may long-poll before it is denied.
    pub permission_timeout_secs: u64,
}

impl Default for IslandConfig {
    fn default() -> (r: Self)
        ensures
            r.pill_width == 300u32,
            r.pill_width_active == 360u32,
            r.panel_width == 480u32,
            r.panel_height == 320u32,
            r.auto_collapse_ms == 3000u64,
            r.hover_expand_ms == 400u64,
            r.hover_collapse_ms == 300u64,
            r.hotkey@ == "Alt+D"@,
            r.sound_enabled,
            r.sound_stop@ == "asterisk"@,
            r.sound_notification@ == "exclamation"@,
            r.sound_permission@ == "question"@,
            !r.autostart,
            r.permission_timeout_secs == 600u64,
    {
        IslandConfig {
            pill_width: 300,
            pill_width_active: 360,
            panel_width: 480,
            panel_height: 320,
            auto_collapse_ms: 3000,
            hover_expand_ms: 400,
            hover_collapse_ms: 300,
            background: default_background(),
            color_active: default_color_active(),
            color_ready: default_color_ready(),
            color_permission: default_color_permission(),
            color_notification: default_color_notification(),
            hotkey: default_hotkey(),
            transparency: default_transparency(),
            sound_enabled: true,
            sound_stop: default_sound_stop(),
            sound_notification: default_sound_notification(),
            sound_permission: default_sound_permission(),
            autostart: false,
            permission_timeout_secs: 600,
        }
    }
}

/// The whole configuration.
#[derive(Clone, Debug)]
pub struct Config {
    pub telegram: TelegramConfig,
    pub dingtalk: DingTalkConfig,
    pub wechat: WeChatConfig,
    pub manager: ManagerConfig,
    pub widget: WidgetConfig,
    pub general: GeneralConfig,
    pub island: IslandConfig,
}

impl Default for Config {
    fn default() -> (r: Self)
        ensures
            r.manager.port == 15924u16,
            r.general.session_ttl == 86400u64,
            r.manager.max_events_age == 86400u64,
            r.island.permission_timeout_secs == 600u64,
    {
        Config {
            telegram: TelegramConfig::default(),
            dingtalk: DingTalkConfig::default(),
            wechat: WeChatConfig::default(),
            manager: ManagerConfig::default(),
            widget: WidgetConfig::default(),
            general: GeneralConfig::default(),
            island: IslandConfig::default(),
        }
    }
}

} // verus!
