//! The configuration: where the data is, how much is logged, and where to
//! listen. It comes from defaults, a configuration file and the environment,
//! each overriding the one before.

use vstd::prelude::*;
use crate::text::{eq_ignore_ascii_case, same_ignoring_ascii_case};

verus! {

/// The configuration in force.
#[derive(Clone, Debug)]
pub struct AppConfig {
    pub data_dir: String,
    pub log_level: String,
    pub listen_addr: Option<String>,
    pub enable_mdns: bool,
}

/// The configuration in force, as mathematical values.
pub struct AppConfigView {
    pub data_dir: Seq<char>,
    pub log_level: Seq<char>,
    pub listen_addr: Option<Seq<char>>,
    pub enable_mdns: bool,
}

/// A text that may be missing, as a mathematical value.
pub open spec fn text_view(text: Option<String>) -> Option<Seq<char>> {
    match text {
        Some(t) => Some(t@),
        None => None,
    }
}

impl View for AppConfig {
    type V = AppConfigView;

    open spec fn view(&self) -> AppConfigView {
        AppConfigView {
            data_dir: self.data_dir@,
            log_level: self.log_level@,
            listen_addr: text_view(self.listen_addr),
            enable_mdns: self.enable_mdns,
        }
    }
}

/// The `[storage]` section of the configuration file.
#[derive(Debug)]
pub struct StorageSection {
    pub data_dir: Option<String>,
}

/// The `[network]` section of the configuration file.
#[derive(Debug)]
pub struct NetworkSection {
    pub listen_addr: Option<String>,
    pub enable_mdns: Option<bool>,
}

/// The `[security]` section of the configuration file. It holds nothing yet.
#[derive(Debug)]
pub struct SecuritySection {
}

/// The configuration file: keys at the top for old files, and sections.
#[derive(Debug)]
pub struct RootConfig {
    pub data_dir: Option<String>,
    pub log_level: Option<String>,
    pub listen_addr: Option<String>,
    pub enable_mdns: Option<bool>,
    pub storage: Option<StorageSection>,
    pub network: Option<NetworkSection>,
    pub security: Option<SecuritySection>,
}

/// What the environment sets.
#[derive(Debug)]
pub struct EnvOverrides {
    /// `PIGEON_DATA_DIR`
    pub data_dir: Option<String>,
    /// `PIGEON_LOG_LEVEL`
    pub log_level: Option<String>,
    /// `PIGEON_LISTEN_ADDR`
    pub listen_addr: Option<String>,
    /// `PIGEON_ENABLE_MDNS`
    pub enable_mdns: Option<String>,
}

/// `first` where it is there, else `second`.
pub open spec fn or_else<T>(first: Option<T>, second: T) -> T {
    match first {
        Some(x) => x,
        None => second,
    }
}

/// The defaults: the given data directory, log level `info`, no address to
/// listen on, no discovery.
pub open spec fn default_config(data_dir: Seq<char>) -> AppConfigView {
    AppConfigView { data_dir, log_level: "info"@, listen_addr: None, enable_mdns: false }
}

/// What a configuration file makes of the defaults: a key at the top beats
/// the same key in a section, and both beat the default.
pub open spec fn file_config(
    data_dir: Option<Seq<char>>,
    log_level: Option<Seq<char>>,
    listen_addr: Option<Seq<char>>,
    enable_mdns: Option<bool>,
    storage_data_dir: Option<Seq<char>>,
    network_listen_addr: Option<Seq<char>>,
    network_enable_mdns: Option<bool>,
    default_data_dir: Seq<char>,
) -> AppConfigView {
    AppConfigView {
        data_dir: or_else(data_dir, or_else(storage_data_dir, default_data_dir)),
        log_level: or_else(log_level, "info"@),
        listen_addr: match listen_addr {
            Some(a) => Some(a),
            None => network_listen_addr,
        },
        enable_mdns: or_else(enable_mdns, or_else(network_enable_mdns, false)),
    }
}

/// Whether a text switches something on: `1`, `true` or `yes`, in any case.
pub open spec fn switches_on(text: Seq<char>) -> bool {
    same_ignoring_ascii_case(text, "1"@) || same_ignoring_ascii_case(text, "true"@)
        || same_ignoring_ascii_case(text, "yes"@)
}

/// What the environment makes of a configuration: each variable that is set
/// overrides its setting.
pub open spec fn with_env(
    cfg: AppConfigView,
    data_dir: Option<Seq<char>>,
    log_level: Option<Seq<char>>,
    listen_addr: Option<Seq<char>>,
    enable_mdns: Option<Seq<char>>,
) -> AppConfigView {
    AppConfigView {
        data_dir: or_else(data_dir, cfg.data_dir),
        log_level: or_else(log_level, cfg.log_level),
        listen_addr: match listen_addr {
            Some(a) => Some(a),
            None => cfg.listen_addr,
        },
        enable_mdns: match enable_mdns {
            Some(text) => switches_on(text),
            None => cfg.enable_mdns,
        },
    }
}

impl AppConfig {
    /// The defaults, with the given data directory.
    pub fn with_defaults(data_dir: String) -> (cfg: AppConfig)
        ensures
            cfg@ == default_config(data_dir@),
    {
        AppConfig {
            data_dir,
            log_level: String::from_str("info"),
            listen_addr: None,
            enable_mdns: false,
        }
    }
}

impl RootConfig {
    /// A configuration file that sets nothing.
    pub fn empty() -> (root: RootConfig)
        ensures
            root.data_dir is None && root.log_level is None && root.listen_addr is None
                && root.enable_mdns is None && root.storage is None && root.network is None
                && root.security is None,
    {
        RootConfig {
            data_dir: None,
            log_level: None,
            listen_addr: None,
            enable_mdns: None,
            storage: None,
            network: None,
            security: None,
        }
    }

    /// The configuration that this file gives, on top of the defaults with the
    /// given data directory.
    pub fn into_app_config(self, default_data_dir: String) -> (cfg: AppConfig)
        ensures
            cfg@ == file_config(
                text_view(self.data_dir),
                text_view(self.log_level),
                text_view(self.listen_addr),
                self.enable_mdns,
                match self.storage {
                    Some(s) => text_view(s.data_dir),
                    None => None,
                },
                match self.network {
                    Some(n) => text_view(n.listen_addr),
                    None => None,
                },
                match self.network {
                    Some(n) => n.enable_mdns,
                    None => None,
                },
                default_data_dir@,
            ),
    {
        let mut cfg = AppConfig::with_defaults(default_data_dir);
        match self.storage {
            Some(st) => {
                match st.data_dir {
                    Some(d) => {
                        cfg.data_dir = d;
                    },
                    None => {},
                }
            },
            None => {},
        }
        match self.data_dir {
            Some(d) => {
                cfg.data_dir = d;
            },
            None => {},
        }
        match self.log_level {
            Some(l) => {
                cfg.log_level = l;
            },
            None => {},
        }
        match self.network {
            Some(net) => {
                match net.listen_addr {
                    Some(a) => {
                        cfg.listen_addr = Some(a);
                    },
                    None => {},
                }
                match net.enable_mdns {
                    Some(m) => {
                        cfg.enable_mdns = m;
                    },
                    None => {},
                }
            },
            None => {},
        }
        match self.listen_addr {
            Some(a) => {
                cfg.listen_addr = Some(a);
            },
            None => {},
        }
        match self.enable_mdns {
            Some(m) => {
                cfg.enable_mdns = m;
            },
            None => {},
        }
        cfg
    }
}

/// Whether `text` switches something on.
pub fn is_switched_on(text: &str) -> (on: bool)
    ensures
        on == switches_on(text@),
{
    eq_ignore_ascii_case(text, "1") || eq_ignore_ascii_case(text, "true") || eq_ignore_ascii_case(
        text,
        "yes",
    )
}

/// The configuration in force: the defaults, or what the configuration file
/// makes of them where there is one, and on top of that what the environment
/// sets.
pub fn load(file: Option<RootConfig>, env: EnvOverrides, default_data_dir: String) -> (cfg:
    AppConfig)
    ensures
        cfg@ == with_env(
            match file {
                Some(root) => file_config(
                    text_view(root.data_dir),
                    text_view(root.log_level),
                    text_view(root.listen_addr),
                    root.enable_mdns,
                    match root.storage {
                        Some(s) => text_view(s.data_dir),
                        None => None,
                    },
                    match root.network {
                        Some(n) => text_view(n.listen_addr),
                        None => None,
                    },
                    match root.network {
                        Some(n) => n.enable_mdns,
                        None => None,
                    },
                    default_data_dir@,
                ),
                None => default_config(default_data_dir@),
            },
            text_view(env.data_dir),
            text_view(env.log_level),
            text_view(env.listen_addr),
            text_view(env.enable_mdns),
        ),
{
    let mut cfg = match file {
        Some(root) => root.into_app_config(default_data_dir),
        None => AppConfig::with_defaults(default_data_dir),
    };
    match env.data_dir {
        Some(d) => {
            cfg.data_dir = d;
        },
        None => {},
    }
    match env.log_level {
        Some(l) => {
            cfg.log_level = l;
        },
        None => {},
    }
    match env.listen_addr {
        Some(a) => {
            cfg.listen_addr = Some(a);
        },
        None => {},
    }
    match env.enable_mdns {
        Some(text) => {
            cfg.enable_mdns = is_switched_on(text.as_str());
        },
        None => {},
    }
    cfg
}

} // verus!
