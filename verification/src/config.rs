//! Startup settings of the store.

use vstd::prelude::*;

verus! {

/// The settings the store is started with.
#[derive(Debug)]
pub struct Config {
    /// Directory under which every database lives.
    pub db_path: String,
    /// Address the server listens on.
    pub ip: String,
    /// TCP port the server listens on.
    pub port: u16,
    /// Cache budget in megabytes.
    pub cache_size: u16,
    /// Number of worker threads.
    pub workers_count: u16,
}

impl Default for Config {
    fn default() -> (conf: Self)
        ensures
            conf.db_path@ == "db"@,
            conf.ip@ == "127.0.0.1"@,
            conf.port == 3000,
            conf.cache_size == 10,
            conf.workers_count == 4,
    {
        Config {
            db_path: "db".to_string(),
            ip: "127.0.0.1".to_string(),
            port: 3000,
            cache_size: 10,
            workers_count: 4,
        }
    }
}

/// Why the settings could not be read.
#[derive(Debug)]
pub enum ConfigError {
    /// The settings file could not be read; the text says why.
    IoError(String),
    /// The settings file is not TOML; the text says why.
    TomlError(String),
    /// A number in the settings file does not fit its setting; the text
    /// names the setting.
    OutOfRange(String),
}

/// The largest number that a port, a cache size or a worker count can be.
pub const SETTING_MAX: i64 = 65535;

/// Whether a number, if one is given, fits a setting.
pub open spec fn fits_setting(number: Option<i64>) -> bool {
    number is Some ==> 0 <= number->0 <= SETTING_MAX
}

/// The setting that a number stands for, or the default if none is given.
pub open spec fn setting_or(number: Option<i64>, default: u16) -> u16 {
    match number {
        Some(n) => n as u16,
        None => default,
    }
}

/// The text of a setting, or the default if none is given.
pub open spec fn text_or(text: Option<String>, default: Seq<char>) -> Seq<char> {
    match text {
        Some(t) => t@,
        None => default,
    }
}

/// A number as a setting, or `None` if it does not fit.
fn to_setting(number: i64) -> (setting: Option<u16>)
    ensures
        match setting {
            Some(s) => 0 <= number <= SETTING_MAX && s == number as u16,
            None => !(0 <= number <= SETTING_MAX),
        },
{
    if 0 <= number && number <= SETTING_MAX {
        Some(number as u16)
    } else {
        None
    }
}

/// The settings that a settings file gives: the defaults, each replaced by
/// what the file says of it. `name` is what the file has under `NAME`,
/// `ip` under `IP`, `port` under `PORT`, `cache_size` under `CACHE_SIZE`
/// and `workers_count` under `WORKERS_COUNT`. The first number that does
/// not fit its setting is refused, in that order.
pub fn with_settings(
    name: Option<String>,
    ip: Option<String>,
    port: Option<i64>,
    cache_size: Option<i64>,
    workers_count: Option<i64>,
) -> (r: Result<Config, ConfigError>)
    ensures
        match r {
            Ok(conf) => {
                &&& fits_setting(port) && fits_setting(cache_size) && fits_setting(workers_count)
                &&& conf.db_path@ == text_or(name, "db"@)
                &&& conf.ip@ == text_or(ip, "127.0.0.1"@)
                &&& conf.port == setting_or(port, 3000)
                &&& conf.cache_size == setting_or(cache_size, 10)
                &&& conf.workers_count == setting_or(workers_count, 4)
            },
            Err(ConfigError::OutOfRange(which)) => {
                if !fits_setting(port) {
                    which@ == "PORT"@
                } else if !fits_setting(cache_size) {
                    which@ == "CACHE_SIZE"@
                } else {
                    !fits_setting(workers_count) && which@ == "WORKERS_COUNT"@
                }
            },
            Err(_) => false,
        },
{
    let mut conf = Config::default();
    if let Some(path) = name {
        conf.db_path = path;
    }
    if let Some(address) = ip {
        conf.ip = address;
    }
    if let Some(number) = port {
        match to_setting(number) {
            Some(setting) => {
                conf.port = setting;
            },
            None => {
                return Err(ConfigError::OutOfRange("PORT".to_string()));
            },
        }
    }
    if let Some(number) = cache_size {
        match to_setting(number) {
            Some(setting) => {
                conf.cache_size = setting;
            },
            None => {
                return Err(ConfigError::OutOfRange("CACHE_SIZE".to_string()));
            },
        }
    }
    if let Some(number) = workers_count {
        match to_setting(number) {
            Some(setting) => {
                conf.workers_count = setting;
            },
            None => {
                return Err(ConfigError::OutOfRange("WORKERS_COUNT".to_string()));
            },
        }
    }
    Ok(conf)
}

} // verus!
