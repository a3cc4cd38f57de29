//! The settings of the server and their defaults.

use crate::text::{parse_u16, parsed_u16};
use vstd::prelude::*;
use vstd::string::StringExecFns;

verus! {

/// The settings of the server.
#[derive(Debug, Clone)]
pub struct Config {
    pub bind_addr: String,
    pub port: u16,
    pub malmo_api_base: String,
    pub data_dir: String,
    pub cache_file: String,
    pub api_key: Option<String>,
    pub log_level: String,
}

/// The text that was given, or the default if none was.
pub open spec fn given_or(given: Option<String>, default: Seq<char>) -> Seq<char> {
    match given {
        Some(text) => text@,
        None => default,
    }
}

/// The port that a setting gives: the number that the text holds, and 5000
/// if there is no text or it holds no port number.
pub open spec fn port_of(given: Option<String>) -> u16 {
    match given {
        Some(text) => match parsed_u16(text@) {
            Some(port) => port,
            None => 5000u16,
        },
        None => 5000u16,
    }
}

/// The text that was given, or the default if none was.
fn text_or(given: Option<String>, default: &str) -> (text: String)
    ensures
        text@ == given_or(given, default@),
{
    match given {
        Some(text) => text,
        None => String::from_str(default),
    }
}

impl Config {
    /// The settings that the given values make, each missing value replaced
    /// by its default.
    pub fn from_values(
        bind_addr: Option<String>,
        port: Option<String>,
        malmo_api_base: Option<String>,
        data_dir: Option<String>,
        cache_file: Option<String>,
        api_key: Option<String>,
        log_level: Option<String>,
    ) -> (config: Self)
        ensures
            config.bind_addr@ == given_or(bind_addr, "0.0.0.0"@),
            config.port == port_of(port),
            config.malmo_api_base@ == given_or(malmo_api_base, "https://opendata.malmö.se"@),
            config.data_dir@ == given_or(data_dir, "./data"@),
            config.cache_file@ == given_or(cache_file, "./data/schedule_cache.json"@),
            config.api_key == api_key,
            config.log_level@ == given_or(log_level, "info"@),
    {
        let number: u16 = match &port {
            Some(text) => match parse_u16(text.as_str()) {
                Some(number) => number,
                None => 5000,
            },
            None => 5000,
        };
        Config {
            bind_addr: text_or(bind_addr, "0.0.0.0"),
            port: number,
            malmo_api_base: text_or(malmo_api_base, "https://opendata.malmö.se"),
            data_dir: text_or(data_dir, "./data"),
            cache_file: text_or(cache_file, "./data/schedule_cache.json"),
            api_key,
            log_level: text_or(log_level, "info"),
        }
    }
}

} // verus!
