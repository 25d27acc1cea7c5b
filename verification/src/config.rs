//! Settings of the service and how they are read from the environment.

use crate::env::{get_with_default, lookup, value_or, Environment};
use crate::error::{Error, ErrorView};
use crate::text::{parse_usize, parse_usize_spec, ParseIntError};
use vstd::prelude::*;

verus! {

/// Address that the service listens on unless the environment names one.
pub const DEFAULT_HTTP_ADDR: &'static str = "127.0.0.1:8080";

/// Number of workers unless the environment names one.
pub const DEFAULT_WORKER_POOL_SIZE: usize = 10;

/// Version reported by a configuration that was not read from anywhere.
pub const DEFAULT_VERSION: &'static str = "0.0.1";

/// Name of the variable that holds the listen address.
pub const HTTP_ADDR_KEY: &'static str = "CROKD_HTTP_ADDR";

/// Name of the variable that holds the number of workers.
pub const WORKER_POOL_SIZE_KEY: &'static str = "CROKD_WORKER_POOL_SIZE";

/// Settings of the service.
#[derive(Debug, PartialEq, Eq)]
pub struct Config {
    pub version: String,
    pub http_addr: String,
    pub worker_pool_size: usize,
}

/// The number of workers that an environment asks for: the decimal value of
/// its variable, or the default where the variable is not set.
pub open spec fn configured_pool_size(env: Map<Seq<char>, Seq<char>>) -> Result<
    usize,
    ParseIntError,
> {
    if env.contains_key(WORKER_POOL_SIZE_KEY@) {
        parse_usize_spec(env[WORKER_POOL_SIZE_KEY@])
    } else {
        Ok(DEFAULT_WORKER_POOL_SIZE)
    }
}

impl Config {
    /// Reads the settings from `env`. `version` is the version of the
    /// running program. Fails exactly when the variable for the number of
    /// workers is set to something that is not a decimal `usize`.
    pub fn from_env(env: &Environment, version: &str) -> (loaded: Result<Config, Error>)
        ensures
            match loaded {
                Ok(cfg) => {
                    &&& cfg.version@ == version@
                    &&& cfg.http_addr@ == value_or(env@, HTTP_ADDR_KEY@, DEFAULT_HTTP_ADDR@)
                    &&& configured_pool_size(env@) == Ok::<usize, ParseIntError>(
                        cfg.worker_pool_size,
                    )
                },
                Err(err) => {
                    &&& configured_pool_size(env@) matches Err(kind)
                    &&& err@ == ErrorView::InvalidPoolSize(kind)
                },
            },
    {
        let mut cfg = Config::default();
        cfg.version = String::from_str(version);
        cfg.http_addr = get_with_default(env, HTTP_ADDR_KEY, DEFAULT_HTTP_ADDR);
        cfg.worker_pool_size = match lookup(env, WORKER_POOL_SIZE_KEY) {
            Some(text) => match parse_usize(text.as_str()) {
                Ok(size) => size,
                Err(kind) => {
                    return Err(Error::InvalidPoolSize(kind));
                },
            },
            None => DEFAULT_WORKER_POOL_SIZE,
        };
        Ok(cfg)
    }
}

impl Default for Config {
    fn default() -> (cfg: Config)
        ensures
            cfg.version@ == DEFAULT_VERSION@,
            cfg.http_addr@ == DEFAULT_HTTP_ADDR@,
            cfg.worker_pool_size == DEFAULT_WORKER_POOL_SIZE,
    {
        Config {
            version: String::from_str(DEFAULT_VERSION),
            http_addr: String::from_str(DEFAULT_HTTP_ADDR),
            worker_pool_size: DEFAULT_WORKER_POOL_SIZE,
        }
    }
}

} // verus!
