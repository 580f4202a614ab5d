//! Explicit construction of the shared services.
//!
//! The configuration is resolved once at startup and handed to the
//! factory by value; everything the factory yields is derived from it,
//! with no ambient global lookup.

use vstd::prelude::*;

verus! {

use crate::config::{Config, ConfigError};
use crate::service::JWTServiceImpl;

/// The seam through which wiring code obtains the shared services.
pub trait InjectFactory: Sized {
    /// The configuration every service is derived from.
    spec fn config_view(&self) -> Config;

    fn config(&self) -> (r: Result<Config, ConfigError>)
        ensures
            r matches Ok(c) ==> c == self.config_view(),
    ;

    fn jwt_service(&self) -> (r: Result<JWTServiceImpl, ConfigError>)
        ensures
            r matches Ok(s) ==> s.secret == self.config_view().jwt_secret,
    ;
}

/// The production factory: holds the resolved configuration.
pub struct InjectFactoryImpl {
    pub config: Config,
}

impl InjectFactoryImpl {
    pub fn new(config: Config) -> (r: Self)
        ensures
            r.config == config,
    {
        InjectFactoryImpl { config }
    }
}

fn clone_config(c: &Config) -> (r: Config)
    ensures
        r == *c,
{
    Config {
        host: c.host.clone(),
        port: c.port,
        jwt_secret: c.jwt_secret.clone(),
        jwt_ttl: c.jwt_ttl,
        cors_origin: c.cors_origin.clone(),
        rust_log: c.rust_log.clone(),
        environment: c.environment.clone(),
    }
}

impl InjectFactory for InjectFactoryImpl {
    open spec fn config_view(&self) -> Config {
        self.config
    }

    fn config(&self) -> (r: Result<Config, ConfigError>)
    {
        Ok(clone_config(&self.config))
    }

    fn jwt_service(&self) -> (r: Result<JWTServiceImpl, ConfigError>)
    {
        Ok(JWTServiceImpl::new(self.config.jwt_secret.clone()))
    }
}

} // verus!
