//! Service settings and the token settings derived from them.
use vstd::prelude::*;

verus! {

/// Settings of the service, read from its environment at startup.
pub struct Configuration {
    pub database_url: String,
    pub db_max_connection: u32,
    pub jwt_secret: String,
    pub jwt_expiration: i64,
    pub server_port: String,
    pub magic_slide_access_id: String,
    pub magic_slide_base_url: String,
}

/// The secret that signs access tokens and their lifetime in seconds.
pub struct JwtConfig {
    pub secret: String,
    pub expiration: i64,
}

impl JwtConfig {
    /// Token settings from a secret and a lifetime in seconds.
    pub fn new(secret: String, expiration: i64) -> (r: JwtConfig)
        ensures
            r.secret == secret,
            r.expiration == expiration,
    {
        JwtConfig { secret, expiration }
    }

    /// The token settings of a configuration.
    pub fn from_configuration(c: &Configuration) -> (r: JwtConfig)
        ensures
            r.secret@ == c.jwt_secret@,
            r.expiration == c.jwt_expiration,
    {
        JwtConfig::new(c.jwt_secret.clone(), c.jwt_expiration)
    }
}

} // verus!
