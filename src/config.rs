use vstd::prelude::*;

verus! {

/// Settings that the service reads once at startup.
#[derive(Debug)]
pub struct Config {
    pub database_url: String,
    pub jwt_secret: String,
    pub minio_endpoint: String,
}

/// A setting that was not supplied.
#[derive(PartialEq, Eq, Structural, Clone, Copy, Debug)]
pub enum ConfigError {
    MissingDatabaseUrl,
    MissingJwtSecret,
    MissingMinioEndpoint,
}

impl Config {
    /// Builds the configuration from the values found for each setting; the
    /// first missing one, in declaration order, is reported.
    pub fn from_values(
        database_url: Option<String>,
        jwt_secret: Option<String>,
        minio_endpoint: Option<String>,
    ) -> (r: Result<Config, ConfigError>)
        ensures
            database_url is None ==> r == Err::<Config, ConfigError>(ConfigError::MissingDatabaseUrl),
            database_url is Some && jwt_secret is None ==> r == Err::<Config, ConfigError>(
                ConfigError::MissingJwtSecret,
            ),
            database_url is Some && jwt_secret is Some && minio_endpoint is None ==> r == Err::<
                Config,
                ConfigError,
            >(ConfigError::MissingMinioEndpoint),
            database_url is Some && jwt_secret is Some && minio_endpoint is Some ==> r is Ok
                && r->Ok_0.database_url == database_url->Some_0 && r->Ok_0.jwt_secret == jwt_secret->Some_0
                && r->Ok_0.minio_endpoint == minio_endpoint->Some_0,
    {
        match (database_url, jwt_secret, minio_endpoint) {
            (None, _, _) => Err(ConfigError::MissingDatabaseUrl),
            (Some(_), None, _) => Err(ConfigError::MissingJwtSecret),
            (Some(_), Some(_), None) => Err(ConfigError::MissingMinioEndpoint),
            (Some(database_url), Some(jwt_secret), Some(minio_endpoint)) => Ok(
                Config { database_url, jwt_secret, minio_endpoint },
            ),
        }
    }
}

} // verus!
