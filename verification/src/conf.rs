use vstd::prelude::*;

verus! {

/// The process configuration: a name, the HTTP listener and the
/// catalog connection. Loading it from a file happens outside the
/// library.
pub struct AppConfig {
    pub name: String,
    pub http: HttpConfig,
    pub data: Data,
}

/// Where the admission layer listens.
pub struct HttpConfig {
    pub listen: String,
}

/// The data-layer section of the configuration.
pub struct Data {
    pub db: DbConfig,
}

/// How the catalog connection pool is built.
pub struct DbConfig {
    pub dsn: String,
    pub log_level: String,
    pub idle_sec: u64,
    pub life_time: u64,
    pub connection: u32,
    pub conn_timeout: u64,
    pub logging: bool,
    pub acquire_timeout: u64,
}

} // verus!
