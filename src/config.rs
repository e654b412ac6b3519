use vstd::prelude::*;

verus! {

/// Where the server listens.
pub struct ServerConfig {
    pub url: String,
}

/// The settings of a protocol run, as read from the configuration file.
pub struct Settings {
    pub server: ServerConfig,
}

} // verus!
