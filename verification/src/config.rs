//! Startup options and their defaults.
//!
//! The environment is read outside the library; this module only fixes the
//! shape of the options and the default ports.

use vstd::prelude::*;

verus! {

/// Options the process is started with.  The address fields are plain
/// values; whatever reads the environment fills them in.
pub struct Options {
    pub database_url: String,
    pub ip: [u8; 4],
    pub port: u16,
    pub rabbitmq_host: String,
    pub rabbitmq_port: u16,
    pub rabbitmq_username: String,
    pub rabbitmq_password: String,
}

/// Default port of the request listener.
pub fn default_port() -> (p: u16)
    ensures
        p == 50051,
{
    50051
}

/// Default port of the message broker.
pub fn default_rabbitmq_port() -> (p: u16)
    ensures
        p == 5672,
{
    5672
}

} // verus!
