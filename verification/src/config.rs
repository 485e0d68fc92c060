//! Service configuration: a name, the addresses to listen on, and the
//! addresses to keep client connections to. File loading lives with the
//! caller; the core consumes the plain value.

use vstd::prelude::*;

verus! {

/// What a service binds and connects at startup.
pub struct ServiceConfig {
    /// The service name, used in observability records.
    pub name: String,
    /// Addresses to accept connections on, as `host:port` text.
    pub listen: Vec<String>,
    /// Addresses to keep reconnecting client connections to.
    pub connect: Vec<String>,
}

impl ServiceConfig {
    /// A configuration that listens on one address and connects nowhere.
    pub fn server(name: &str, addr: &str) -> (r: ServiceConfig)
        ensures
            r.name@ == name@,
            r.listen@.len() == 1,
            r.listen@[0]@ == addr@,
            r.connect@.len() == 0,
    {
        let mut listen: Vec<String> = Vec::new();
        listen.push(addr.to_owned());
        ServiceConfig { name: name.to_owned(), listen, connect: Vec::new() }
    }

    /// A configuration that connects to one address and listens nowhere.
    pub fn client(name: &str, addr: &str) -> (r: ServiceConfig)
        ensures
            r.name@ == name@,
            r.listen@.len() == 0,
            r.connect@.len() == 1,
            r.connect@[0]@ == addr@,
    {
        let mut connect: Vec<String> = Vec::new();
        connect.push(addr.to_owned());
        ServiceConfig { name: name.to_owned(), listen: Vec::new(), connect }
    }
}

} // verus!
