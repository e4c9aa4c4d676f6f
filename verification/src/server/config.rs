//! How a server is set up.

use vstd::prelude::*;

verus! {

#[derive(Debug)]
pub struct ServerConfig {
    pub listen_addr: String,
    pub node_id: u64,
}

impl Clone for ServerConfig {
    fn clone(&self) -> (copy: Self)
        ensures
            copy.listen_addr@ == self.listen_addr@,
            copy.node_id == self.node_id,
    {
        ServerConfig { listen_addr: self.listen_addr.clone(), node_id: self.node_id }
    }
}

impl Default for ServerConfig {
    fn default() -> (config: Self)
        ensures
            config.listen_addr@ == "127.0.0.1:9000"@,
            config.node_id == 1,
    {
        ServerConfig { listen_addr: "127.0.0.1:9000".to_owned(), node_id: 1 }
    }
}

} // verus!
