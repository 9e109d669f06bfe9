//! A client that connects to a server and prints the lines it receives.

use vstd::prelude::*;

verus! {

/// The address of the server to connect to, such as `127.0.0.1:3000`.
pub struct Client {
    server_address: String,
}

impl Client {
    /// The address this client connects to.
    pub closed spec fn spec_server_address(&self) -> Seq<char> {
        self.server_address@
    }

    /// A client for the server at `server_address`.
    pub fn new(server_address: String) -> (r: Client)
        ensures
            r.spec_server_address() == server_address@,
    {
        Client { server_address }
    }

    /// The address this client connects to.
    pub fn server_address(&self) -> (r: &String)
        ensures
            r@ == self.spec_server_address(),
    {
        &self.server_address
    }
}

} // verus!
