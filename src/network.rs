use vstd::prelude::*;

verus! {

/// A request the oblivious-transfer server could not parse.
#[derive(Debug)]
pub struct InvalidRequest;

/// A request that does not fit the server's current protocol round.
#[derive(Debug)]
pub struct InvalidState;

/// A participant of the oblivious-transfer protocol, talking to a server.
pub struct Client {
    id: String,
    server_url: String,
}

impl Client {
    /// The client's name.
    pub closed spec fn id_spec(&self) -> Seq<char> {
        self.id@
    }

    /// The base address of the server.
    pub closed spec fn server_url_spec(&self) -> Seq<char> {
        self.server_url@
    }

    /// A client named `id` for the server at `server_url`.
    pub fn new(id: String, server_url: String) -> (r: Client)
        ensures
            r.id_spec() == id@,
            r.server_url_spec() == server_url@,
    {
        Client { id, server_url }
    }

    /// The client's name.
    pub fn id(&self) -> (r: &String)
        ensures
            r@ == self.id_spec(),
    {
        &self.id
    }

    /// The base address of the server.
    pub fn server_url(&self) -> (r: &String)
        ensures
            r@ == self.server_url_spec(),
    {
        &self.server_url
    }
}

} // verus!
