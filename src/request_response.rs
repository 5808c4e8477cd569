//! Headers that travel with requests and responses.
use vstd::prelude::*;

use crate::port_identifiers::{UniqueClientId, UniqueServerId};

verus! {

/// Header of a request: names the client that sent it.
#[derive(Debug, Clone, Copy)]
pub struct RequestHeader {
    pub(crate) client_port_id: UniqueClientId,
}

impl RequestHeader {
    /// The client that sent the request.
    pub closed spec fn client(&self) -> UniqueClientId {
        self.client_port_id
    }

    /// A header for a request sent by `client_port_id`.
    pub fn new(client_port_id: UniqueClientId) -> (r: Self)
        ensures
            r.client() == client_port_id,
    {
        RequestHeader { client_port_id }
    }

    /// The id of the client which sent the request.
    pub fn client_port_id(&self) -> (r: UniqueClientId)
        ensures
            r == self.client(),
    {
        self.client_port_id
    }
}

/// Header of a response: names the server that sent it.
#[derive(Debug, Clone, Copy)]
pub struct ResponseHeader {
    pub(crate) server_port_id: UniqueServerId,
}

impl ResponseHeader {
    /// The server that sent the response.
    pub closed spec fn server(&self) -> UniqueServerId {
        self.server_port_id
    }

    /// A header for a response sent by `server_port_id`.
    pub fn new(server_port_id: UniqueServerId) -> (r: Self)
        ensures
            r.server() == server_port_id,
    {
        ResponseHeader { server_port_id }
    }

    /// The id of the server which sent the response.
    pub fn server_port_id(&self) -> (r: UniqueServerId)
        ensures
            r == self.server(),
    {
        self.server_port_id
    }
}

} // verus!
