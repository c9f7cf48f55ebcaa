use vstd::prelude::*;
use vstd::string::*;

use crate::json::{json_doc, json_parses, member, model_member, parse_json, str_member, string_member};

verus! {

/// The credentials read at start-up.
#[derive(Clone, Debug, PartialEq, Eq)]
pub struct Key {
    pub discord_api_key: String,
    pub apollo_api_key: String,
}

impl Key {
    /// The keys written to a fresh key file, to be filled in by the operator.
    pub fn defaults() -> (r: Key)
        ensures
            r.discord_api_key@ == "discord_token_here"@,
            r.apollo_api_key@ == "apollo_token_here"@,
    {
        Key {
            discord_api_key: String::from_str("discord_token_here"),
            apollo_api_key: String::from_str("apollo_token_here"),
        }
    }
}

/// Talks to one server of the panel's client API.
#[derive(Clone, Debug)]
pub struct PterodactylClient {
    api_key: String,
    base_url: String,
    server_id: String,
}

/// The token and socket address that open one websocket session.
#[derive(Clone, Debug, PartialEq, Eq)]
pub struct SessionHandshake {
    pub token: String,
    pub socket_url: String,
}

/// Why no handshake came of the panel's answer.
#[derive(Clone, Debug, PartialEq, Eq)]
pub enum HandshakeError {
    /// The panel answered with another status than 200; its body says why.
    Status { code: u16, body: String },
    /// The body of a 200 answer is not `{"data":{"token":..,"socket":..}}`.
    Decode,
}

impl PterodactylClient {
    pub closed spec fn api_key_spec(&self) -> Seq<char> {
        self.api_key@
    }

    pub closed spec fn base_url_spec(&self) -> Seq<char> {
        self.base_url@
    }

    pub closed spec fn server_id_spec(&self) -> Seq<char> {
        self.server_id@
    }

    pub fn new(api_key: String, base_url: String, server_id: String) -> (r: Self)
        ensures
            r.api_key_spec() == api_key@,
            r.base_url_spec() == base_url@,
            r.server_id_spec() == server_id@,
    {
        Self { api_key, base_url, server_id }
    }

    /// `{base_url}/api/client/servers/{server_id}/websocket`, where the
    /// handshake is fetched.
    pub fn websocket_endpoint(&self) -> (r: String)
        ensures
            r@ == self.base_url_spec() + "/api/client/servers/"@ + self.server_id_spec()
                + "/websocket"@,
    {
        let mut u = self.base_url.clone();
        u.append("/api/client/servers/");
        u.append(self.server_id.as_str());
        u.append("/websocket");
        u
    }

    /// The value of the `Authorization` header: the API key as a bearer token.
    pub fn authorization(&self) -> (r: String)
        ensures
            r@ == "Bearer "@ + self.api_key_spec(),
    {
        let mut h = String::from_str("Bearer ");
        h.append(self.api_key.as_str());
        h
    }

    /// The value of the `Accept` header: the version of the panel's client API.
    pub fn accept(&self) -> (r: &'static str)
        ensures
            r@ == "application/vnd.pterodactyl.v1+json"@,
    {
        "application/vnd.pterodactyl.v1+json"
    }

    /// The value of the `Origin` header of the websocket request: the panel's
    /// own address.
    pub fn origin(&self) -> (r: String)
        ensures
            r@ == self.base_url_spec(),
    {
        self.base_url.clone()
    }
}

/// The token and socket address in a handshake body: the string members
/// `token` and `socket` of the object member `data` of the document.
pub open spec fn handshake_spec(body: Seq<char>) -> Option<(Seq<char>, Seq<char>)> {
    if !json_parses(body) {
        None
    } else {
        match model_member(json_doc(body), "data"@) {
            Some(d) => match (str_member(d, "token"@), str_member(d, "socket"@)) {
                (Some(t), Some(s)) => Some((t, s)),
                _ => None,
            },
            None => None,
        }
    }
}

/// Reads the panel's answer to the handshake request: its status and body.
pub fn read_handshake(status: u16, body: &str) -> (r: Result<SessionHandshake, HandshakeError>)
    ensures
        status != 200 <==> r matches Err(HandshakeError::Status { .. }),
        r matches Err(HandshakeError::Status { code, body: b }) ==> code == status && b@
            == body@,
        status == 200 && handshake_spec(body@) is None ==> r == Err::<
            SessionHandshake,
            HandshakeError,
        >(HandshakeError::Decode),
        status == 200 ==> (handshake_spec(body@) matches Some((t, s)) ==> (r matches Ok(h)
            && h.token@ == t && h.socket_url@ == s)),
{
    if status != 200 {
        return Err(HandshakeError::Status { code: status, body: String::from_str(body) });
    }
    let v = match parse_json(body) {
        Some(v) => v,
        None => return Err(HandshakeError::Decode),
    };
    let data = match member(&v, "data") {
        Some(d) => d,
        None => return Err(HandshakeError::Decode),
    };
    match (string_member(&data, "token"), string_member(&data, "socket")) {
        (Some(token), Some(socket_url)) => Ok(SessionHandshake { token, socket_url }),
        _ => Err(HandshakeError::Decode),
    }
}

} // verus!
