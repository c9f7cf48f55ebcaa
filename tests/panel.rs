use ptero_relay::panel::{read_handshake, HandshakeError, Key, PterodactylClient, SessionHandshake};

fn client() -> PterodactylClient {
    PterodactylClient::new(
        "key123".to_string(),
        "https://panel.example".to_string(),
        "abcd".to_string(),
    )
}

#[test]
fn endpoint_and_headers() {
    let c = client();
    assert_eq!(c.websocket_endpoint(), "https://panel.example/api/client/servers/abcd/websocket");
    assert_eq!(c.authorization(), "Bearer key123");
    assert_eq!(c.accept(), "application/vnd.pterodactyl.v1+json");
    assert_eq!(c.origin(), "https://panel.example");
}

#[test]
fn handshake_from_ok_answer() {
    let body = "{\"data\":{\"token\":\"t0k\",\"socket\":\"wss://node.example/ws\"}}";
    assert_eq!(
        read_handshake(200, body),
        Ok(SessionHandshake {
            token: "t0k".to_string(),
            socket_url: "wss://node.example/ws".to_string()
        })
    );
}

#[test]
fn handshake_status_error_keeps_body() {
    assert_eq!(
        read_handshake(403, "forbidden"),
        Err(HandshakeError::Status { code: 403, body: "forbidden".to_string() })
    );
}

#[test]
fn handshake_decode_errors() {
    assert_eq!(read_handshake(200, "<html>"), Err(HandshakeError::Decode));
    assert_eq!(read_handshake(200, "{\"data\":{\"token\":\"t\"}}"), Err(HandshakeError::Decode));
    assert_eq!(read_handshake(200, "{}"), Err(HandshakeError::Decode));
    assert_eq!(
        read_handshake(200, "{\"data\":{\"token\":1,\"socket\":\"s\"}}"),
        Err(HandshakeError::Decode)
    );
    assert_eq!(read_handshake(200, "[\"data\"]"), Err(HandshakeError::Decode));
}

#[test]
fn default_keys() {
    let k = Key::defaults();
    assert_eq!(k.discord_api_key, "discord_token_here");
    assert_eq!(k.apollo_api_key, "apollo_token_here");
}
