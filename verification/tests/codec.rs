//! Tests of the canonical JSON frame codec: exact encoder output,
//! decoding of every server message variant, and rejection of frames
//! outside the canonical form.

use play_with_me::codec::encode_client;
use play_with_me::parse::decode_server;
use play_with_me::Cell;
use play_with_me::ClientMessage;
use play_with_me::ConnectionMode;
use play_with_me::Coord;
use play_with_me::ServerMessage;
use play_with_me::Token;

fn token(code: &str, color: &str) -> Token {
    Token { code: code.to_string(), color: color.to_string() }
}

fn cell(x: u32, y: u32, code: &str, color: &str) -> Cell {
    Cell { coord: Coord { x, y }, value: token(code, color) }
}

#[test]
fn encode_connect_frame() {
    let m = ClientMessage::Connect {
        player_name: "Alice".to_string(),
        mode: ConnectionMode::NewGame,
        session: "global".to_string(),
    };
    assert_eq!(
        encode_client(&m),
        "{\"method\":\"Connect\",\"resource\":{\"playerName\":\"Alice\",\"mode\":\"NewGame\",\"session\":\"global\"}}"
    );
}

#[test]
fn encode_connect_random_mode() {
    let m = ClientMessage::Connect {
        player_name: "Bob".to_string(),
        mode: ConnectionMode::RandomGame,
        session: "s".to_string(),
    };
    assert_eq!(
        encode_client(&m),
        "{\"method\":\"Connect\",\"resource\":{\"playerName\":\"Bob\",\"mode\":\"RandomGame\",\"session\":\"s\"}}"
    );
}

#[test]
fn encode_post_move_frame() {
    let m = ClientMessage::PostMove(cell(5, 7, "o", "#333"));
    assert_eq!(
        encode_client(&m),
        "{\"method\":\"PostMove\",\"resource\":{\"coord\":{\"x\":5,\"y\":7},\"value\":{\"code\":\"o\",\"color\":\"#333\"}}}"
    );
}

#[test]
fn encode_clean_history_frame() {
    assert_eq!(encode_client(&ClientMessage::CleanHistory), "{\"method\":\"CleanHistory\"}");
}

#[test]
fn encode_escapes_strings() {
    let m = ClientMessage::Connect {
        player_name: "a\"b\\c\nd".to_string(),
        mode: ConnectionMode::NewGame,
        session: "s".to_string(),
    };
    assert_eq!(
        encode_client(&m),
        "{\"method\":\"Connect\",\"resource\":{\"playerName\":\"a\\\"b\\\\c\\u000ad\",\"mode\":\"NewGame\",\"session\":\"s\"}}"
    );
}

#[test]
fn encode_large_coordinates() {
    let m = ClientMessage::PostMove(cell(4294967295, 0, "x", "c"));
    assert_eq!(
        encode_client(&m),
        "{\"method\":\"PostMove\",\"resource\":{\"coord\":{\"x\":4294967295,\"y\":0},\"value\":{\"code\":\"x\",\"color\":\"c\"}}}"
    );
}

#[test]
fn decode_clean_frame() {
    let r = decode_server("{\"message\":\"Clean\"}");
    assert!(matches!(r, Ok(ServerMessage::Clean)));
}

#[test]
fn decode_connected_frame() {
    let r = decode_server(
        "{\"message\":\"Connected\",\"data\":{\"id\":\"1\",\"name\":\"Bob\",\"token\":{\"code\":\"x\",\"color\":\"#fff\"}}}",
    );
    match r {
        Ok(ServerMessage::Connected(p)) => {
            assert_eq!(p.id, "1");
            assert_eq!(p.name, "Bob");
            assert_eq!(p.token.code, "x");
            assert_eq!(p.token.color, "#fff");
        }
        other => panic!("expected Connected, got {:?}", other),
    }
}

#[test]
fn decode_disconnected_frame() {
    let r = decode_server(
        "{\"message\":\"Disconnected\",\"data\":{\"id\":\"2\",\"name\":\"Ann\",\"token\":{\"code\":\"o\",\"color\":\"b\"}}}",
    );
    match r {
        Ok(ServerMessage::Disconnected(p)) => assert_eq!(p.id, "2"),
        other => panic!("expected Disconnected, got {:?}", other),
    }
}

#[test]
fn decode_move_frame() {
    let r = decode_server(
        "{\"message\":\"Move\",\"data\":{\"Cell\":{\"coord\":{\"x\":1,\"y\":22},\"value\":{\"code\":\"x\",\"color\":\"red\"}}}}",
    );
    match r {
        Ok(ServerMessage::Move { cell }) => {
            assert_eq!(cell.coord.x, 1);
            assert_eq!(cell.coord.y, 22);
            assert_eq!(cell.value.code, "x");
        }
        other => panic!("expected Move, got {:?}", other),
    }
}

#[test]
fn decode_win_frame() {
    let r = decode_server("{\"message\":\"Win\",\"data\":{\"Player\":\"Bob\"}}");
    match r {
        Ok(ServerMessage::Win { player }) => assert_eq!(player, "Bob"),
        other => panic!("expected Win, got {:?}", other),
    }
}

#[test]
fn decode_set_cell_frame() {
    let r = decode_server(
        "{\"message\":\"SetCell\",\"data\":{\"coord\":{\"x\":0,\"y\":0},\"value\":{\"code\":\"z\",\"color\":\"\"}}}",
    );
    match r {
        Ok(ServerMessage::SetCell(cell)) => {
            assert_eq!(cell.coord.x, 0);
            assert_eq!(cell.value.code, "z");
            assert_eq!(cell.value.color, "");
        }
        other => panic!("expected SetCell, got {:?}", other),
    }
}

#[test]
fn decode_set_session_frame() {
    let r = decode_server(
        "{\"message\":\"SetSession\",\"data\":{\"session\":\"room1\",\"history\":[{\"coord\":{\"x\":1,\"y\":2},\"value\":{\"code\":\"a\",\"color\":\"c1\"}},{\"coord\":{\"x\":3,\"y\":4},\"value\":{\"code\":\"b\",\"color\":\"c2\"}}],\"me\":{\"id\":\"7\",\"name\":\"Me\",\"token\":{\"code\":\"x\",\"color\":\"#000\"}}}}",
    );
    match r {
        Ok(ServerMessage::SetSession { session, history, player }) => {
            assert_eq!(session, "room1");
            assert_eq!(history.len(), 2);
            assert_eq!(history[0].coord.x, 1);
            assert_eq!(history[1].value.code, "b");
            assert_eq!(player.id, "7");
        }
        other => panic!("expected SetSession, got {:?}", other),
    }
}

#[test]
fn decode_set_session_empty_history() {
    let r = decode_server(
        "{\"message\":\"SetSession\",\"data\":{\"session\":\"s\",\"history\":[],\"me\":{\"id\":\"\",\"name\":\"N\",\"token\":{\"code\":\"x\",\"color\":\"c\"}}}}",
    );
    match r {
        Ok(ServerMessage::SetSession { history, .. }) => assert!(history.is_empty()),
        other => panic!("expected SetSession, got {:?}", other),
    }
}

#[test]
fn decode_unescapes_strings() {
    let r = decode_server("{\"message\":\"Win\",\"data\":{\"Player\":\"a\\\"b\\\\c\\u000ad\"}}");
    match r {
        Ok(ServerMessage::Win { player }) => assert_eq!(player, "a\"b\\c\nd"),
        other => panic!("expected Win, got {:?}", other),
    }
}

#[test]
fn decode_rejects_unknown_discriminant() {
    assert!(decode_server("{\"message\":\"Restart\"}").is_err());
}

#[test]
fn decode_rejects_empty_and_malformed_frames() {
    assert!(decode_server("").is_err());
    assert!(decode_server("{}").is_err());
    assert!(decode_server("not json").is_err());
    assert!(decode_server("{\"message\":\"Clean\"").is_err());
}

#[test]
fn decode_rejects_trailing_garbage() {
    assert!(decode_server("{\"message\":\"Clean\"} ").is_err());
    assert!(decode_server("{\"message\":\"Win\",\"data\":{\"Player\":\"B\"}}x").is_err());
}

#[test]
fn decode_rejects_missing_fields() {
    assert!(decode_server("{\"message\":\"Connected\",\"data\":{\"id\":\"1\"}}").is_err());
    assert!(decode_server("{\"message\":\"Move\",\"data\":{}}").is_err());
}

#[test]
fn decode_rejects_non_canonical_numbers() {
    // Leading zeros and overflowing values are no canonical encodings.
    assert!(decode_server(
        "{\"message\":\"SetCell\",\"data\":{\"coord\":{\"x\":01,\"y\":0},\"value\":{\"code\":\"z\",\"color\":\"\"}}}"
    ).is_err());
    assert!(decode_server(
        "{\"message\":\"SetCell\",\"data\":{\"coord\":{\"x\":4294967296,\"y\":0},\"value\":{\"code\":\"z\",\"color\":\"\"}}}"
    ).is_err());
}

#[test]
fn decode_rejects_whitespace() {
    assert!(decode_server("{\"message\": \"Clean\"}").is_err());
    assert!(decode_server(" {\"message\":\"Clean\"}").is_err());
}

#[test]
fn decode_rejects_unknown_escapes() {
    assert!(decode_server("{\"message\":\"Win\",\"data\":{\"Player\":\"a\\qb\"}}").is_err());
    assert!(decode_server("{\"message\":\"Win\",\"data\":{\"Player\":\"a\\u0041b\"}}").is_err());
}

#[test]
fn decode_rejects_raw_control_characters() {
    assert!(decode_server("{\"message\":\"Win\",\"data\":{\"Player\":\"a\tb\"}}").is_err());
}
