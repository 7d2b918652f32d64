//! Tests of the session state machine, the token allocator and the
//! drag controller.

use play_with_me::default_palette;
use play_with_me::select_token;
use play_with_me::submit;
use play_with_me::update;
use play_with_me::Cell;
use play_with_me::ClientMessage;
use play_with_me::Coord;
use play_with_me::Drag;
use play_with_me::Effect;
use play_with_me::Model;
use play_with_me::Msg;
use play_with_me::Player;
use play_with_me::ServerMessage;
use play_with_me::Stage;
use play_with_me::Token;

fn gameplay_model() -> Model {
    let mut model = Model::new(30);
    assert!(matches!(update(Msg::Connect, &mut model), Some(Effect::OpenConnection)));
    let eff = update(Msg::Connected, &mut model);
    assert!(matches!(eff, Some(Effect::Send(ClientMessage::Connect { .. }))));
    assert!(matches!(model.stage, Stage::Gameplay));
    model
}

fn player(id: &str, name: &str) -> Player {
    Player {
        id: id.to_string(),
        name: name.to_string(),
        token: Token { code: "x".to_string(), color: "#fff".to_string() },
    }
}

fn cell(x: u32, y: u32, code: &str) -> Cell {
    Cell {
        coord: Coord { x, y },
        value: Token { code: code.to_string(), color: "red".to_string() },
    }
}

#[test]
fn new_model_defaults() {
    let model = Model::new(30);
    assert_eq!(model.size, 30);
    assert!(matches!(model.stage, Stage::Lobby));
    assert_eq!(model.session, "global");
    assert_eq!(model.player.id, "");
    assert_eq!(model.player.name, "Anonymous");
    assert_eq!(model.player.token.code, "\u{2717}");
    assert_eq!(model.player.token.color, "#333");
    assert!(model.players.is_empty());
    assert!(model.history.is_empty());
    assert_eq!(model.camera.x, 0);
    assert_eq!(model.camera.y, 0);
    assert!(!model.dragging);
}

#[test]
fn default_palette_has_five_glyphs() {
    let palette = default_palette();
    assert_eq!(palette.len(), 5);
    assert_eq!(palette[0], "\u{2717}");
}

#[test]
fn select_token_first_three_joiners() {
    // Grid size 30, palette ["x","o"]: the first joiner sees an empty
    // roster, the second one entry, the third wraps around.
    let palette = vec!["x".to_string(), "o".to_string()];
    assert_eq!(select_token(0, &palette), "x");
    assert_eq!(select_token(1, &palette), "o");
    assert_eq!(select_token(2, &palette), "x");
}

#[test]
fn select_token_is_deterministic() {
    let palette = vec!["a".to_string(), "b".to_string(), "c".to_string()];
    assert_eq!(select_token(7, &palette), select_token(7, &palette));
    assert_eq!(select_token(palette.len(), &palette), select_token(0, &palette));
}

#[test]
fn name_and_session_edits_update_fields() {
    let mut model = Model::new(30);
    assert!(update(Msg::NameChange("Alice".to_string()), &mut model).is_none());
    assert!(update(Msg::SessionChange("room1".to_string()), &mut model).is_none());
    assert!(update(Msg::TokenChange("o".to_string()), &mut model).is_none());
    assert!(update(Msg::TokenColorChange("#abc".to_string()), &mut model).is_none());
    assert_eq!(model.player.name, "Alice");
    assert_eq!(model.session, "room1");
    assert_eq!(model.player.token.code, "o");
    assert_eq!(model.player.token.color, "#abc");
}

#[test]
fn stage_walks_lobby_loading_gameplay() {
    let mut model = Model::new(30);
    assert!(matches!(model.stage, Stage::Lobby));
    let eff = update(Msg::Connect, &mut model);
    assert!(matches!(eff, Some(Effect::OpenConnection)));
    assert!(matches!(model.stage, Stage::Loading));
    let eff = update(Msg::Connected, &mut model);
    assert!(matches!(model.stage, Stage::Gameplay));
    match eff {
        Some(Effect::Send(ClientMessage::Connect { player_name, session, .. })) => {
            assert_eq!(player_name, "Anonymous");
            assert_eq!(session, "global");
        }
        other => panic!("expected a join request, got {:?}", other),
    }
}

#[test]
fn connected_outside_loading_is_ignored() {
    let mut model = Model::new(30);
    assert!(update(Msg::Connected, &mut model).is_none());
    assert!(matches!(model.stage, Stage::Lobby));
}

#[test]
fn move_outside_gameplay_is_ignored() {
    let mut model = Model::new(30);
    assert!(update(Msg::Move { x: 1, y: 2 }, &mut model).is_none());
    assert!(model.history.is_empty());
}

#[test]
fn move_appends_optimistically_and_posts_the_same_cell() {
    // MoveRequested{x:5,y:7} with local token "o" appends
    // Cell{coord:{5,7}, value:{code:"o"}} and posts the identical cell.
    let mut model = gameplay_model();
    update(Msg::TokenChange("o".to_string()), &mut model);
    let eff = update(Msg::Move { x: 5, y: 7 }, &mut model);
    assert_eq!(model.history.len(), 1);
    assert_eq!(model.history[0].coord.x, 5);
    assert_eq!(model.history[0].coord.y, 7);
    assert_eq!(model.history[0].value.code, "o");
    match eff {
        Some(Effect::Send(ClientMessage::PostMove(cell))) => {
            assert_eq!(cell.coord.x, 5);
            assert_eq!(cell.coord.y, 7);
            assert_eq!(cell.value.code, model.history[0].value.code);
            assert_eq!(cell.value.color, model.history[0].value.color);
        }
        other => panic!("expected a posted move, got {:?}", other),
    }
}

#[test]
fn roster_tracks_joins_and_leaves() {
    let mut model = gameplay_model();
    update(Msg::ServerMessage(ServerMessage::Connected(player("1", "Ann"))), &mut model);
    update(Msg::ServerMessage(ServerMessage::Connected(player("2", "Ben"))), &mut model);
    assert_eq!(model.players.len(), 2);
    update(
        Msg::ServerMessage(ServerMessage::Disconnected(player("1", "Ann"))),
        &mut model,
    );
    assert_eq!(model.players.len(), 1);
    assert_eq!(model.players[0].id, "2");
}

#[test]
fn inbound_moves_append_in_arrival_order() {
    let mut model = gameplay_model();
    update(
        Msg::ServerMessage(ServerMessage::Move { cell: cell(1, 1, "a") }),
        &mut model,
    );
    update(Msg::ServerMessage(ServerMessage::SetCell(cell(2, 2, "b"))), &mut model);
    update(Msg::Move { x: 3, y: 3 }, &mut model);
    assert_eq!(model.history.len(), 3);
    assert_eq!(model.history[0].value.code, "a");
    assert_eq!(model.history[1].value.code, "b");
    assert_eq!(model.history[2].coord.x, 3);
}

#[test]
fn clean_request_only_sends_until_server_confirms() {
    // CleanRequested emits the frame but does not clear locally; the
    // server's Clean empties History, including unconfirmed moves.
    let mut model = gameplay_model();
    update(Msg::Move { x: 1, y: 1 }, &mut model);
    update(Msg::Move { x: 2, y: 2 }, &mut model);
    let eff = update(Msg::CleanHistory, &mut model);
    assert!(matches!(eff, Some(Effect::Send(ClientMessage::CleanHistory))));
    assert_eq!(model.history.len(), 2);
    update(Msg::ServerMessage(ServerMessage::Clean), &mut model);
    assert!(model.history.is_empty());
}

#[test]
fn set_session_replaces_identity_and_rederives_token() {
    let mut model = gameplay_model();
    update(Msg::Move { x: 1, y: 1 }, &mut model);
    let me = player("9", "Me");
    let history = vec![cell(4, 4, "z")];
    update(
        Msg::ServerMessage(ServerMessage::SetSession {
            session: "room7".to_string(),
            history,
            player: me,
        }),
        &mut model,
    );
    assert_eq!(model.session, "room7");
    assert_eq!(model.history.len(), 1);
    assert_eq!(model.history[0].value.code, "z");
    assert_eq!(model.player.id, "9");
    assert_eq!(model.player.name, "Me");
    // The roster is empty, so the allocator hands out the first glyph.
    assert_eq!(model.player.token.code, "\u{2717}");
}

#[test]
fn win_changes_nothing() {
    let mut model = gameplay_model();
    update(Msg::Move { x: 1, y: 1 }, &mut model);
    let eff = update(
        Msg::ServerMessage(ServerMessage::Win { player: "Ann".to_string() }),
        &mut model,
    );
    assert!(eff.is_none());
    assert_eq!(model.history.len(), 1);
    assert!(matches!(model.stage, Stage::Gameplay));
}

#[test]
fn drag_accumulates_and_stops() {
    // DragStart, two DragMove{3,-2}, DragStop: cumulative offset
    // (6,-4); no further change after DragStop.
    let mut model = Model::new(30);
    update(Msg::Drag(Drag::Start), &mut model);
    update(Msg::Drag(Drag::Move { x: 3, y: -2 }), &mut model);
    update(Msg::Drag(Drag::Move { x: 3, y: -2 }), &mut model);
    update(Msg::Drag(Drag::Stop), &mut model);
    assert_eq!(model.camera.x, 6);
    assert_eq!(model.camera.y, -4);
    update(Msg::Drag(Drag::Move { x: 100, y: 100 }), &mut model);
    assert_eq!(model.camera.x, 6);
    assert_eq!(model.camera.y, -4);
}

#[test]
fn drag_move_without_start_is_ignored() {
    let mut model = Model::new(30);
    update(Msg::Drag(Drag::Move { x: 5, y: 5 }), &mut model);
    assert_eq!(model.camera.x, 0);
    assert_eq!(model.camera.y, 0);
}

#[test]
fn cell_lookup_prefers_the_most_recent_entry() {
    // The history keeps duplicates; the grid shows the last insertion.
    let mut model = gameplay_model();
    update(Msg::TokenChange("a".to_string()), &mut model);
    update(Msg::Move { x: 2, y: 3 }, &mut model);
    update(Msg::TokenChange("b".to_string()), &mut model);
    update(Msg::Move { x: 2, y: 3 }, &mut model);
    let shown = play_with_me::cell_value_at(&model.history, 2, 3);
    match shown {
        Some(token) => assert_eq!(token.code, "b"),
        None => panic!("expected a token at the coordinate"),
    }
    assert!(play_with_me::cell_value_at(&model.history, 9, 9).is_none());
}

#[test]
fn submit_maps_enter_to_connect() {
    assert!(matches!(submit(13), Msg::Connect));
    assert!(matches!(submit(65), Msg::Nope));
}

#[test]
fn nope_changes_nothing() {
    let mut model = Model::new(30);
    let eff = update(Msg::Nope, &mut model);
    assert!(eff.is_none());
    assert!(matches!(model.stage, Stage::Lobby));
}
