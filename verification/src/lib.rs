//! Session synchronization engine for a shared multiplayer grid game.
//!
//! Participants connect to a named session and place tokens on a shared
//! grid. This crate holds the client-side core: the protocol data model,
//! a codec between messages and their canonical JSON frames, the token
//! allocator, and the reducer that drives the session state machine one
//! event at a time. Transport and rendering stay outside; they deliver
//! events to [`update`] and perform the [`Effect`]s it returns.

use vstd::prelude::*;

pub mod codec;
pub mod laws;
pub mod parse;
pub mod protocol;

pub use codec::encode_client;
pub use codec::DecodeError;
pub use parse::decode_server;
pub use protocol::Cell;
pub use protocol::CellV;
pub use protocol::ClientMessage;
pub use protocol::ClientMessageV;
pub use protocol::ConnectionMode;
pub use protocol::Coord;
pub use protocol::History;
pub use protocol::Player;
pub use protocol::PlayerV;
pub use protocol::ServerMessage;
pub use protocol::ServerMessageV;
pub use protocol::Token;
pub use protocol::TokenV;

use protocol::history_view;
use protocol::players_view;
use vstd::string::StringExecFns;

verus! {

/// The connection lifecycle phase.
#[derive(Clone, Copy, PartialEq, Eq, Structural, Debug)]
pub enum Stage {
    Lobby,
    Loading,
    Gameplay,
}

/// A pointer drag gesture event, reported as incremental deltas.
#[derive(Clone, Copy, PartialEq, Eq, Structural, Debug)]
pub enum Drag {
    Start,
    Move { x: i32, y: i32 },
    Stop,
}

/// The panned view offset, in pixels.
#[derive(Clone, Copy, PartialEq, Eq, Structural, Debug)]
pub struct Camera {
    pub x: i64,
    pub y: i64,
}

/// An event delivered to the reducer: user input, socket lifecycle,
/// or an inbound protocol message.
#[derive(Debug)]
pub enum Msg {
    NameChange(String),
    SessionChange(String),
    TokenChange(String),
    TokenColorChange(String),
    Connect,
    Connected,
    ServerMessage(ServerMessage),
    Move { x: u32, y: u32 },
    CleanHistory,
    Drag(Drag),
    Nope,
}

/// An outbound action the caller must perform after a reducer step:
/// open a fresh connection, or send one frame on the open connection.
#[derive(Debug)]
pub enum Effect {
    OpenConnection,
    Send(ClientMessage),
}

/// The aggregate session state, owned by the reducer alone.
#[derive(Debug)]
pub struct Model {
    /// Width and height of the grid.
    pub size: u32,
    /// Connection lifecycle phase.
    pub stage: Stage,
    /// Which session this client joins.
    pub session: String,
    /// The local participant.
    pub player: Player,
    /// Roster: who is connected.
    pub players: Vec<Player>,
    /// The ordered log of placed cells.
    pub history: History,
    /// Cosmetic view offset, panned by drag gestures.
    pub camera: Camera,
    /// Whether a drag gesture is in progress.
    pub dragging: bool,
}

/// Mathematical view of an event.
#[verifier::ext_equal]
pub enum MsgV {
    NameChange(Seq<char>),
    SessionChange(Seq<char>),
    TokenChange(Seq<char>),
    TokenColorChange(Seq<char>),
    Connect,
    Connected,
    ServerMessage(ServerMessageV),
    Move { x: u32, y: u32 },
    CleanHistory,
    Drag(Drag),
    Nope,
}

/// Mathematical view of an effect.
#[verifier::ext_equal]
pub enum EffectV {
    OpenConnection,
    Send(ClientMessageV),
}

/// Mathematical view of the model.
#[verifier::ext_equal]
pub struct ModelV {
    pub size: u32,
    pub stage: Stage,
    pub session: Seq<char>,
    pub player: PlayerV,
    pub players: Seq<PlayerV>,
    pub history: Seq<CellV>,
    pub camera: Camera,
    pub dragging: bool,
}

impl View for Msg {
    type V = MsgV;

    open spec fn view(&self) -> MsgV {
        match self {
            Msg::NameChange(s) => MsgV::NameChange(s@),
            Msg::SessionChange(s) => MsgV::SessionChange(s@),
            Msg::TokenChange(s) => MsgV::TokenChange(s@),
            Msg::TokenColorChange(s) => MsgV::TokenColorChange(s@),
            Msg::Connect => MsgV::Connect,
            Msg::Connected => MsgV::Connected,
            Msg::ServerMessage(m) => MsgV::ServerMessage(m@),
            Msg::Move { x, y } => MsgV::Move { x: *x, y: *y },
            Msg::CleanHistory => MsgV::CleanHistory,
            Msg::Drag(d) => MsgV::Drag(*d),
            Msg::Nope => MsgV::Nope,
        }
    }
}

impl View for Effect {
    type V = EffectV;

    open spec fn view(&self) -> EffectV {
        match self {
            Effect::OpenConnection => EffectV::OpenConnection,
            Effect::Send(m) => EffectV::Send(m@),
        }
    }
}

impl View for Model {
    type V = ModelV;

    open spec fn view(&self) -> ModelV {
        ModelV {
            size: self.size,
            stage: self.stage,
            session: self.session@,
            player: self.player@,
            players: players_view(self.players@),
            history: history_view(self.history@),
            camera: self.camera,
            dragging: self.dragging,
        }
    }
}

/// View of an optional effect.
pub open spec fn opt_effect_view(e: Option<Effect>) -> Option<EffectV> {
    match e {
        Some(eff) => Some(eff@),
        None => None,
    }
}

/// View of a palette of token glyphs.
pub open spec fn palette_view(p: Seq<String>) -> Seq<Seq<char>> {
    p.map_values(|s: String| s@)
}

/// The token handed to the participant who joins when `n` others are
/// already known: the palette entry at `n` modulo the palette length.
pub open spec fn spec_select_token(n: nat, palette: Seq<Seq<char>>) -> Seq<char>
    recommends
        palette.len() > 0,
{
    palette[(n % palette.len()) as int]
}

/// Deterministic token allocation: purely a function of the roster size
/// at the moment of assignment.
pub fn select_token(n: usize, palette: &Vec<String>) -> (r: String)
    requires
        palette@.len() > 0,
    ensures
        r@ == spec_select_token(n as nat, palette_view(palette@)),
{
    palette[n % palette.len()].clone()
}

/// The glyphs offered to participants, in allocation order.
pub open spec fn spec_default_palette() -> Seq<Seq<char>> {
    seq!["✗"@, "❍"@, "☀"@, "☘"@, "☣"@]
}

/// Builds the default glyph palette.
pub fn default_palette() -> (r: Vec<String>)
    ensures
        palette_view(r@) == spec_default_palette(),
        r@.len() == 5,
{
    let mut v: Vec<String> = Vec::new();
    v.push(String::from_str("✗"));
    v.push(String::from_str("❍"));
    v.push(String::from_str("☀"));
    v.push(String::from_str("☘"));
    v.push(String::from_str("☣"));
    proof {
        assert(palette_view(v@) =~= spec_default_palette());
    }
    v
}

/// Rank of a stage along the `Lobby -> Loading -> Gameplay` progression.
pub open spec fn stage_rank(s: Stage) -> int {
    match s {
        Stage::Lobby => 0,
        Stage::Loading => 1,
        Stage::Gameplay => 2,
    }
}

/// `a + d` clamped into the `i64` range.
pub open spec fn sat_add64(a: i64, d: i32) -> i64 {
    if a + d > i64::MAX {
        i64::MAX
    } else if a + d < i64::MIN {
        i64::MIN
    } else {
        (a + d) as i64
    }
}

/// Adds a drag delta to a camera coordinate, saturating at the ends of
/// the representable range.
fn add_offset(a: i64, d: i32) -> (r: i64)
    ensures
        r == sat_add64(a, d),
{
    let s: i128 = a as i128 + d as i128;
    if s > i64::MAX as i128 {
        i64::MAX
    } else if s < i64::MIN as i128 {
        i64::MIN
    } else {
        s as i64
    }
}

/// The cell a local move request places: the clicked coordinate marked
/// with the local participant's current token.
pub open spec fn spec_move_cell(m: ModelV, x: u32, y: u32) -> CellV {
    CellV { coord: Coord { x, y }, value: m.player.token }
}

/// The join request emitted as soon as the connection opens.
pub open spec fn spec_join_request(m: ModelV) -> ClientMessageV {
    ClientMessageV::Connect {
        player_name: m.player.name,
        mode: ConnectionMode::NewGame,
        session: m.session,
    }
}

/// Keeps every roster entry except those with the given id.
pub open spec fn spec_drop_id(roster: Seq<PlayerV>, id: Seq<char>) -> Seq<PlayerV> {
    roster.filter(|q: PlayerV| q.id != id)
}

/// How an inbound server message transforms the model.
pub open spec fn step_server(m: ModelV, sm: ServerMessageV) -> ModelV {
    match sm {
        ServerMessageV::Connected(p) => ModelV { players: m.players.push(p), ..m },
        ServerMessageV::Disconnected(p) => ModelV { players: spec_drop_id(m.players, p.id), ..m },
        ServerMessageV::Move { cell } => ModelV { history: m.history.push(cell), ..m },
        ServerMessageV::Win { player: _ } => m,
        ServerMessageV::SetCell(cell) => ModelV { history: m.history.push(cell), ..m },
        ServerMessageV::SetSession { session, history, player } => ModelV {
            session,
            history,
            player: PlayerV {
                token: TokenV {
                    code: spec_select_token(m.players.len(), spec_default_palette()),
                    ..player.token
                },
                ..player
            },
            ..m
        },
        ServerMessageV::Clean => ModelV { history: Seq::empty(), ..m },
    }
}

/// The reducer's transition function: how one event transforms the model.
///
/// Events that are only meaningful in a particular stage (`Connected`
/// outside `Loading`, a move request outside `Gameplay`, a drag delta
/// while no drag is in progress) leave the model unchanged, like any
/// other unrecognized event. A connect request is honoured from every
/// stage: requesting a new connection is the one way to supersede a
/// pending or stale one.
pub open spec fn step(m: ModelV, msg: MsgV) -> ModelV {
    match msg {
        MsgV::NameChange(name) => ModelV { player: PlayerV { name, ..m.player }, ..m },
        MsgV::SessionChange(session) => ModelV { session, ..m },
        MsgV::TokenChange(code) => ModelV {
            player: PlayerV { token: TokenV { code, ..m.player.token }, ..m.player },
            ..m
        },
        MsgV::TokenColorChange(color) => ModelV {
            player: PlayerV { token: TokenV { color, ..m.player.token }, ..m.player },
            ..m
        },
        MsgV::Connect => ModelV { stage: Stage::Loading, ..m },
        MsgV::Connected => if m.stage is Loading {
            ModelV { stage: Stage::Gameplay, ..m }
        } else {
            m
        },
        MsgV::ServerMessage(sm) => step_server(m, sm),
        MsgV::Move { x, y } => if m.stage is Gameplay {
            ModelV { history: m.history.push(spec_move_cell(m, x, y)), ..m }
        } else {
            m
        },
        MsgV::CleanHistory => m,
        MsgV::Drag(d) => match d {
            Drag::Start => ModelV { dragging: true, ..m },
            Drag::Move { x, y } => if m.dragging {
                ModelV {
                    camera: Camera { x: sat_add64(m.camera.x, x), y: sat_add64(m.camera.y, y) },
                    ..m
                }
            } else {
                m
            },
            Drag::Stop => ModelV { dragging: false, ..m },
        },
        MsgV::Nope => m,
    }
}

/// The outbound action one event provokes, if any.
///
/// A clean request is forwarded in every stage: the server is
/// authoritative for the reset, and transport policy for a send while
/// the connection is not open belongs to the caller.
pub open spec fn step_effect(m: ModelV, msg: MsgV) -> Option<EffectV> {
    match msg {
        MsgV::Connect => Some(EffectV::OpenConnection),
        MsgV::Connected => if m.stage is Loading {
            Some(EffectV::Send(spec_join_request(m)))
        } else {
            None
        },
        MsgV::Move { x, y } => if m.stage is Gameplay {
            Some(EffectV::Send(ClientMessageV::PostMove(spec_move_cell(m, x, y))))
        } else {
            None
        },
        MsgV::CleanHistory => Some(EffectV::Send(ClientMessageV::CleanHistory)),
        _ => None,
    }
}

impl Model {
    /// A fresh model for a grid of the given size: lobby stage, the
    /// `global` session, an anonymous local participant with the first
    /// default glyph, empty roster and history, centered camera.
    pub fn new(size: u32) -> (r: Self)
        ensures
            r@ == init_model(size),
    {
        let r = Model {
            size,
            stage: Stage::Lobby,
            session: String::from_str("global"),
            player: Player {
                id: String::from_str(""),
                name: String::from_str("Anonymous"),
                token: Token { code: String::from_str("✗"), color: String::from_str("#333") },
            },
            players: Vec::new(),
            history: Vec::new(),
            camera: Camera { x: 0, y: 0 },
            dragging: false,
        };
        proof {
            assert(r@ =~~= init_model(size));
        }
        r
    }
}

/// The model every session starts from.
pub open spec fn init_model(size: u32) -> ModelV {
    ModelV {
        size,
        stage: Stage::Lobby,
        session: "global"@,
        player: PlayerV {
            id: ""@,
            name: "Anonymous"@,
            token: TokenV { code: "✗"@, color: "#333"@ },
        },
        players: Seq::empty(),
        history: Seq::empty(),
        camera: Camera { x: 0, y: 0 },
        dragging: false,
    }
}

/// The token shown at a grid cell: the value of the most recent
/// history entry placed at that coordinate, if any. Duplicates are
/// kept in the history, so the last matching insertion wins.
pub open spec fn spec_cell_at(h: Seq<CellV>, x: u32, y: u32) -> Option<TokenV>
    decreases h.len(),
{
    if h.len() == 0 {
        None
    } else if h.last().coord == (Coord { x, y }) {
        Some(h.last().value)
    } else {
        spec_cell_at(h.drop_last(), x, y)
    }
}

/// Looks up the token shown at a coordinate by a linear most-recent
/// match scan over the history.
pub fn cell_value_at(history: &History, x: u32, y: u32) -> (r: Option<Token>)
    ensures
        (match r {
            Some(t) => spec_cell_at(history_view(history@), x, y) == Some(t@),
            None => spec_cell_at(history_view(history@), x, y) is None,
        }),
{
    let ghost hv = history_view(history@);
    let mut k = history.len();
    proof {
        assert(hv.take(history@.len() as int) =~= hv);
    }
    while k > 0
        invariant
            k <= history@.len(),
            hv == history_view(history@),
            spec_cell_at(hv, x, y) == spec_cell_at(hv.take(k as int), x, y),
        decreases k,
    {
        k -= 1;
        proof {
            assert(hv.take(k as int + 1).drop_last() =~= hv.take(k as int));
            assert(hv.take(k as int + 1).last() == history@[k as int]@);
        }
        if history[k].coord.x == x && history[k].coord.y == y {
            return Some(history[k].value.clone());
        }
    }
    proof {
        assert(hv.take(0) =~= Seq::<CellV>::empty());
        assert(spec_cell_at(Seq::<CellV>::empty(), x, y) is None);
    }
    None
}

/// The key code of the enter key in lobby inputs.
pub const ENTER_KEY: u32 = 13;

/// Maps a key press in the lobby inputs to an event: the enter key
/// requests a connection, anything else does nothing.
pub fn submit(key_code: u32) -> (m: Msg)
    ensures
        key_code == ENTER_KEY ==> m is Connect,
        key_code != ENTER_KEY ==> m is Nope,
{
    if key_code == ENTER_KEY {
        Msg::Connect
    } else {
        Msg::Nope
    }
}

/// Removes every roster entry whose id equals `id`, keeping the order
/// of the remaining entries.
fn remove_by_id(players: &mut Vec<Player>, id: &String)
    ensures
        players_view(final(players)@) == spec_drop_id(players_view(old(players)@), id@),
{
    let mut kept: Vec<Player> = Vec::new();
    let mut i: usize = 0;
    while i < players.len()
        invariant
            i <= players@.len(),
            players@ == old(players)@,
            players_view(kept@) =~= spec_drop_id(players_view(players@.take(i as int)), id@),
        decreases players@.len() - i,
    {
        proof {
            reveal(Seq::filter);
            assert(players_view(players@.take(i as int + 1)) =~= players_view(
                players@.take(i as int),
            ).push(players@[i as int]@));
            assert(players_view(players@.take(i as int)).push(players@[i as int]@).drop_last()
                =~= players_view(players@.take(i as int)));
        }
        if players[i].id != *id {
            kept.push(players[i].clone());
        }
        i += 1;
    }
    proof {
        assert(players@.take(players@.len() as int) =~= players@);
    }
    *players = kept;
}

/// The reducer: applies one event to the model and returns the outbound
/// action the caller must perform, if any.
///
/// The whole transition is pinned by [`step`] and [`step_effect`]; this
/// function neither panics nor touches anything outside the model.
pub fn update(msg: Msg, model: &mut Model) -> (eff: Option<Effect>)
    ensures
        final(model)@ == step(old(model)@, msg@),
        opt_effect_view(eff) == step_effect(old(model)@, msg@),
{
    let ghost m0 = old(model)@;
    let ghost mv = msg@;
    match msg {
        Msg::NameChange(name) => {
            model.player.name = name;
            proof {
                assert(model@ =~~= step(m0, mv));
            }
            None
        },
        Msg::SessionChange(session) => {
            model.session = session;
            proof {
                assert(model@ =~~= step(m0, mv));
            }
            None
        },
        Msg::TokenChange(code) => {
            model.player.token.code = code;
            proof {
                assert(model@ =~~= step(m0, mv));
            }
            None
        },
        Msg::TokenColorChange(color) => {
            model.player.token.color = color;
            proof {
                assert(model@ =~~= step(m0, mv));
            }
            None
        },
        Msg::Connect => {
            model.stage = Stage::Loading;
            proof {
                assert(model@ =~~= step(m0, mv));
            }
            Some(Effect::OpenConnection)
        },
        Msg::Connected => {
            if model.stage == Stage::Loading {
                model.stage = Stage::Gameplay;
                let request = ClientMessage::Connect {
                    player_name: model.player.name.clone(),
                    mode: ConnectionMode::NewGame,
                    session: model.session.clone(),
                };
                proof {
                    assert(model@ =~~= step(m0, mv));
                    assert(request@ =~~= spec_join_request(m0));
                }
                Some(Effect::Send(request))
            } else {
                proof {
                    assert(model@ =~~= step(m0, mv));
                }
                None
            }
        },
        Msg::ServerMessage(sm) => {
            let ghost sv = sm@;
            update_server(sm, model);
            proof {
                assert(step(m0, mv) == step_server(m0, sv));
            }
            None
        },
        Msg::Move { x, y } => {
            if model.stage == Stage::Gameplay {
                let cell = Cell { coord: Coord { x, y }, value: model.player.token.clone() };
                model.history.push(cell.clone());
                proof {
                    assert(cell@ =~~= spec_move_cell(m0, x, y));
                    assert(model@ =~~= step(m0, mv));
                }
                Some(Effect::Send(ClientMessage::PostMove(cell)))
            } else {
                proof {
                    assert(model@ =~~= step(m0, mv));
                }
                None
            }
        },
        Msg::CleanHistory => {
            proof {
                assert(model@ =~~= step(m0, mv));
            }
            Some(Effect::Send(ClientMessage::CleanHistory))
        },
        Msg::Drag(d) => {
            match d {
                Drag::Start => {
                    model.dragging = true;
                },
                Drag::Move { x, y } => {
                    if model.dragging {
                        model.camera.x = add_offset(model.camera.x, x);
                        model.camera.y = add_offset(model.camera.y, y);
                    }
                },
                Drag::Stop => {
                    model.dragging = false;
                },
            }
            proof {
                assert(model@ =~~= step(m0, mv));
            }
            None
        },
        Msg::Nope => {
            proof {
                assert(model@ =~~= step(m0, mv));
            }
            None
        },
    }
}

/// Applies one inbound server message to the model.
fn update_server(sm: ServerMessage, model: &mut Model)
    ensures
        final(model)@ == step_server(old(model)@, sm@),
{
    let ghost m0 = old(model)@;
    let ghost sv = sm@;
    match sm {
        ServerMessage::Connected(player) => {
            model.players.push(player);
            proof {
                assert(model@ =~~= step_server(m0, sv));
            }
        },
        ServerMessage::Disconnected(player) => {
            remove_by_id(&mut model.players, &player.id);
            proof {
                assert(model@ =~~= step_server(m0, sv));
            }
        },
        ServerMessage::Move { cell } => {
            model.history.push(cell);
            proof {
                assert(model@ =~~= step_server(m0, sv));
            }
        },
        ServerMessage::Win { player: _ } => {
            proof {
                assert(model@ =~~= step_server(m0, sv));
            }
        },
        ServerMessage::SetCell(cell) => {
            model.history.push(cell);
            proof {
                assert(model@ =~~= step_server(m0, sv));
            }
        },
        ServerMessage::SetSession { session, history, player } => {
            model.player = player;
            model.session = session;
            model.history = history;
            let palette = default_palette();
            model.player.token.code = select_token(model.players.len(), &palette);
            proof {
                assert(model@ =~~= step_server(m0, sv));
            }
        },
        ServerMessage::Clean => {
            model.history = Vec::new();
            proof {
                assert(model@ =~~= step_server(m0, sv));
            }
        },
    }
}

} // verus!
