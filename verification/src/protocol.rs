//! Wire-level data model: the values exchanged with the game server.
//!
//! Each executable type has a mathematical view (`...V`) over `Seq<char>`
//! and plain integers; all contracts in this crate speak of those views.

use vstd::prelude::*;

verus! {

/// A grid cell address. Values are stable identifiers of cells.
#[derive(Clone, Copy, PartialEq, Eq, Structural, Debug)]
pub struct Coord {
    pub x: u32,
    pub y: u32,
}

/// The visual mark a participant places on the grid.
#[derive(Debug)]
pub struct Token {
    pub code: String,
    pub color: String,
}

/// A participant known to the session.
#[derive(Debug)]
pub struct Player {
    pub id: String,
    pub name: String,
    pub token: Token,
}

/// A placed mark: immutable once created.
#[derive(Debug)]
pub struct Cell {
    pub coord: Coord,
    pub value: Token,
}

/// The ordered log of placed cells; insertion order is arrival order.
pub type History = Vec<Cell>;

/// How a connect request joins a session.
#[derive(Clone, Copy, PartialEq, Eq, Structural, Debug)]
pub enum ConnectionMode {
    NewGame,
    RandomGame,
}

/// Message from the client to the server.
#[derive(Debug)]
pub enum ClientMessage {
    Connect { player_name: String, mode: ConnectionMode, session: String },
    PostMove(Cell),
    CleanHistory,
}

/// Message from the server to the client.
#[derive(Debug)]
pub enum ServerMessage {
    Connected(Player),
    Disconnected(Player),
    Move { cell: Cell },
    Win { player: String },
    SetCell(Cell),
    SetSession { session: String, history: History, player: Player },
    Clean,
}

/// Mathematical view of a `Token`.
#[verifier::ext_equal]
pub struct TokenV {
    pub code: Seq<char>,
    pub color: Seq<char>,
}

/// Mathematical view of a `Player`.
#[verifier::ext_equal]
pub struct PlayerV {
    pub id: Seq<char>,
    pub name: Seq<char>,
    pub token: TokenV,
}

/// Mathematical view of a `Cell`.
#[verifier::ext_equal]
pub struct CellV {
    pub coord: Coord,
    pub value: TokenV,
}

/// Mathematical view of a `ClientMessage`.
#[verifier::ext_equal]
pub enum ClientMessageV {
    Connect { player_name: Seq<char>, mode: ConnectionMode, session: Seq<char> },
    PostMove(CellV),
    CleanHistory,
}

/// Mathematical view of a `ServerMessage`.
#[verifier::ext_equal]
pub enum ServerMessageV {
    Connected(PlayerV),
    Disconnected(PlayerV),
    Move { cell: CellV },
    Win { player: Seq<char> },
    SetCell(CellV),
    SetSession { session: Seq<char>, history: Seq<CellV>, player: PlayerV },
    Clean,
}

impl View for Token {
    type V = TokenV;

    open spec fn view(&self) -> TokenV {
        TokenV { code: self.code@, color: self.color@ }
    }
}

impl View for Player {
    type V = PlayerV;

    open spec fn view(&self) -> PlayerV {
        PlayerV { id: self.id@, name: self.name@, token: self.token@ }
    }
}

impl View for Cell {
    type V = CellV;

    open spec fn view(&self) -> CellV {
        CellV { coord: self.coord, value: self.value@ }
    }
}

/// View of a roster or history vector, element by element.
pub open spec fn players_view(ps: Seq<Player>) -> Seq<PlayerV> {
    ps.map_values(|p: Player| p@)
}

/// View of a history vector, element by element.
pub open spec fn history_view(h: Seq<Cell>) -> Seq<CellV> {
    h.map_values(|c: Cell| c@)
}

impl View for ClientMessage {
    type V = ClientMessageV;

    open spec fn view(&self) -> ClientMessageV {
        match self {
            ClientMessage::Connect { player_name, mode, session } => ClientMessageV::Connect {
                player_name: player_name@,
                mode: *mode,
                session: session@,
            },
            ClientMessage::PostMove(cell) => ClientMessageV::PostMove(cell@),
            ClientMessage::CleanHistory => ClientMessageV::CleanHistory,
        }
    }
}

impl View for ServerMessage {
    type V = ServerMessageV;

    open spec fn view(&self) -> ServerMessageV {
        match self {
            ServerMessage::Connected(p) => ServerMessageV::Connected(p@),
            ServerMessage::Disconnected(p) => ServerMessageV::Disconnected(p@),
            ServerMessage::Move { cell } => ServerMessageV::Move { cell: cell@ },
            ServerMessage::Win { player } => ServerMessageV::Win { player: player@ },
            ServerMessage::SetCell(cell) => ServerMessageV::SetCell(cell@),
            ServerMessage::SetSession { session, history, player } => ServerMessageV::SetSession {
                session: session@,
                history: history_view(history@),
                player: player@,
            },
            ServerMessage::Clean => ServerMessageV::Clean,
        }
    }
}

impl Clone for Token {
    fn clone(&self) -> (r: Self)
        ensures
            r@ == self@,
    {
        Token { code: self.code.clone(), color: self.color.clone() }
    }
}

impl Clone for Player {
    fn clone(&self) -> (r: Self)
        ensures
            r@ == self@,
    {
        Player { id: self.id.clone(), name: self.name.clone(), token: self.token.clone() }
    }
}

impl Clone for Cell {
    fn clone(&self) -> (r: Self)
        ensures
            r@ == self@,
    {
        Cell { coord: self.coord, value: self.value.clone() }
    }
}

} // verus!
