//! Canonical JSON frames for the wire protocol.
//!
//! Every message crosses the connection as one JSON text frame in a
//! fixed canonical form: a tagged object whose discriminant field names
//! the variant and whose payload field carries the data, with no
//! whitespace, fields in a fixed order, and strings escaped minimally
//! (`"` and `\` by a backslash, control characters as `\u00` plus two
//! lowercase hex digits). The spec functions here define that form
//! character by character; [`encode_client`] is proved to produce it
//! exactly, and the parser in [`crate::parse`] is proved to accept
//! exactly it.

use vstd::prelude::*;

use crate::protocol::Cell;
use crate::protocol::CellV;
use crate::protocol::ClientMessage;
use crate::protocol::ClientMessageV;
use crate::protocol::ConnectionMode;
use crate::protocol::Coord;
use crate::protocol::History;
use crate::protocol::Player;
use crate::protocol::PlayerV;
use crate::protocol::ServerMessageV;
use crate::protocol::Token;
use crate::protocol::TokenV;
use vstd::string::StrSliceExecFns;

verus! {

/// An inbound frame does not match any canonical message shape.
#[derive(Clone, Copy, PartialEq, Eq, Structural, Debug)]
pub struct DecodeError;

/// Control characters must be escaped inside a JSON string.
pub open spec fn is_ctl(c: char) -> bool {
    (c as u32) < 32
}

/// A decimal digit.
pub open spec fn is_digit(c: char) -> bool {
    48 <= (c as u32) && (c as u32) <= 57
}

/// The lowercase hex digit for a value below 16.
pub open spec fn hex_digit(v: u32) -> char
    recommends
        v < 16,
{
    if v == 0 {
        '0'
    } else if v == 1 {
        '1'
    } else if v == 2 {
        '2'
    } else if v == 3 {
        '3'
    } else if v == 4 {
        '4'
    } else if v == 5 {
        '5'
    } else if v == 6 {
        '6'
    } else if v == 7 {
        '7'
    } else if v == 8 {
        '8'
    } else if v == 9 {
        '9'
    } else if v == 10 {
        'a'
    } else if v == 11 {
        'b'
    } else if v == 12 {
        'c'
    } else if v == 13 {
        'd'
    } else if v == 14 {
        'e'
    } else {
        'f'
    }
}

/// How one character appears inside a canonical JSON string.
pub open spec fn esc_char(c: char) -> Seq<char> {
    if c == '"' {
        seq!['\\', '"']
    } else if c == '\\' {
        seq!['\\', '\\']
    } else if is_ctl(c) {
        seq!['\\', 'u', '0', '0', hex_digit((c as u32) / 16), hex_digit((c as u32) % 16)]
    } else {
        seq![c]
    }
}

/// A character sequence, escaped for a canonical JSON string.
pub open spec fn esc(s: Seq<char>) -> Seq<char>
    decreases s.len(),
{
    if s.len() == 0 {
        Seq::empty()
    } else {
        esc(s.drop_last()) + esc_char(s.last())
    }
}

/// A canonical JSON string: quoted and escaped.
pub open spec fn jstr(s: Seq<char>) -> Seq<char> {
    seq!['"'] + esc(s) + seq!['"']
}

/// A number in decimal, without leading zeros.
pub open spec fn dec(n: nat) -> Seq<char>
    decreases n,
{
    if n < 10 {
        seq![hex_digit(n as u32)]
    } else {
        dec(n / 10) + seq![hex_digit((n % 10) as u32)]
    }
}

/// A canonical JSON number for a grid coordinate.
pub open spec fn jnum(n: u32) -> Seq<char> {
    dec(n as nat)
}

/// A token as a canonical JSON object.
pub open spec fn jtoken(t: TokenV) -> Seq<char> {
    "{\"code\":"@ + jstr(t.code) + ",\"color\":"@ + jstr(t.color) + "}"@
}

/// A coordinate as a canonical JSON object.
pub open spec fn jcoord(c: Coord) -> Seq<char> {
    "{\"x\":"@ + jnum(c.x) + ",\"y\":"@ + jnum(c.y) + "}"@
}

/// A cell as a canonical JSON object.
pub open spec fn jcell(c: CellV) -> Seq<char> {
    "{\"coord\":"@ + jcoord(c.coord) + ",\"value\":"@ + jtoken(c.value) + "}"@
}

/// A participant as a canonical JSON object.
pub open spec fn jplayer(p: PlayerV) -> Seq<char> {
    "{\"id\":"@ + jstr(p.id) + ",\"name\":"@ + jstr(p.name) + ",\"token\":"@ + jtoken(p.token)
        + "}"@
}

/// The comma-separated cells of a history array.
pub open spec fn jcells(h: Seq<CellV>) -> Seq<char>
    decreases h.len(),
{
    if h.len() == 0 {
        Seq::empty()
    } else {
        jcells(h.drop_last()) + (if h.len() == 1 {
            Seq::<char>::empty()
        } else {
            seq![',']
        }) + jcell(h.last())
    }
}

/// A history as a canonical JSON array.
pub open spec fn jhist(h: Seq<CellV>) -> Seq<char> {
    "["@ + jcells(h) + "]"@
}

/// A connection mode as a canonical JSON string.
pub open spec fn jmode(m: ConnectionMode) -> Seq<char> {
    match m {
        ConnectionMode::NewGame => "\"NewGame\""@,
        ConnectionMode::RandomGame => "\"RandomGame\""@,
    }
}

/// The canonical frame of a server-to-client message.
pub open spec fn spec_server_frame(m: ServerMessageV) -> Seq<char> {
    "{\"message\":\""@ + match m {
        ServerMessageV::Connected(p) => "Connected\",\"data\":"@ + jplayer(p) + "}"@,
        ServerMessageV::Disconnected(p) => "Disconnected\",\"data\":"@ + jplayer(p) + "}"@,
        ServerMessageV::Move { cell } => "Move\",\"data\":{\"Cell\":"@ + jcell(cell) + "}}"@,
        ServerMessageV::Win { player } => "Win\",\"data\":{\"Player\":"@ + jstr(player) + "}}"@,
        ServerMessageV::SetCell(cell) => "SetCell\",\"data\":"@ + jcell(cell) + "}"@,
        ServerMessageV::SetSession { session, history, player } => {
            "SetSession\",\"data\":{\"session\":"@ + jstr(session) + ",\"history\":"@ + jhist(
                history,
            ) + ",\"me\":"@ + jplayer(player) + "}}"@
        },
        ServerMessageV::Clean => "Clean\"}"@,
    }
}

/// The canonical frame of a client-to-server message.
pub open spec fn spec_client_frame(m: ClientMessageV) -> Seq<char> {
    "{\"method\":\""@ + match m {
        ClientMessageV::Connect { player_name, mode, session } => {
            "Connect\",\"resource\":{\"playerName\":"@ + jstr(player_name) + ",\"mode\":"@ + jmode(
                mode,
            ) + ",\"session\":"@ + jstr(session) + "}}"@
        },
        ClientMessageV::PostMove(c) => "PostMove\",\"resource\":"@ + jcell(c) + "}"@,
        ClientMessageV::CleanHistory => "CleanHistory\"}"@,
    }
}

/// Relies on std's `str::chars`: yields exactly the string's
/// characters, in order, which collect into a vector of them.
#[verifier::external_body]
pub(crate) fn str_to_chars(s: &str) -> (r: Vec<char>)
    ensures
        r@ == s@,
{
    s.chars().collect()
}

/// Relies on std's `FromIterator for String`: collecting characters
/// builds the string holding exactly those characters, in order.
#[verifier::external_body]
pub(crate) fn chars_to_string(v: &Vec<char>) -> (r: String)
    ensures
        r@ == v@,
{
    v.iter().collect()
}

/// Appends a fixed literal to the frame under construction.
fn push_lit(out: &mut Vec<char>, lit: &str)
    ensures
        final(out)@ == old(out)@ + lit@,
{
    let n = lit.unicode_len();
    let mut k: usize = 0;
    while k < n
        invariant
            n == lit@.len(),
            k <= n,
            out@ == old(out)@ + lit@.take(k as int),
        decreases n - k,
    {
        out.push(lit.get_char(k));
        k += 1;
        proof {
            assert(lit@.take(k as int) =~= lit@.take(k as int - 1).push(lit@[k as int - 1]));
            assert(out@ =~= old(out)@ + lit@.take(k as int));
        }
    }
    proof {
        assert(lit@.take(n as int) =~= lit@);
    }
}

/// The lowercase hex digit character for a value below 16.
fn hex_digit_char(v: u32) -> (c: char)
    requires
        v < 16,
    ensures
        c == hex_digit(v),
{
    match v {
        0 => '0',
        1 => '1',
        2 => '2',
        3 => '3',
        4 => '4',
        5 => '5',
        6 => '6',
        7 => '7',
        8 => '8',
        9 => '9',
        10 => 'a',
        11 => 'b',
        12 => 'c',
        13 => 'd',
        14 => 'e',
        _ => 'f',
    }
}

/// Appends one character in its escaped form.
fn push_esc_char(out: &mut Vec<char>, c: char)
    ensures
        final(out)@ == old(out)@ + esc_char(c),
{
    if c == '"' {
        out.push('\\');
        out.push('"');
        proof {
            assert(out@ =~= old(out)@ + esc_char(c));
        }
    } else if c == '\\' {
        out.push('\\');
        out.push('\\');
        proof {
            assert(out@ =~= old(out)@ + esc_char(c));
        }
    } else if (c as u32) < 32 {
        out.push('\\');
        out.push('u');
        out.push('0');
        out.push('0');
        out.push(hex_digit_char((c as u32) / 16));
        out.push(hex_digit_char((c as u32) % 16));
        proof {
            assert(out@ =~= old(out)@ + esc_char(c));
        }
    } else {
        out.push(c);
        proof {
            assert(out@ =~= old(out)@ + esc_char(c));
        }
    }
}

/// Appends a canonical JSON string.
fn push_jstr(out: &mut Vec<char>, s: &str)
    ensures
        final(out)@ == old(out)@ + jstr(s@),
{
    let cs = str_to_chars(s);
    out.push('"');
    let mut k: usize = 0;
    while k < cs.len()
        invariant
            cs@ == s@,
            k <= cs@.len(),
            out@ == old(out)@ + seq!['"'] + esc(cs@.take(k as int)),
        decreases cs@.len() - k,
    {
        push_esc_char(out, cs[k]);
        k += 1;
        proof {
            assert(cs@.take(k as int) =~= cs@.take(k as int - 1).push(cs@[k as int - 1]));
            assert(cs@.take(k as int).drop_last() =~= cs@.take(k as int - 1));
            assert(out@ =~= old(out)@ + seq!['"'] + esc(cs@.take(k as int)));
        }
    }
    out.push('"');
    proof {
        assert(cs@.take(cs@.len() as int) =~= s@);
        assert(out@ =~= old(out)@ + jstr(s@));
    }
}

/// Appends a number in decimal.
fn push_u32(out: &mut Vec<char>, n: u32)
    ensures
        final(out)@ == old(out)@ + jnum(n),
    decreases n,
{
    if n >= 10 {
        push_u32(out, n / 10);
        out.push(hex_digit_char(n % 10));
        proof {
            assert(out@ =~= old(out)@ + jnum(n));
        }
    } else {
        out.push(hex_digit_char(n));
        proof {
            assert(out@ =~= old(out)@ + jnum(n));
        }
    }
}

/// Appends a token object.
fn push_jtoken(out: &mut Vec<char>, t: &Token)
    ensures
        final(out)@ == old(out)@ + jtoken(t@),
{
    push_lit(out, "{\"code\":");
    push_jstr(out, t.code.as_str());
    push_lit(out, ",\"color\":");
    push_jstr(out, t.color.as_str());
    push_lit(out, "}");
    proof {
        assert(out@ =~= old(out)@ + jtoken(t@));
    }
}

/// Appends a coordinate object.
fn push_jcoord(out: &mut Vec<char>, c: &Coord)
    ensures
        final(out)@ == old(out)@ + jcoord(*c),
{
    push_lit(out, "{\"x\":");
    push_u32(out, c.x);
    push_lit(out, ",\"y\":");
    push_u32(out, c.y);
    push_lit(out, "}");
    proof {
        assert(out@ =~= old(out)@ + jcoord(*c));
    }
}

/// Appends a cell object.
fn push_jcell(out: &mut Vec<char>, c: &Cell)
    ensures
        final(out)@ == old(out)@ + jcell(c@),
{
    push_lit(out, "{\"coord\":");
    push_jcoord(out, &c.coord);
    push_lit(out, ",\"value\":");
    push_jtoken(out, &c.value);
    push_lit(out, "}");
    proof {
        assert(out@ =~= old(out)@ + jcell(c@));
    }
}

/// Appends a participant object.
fn push_jplayer(out: &mut Vec<char>, p: &Player)
    ensures
        final(out)@ == old(out)@ + jplayer(p@),
{
    push_lit(out, "{\"id\":");
    push_jstr(out, p.id.as_str());
    push_lit(out, ",\"name\":");
    push_jstr(out, p.name.as_str());
    push_lit(out, ",\"token\":");
    push_jtoken(out, &p.token);
    push_lit(out, "}");
    proof {
        assert(out@ =~= old(out)@ + jplayer(p@));
    }
}

/// Appends a history array.
fn push_jhist(out: &mut Vec<char>, h: &History)
    ensures
        final(out)@ == old(out)@ + jhist(crate::protocol::history_view(h@)),
{
    push_lit(out, "[");
    let ghost hv = crate::protocol::history_view(h@);
    let mut k: usize = 0;
    while k < h.len()
        invariant
            hv == crate::protocol::history_view(h@),
            k <= h@.len(),
            hv.len() == h@.len(),
            out@ == old(out)@ + "["@ + jcells(hv.take(k as int)),
        decreases h@.len() - k,
    {
        if k > 0 {
            out.push(',');
        }
        push_jcell(out, &h[k]);
        k += 1;
        proof {
            let pre = hv.take(k as int - 1);
            let cur = hv.take(k as int);
            assert(cur.drop_last() =~= pre);
            assert(cur.last() == h@[k as int - 1]@);
            if k == 1 {
                assert(jcells(Seq::<CellV>::empty()) =~= Seq::<char>::empty());
                assert(pre =~= Seq::<CellV>::empty());
                assert(jcells(cur) == jcells(pre) + Seq::<char>::empty() + jcell(cur.last()));
            } else {
                assert(jcells(cur) == jcells(pre) + seq![','] + jcell(cur.last()));
            }
            assert(out@ =~= old(out)@ + "["@ + jcells(cur));
        }
    }
    push_lit(out, "]");
    proof {
        assert(hv.take(hv.len() as int) =~= hv);
        assert(out@ =~= old(out)@ + jhist(hv));
    }
}

/// Encodes an outbound message into its canonical JSON frame.
pub fn encode_client(m: &ClientMessage) -> (r: String)
    ensures
        r@ == spec_client_frame(m@),
{
    let mut out: Vec<char> = Vec::new();
    push_lit(&mut out, "{\"method\":\"");
    match m {
        ClientMessage::Connect { player_name, mode, session } => {
            push_lit(&mut out, "Connect\",\"resource\":{\"playerName\":");
            push_jstr(&mut out, player_name.as_str());
            push_lit(&mut out, ",\"mode\":");
            match mode {
                ConnectionMode::NewGame => push_lit(&mut out, "\"NewGame\""),
                ConnectionMode::RandomGame => push_lit(&mut out, "\"RandomGame\""),
            }
            push_lit(&mut out, ",\"session\":");
            push_jstr(&mut out, session.as_str());
            push_lit(&mut out, "}}");
        },
        ClientMessage::PostMove(cell) => {
            push_lit(&mut out, "PostMove\",\"resource\":");
            push_jcell(&mut out, cell);
            push_lit(&mut out, "}");
        },
        ClientMessage::CleanHistory => {
            push_lit(&mut out, "CleanHistory\"}");
        },
    }
    proof {
        assert(out@ =~= spec_client_frame(m@));
    }
    chars_to_string(&out)
}

} // verus!
