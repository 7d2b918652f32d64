//! Laws of the session state machine, stated over sequences of events.
//!
//! `apply_msgs` folds the reducer's transition function over an event
//! sequence; each proof function below pins one engine-wide guarantee.

use vstd::prelude::*;

use crate::protocol::CellV;
use crate::protocol::PlayerV;
use crate::protocol::ServerMessageV;
use crate::Camera;
use crate::Coord;
use crate::Drag;
use crate::ModelV;
use crate::MsgV;
use crate::Stage;
use crate::spec_drop_id;
use crate::spec_select_token;
use crate::stage_rank;
use crate::step;

verus! {

/// The model after a sequence of events, applied one at a time in order.
pub open spec fn apply_msgs(m: ModelV, msgs: Seq<MsgV>) -> ModelV
    decreases msgs.len(),
{
    if msgs.len() == 0 {
        m
    } else {
        step(apply_msgs(m, msgs.drop_last()), msgs.last())
    }
}

/// Token allocation is a pure function: equal roster sizes always
/// yield the equal palette entry.
pub proof fn lemma_select_token_deterministic(n1: nat, n2: nat, palette: Seq<Seq<char>>)
    requires
        n1 == n2,
    ensures
        spec_select_token(n1, palette) == spec_select_token(n2, palette),
{
}

/// Token allocation wraps around: a roster of exactly the palette's
/// size is handed the same token as an empty roster.
pub proof fn lemma_select_token_wraparound(palette: Seq<Seq<char>>)
    requires
        palette.len() > 0,
    ensures
        spec_select_token(palette.len(), palette) == spec_select_token(0, palette),
{
    assert(palette.len() % palette.len() == 0nat);
    assert(0nat % palette.len() == 0nat);
}

/// One reducer step moves the stage forward along
/// `Lobby -> Loading -> Gameplay` or leaves it alone; the one
/// exception is a new connect request, which re-enters `Loading`
/// from any stage to supersede the previous connection.
pub proof fn lemma_stage_transitions(m: ModelV, msg: MsgV)
    ensures
        msg is Connect ==> step(m, msg).stage is Loading,
        msg !is Connect ==> stage_rank(step(m, msg).stage) >= stage_rank(m.stage),
        msg !is Connect && step(m, msg).stage != m.stage ==> msg is Connected
            && m.stage is Loading && step(m, msg).stage is Gameplay,
{
}

/// No event but a connect request ever drives the stage backwards,
/// over any sequence of events.
pub proof fn lemma_stage_forward(m: ModelV, msgs: Seq<MsgV>)
    requires
        forall|i: int| 0 <= i < msgs.len() ==> !((#[trigger] msgs[i]) is Connect),
    ensures
        stage_rank(apply_msgs(m, msgs).stage) >= stage_rank(m.stage),
    decreases msgs.len(),
{
    if msgs.len() > 0 {
        lemma_stage_forward(m, msgs.drop_last());
        lemma_stage_transitions(apply_msgs(m, msgs.drop_last()), msgs.last());
    }
}

/// The two events that replace the history wholesale.
pub open spec fn replaces_history(msg: MsgV) -> bool {
    ||| msg matches MsgV::ServerMessage(ServerMessageV::SetSession { .. })
    ||| msg matches MsgV::ServerMessage(ServerMessageV::Clean)
}

/// A full-resync replaces the history with the supplied one, a clean
/// empties it, and no other event removes an entry: every other step
/// keeps the old history as a prefix of the new one.
pub proof fn lemma_history_shrink_paths(m: ModelV, msg: MsgV)
    ensures
        !replaces_history(msg) ==> m.history.is_prefix_of(step(m, msg).history),
        msg matches MsgV::ServerMessage(ServerMessageV::SetSession { history, .. })
            ==> step(m, msg).history == history,
        msg matches MsgV::ServerMessage(ServerMessageV::Clean)
            ==> step(m, msg).history == Seq::<CellV>::empty(),
{
    if !replaces_history(msg) {
        let h = step(m, msg).history;
        assert(m.history.len() <= h.len() && m.history =~= h.subrange(
            0,
            m.history.len() as int,
        ));
    }
}

/// Events that append exactly one cell to the history while the
/// session is in gameplay.
pub open spec fn is_append_event(msg: MsgV) -> bool {
    ||| msg matches MsgV::Move { .. }
    ||| msg matches MsgV::ServerMessage(ServerMessageV::Move { .. })
    ||| msg matches MsgV::ServerMessage(ServerMessageV::SetCell(..))
}

/// The cell an append event adds, given the local participant in force.
pub open spec fn appended_cell(player: PlayerV, msg: MsgV) -> CellV {
    match msg {
        MsgV::Move { x, y } => CellV { coord: Coord { x, y }, value: player.token },
        MsgV::ServerMessage(ServerMessageV::Move { cell }) => cell,
        MsgV::ServerMessage(ServerMessageV::SetCell(cell)) => cell,
        _ => arbitrary(),
    }
}

/// History append is order-preserving and lossless: after a sequence
/// of N append events, the history holds exactly the old entries
/// followed by the N appended cells, in arrival order.
pub proof fn lemma_history_append_order(m: ModelV, msgs: Seq<MsgV>)
    requires
        m.stage is Gameplay,
        forall|i: int| 0 <= i < msgs.len() ==> #[trigger] is_append_event(msgs[i]),
    ensures
        apply_msgs(m, msgs).history == m.history + msgs.map_values(
            |msg: MsgV| appended_cell(m.player, msg),
        ),
        apply_msgs(m, msgs).player == m.player,
        apply_msgs(m, msgs).stage == m.stage,
    decreases msgs.len(),
{
    let f = |msg: MsgV| appended_cell(m.player, msg);
    if msgs.len() == 0 {
        assert(apply_msgs(m, msgs).history =~= m.history + msgs.map_values(f));
    } else {
        let prev = msgs.drop_last();
        lemma_history_append_order(m, prev);
        assert(is_append_event(msgs[msgs.len() - 1]));
        assert(apply_msgs(m, msgs).history =~= m.history + msgs.map_values(f));
    }
}

/// Whether a roster holds some entry with the given id.
pub open spec fn has_id(roster: Seq<PlayerV>, id: Seq<char>) -> bool {
    exists|i: int| 0 <= i < roster.len() && roster[i].id == id
}

/// Lifecycle events: a participant joining or leaving.
pub open spec fn is_lifecycle(msg: MsgV) -> bool {
    ||| msg matches MsgV::ServerMessage(ServerMessageV::Connected(..))
    ||| msg matches MsgV::ServerMessage(ServerMessageV::Disconnected(..))
}

pub open spec fn connects_id(msg: MsgV, id: Seq<char>) -> bool {
    msg matches MsgV::ServerMessage(ServerMessageV::Connected(p)) && p.id == id
}

pub open spec fn disconnects_id(msg: MsgV, id: Seq<char>) -> bool {
    msg matches MsgV::ServerMessage(ServerMessageV::Disconnected(p)) && p.id == id
}

/// The most recent lifecycle event for `id` was a join: some event
/// connects `id` and no later event disconnects it.
pub open spec fn live(msgs: Seq<MsgV>, id: Seq<char>) -> bool {
    exists|i: int|
        0 <= i < msgs.len() && connects_id(msgs[i], id) && (forall|j: int|
            i < j < msgs.len() ==> !disconnects_id(msgs[j], id))
}

/// Every entry of a roster with one id dropped comes from the roster.
proof fn lemma_drop_id_elem_of(roster: Seq<PlayerV>, drop: Seq<char>, i: int)
    requires
        0 <= i < spec_drop_id(roster, drop).len(),
    ensures
        roster.contains(spec_drop_id(roster, drop)[i]),
    decreases roster.len(),
{
    reveal(Seq::filter);
    if roster.len() > 0 {
        let f = spec_drop_id(roster, drop);
        let head = roster.drop_last();
        let fh = spec_drop_id(head, drop);
        if i < fh.len() {
            lemma_drop_id_elem_of(head, drop, i);
            let k = choose|k: int| 0 <= k < head.len() && head[k] == fh[i];
            assert(roster[k] == f[i]);
        } else {
            assert(f[i] == roster.last());
            assert(roster[roster.len() - 1] == f[i]);
        }
    }
}

/// A roster holds an id after a drop exactly when it held the id
/// before and the id is not the dropped one.
proof fn lemma_has_id_drop(roster: Seq<PlayerV>, drop: Seq<char>, id: Seq<char>)
    ensures
        has_id(spec_drop_id(roster, drop), id) <==> (has_id(roster, id) && id != drop),
{
    broadcast use vstd::seq_lib::group_filter_ensures;

    let f = spec_drop_id(roster, drop);
    if has_id(f, id) {
        let k = choose|k: int| 0 <= k < f.len() && f[k].id == id;
        lemma_drop_id_elem_of(roster, drop, k);
        let k2 = choose|k2: int| 0 <= k2 < roster.len() && roster[k2] == f[k];
        assert(roster[k2].id == id);
        assert(has_id(roster, id));
    }
    if has_id(roster, id) && id != drop {
        let k = choose|k: int| 0 <= k < roster.len() && roster[k].id == id;
        assert(f.contains(roster[k]));
        let k2 = choose|k2: int| 0 <= k2 < f.len() && f[k2] == roster[k];
        assert(f[k2].id == id);
        assert(has_id(f, id));
    }
}

/// A roster holds an id after a join exactly when it held the id
/// before or the joiner carries it.
proof fn lemma_has_id_push(roster: Seq<PlayerV>, p: PlayerV, id: Seq<char>)
    ensures
        has_id(roster.push(p), id) <==> (has_id(roster, id) || p.id == id),
{
    let s = roster.push(p);
    if has_id(s, id) && p.id != id {
        let k = choose|k: int| 0 <= k < s.len() && s[k].id == id;
        assert(roster[k].id == id);
        assert(has_id(roster, id));
    }
    if has_id(roster, id) {
        let k = choose|k: int| 0 <= k < roster.len() && roster[k].id == id;
        assert(s[k].id == id);
        assert(has_id(s, id));
    }
    if p.id == id {
        assert(s[roster.len() as int].id == id);
        assert(has_id(s, id));
    }
}

/// Appending an event that does not disconnect `id` keeps `id` live
/// exactly when it was live or the event connects it.
proof fn lemma_live_extend(prev: Seq<MsgV>, e: MsgV, id: Seq<char>)
    requires
        !disconnects_id(e, id),
    ensures
        live(prev.push(e), id) <==> (live(prev, id) || connects_id(e, id)),
{
    let s = prev.push(e);
    if live(prev, id) {
        let i = choose|i: int|
            0 <= i < prev.len() && connects_id(prev[i], id) && (forall|j: int|
                i < j < prev.len() ==> !disconnects_id(prev[j], id));
        assert(connects_id(s[i], id));
        assert forall|j: int| i < j < s.len() implies !disconnects_id(s[j], id) by {
            if j < prev.len() {
                assert(!disconnects_id(prev[j], id));
            }
        }
        assert(live(s, id));
    }
    if connects_id(e, id) {
        assert(connects_id(s[s.len() - 1], id));
        assert(live(s, id));
    }
    if live(s, id) && !connects_id(e, id) {
        let i = choose|i: int|
            0 <= i < s.len() && connects_id(s[i], id) && (forall|j: int|
                i < j < s.len() ==> !disconnects_id(s[j], id));
        assert(i < prev.len());
        assert(connects_id(prev[i], id));
        assert forall|j: int| i < j < prev.len() implies !disconnects_id(prev[j], id) by {
            assert(!disconnects_id(s[j], id));
        }
        assert(live(prev, id));
    }
}

/// A disconnect event ends liveness for its id.
proof fn lemma_live_disconnect(prev: Seq<MsgV>, e: MsgV, id: Seq<char>)
    requires
        disconnects_id(e, id),
    ensures
        !live(prev.push(e), id),
{
    let s = prev.push(e);
    if live(s, id) {
        let i = choose|i: int|
            0 <= i < s.len() && connects_id(s[i], id) && (forall|j: int|
                i < j < s.len() ==> !disconnects_id(s[j], id));
        assert(i < s.len() - 1);
        assert(!disconnects_id(s[s.len() - 1], id));
    }
}

/// Starting from an empty roster, after any sequence of lifecycle
/// events the roster holds exactly the ids whose most recent
/// lifecycle event was a join.
pub proof fn lemma_roster_membership(m: ModelV, msgs: Seq<MsgV>, id: Seq<char>)
    requires
        m.players.len() == 0,
        forall|i: int| 0 <= i < msgs.len() ==> #[trigger] is_lifecycle(msgs[i]),
    ensures
        has_id(apply_msgs(m, msgs).players, id) <==> live(msgs, id),
    decreases msgs.len(),
{
    if msgs.len() == 0 {
    } else {
        let prev = msgs.drop_last();
        let e = msgs.last();
        assert forall|i: int| 0 <= i < prev.len() implies #[trigger] is_lifecycle(prev[i]) by {
            assert(prev[i] == msgs[i]);
            assert(is_lifecycle(msgs[i]));
        }
        lemma_roster_membership(m, prev, id);
        let rp = apply_msgs(m, prev).players;
        assert(msgs =~= prev.push(e));
        assert(is_lifecycle(msgs[msgs.len() - 1]));
        match e {
            MsgV::ServerMessage(ServerMessageV::Connected(p)) => {
                lemma_has_id_push(rp, p, id);
                lemma_live_extend(prev, e, id);
            },
            MsgV::ServerMessage(ServerMessageV::Disconnected(p)) => {
                lemma_has_id_drop(rp, p.id, id);
                if p.id == id {
                    lemma_live_disconnect(prev, e, id);
                } else {
                    lemma_live_extend(prev, e, id);
                }
            },
            _ => {
                assert(false);
            },
        }
    }
}

/// No two roster entries share an id.
pub open spec fn distinct_ids(roster: Seq<PlayerV>) -> bool {
    forall|i: int, j: int| 0 <= i < j < roster.len() ==> roster[i].id != roster[j].id
}

/// Dropping an id from a roster keeps the remaining ids distinct.
proof fn lemma_drop_id_keeps_distinct(roster: Seq<PlayerV>, drop: Seq<char>)
    requires
        distinct_ids(roster),
    ensures
        distinct_ids(spec_drop_id(roster, drop)),
    decreases roster.len(),
{
    reveal(Seq::filter);
    if roster.len() > 0 {
        let head = roster.drop_last();
        assert(distinct_ids(head));
        lemma_drop_id_keeps_distinct(head, drop);
        let fh = spec_drop_id(head, drop);
        let f = spec_drop_id(roster, drop);
        if roster.last().id != drop {
            assert(f == fh.push(roster.last()));
            assert forall|i: int, j: int| 0 <= i < j < f.len() implies f[i].id != f[j].id by {
                if j < f.len() - 1 {
                    assert(f[i] == fh[i] && f[j] == fh[j]);
                } else {
                    assert(f[i] == fh[i]);
                    lemma_drop_id_elem_of(head, drop, i);
                    let k = choose|k: int| 0 <= k < head.len() && head[k] == fh[i];
                    assert(roster[k] == fh[i]);
                    assert(roster[k].id != roster.last().id);
                }
            }
        }
    }
}

/// A join is fresh when the id it carries is not yet in the roster at
/// the moment it arrives.
pub open spec fn fresh_joins(m: ModelV, msgs: Seq<MsgV>) -> bool
    decreases msgs.len(),
{
    msgs.len() == 0 || {
        &&& fresh_joins(m, msgs.drop_last())
        &&& (msgs.last() matches MsgV::ServerMessage(ServerMessageV::Connected(p)) ==> !has_id(
            apply_msgs(m, msgs.drop_last()).players,
            p.id,
        ))
    }
}

/// As long as every join is fresh, the roster never holds two entries
/// with the same id. (A join that repeats a live id is accepted by the
/// engine and duplicates the id: the engine performs no
/// de-duplication, so the guarantee needs this restriction.)
pub proof fn lemma_roster_distinct(m: ModelV, msgs: Seq<MsgV>)
    requires
        distinct_ids(m.players),
        forall|i: int| 0 <= i < msgs.len() ==> #[trigger] is_lifecycle(msgs[i]),
        fresh_joins(m, msgs),
    ensures
        distinct_ids(apply_msgs(m, msgs).players),
    decreases msgs.len(),
{
    if msgs.len() > 0 {
        let prev = msgs.drop_last();
        let e = msgs.last();
        assert forall|i: int| 0 <= i < prev.len() implies #[trigger] is_lifecycle(prev[i]) by {
            assert(prev[i] == msgs[i]);
            assert(is_lifecycle(msgs[i]));
        }
        lemma_roster_distinct(m, prev);
        let rp = apply_msgs(m, prev).players;
        let r = apply_msgs(m, msgs).players;
        assert(is_lifecycle(msgs[msgs.len() - 1]));
        match e {
            MsgV::ServerMessage(ServerMessageV::Connected(p)) => {
                assert(!has_id(rp, p.id));
                assert forall|i: int, j: int| 0 <= i < j < r.len() implies r[i].id != r[j].id by {
                    if j < r.len() - 1 {
                        assert(r[i] == rp[i] && r[j] == rp[j]);
                    } else {
                        assert(r[i] == rp[i]);
                        assert(rp[i].id != p.id);
                    }
                }
            },
            MsgV::ServerMessage(ServerMessageV::Disconnected(p)) => {
                lemma_drop_id_keeps_distinct(rp, p.id);
            },
            _ => {
                assert(false);
            },
        }
    }
}

/// Drag deltas, summed.
pub open spec fn sum_dx(msgs: Seq<MsgV>) -> int
    decreases msgs.len(),
{
    if msgs.len() == 0 {
        0
    } else {
        sum_dx(msgs.drop_last()) + (match msgs.last() {
            MsgV::Drag(Drag::Move { x, .. }) => x as int,
            _ => 0,
        })
    }
}

/// Drag deltas, summed.
pub open spec fn sum_dy(msgs: Seq<MsgV>) -> int
    decreases msgs.len(),
{
    if msgs.len() == 0 {
        0
    } else {
        sum_dy(msgs.drop_last()) + (match msgs.last() {
            MsgV::Drag(Drag::Move { y, .. }) => y as int,
            _ => 0,
        })
    }
}

pub open spec fn all_drag_moves(msgs: Seq<MsgV>) -> bool {
    forall|i: int|
        0 <= i < msgs.len() ==> (#[trigger] msgs[i]) matches MsgV::Drag(Drag::Move { .. })
}

/// Every intermediate offset along the deltas stays representable.
pub open spec fn offsets_in_range(cam: Camera, msgs: Seq<MsgV>) -> bool {
    forall|k: int|
        0 <= k <= msgs.len() ==> {
            &&& i64::MIN <= cam.x + sum_dx(#[trigger] msgs.take(k)) <= i64::MAX
            &&& i64::MIN <= cam.y + sum_dy(msgs.take(k)) <= i64::MAX
        }
}

/// While a drag is in progress, delta events accumulate exactly into
/// the camera offset, and nothing else of the model changes.
pub proof fn lemma_drag_accumulates(m: ModelV, msgs: Seq<MsgV>)
    requires
        m.dragging,
        all_drag_moves(msgs),
        offsets_in_range(m.camera, msgs),
    ensures
        apply_msgs(m, msgs) == (ModelV {
            camera: Camera {
                x: (m.camera.x + sum_dx(msgs)) as i64,
                y: (m.camera.y + sum_dy(msgs)) as i64,
            },
            ..m
        }),
    decreases msgs.len(),
{
    if msgs.len() == 0 {
        assert(apply_msgs(m, msgs) =~= ModelV {
            camera: Camera {
                x: (m.camera.x + sum_dx(msgs)) as i64,
                y: (m.camera.y + sum_dy(msgs)) as i64,
            },
            ..m
        });
    } else {
        let prev = msgs.drop_last();
        assert(forall|k: int| 0 <= k <= prev.len() ==> prev.take(k) =~= msgs.take(k));
        assert(offsets_in_range(m.camera, prev));
        lemma_drag_accumulates(m, prev);
        assert(msgs.take(prev.len() as int) =~= prev);
        assert(msgs.take(msgs.len() as int) =~= msgs);
        assert(apply_msgs(m, msgs) =~= ModelV {
            camera: Camera {
                x: (m.camera.x + sum_dx(msgs)) as i64,
                y: (m.camera.y + sum_dy(msgs)) as i64,
            },
            ..m
        });
    }
}

/// Once the drag has stopped, further delta events leave the camera
/// and the rest of the model untouched.
pub proof fn lemma_drag_inert(m: ModelV, msgs: Seq<MsgV>)
    requires
        !m.dragging,
        all_drag_moves(msgs),
    ensures
        apply_msgs(m, msgs) == m,
    decreases msgs.len(),
{
    if msgs.len() > 0 {
        lemma_drag_inert(m, msgs.drop_last());
    }
}

} // verus!
