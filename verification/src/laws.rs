//! Properties of the store that span several operations: optimistic
//! locking, cascading deletes, recovery by replaying the events that the
//! operations announce, and the consistency of every card's change log.
use vstd::prelude::*;

use crate::errors::AppErrorView;
use crate::positions::{in_col, lemma_max_card_position};
use crate::ordering::{sorted_by_key, OrderedRecord};
use crate::keyed::{
    has_key, key_differs, key_index, lemma_filter_contains, lemma_filter_lookup, lemma_key_index,
    lemma_map_lookup, lemma_upsert, lemma_without_key_filter, lookup, unique_keys, upsert,
    without_key, Keyed,
};
use crate::models::{
    law_new_card_log_consistent, log_consistent, ModificationOperation, AuditView, Board, BoardDetailView,
    Card, Column, ColumnWithCardsView, BoardView, CardView, ColumnView,
    MoveCardView, ReorderCardView, UpdateCardStatusView, UpdateCardView, WsEventView,
};
use crate::store::{
    after_entering, after_leaving, after_reordering, apply_event_spec, apply_events_spec,
    cards_outside_board, cards_outside_column, column_in_board, columns_outside_board,
    board_detail_post, cards_of_column, columns_of_board, create_board_post, create_card_post, id_unavailable, create_column_post, delete_board_post,
    delete_card_post, delete_column_post, max_card_position, max_column_position, move_card_post, next_card_position, move_room, reorder_card_post,
    reorder_room, shift_cards, shifted, update_card_post, update_card_status_post, version_room,
    AppStateView,
};

verus! {

/// A card stored under its id can be looked up by it.
proof fn lemma_card_stored(s: AppStateView, c: CardView)
    requires
        unique_keys(s.cards),
    ensures
        unique_keys(upsert(s.cards, c)),
        has_key(upsert(s.cards, c), c.id),
        lookup(upsert(s.cards, c), c.id) == c,
{
    lemma_upsert(s.cards, c);
}

// ---------- optimistic locking ----------

/// An update made with the card's current version succeeds and raises the
/// version by one, unless no fresh id could be drawn for its audit entry
/// (then nothing changes).
pub proof fn law_update_with_current_version_succeeds(s: AppStateView, t: AppStateView, card_id: Seq<char>, req: UpdateCardView, r: Result<CardView, AppErrorView>)
    requires
        s.wf(),
        s.has_card(card_id),
        s.card(card_id).version == req.version,
        version_room(s, card_id, req.version),
        update_card_post(s, t, card_id, req, r),
    ensures
        r is Ok || id_unavailable(s, t, r),
        r is Ok ==> r->Ok_0.version == req.version + 1,
        r is Ok ==> t.has_card(card_id),
        r is Ok ==> t.card(card_id) == r->Ok_0,
{
    lemma_key_index(s.cards, card_id);
    if r is Ok {
        lemma_card_stored(s, r->Ok_0);
    }
}

/// Of two updates of a card made with the same version, one after the
/// other, the second is refused as a version conflict and changes nothing.
pub proof fn law_second_update_with_same_version_conflicts(
    s0: AppStateView,
    s1: AppStateView,
    s2: AppStateView,
    card_id: Seq<char>,
    req1: UpdateCardView,
    req2: UpdateCardView,
    r1: Result<CardView, AppErrorView>,
    r2: Result<CardView, AppErrorView>,
)
    requires
        s0.wf(),
        version_room(s0, card_id, req1.version),
        update_card_post(s0, s1, card_id, req1, r1),
        update_card_post(s1, s2, card_id, req2, r2),
        r1 is Ok,
        req2.version == req1.version,
    ensures
        r2 == Err::<CardView, AppErrorView>(AppErrorView::VersionConflict { expected: req1.version, actual: (req1.version + 1) as u64 }),
        s2 == s1,
{
    lemma_key_index(s0.cards, card_id);
    lemma_card_stored(s0, r1->Ok_0);
}

/// Of two status changes of a card made with the same version, one after
/// the other, the second is refused as a version conflict.
pub proof fn law_second_status_change_with_same_version_conflicts(
    s0: AppStateView,
    s1: AppStateView,
    s2: AppStateView,
    card_id: Seq<char>,
    req1: UpdateCardStatusView,
    req2: UpdateCardStatusView,
    r1: Result<CardView, AppErrorView>,
    r2: Result<CardView, AppErrorView>,
)
    requires
        s0.wf(),
        version_room(s0, card_id, req1.version),
        update_card_status_post(s0, s1, card_id, req1, r1),
        update_card_status_post(s1, s2, card_id, req2, r2),
        r1 is Ok,
        req2.version == req1.version,
    ensures
        r2 == Err::<CardView, AppErrorView>(AppErrorView::VersionConflict { expected: req1.version, actual: (req1.version + 1) as u64 }),
        s2 == s1,
{
    lemma_key_index(s0.cards, card_id);
    lemma_card_stored(s0, r1->Ok_0);
}

/// Of two reorders of a card made with the same version, one after the
/// other, the second is refused once the first has moved the card.
pub proof fn law_second_reorder_with_same_version_conflicts(
    s0: AppStateView,
    s1: AppStateView,
    s2: AppStateView,
    card_id: Seq<char>,
    req1: ReorderCardView,
    req2: ReorderCardView,
    r1: Result<CardView, AppErrorView>,
    r2: Result<CardView, AppErrorView>,
)
    requires
        s0.wf(),
        reorder_room(s0, card_id, req1),
        reorder_card_post(s0, s1, card_id, req1, r1),
        reorder_card_post(s1, s2, card_id, req2, r2),
        r1 is Ok,
        s0.card(card_id).position != req1.target_position,
        req2.version == req1.version,
    ensures
        r2 == Err::<CardView, AppErrorView>(AppErrorView::VersionConflict { expected: req1.version, actual: (req1.version + 1) as u64 }),
        s2 == s1,
{
    lemma_key_index(s0.cards, card_id);
    let c = s0.card(card_id);
    let fr = if req1.target_position > c.position {
        |v: CardView| shifted(v, c.column_id, c.id, c.position + 1, req1.target_position as int, -1)
    } else {
        |v: CardView| shifted(v, c.column_id, c.id, req1.target_position as int, c.position - 1, 1)
    };
    assert(after_reordering(s0.cards, c, req1.target_position) == s0.cards.map_values(fr));
    lemma_map_lookup(s0.cards, fr);
    let m = after_reordering(s0.cards, c, req1.target_position);
    lemma_upsert(m, r1->Ok_0);
}

/// Of two moves of a card made with the same version, one after the other,
/// the second is refused as a version conflict (once its target column is
/// known).
pub proof fn law_second_move_with_same_version_conflicts(
    s0: AppStateView,
    s1: AppStateView,
    s2: AppStateView,
    card_id: Seq<char>,
    req1: MoveCardView,
    req2: MoveCardView,
    r1: Result<CardView, AppErrorView>,
    r2: Result<CardView, AppErrorView>,
)
    requires
        s0.wf(),
        version_room(s0, card_id, req1.version),
        move_card_post(s0, s1, card_id, req1, r1),
        move_card_post(s1, s2, card_id, req2, r2),
        r1 is Ok,
        s1.has_column(req2.target_column_id),
        req2.version == req1.version,
    ensures
        r2 == Err::<CardView, AppErrorView>(AppErrorView::VersionConflict { expected: req1.version, actual: (req1.version + 1) as u64 }),
        s2 == s1,
{
    lemma_key_index(s0.cards, card_id);
    let c = s0.card(card_id);
    let f1 = |v: CardView| shifted(v, c.column_id, card_id, c.position + 1, i32::MAX as int, -1);
    assert(after_leaving(s0.cards, c) == s0.cards.map_values(f1));
    lemma_map_lookup(s0.cards, f1);
    let m1 = after_leaving(s0.cards, c);
    let f2 = |v: CardView| shifted(v, req1.target_column_id, card_id, req1.target_position as int, i32::MAX as int, 1);
    assert(after_entering(m1, card_id, req1.target_column_id, req1.target_position) == m1.map_values(f2));
    lemma_map_lookup(m1, f2);
    let m2 = after_entering(m1, card_id, req1.target_column_id, req1.target_position);
    lemma_upsert(m2, r1->Ok_0);
}

// ---------- deletes ----------

/// A deleted card is gone: looking it up, changing or moving it fails.
pub proof fn law_deleted_card_is_gone(s: AppStateView, t: AppStateView, card_id: Seq<char>, actor: Option<Seq<char>>, r: Result<(), AppErrorView>)
    requires
        s.wf(),
        delete_card_post(s, t, card_id, actor, r),
        r is Ok,
    ensures
        !t.has_card(card_id),
{
    let c = s.card(card_id);
    let p = |v: CardView| v.key() != card_id;
    lemma_without_key_filter(s.cards, card_id, p);
    lemma_filter_lookup(s.cards, p);
    let w = s.cards.filter(p);
    let f = |v: CardView| shifted(v, c.column_id, card_id, c.position + 1, i32::MAX as int, -1);
    assert(shift_cards(w, c.column_id, card_id, c.position + 1, i32::MAX as int, -1) == w.map_values(f));
    lemma_map_lookup(w, f);
}

/// Deleting a column deletes its cards.
pub proof fn law_delete_column_removes_its_cards(s: AppStateView, t: AppStateView, column_id: Seq<char>, actor: Option<Seq<char>>, r: Result<(), AppErrorView>)
    requires
        s.wf(),
        delete_column_post(s, t, column_id, actor, r),
        r is Ok,
    ensures
        !t.has_column(column_id),
        forall|i: int| 0 <= i < t.cards.len() ==> (#[trigger] t.cards[i]).column_id != column_id,
        forall|i: int| 0 <= i < s.cards.len() && (#[trigger] s.cards[i]).column_id != column_id ==> t.cards.contains(s.cards[i]),
{
    let pc = |v: ColumnView| v.key() != column_id;
    lemma_without_key_filter(s.columns, column_id, pc);
    lemma_filter_lookup(s.columns, pc);
    let pk = |v: CardView| v.column_id != column_id;
    assert(cards_outside_column(s.cards, column_id) == s.cards.filter(pk));
    lemma_filter_contains(s.cards, pk);
    assert forall|i: int| 0 <= i < t.cards.len() implies (#[trigger] t.cards[i]).column_id != column_id by {
        assert(t.cards.contains(t.cards[i]));
    }
    assert forall|i: int| 0 <= i < s.cards.len() && (#[trigger] s.cards[i]).column_id != column_id implies t.cards.contains(s.cards[i]) by {
        assert(s.cards.contains(s.cards[i]));
    }
}

/// Deleting a board deletes its columns and their cards, and nothing else.
pub proof fn law_delete_board_removes_its_columns_and_cards(s: AppStateView, t: AppStateView, board_id: Seq<char>, actor: Option<Seq<char>>, r: Result<(), AppErrorView>)
    requires
        s.wf(),
        delete_board_post(s, t, board_id, actor, r),
        r is Ok,
    ensures
        !t.has_board(board_id),
        forall|i: int| 0 <= i < t.columns.len() ==> (#[trigger] t.columns[i]).board_id != board_id,
        forall|i: int| 0 <= i < t.cards.len() ==> !column_in_board(s.columns, (#[trigger] t.cards[i]).column_id, board_id),
        forall|i: int| 0 <= i < s.columns.len() && (#[trigger] s.columns[i]).board_id != board_id ==> t.columns.contains(s.columns[i]),
        forall|i: int| 0 <= i < s.cards.len() && !column_in_board(s.columns, (#[trigger] s.cards[i]).column_id, board_id) ==> t.cards.contains(s.cards[i]),
{
    let pb = |v: BoardView| v.key() != board_id;
    lemma_without_key_filter(s.boards, board_id, pb);
    lemma_filter_lookup(s.boards, pb);
    let pc = |v: ColumnView| v.board_id != board_id;
    assert(columns_outside_board(s.columns, board_id) == s.columns.filter(pc));
    lemma_filter_contains(s.columns, pc);
    let pk = |v: CardView| !column_in_board(s.columns, v.column_id, board_id);
    assert(cards_outside_board(s.cards, s.columns, board_id) == s.cards.filter(pk));
    lemma_filter_contains(s.cards, pk);
    assert forall|i: int| 0 <= i < t.columns.len() implies (#[trigger] t.columns[i]).board_id != board_id by {
        assert(t.columns.contains(t.columns[i]));
    }
    assert forall|i: int| 0 <= i < t.cards.len() implies !column_in_board(s.columns, (#[trigger] t.cards[i]).column_id, board_id) by {
        assert(t.cards.contains(t.cards[i]));
    }
    assert forall|i: int| 0 <= i < s.columns.len() && (#[trigger] s.columns[i]).board_id != board_id implies t.columns.contains(s.columns[i]) by {
        assert(s.columns.contains(s.columns[i]));
    }
    assert forall|i: int| 0 <= i < s.cards.len() && !column_in_board(s.columns, (#[trigger] s.cards[i]).column_id, board_id) implies t.cards.contains(s.cards[i]) by {
        assert(s.cards.contains(s.cards[i]));
    }
}

// ---------- recovery ----------

/// The change announced last, replayed on the state before it, gives the
/// boards, columns and cards after it.
pub open spec fn last_event_replays(s: AppStateView, t: AppStateView) -> bool {
    &&& t.pending_events.len() == s.pending_events.len() + 1
    &&& ({
        let u = apply_event_spec(s, t.pending_events.last());
        &&& u.boards == t.boards
        &&& u.columns == t.columns
        &&& u.cards == t.cards
    })
}

/// Replaying the event of a board's creation recreates it.
pub proof fn law_replay_create_board(s: AppStateView, t: AppStateView, title: Seq<char>, actor: Option<Seq<char>>, r: Result<BoardView, AppErrorView>)
    requires
        create_board_post(s, t, title, actor, r),
        r is Ok,
    ensures
        last_event_replays(s, t),
{
}

/// Replaying the event of a column's creation recreates it.
pub proof fn law_replay_create_column(s: AppStateView, t: AppStateView, board_id: Seq<char>, title: Seq<char>, actor: Option<Seq<char>>, r: Result<ColumnView, AppErrorView>)
    requires
        create_column_post(s, t, board_id, title, actor, r),
        r is Ok,
    ensures
        last_event_replays(s, t),
{
}

/// Replaying the event of a card's creation recreates it.
pub proof fn law_replay_create_card(s: AppStateView, t: AppStateView, column_id: Seq<char>, title: Seq<char>, description: Seq<char>, actor: Option<Seq<char>>, r: Result<CardView, AppErrorView>)
    requires
        create_card_post(s, t, column_id, title, description, actor, r),
        r is Ok,
    ensures
        last_event_replays(s, t),
{
}

/// Replaying the event of an update redoes it.
pub proof fn law_replay_update_card(s: AppStateView, t: AppStateView, card_id: Seq<char>, req: UpdateCardView, r: Result<CardView, AppErrorView>)
    requires
        update_card_post(s, t, card_id, req, r),
        r is Ok,
    ensures
        last_event_replays(s, t),
{
}

/// Replaying the event of a status change redoes it.
pub proof fn law_replay_update_card_status(s: AppStateView, t: AppStateView, card_id: Seq<char>, req: UpdateCardStatusView, r: Result<CardView, AppErrorView>)
    requires
        update_card_status_post(s, t, card_id, req, r),
        r is Ok,
    ensures
        last_event_replays(s, t),
{
}

/// Replaying the event of a column's deletion redoes it, cards included.
pub proof fn law_replay_delete_column(s: AppStateView, t: AppStateView, column_id: Seq<char>, actor: Option<Seq<char>>, r: Result<(), AppErrorView>)
    requires
        delete_column_post(s, t, column_id, actor, r),
        r is Ok,
    ensures
        last_event_replays(s, t),
{
}

/// Replaying the event of a board's deletion redoes it, columns and cards
/// included.
pub proof fn law_replay_delete_board(s: AppStateView, t: AppStateView, board_id: Seq<char>, actor: Option<Seq<char>>, r: Result<(), AppErrorView>)
    requires
        delete_board_post(s, t, board_id, actor, r),
        r is Ok,
    ensures
        last_event_replays(s, t),
{
}

/// Replaying the event of a card's deletion redoes it: the card goes and
/// the cards behind it in its column move up.
pub proof fn law_replay_delete_card(s: AppStateView, t: AppStateView, card_id: Seq<char>, actor: Option<Seq<char>>, r: Result<(), AppErrorView>)
    requires
        s.wf(),
        delete_card_post(s, t, card_id, actor, r),
        r is Ok,
    ensures
        last_event_replays(s, t),
{
}

/// Replaying the event of a move redoes it: the card leaves its column,
/// whose cards behind it move up, and enters the target column, whose
/// cards at and behind the target position move down.
pub proof fn law_replay_move_card(s: AppStateView, t: AppStateView, card_id: Seq<char>, req: MoveCardView, r: Result<CardView, AppErrorView>)
    requires
        s.wf(),
        move_room(s, card_id, req),
        move_card_post(s, t, card_id, req, r),
        r is Ok,
    ensures
        last_event_replays(s, t),
{
    lemma_key_index(s.cards, card_id);
}

/// Replaying the event of a reorder redoes it: the card takes its new
/// position and the cards in between shift.
pub proof fn law_replay_reorder_card(s: AppStateView, t: AppStateView, card_id: Seq<char>, req: ReorderCardView, r: Result<CardView, AppErrorView>)
    requires
        s.wf(),
        reorder_card_post(s, t, card_id, req, r),
        r is Ok,
        s.card(card_id).position != req.target_position,
    ensures
        last_event_replays(s, t),
{
    lemma_key_index(s.cards, card_id);
}

/// `u` and `s` hold the same boards, columns and cards.
pub open spec fn same_records(u: AppStateView, s: AppStateView) -> bool {
    &&& u.boards == s.boards
    &&& u.columns == s.columns
    &&& u.cards == s.cards
}

/// Replaying on `base` the events of `log`, then those still pending in
/// `s`, gives the boards, columns and cards of `s`.
pub open spec fn recovered_by(base: AppStateView, log: Seq<WsEventView>, s: AppStateView) -> bool {
    same_records(apply_events_spec(base, log + s.pending_events), s)
}

/// A change made through one public call of the store: the relation that
/// the call's contract states between the state before and after it,
/// under the call's own preconditions.
pub open spec fn public_change(s: AppStateView, t: AppStateView) -> bool {
    ||| exists|title: Seq<char>, actor: Option<Seq<char>>, r: Result<BoardView, AppErrorView>| #[trigger] create_board_post(s, t, title, actor, r)
    ||| exists|id: Seq<char>, actor: Option<Seq<char>>, r: Result<(), AppErrorView>| #[trigger] delete_board_post(s, t, id, actor, r)
    ||| exists|id: Seq<char>, title: Seq<char>, actor: Option<Seq<char>>, r: Result<ColumnView, AppErrorView>| #[trigger] create_column_post(s, t, id, title, actor, r)
    ||| exists|id: Seq<char>, actor: Option<Seq<char>>, r: Result<(), AppErrorView>| #[trigger] delete_column_post(s, t, id, actor, r)
    ||| exists|id: Seq<char>, title: Seq<char>, description: Seq<char>, actor: Option<Seq<char>>, r: Result<CardView, AppErrorView>| #[trigger] create_card_post(s, t, id, title, description, actor, r)
    ||| exists|id: Seq<char>, actor: Option<Seq<char>>, r: Result<(), AppErrorView>| #[trigger] delete_card_post(s, t, id, actor, r)
    ||| exists|id: Seq<char>, req: UpdateCardView, r: Result<CardView, AppErrorView>| version_room(s, id, req.version) && #[trigger] update_card_post(s, t, id, req, r)
    ||| exists|id: Seq<char>, req: UpdateCardStatusView, r: Result<CardView, AppErrorView>| version_room(s, id, req.version) && #[trigger] update_card_status_post(s, t, id, req, r)
    ||| exists|id: Seq<char>, req: MoveCardView, r: Result<CardView, AppErrorView>| version_room(s, id, req.version) && move_room(s, id, req) && #[trigger] move_card_post(s, t, id, req, r)
    ||| exists|id: Seq<char>, req: ReorderCardView, r: Result<CardView, AppErrorView>| reorder_room(s, id, req) && #[trigger] reorder_card_post(s, t, id, req, r)
    ||| exists|logs: Seq<AuditView>| t == (AppStateView { audit_logs: #[trigger] (s.audit_logs + logs), ..s })
}

/// Replaying one more event on states that hold the same records gives
/// states that hold the same records.
proof fn lemma_replay_same_records(u: AppStateView, s: AppStateView, e: WsEventView)
    requires
        same_records(u, s),
    ensures
        same_records(apply_event_spec(u, e), apply_event_spec(s, e)),
{
}

/// A change whose event replays keeps the state recovered.
proof fn lemma_recovered_after_event(base: AppStateView, log: Seq<WsEventView>, s: AppStateView, t: AppStateView)
    requires
        recovered_by(base, log, s),
        last_event_replays(s, t),
        t.pending_events == s.pending_events.push(t.pending_events.last()),
    ensures
        recovered_by(base, log, t),
{
    let before = log + s.pending_events;
    let after = log + t.pending_events;
    assert(after.drop_last() =~= before);
    lemma_replay_same_records(apply_events_spec(base, before), s, t.pending_events.last());
}

/// Every change made through the store's public calls keeps its events a
/// complete record: if replaying `log` and the pending events on `base`
/// gave the boards, columns and cards before the change, it gives them
/// after it.
pub proof fn law_public_change_keeps_recovery(base: AppStateView, log: Seq<WsEventView>, s: AppStateView, t: AppStateView)
    requires
        s.wf(),
        recovered_by(base, log, s),
        public_change(s, t),
    ensures
        recovered_by(base, log, t),
{
    if exists|title: Seq<char>, actor: Option<Seq<char>>, r: Result<BoardView, AppErrorView>| #[trigger] create_board_post(s, t, title, actor, r) {
        let (title, actor, r) = choose|title: Seq<char>, actor: Option<Seq<char>>, r: Result<BoardView, AppErrorView>| #[trigger] create_board_post(s, t, title, actor, r);
        if r is Ok {
            law_replay_create_board(s, t, title, actor, r);
            lemma_recovered_after_event(base, log, s, t);
        }
    } else if exists|id: Seq<char>, actor: Option<Seq<char>>, r: Result<(), AppErrorView>| #[trigger] delete_board_post(s, t, id, actor, r) {
        let (id, actor, r) = choose|id: Seq<char>, actor: Option<Seq<char>>, r: Result<(), AppErrorView>| #[trigger] delete_board_post(s, t, id, actor, r);
        if r is Ok {
            law_replay_delete_board(s, t, id, actor, r);
            lemma_recovered_after_event(base, log, s, t);
        }
    } else if exists|id: Seq<char>, title: Seq<char>, actor: Option<Seq<char>>, r: Result<ColumnView, AppErrorView>| #[trigger] create_column_post(s, t, id, title, actor, r) {
        let (id, title, actor, r) = choose|id: Seq<char>, title: Seq<char>, actor: Option<Seq<char>>, r: Result<ColumnView, AppErrorView>| #[trigger] create_column_post(s, t, id, title, actor, r);
        if r is Ok {
            law_replay_create_column(s, t, id, title, actor, r);
            lemma_recovered_after_event(base, log, s, t);
        }
    } else if exists|id: Seq<char>, actor: Option<Seq<char>>, r: Result<(), AppErrorView>| #[trigger] delete_column_post(s, t, id, actor, r) {
        let (id, actor, r) = choose|id: Seq<char>, actor: Option<Seq<char>>, r: Result<(), AppErrorView>| #[trigger] delete_column_post(s, t, id, actor, r);
        if r is Ok {
            law_replay_delete_column(s, t, id, actor, r);
            lemma_recovered_after_event(base, log, s, t);
        }
    } else if exists|id: Seq<char>, title: Seq<char>, description: Seq<char>, actor: Option<Seq<char>>, r: Result<CardView, AppErrorView>| #[trigger] create_card_post(s, t, id, title, description, actor, r) {
        let (id, title, description, actor, r) = choose|id: Seq<char>, title: Seq<char>, description: Seq<char>, actor: Option<Seq<char>>, r: Result<CardView, AppErrorView>| #[trigger] create_card_post(s, t, id, title, description, actor, r);
        if r is Ok {
            law_replay_create_card(s, t, id, title, description, actor, r);
            lemma_recovered_after_event(base, log, s, t);
        }
    } else if exists|id: Seq<char>, actor: Option<Seq<char>>, r: Result<(), AppErrorView>| #[trigger] delete_card_post(s, t, id, actor, r) {
        let (id, actor, r) = choose|id: Seq<char>, actor: Option<Seq<char>>, r: Result<(), AppErrorView>| #[trigger] delete_card_post(s, t, id, actor, r);
        if r is Ok {
            law_replay_delete_card(s, t, id, actor, r);
            lemma_recovered_after_event(base, log, s, t);
        }
    } else if exists|id: Seq<char>, req: UpdateCardView, r: Result<CardView, AppErrorView>| version_room(s, id, req.version) && #[trigger] update_card_post(s, t, id, req, r) {
        let (id, req, r) = choose|id: Seq<char>, req: UpdateCardView, r: Result<CardView, AppErrorView>| version_room(s, id, req.version) && #[trigger] update_card_post(s, t, id, req, r);
        if r is Ok {
            law_replay_update_card(s, t, id, req, r);
            lemma_recovered_after_event(base, log, s, t);
        }
    } else if exists|id: Seq<char>, req: UpdateCardStatusView, r: Result<CardView, AppErrorView>| version_room(s, id, req.version) && #[trigger] update_card_status_post(s, t, id, req, r) {
        let (id, req, r) = choose|id: Seq<char>, req: UpdateCardStatusView, r: Result<CardView, AppErrorView>| version_room(s, id, req.version) && #[trigger] update_card_status_post(s, t, id, req, r);
        if r is Ok {
            law_replay_update_card_status(s, t, id, req, r);
            lemma_recovered_after_event(base, log, s, t);
        }
    } else if exists|id: Seq<char>, req: MoveCardView, r: Result<CardView, AppErrorView>| version_room(s, id, req.version) && move_room(s, id, req) && #[trigger] move_card_post(s, t, id, req, r) {
        let (id, req, r) = choose|id: Seq<char>, req: MoveCardView, r: Result<CardView, AppErrorView>| version_room(s, id, req.version) && move_room(s, id, req) && #[trigger] move_card_post(s, t, id, req, r);
        if r is Ok {
            law_replay_move_card(s, t, id, req, r);
            lemma_recovered_after_event(base, log, s, t);
        }
    } else if exists|id: Seq<char>, req: ReorderCardView, r: Result<CardView, AppErrorView>| reorder_room(s, id, req) && #[trigger] reorder_card_post(s, t, id, req, r) {
        let (id, req, r) = choose|id: Seq<char>, req: ReorderCardView, r: Result<CardView, AppErrorView>| reorder_room(s, id, req) && #[trigger] reorder_card_post(s, t, id, req, r);
        if r is Ok && s.card(id).position != req.target_position {
            law_replay_reorder_card(s, t, id, req, r);
            lemma_recovered_after_event(base, log, s, t);
        }
    }
}

/// Handing the pending events over to the log keeps the state recovered:
/// replaying the log with them appended gives its boards, columns and cards.
pub proof fn law_taking_events_keeps_recovery(base: AppStateView, log: Seq<WsEventView>, s: AppStateView, t: AppStateView, taken: Seq<WsEventView>)
    requires
        recovered_by(base, log, s),
        taken == s.pending_events,
        t == (AppStateView { pending_events: Seq::empty(), ..s }),
    ensures
        recovered_by(base, log + taken, t),
        same_records(apply_events_spec(base, log + taken), t),
{
    assert(log + taken + t.pending_events =~= log + s.pending_events);
}

/// A new store is recovered from an empty log by replaying on a new store,
/// and the logs of its (no) cards are consistent.
pub proof fn law_new_store_starts_consistent(base: AppStateView, s: AppStateView)
    requires
        base.boards.len() == 0 && base.columns.len() == 0 && base.cards.len() == 0,
        s.boards.len() == 0 && s.columns.len() == 0 && s.cards.len() == 0,
        s.pending_events.len() == 0,
    ensures
        recovered_by(base, Seq::empty(), s),
        all_logs_consistent(s.cards),
{
    assert(Seq::<WsEventView>::empty() + s.pending_events =~= Seq::<WsEventView>::empty());
    assert(base.boards =~= s.boards);
    assert(base.columns =~= s.columns);
    assert(base.cards =~= s.cards);
}

// ---------- card logs ----------

/// Every card's log is consistent.
pub open spec fn all_logs_consistent(cards: Seq<CardView>) -> bool {
    forall|i: int| 0 <= i < cards.len() ==> log_consistent(#[trigger] cards[i])
}

/// Keeping some of the cards keeps their logs consistent.
proof fn lemma_logs_filter(cards: Seq<CardView>, p: spec_fn(CardView) -> bool)
    requires
        all_logs_consistent(cards),
    ensures
        all_logs_consistent(cards.filter(p)),
{
    lemma_filter_contains(cards, p);
    let f = cards.filter(p);
    assert forall|i: int| 0 <= i < f.len() implies log_consistent(#[trigger] f[i]) by {
        assert(f.contains(f[i]));
    }
}

/// Shifting positions leaves the logs alone.
proof fn lemma_logs_shift(cards: Seq<CardView>, col: Seq<char>, x: Seq<char>, lo: int, hi: int, delta: int)
    requires
        all_logs_consistent(cards),
    ensures
        all_logs_consistent(shift_cards(cards, col, x, lo, hi, delta)),
{
    let f = shift_cards(cards, col, x, lo, hi, delta);
    assert forall|i: int| 0 <= i < f.len() implies log_consistent(#[trigger] f[i]) by {
        assert(f[i] == shifted(cards[i], col, x, lo, hi, delta));
    }
}

/// Storing a card with a consistent log keeps all logs consistent.
proof fn lemma_logs_upsert(cards: Seq<CardView>, c: CardView)
    requires
        all_logs_consistent(cards),
        log_consistent(c),
    ensures
        all_logs_consistent(upsert(cards, c)),
{
}

/// The stored card with id `id` has a consistent log.
proof fn lemma_logs_lookup(cards: Seq<CardView>, id: Seq<char>)
    requires
        all_logs_consistent(cards),
        has_key(cards, id),
    ensures
        log_consistent(lookup(cards, id)),
{
    lemma_key_index(cards, id);
}

/// Every change made through the store's public calls keeps each card's
/// log consistent: one entry per version, numbered 1, 2, ..., the card's
/// version, the first recording its creation.
pub proof fn law_public_change_keeps_logs_consistent(s: AppStateView, t: AppStateView)
    requires
        s.wf(),
        all_logs_consistent(s.cards),
        public_change(s, t),
    ensures
        all_logs_consistent(t.cards),
{
    if exists|title: Seq<char>, actor: Option<Seq<char>>, r: Result<BoardView, AppErrorView>| #[trigger] create_board_post(s, t, title, actor, r) {
    } else if exists|id: Seq<char>, actor: Option<Seq<char>>, r: Result<(), AppErrorView>| #[trigger] delete_board_post(s, t, id, actor, r) {
        let (id, actor, r) = choose|id: Seq<char>, actor: Option<Seq<char>>, r: Result<(), AppErrorView>| #[trigger] delete_board_post(s, t, id, actor, r);
        lemma_logs_filter(s.cards, |c: CardView| !column_in_board(s.columns, c.column_id, id));
    } else if exists|id: Seq<char>, title: Seq<char>, actor: Option<Seq<char>>, r: Result<ColumnView, AppErrorView>| #[trigger] create_column_post(s, t, id, title, actor, r) {
    } else if exists|id: Seq<char>, actor: Option<Seq<char>>, r: Result<(), AppErrorView>| #[trigger] delete_column_post(s, t, id, actor, r) {
        let (id, actor, r) = choose|id: Seq<char>, actor: Option<Seq<char>>, r: Result<(), AppErrorView>| #[trigger] delete_column_post(s, t, id, actor, r);
        lemma_logs_filter(s.cards, |c: CardView| c.column_id != id);
    } else if exists|id: Seq<char>, title: Seq<char>, description: Seq<char>, actor: Option<Seq<char>>, r: Result<CardView, AppErrorView>| #[trigger] create_card_post(s, t, id, title, description, actor, r) {
        let (id, title, description, actor, r) = choose|id: Seq<char>, title: Seq<char>, description: Seq<char>, actor: Option<Seq<char>>, r: Result<CardView, AppErrorView>| #[trigger] create_card_post(s, t, id, title, description, actor, r);
        if r is Ok {
            let c = r->Ok_0;
            law_new_card_log_consistent(c.id, id, title, description, c.position, c.created_at);
            lemma_logs_upsert(s.cards, c);
        }
    } else if exists|id: Seq<char>, actor: Option<Seq<char>>, r: Result<(), AppErrorView>| #[trigger] delete_card_post(s, t, id, actor, r) {
        let (id, actor, r) = choose|id: Seq<char>, actor: Option<Seq<char>>, r: Result<(), AppErrorView>| #[trigger] delete_card_post(s, t, id, actor, r);
        if r is Ok {
            let c = s.card(id);
            lemma_logs_filter(s.cards, key_differs(id));
            lemma_logs_shift(without_key(s.cards, id), c.column_id, id, c.position + 1, i32::MAX as int, -1);
        }
    } else if exists|id: Seq<char>, req: UpdateCardView, r: Result<CardView, AppErrorView>| version_room(s, id, req.version) && #[trigger] update_card_post(s, t, id, req, r) {
        let (id, req, r) = choose|id: Seq<char>, req: UpdateCardView, r: Result<CardView, AppErrorView>| version_room(s, id, req.version) && #[trigger] update_card_post(s, t, id, req, r);
        if r is Ok {
            let c = r->Ok_0;
            lemma_logs_lookup(s.cards, id);
            lemma_logs_upsert(s.cards, c);
        }
    } else if exists|id: Seq<char>, req: UpdateCardStatusView, r: Result<CardView, AppErrorView>| version_room(s, id, req.version) && #[trigger] update_card_status_post(s, t, id, req, r) {
        let (id, req, r) = choose|id: Seq<char>, req: UpdateCardStatusView, r: Result<CardView, AppErrorView>| version_room(s, id, req.version) && #[trigger] update_card_status_post(s, t, id, req, r);
        if r is Ok {
            let c = r->Ok_0;
            lemma_logs_lookup(s.cards, id);
            lemma_logs_upsert(s.cards, c);
        }
    } else if exists|id: Seq<char>, req: MoveCardView, r: Result<CardView, AppErrorView>| version_room(s, id, req.version) && move_room(s, id, req) && #[trigger] move_card_post(s, t, id, req, r) {
        let (id, req, r) = choose|id: Seq<char>, req: MoveCardView, r: Result<CardView, AppErrorView>| version_room(s, id, req.version) && move_room(s, id, req) && #[trigger] move_card_post(s, t, id, req, r);
        if r is Ok {
            let c = r->Ok_0;
            let old_c = s.card(id);
            lemma_logs_lookup(s.cards, id);
            lemma_logs_shift(s.cards, old_c.column_id, id, old_c.position + 1, i32::MAX as int, -1);
            let s1 = after_leaving(s.cards, old_c);
            lemma_logs_shift(s1, req.target_column_id, id, req.target_position as int, i32::MAX as int, 1);
            lemma_logs_upsert(after_entering(s1, id, req.target_column_id, req.target_position), c);
        }
    } else if exists|id: Seq<char>, req: ReorderCardView, r: Result<CardView, AppErrorView>| reorder_room(s, id, req) && #[trigger] reorder_card_post(s, t, id, req, r) {
        let (id, req, r) = choose|id: Seq<char>, req: ReorderCardView, r: Result<CardView, AppErrorView>| reorder_room(s, id, req) && #[trigger] reorder_card_post(s, t, id, req, r);
        if r is Ok && s.card(id).position != req.target_position {
            let c = r->Ok_0;
            let old_c = s.card(id);
            lemma_logs_lookup(s.cards, id);
            if req.target_position > old_c.position {
                lemma_logs_shift(s.cards, old_c.column_id, id, old_c.position + 1, req.target_position as int, -1);
            } else {
                lemma_logs_shift(s.cards, old_c.column_id, id, req.target_position as int, old_c.position - 1, 1);
            }
            lemma_logs_upsert(after_reordering(s.cards, old_c, req.target_position), c);
        }
    }
}

// ---------- what the changes do to the fields ----------

/// A successful update sets exactly the fields the request gives: the title,
/// description and status become the request's where it gives one and stay
/// as they were where it gives none; the card keeps its id, column and
/// position, its version goes up by one, its log gains one entry (an update
/// under the new version), and the store holds the returned card.
pub proof fn law_update_card_sets_given_fields(s: AppStateView, t: AppStateView, card_id: Seq<char>, req: UpdateCardView, r: Result<CardView, AppErrorView>)
    requires
        s.wf(),
        version_room(s, card_id, req.version),
        update_card_post(s, t, card_id, req, r),
        r is Ok,
    ensures
        s.has_card(card_id),
        r->Ok_0.title == (match req.title { Some(x) => x, None => s.card(card_id).title }),
        r->Ok_0.description == (match req.description { Some(x) => x, None => s.card(card_id).description }),
        r->Ok_0.status == (match req.status { Some(x) => x, None => s.card(card_id).status }),
        r->Ok_0.id == card_id,
        r->Ok_0.column_id == s.card(card_id).column_id,
        r->Ok_0.position == s.card(card_id).position,
        r->Ok_0.version == s.card(card_id).version + 1,
        r->Ok_0.modification_logs.drop_last() == s.card(card_id).modification_logs,
        r->Ok_0.modification_logs.last().operation == ModificationOperation::Updated,
        r->Ok_0.modification_logs.last().version == r->Ok_0.version,
        t.has_card(card_id),
        t.card(card_id) == r->Ok_0,
{
    lemma_key_index(s.cards, card_id);
    lemma_card_stored(s, r->Ok_0);
    assert(r->Ok_0.modification_logs.drop_last() =~= s.card(card_id).modification_logs);
}

/// A successful status change sets the status to the requested one and
/// leaves the card's title, description, column and position alone; its
/// version goes up by one, and the store holds the returned card.
pub proof fn law_update_card_status_sets_status(s: AppStateView, t: AppStateView, card_id: Seq<char>, req: UpdateCardStatusView, r: Result<CardView, AppErrorView>)
    requires
        s.wf(),
        version_room(s, card_id, req.version),
        update_card_status_post(s, t, card_id, req, r),
        r is Ok,
    ensures
        s.has_card(card_id),
        r->Ok_0.status == req.status,
        r->Ok_0.title == s.card(card_id).title,
        r->Ok_0.description == s.card(card_id).description,
        r->Ok_0.id == card_id,
        r->Ok_0.column_id == s.card(card_id).column_id,
        r->Ok_0.position == s.card(card_id).position,
        r->Ok_0.version == s.card(card_id).version + 1,
        r->Ok_0.modification_logs.last().operation == ModificationOperation::StatusChanged,
        t.has_card(card_id),
        t.card(card_id) == r->Ok_0,
{
    lemma_key_index(s.cards, card_id);
    lemma_card_stored(s, r->Ok_0);
}

/// The greatest position among the columns of a board is held by one of
/// them and bounds them all; a board without columns has none.
proof fn lemma_max_column_position(columns: Seq<ColumnView>, board_id: Seq<char>)
    ensures
        max_column_position(columns, board_id) is None ==> forall|i: int| 0 <= i < columns.len() ==> (#[trigger] columns[i]).board_id != board_id,
        max_column_position(columns, board_id) is Some ==> exists|i: int| 0 <= i < columns.len() && (#[trigger] columns[i]).board_id == board_id && columns[i].position == max_column_position(columns, board_id)->0,
        max_column_position(columns, board_id) is Some ==> forall|i: int| 0 <= i < columns.len() && (#[trigger] columns[i]).board_id == board_id ==> columns[i].position <= max_column_position(columns, board_id)->0,
    decreases columns.len(),
{
    if columns.len() > 0 {
        let d = columns.drop_last();
        let l = columns.len() - 1;
        lemma_max_column_position(d, board_id);
        assert forall|i: int| 0 <= i < d.len() implies #[trigger] columns[i] == d[i] by {}
        match max_column_position(columns, board_id) {
            None => {
                assert forall|i: int| 0 <= i < columns.len() implies (#[trigger] columns[i]).board_id != board_id by {
                    if i < d.len() {
                        assert(d[i] == columns[i]);
                    }
                }
            },
            Some(m) => {
                if columns.last().board_id == board_id && (max_column_position(d, board_id) is None || columns.last().position > max_column_position(d, board_id)->0) {
                    assert(columns[l].board_id == board_id && columns[l].position == m);
                } else {
                    let j = choose|j: int| 0 <= j < d.len() && (#[trigger] d[j]).board_id == board_id && d[j].position == m;
                    assert(columns[j] == d[j]);
                }
                assert forall|i: int| 0 <= i < columns.len() && (#[trigger] columns[i]).board_id == board_id implies columns[i].position <= m by {
                    if i < d.len() {
                        assert(d[i] == columns[i]);
                    }
                }
            },
        }
    }
}

/// A new column goes at the end of its own board: its position is one past
/// the greatest position among the columns of that board, and 0 when the
/// board has none. Columns of other boards play no part.
pub proof fn law_create_column_goes_last_in_its_board(s: AppStateView, t: AppStateView, board_id: Seq<char>, title: Seq<char>, actor: Option<Seq<char>>, r: Result<ColumnView, AppErrorView>)
    requires
        create_column_post(s, t, board_id, title, actor, r),
        r is Ok,
    ensures
        r->Ok_0.board_id == board_id,
        r->Ok_0.title == title,
        forall|i: int| 0 <= i < s.columns.len() && (#[trigger] s.columns[i]).board_id == board_id ==> s.columns[i].position < r->Ok_0.position,
        (exists|i: int| 0 <= i < s.columns.len() && (#[trigger] s.columns[i]).board_id == board_id) ==> exists|j: int| 0 <= j < s.columns.len() && (#[trigger] s.columns[j]).board_id == board_id && s.columns[j].position == r->Ok_0.position - 1,
        (forall|i: int| 0 <= i < s.columns.len() ==> (#[trigger] s.columns[i]).board_id != board_id) ==> r->Ok_0.position == 0,
{
    lemma_max_column_position(s.columns, board_id);
}

/// A new card goes at the end of its own column: its position is one past
/// the greatest position among the cards of that column, and 0 when the
/// column has none. Cards of other columns play no part.
pub proof fn law_create_card_goes_last_in_its_column(s: AppStateView, t: AppStateView, column_id: Seq<char>, title: Seq<char>, description: Seq<char>, actor: Option<Seq<char>>, r: Result<CardView, AppErrorView>)
    requires
        s.has_column(column_id) ==> next_card_position(s.cards, column_id) <= i32::MAX,
        create_card_post(s, t, column_id, title, description, actor, r),
        r is Ok,
    ensures
        r->Ok_0.column_id == column_id,
        r->Ok_0.title == title,
        r->Ok_0.description == description,
        r->Ok_0.version == 1,
        forall|i: int| 0 <= i < s.cards.len() && (#[trigger] s.cards[i]).column_id == column_id ==> s.cards[i].position < r->Ok_0.position,
        (exists|i: int| 0 <= i < s.cards.len() && (#[trigger] s.cards[i]).column_id == column_id) ==> exists|j: int| 0 <= j < s.cards.len() && (#[trigger] s.cards[j]).column_id == column_id && s.cards[j].position == r->Ok_0.position - 1,
        (forall|i: int| 0 <= i < s.cards.len() ==> (#[trigger] s.cards[i]).column_id != column_id) ==> r->Ok_0.position == 0,
{
    lemma_max_card_position(s.cards, column_id);
    assert forall|i: int| 0 <= i < s.cards.len() && (#[trigger] s.cards[i]).column_id == column_id implies s.cards[i].position < r->Ok_0.position by {
        assert(in_col(s.cards, i, column_id));
    }
    if exists|i: int| 0 <= i < s.cards.len() && (#[trigger] s.cards[i]).column_id == column_id {
        let i = choose|i: int| 0 <= i < s.cards.len() && (#[trigger] s.cards[i]).column_id == column_id;
        assert(in_col(s.cards, i, column_id));
        let j = choose|j: int| #[trigger] in_col(s.cards, j, column_id) && s.cards[j].position == max_card_position(s.cards, column_id)->0;
        assert(s.cards[j].column_id == column_id);
    } else {
        if max_card_position(s.cards, column_id) is Some {
            let j = choose|j: int| #[trigger] in_col(s.cards, j, column_id) && s.cards[j].position == max_card_position(s.cards, column_id)->0;
            assert(s.cards[j].column_id == column_id);
        }
    }
}

// ---------- what the reads answer ----------

/// `list_boards` gives the boards oldest first: each board once, in order of
/// creation time.
pub proof fn law_list_boards_oldest_first(s: AppStateView, r: Seq<BoardView>)
    requires
        r.to_multiset() == s.boards.to_multiset(),
        sorted_by_key::<Board>(r),
    ensures
        forall|i: int, j: int| #![trigger r[i], r[j]] 0 <= i < j < r.len() ==> r[i].created_at <= r[j].created_at,
        forall|b: BoardView| r.contains(b) <==> s.boards.contains(b),
        r.len() == s.boards.len(),
{
    broadcast use vstd::seq_lib::group_to_multiset_ensures;
    assert forall|i: int, j: int| #![trigger r[i], r[j]] 0 <= i < j < r.len() implies r[i].created_at <= r[j].created_at by {
        assert(<Board as OrderedRecord>::order_key(r[i]) <= <Board as OrderedRecord>::order_key(r[j]));
    }
    r.to_multiset_ensures();
    s.boards.to_multiset_ensures();
    assert forall|b: BoardView| r.contains(b) <==> s.boards.contains(b) by {
        assert(r.contains(b) <==> r.to_multiset().count(b) > 0);
        assert(s.boards.contains(b) <==> s.boards.to_multiset().count(b) > 0);
        assert(r.to_multiset().count(b) == s.boards.to_multiset().count(b));
    }
}

/// A board's detail holds that board, exactly its columns (each listed
/// column has the board's id, each column with the board's id is listed,
/// and as many times as the store holds it) in position order, and under
/// each column exactly its cards, in position order.
pub proof fn law_board_detail_holds_exactly_its_columns(s: AppStateView, board_id: Seq<char>, r: Result<BoardDetailView, AppErrorView>)
    requires
        s.wf(),
        board_detail_post(s, board_id, r),
        r is Ok,
    ensures
        r->Ok_0.board.id == board_id,
        s.boards.contains(r->Ok_0.board),
        forall|i: int| 0 <= i < r->Ok_0.columns.len() ==> (#[trigger] r->Ok_0.columns[i]).column.board_id == board_id && s.columns.contains(r->Ok_0.columns[i].column),
        forall|j: int| 0 <= j < s.columns.len() && (#[trigger] s.columns[j]).board_id == board_id ==> exists|i: int| 0 <= i < r->Ok_0.columns.len() && (#[trigger] r->Ok_0.columns[i]).column == s.columns[j],
        r->Ok_0.columns.map_values(|c: ColumnWithCardsView| c.column).to_multiset() == s.columns.filter(|c: ColumnView| c.board_id == board_id).to_multiset(),
        forall|i: int, j: int| #![trigger r->Ok_0.columns[i], r->Ok_0.columns[j]] 0 <= i < j < r->Ok_0.columns.len() ==> r->Ok_0.columns[i].column.position <= r->Ok_0.columns[j].column.position,
        forall|i: int, k: int| 0 <= i < r->Ok_0.columns.len() && 0 <= k < r->Ok_0.columns[i].cards.len() ==> (#[trigger] r->Ok_0.columns[i].cards[k]).column_id == r->Ok_0.columns[i].column.id && s.cards.contains(r->Ok_0.columns[i].cards[k]),
        forall|i: int, j: int| 0 <= i < r->Ok_0.columns.len() && 0 <= j < s.cards.len() && (#[trigger] s.cards[j]).column_id == (#[trigger] r->Ok_0.columns[i]).column.id ==> r->Ok_0.columns[i].cards.contains(s.cards[j]),
        forall|i: int, k: int, l: int| 0 <= i < r->Ok_0.columns.len() && 0 <= k < l < r->Ok_0.columns[i].cards.len() ==> (#[trigger] r->Ok_0.columns[i].cards[k]).position <= (#[trigger] r->Ok_0.columns[i].cards[l]).position,
{
    broadcast use vstd::seq_lib::group_to_multiset_ensures;
    let d = r->Ok_0;
    let cols = d.columns.map_values(|c: ColumnWithCardsView| c.column);
    let pc = |c: ColumnView| c.board_id == board_id;
    assert(columns_of_board(s.columns, board_id) == s.columns.filter(pc));
    lemma_filter_contains(s.columns, pc);
    lemma_key_index(s.boards, board_id);
    assert(s.boards.contains(s.boards[key_index(s.boards, board_id)]));
    assert forall|i: int| 0 <= i < d.columns.len() implies (#[trigger] d.columns[i]).column.board_id == board_id && s.columns.contains(d.columns[i].column) by {
        assert(cols[i] == d.columns[i].column);
        assert(cols.contains(cols[i]));
        assert(cols.to_multiset().count(cols[i]) > 0);
        assert(s.columns.filter(pc).contains(cols[i]));
    }
    assert forall|j: int| 0 <= j < s.columns.len() && (#[trigger] s.columns[j]).board_id == board_id implies exists|i: int| 0 <= i < d.columns.len() && (#[trigger] d.columns[i]).column == s.columns[j] by {
        assert(s.columns.contains(s.columns[j]));
        assert(s.columns.filter(pc).contains(s.columns[j]));
        assert(s.columns.filter(pc).to_multiset().count(s.columns[j]) > 0);
        assert(cols.contains(s.columns[j]));
        let i = choose|i: int| 0 <= i < cols.len() && cols[i] == s.columns[j];
        assert(d.columns[i].column == s.columns[j]);
    }
    assert forall|i: int, j: int| #![trigger d.columns[i], d.columns[j]] 0 <= i < j < d.columns.len() implies d.columns[i].column.position <= d.columns[j].column.position by {
        assert(cols[i] == d.columns[i].column && cols[j] == d.columns[j].column);
        assert(<Column as OrderedRecord>::order_key(cols[i]) <= <Column as OrderedRecord>::order_key(cols[j]));
    }
    assert forall|i: int, k: int| 0 <= i < d.columns.len() && 0 <= k < d.columns[i].cards.len() implies (#[trigger] d.columns[i].cards[k]).column_id == d.columns[i].column.id && s.cards.contains(d.columns[i].cards[k]) by {
        let id = d.columns[i].column.id;
        let p = |c: CardView| c.column_id == id;
        assert(cards_of_column(s.cards, id) == s.cards.filter(p));
        lemma_filter_contains(s.cards, p);
        let cs = d.columns[i].cards;
        assert(cs.contains(cs[k]));
        assert(cs.to_multiset().count(cs[k]) > 0);
        assert(s.cards.filter(p).contains(cs[k]));
    }
    assert forall|i: int, j: int| 0 <= i < d.columns.len() && 0 <= j < s.cards.len() && (#[trigger] s.cards[j]).column_id == (#[trigger] d.columns[i]).column.id implies d.columns[i].cards.contains(s.cards[j]) by {
        let id = d.columns[i].column.id;
        let p = |c: CardView| c.column_id == id;
        assert(cards_of_column(s.cards, id) == s.cards.filter(p));
        lemma_filter_contains(s.cards, p);
        assert(s.cards.contains(s.cards[j]));
        assert(s.cards.filter(p).contains(s.cards[j]));
        assert(s.cards.filter(p).to_multiset().count(s.cards[j]) > 0);
        assert(d.columns[i].cards.to_multiset().count(s.cards[j]) > 0);
    }
    assert forall|i: int, k: int, l: int| 0 <= i < d.columns.len() && 0 <= k < l < d.columns[i].cards.len() implies (#[trigger] d.columns[i].cards[k]).position <= (#[trigger] d.columns[i].cards[l]).position by {
        let cs = d.columns[i].cards;
        assert(<Card as OrderedRecord>::order_key(cs[k]) <= <Card as OrderedRecord>::order_key(cs[l]));
    }
}

/// A successful move puts the card in the target column at the target
/// position, keeps its title, description and status, raises its version by
/// one and logs a move; the store holds the returned card.
pub proof fn law_move_card_puts_card_at_target(s: AppStateView, t: AppStateView, card_id: Seq<char>, req: MoveCardView, r: Result<CardView, AppErrorView>)
    requires
        s.wf(),
        version_room(s, card_id, req.version),
        move_room(s, card_id, req),
        move_card_post(s, t, card_id, req, r),
        r is Ok,
    ensures
        s.has_card(card_id),
        s.has_column(req.target_column_id),
        r->Ok_0.id == card_id,
        r->Ok_0.column_id == req.target_column_id,
        r->Ok_0.position == req.target_position,
        r->Ok_0.title == s.card(card_id).title,
        r->Ok_0.description == s.card(card_id).description,
        r->Ok_0.status == s.card(card_id).status,
        r->Ok_0.version == s.card(card_id).version + 1,
        r->Ok_0.modification_logs.last().operation == ModificationOperation::Moved,
        t.has_card(card_id),
        t.card(card_id) == r->Ok_0,
{
    lemma_key_index(s.cards, card_id);
    let c = s.card(card_id);
    let s2 = after_entering(after_leaving(s.cards, c), card_id, req.target_column_id, req.target_position);
    let f1 = |v: CardView| shifted(v, c.column_id, card_id, c.position + 1, i32::MAX as int, -1);
    let f2 = |v: CardView| shifted(v, req.target_column_id, card_id, req.target_position as int, i32::MAX as int, 1);
    lemma_map_lookup(s.cards, f1);
    lemma_map_lookup(after_leaving(s.cards, c), f2);
    lemma_upsert(s2, r->Ok_0);
}

/// A successful reorder puts the card at the target position in its own
/// column, keeps its other fields, and (when the position changes) raises
/// its version by one and logs a reorder; the store holds the returned card.
pub proof fn law_reorder_card_puts_card_at_target(s: AppStateView, t: AppStateView, card_id: Seq<char>, req: ReorderCardView, r: Result<CardView, AppErrorView>)
    requires
        s.wf(),
        reorder_room(s, card_id, req),
        reorder_card_post(s, t, card_id, req, r),
        r is Ok,
    ensures
        s.has_card(card_id),
        r->Ok_0.id == card_id,
        r->Ok_0.column_id == s.card(card_id).column_id,
        r->Ok_0.position == req.target_position,
        r->Ok_0.title == s.card(card_id).title,
        r->Ok_0.description == s.card(card_id).description,
        r->Ok_0.status == s.card(card_id).status,
        s.card(card_id).position == req.target_position ==> r->Ok_0 == s.card(card_id) && t == s,
        s.card(card_id).position != req.target_position ==> r->Ok_0.version == s.card(card_id).version + 1,
        s.card(card_id).position != req.target_position ==> r->Ok_0.modification_logs.last().operation == ModificationOperation::Reordered,
        t.has_card(card_id),
        t.card(card_id) == r->Ok_0,
{
    lemma_key_index(s.cards, card_id);
    let c = s.card(card_id);
    if c.position != req.target_position {
        let f = if req.target_position > c.position {
            |v: CardView| shifted(v, c.column_id, card_id, c.position + 1, req.target_position as int, -1)
        } else {
            |v: CardView| shifted(v, c.column_id, card_id, req.target_position as int, c.position - 1, 1)
        };
        let s1 = after_reordering(s.cards, c, req.target_position);
        assert(s1 == s.cards.map_values(f));
        lemma_map_lookup(s.cards, f);
        lemma_upsert(s1, r->Ok_0);
    }
}

} // verus!
