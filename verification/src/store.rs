//! The board's state in memory, and every operation on it.
//!
//! Boards, columns and cards are each kept as records with distinct ids
//! (a map from id to record, see `keyed`). Every change that succeeds
//! appends one event to `pending_events`, the order in which the changes
//! were made; the caller takes these to write them ahead and broadcast them.
//! Changes to a known board also append an entry to its audit trail.
use vstd::prelude::*;
use vstd::string::*;

use crate::ambient::fresh_id;
use crate::errors::{AppError, AppErrorView};
use crate::keyed::{
    has_key, key_index, lemma_filter_lookup, lemma_index_is_key_index, lemma_key_index,
    lemma_filter_contains, lemma_map_lookup, lemma_upsert, lookup, unique_keys, upsert, without_key, Keyed,
};
use crate::models::{
    audits_view, cards_view, clone_logs, BoardDetailResponse, BoardDetailView, ColumnWithCards,
    ColumnWithCardsView, events_view, logs_view, new_card_view, normalize_actor,
    normalized_actor, opt_view, status_label, with_log, AuditLog, AuditView, Board, BoardView, Card,
    CardView, Column, ColumnView, ModificationLog, ModificationOperation, MoveCardRequest,
    MoveCardView, ReorderCardRequest, ReorderCardView, UpdateCardRequest, UpdateCardStatusRequest,
    UpdateCardStatusView, UpdateCardView, WsEvent, WsEventView,
};
use crate::ordering::{sorted_by_key, sorted_copy, views_of, OrderedRecord};
use crate::text::{decimal_int, i32_to_decimal};

verus! {

broadcast use vstd::seq_lib::group_to_multiset_ensures;

/// The mathematical state of the store.
#[verifier::ext_equal]
pub struct AppStateView {
    pub boards: Seq<BoardView>,
    pub columns: Seq<ColumnView>,
    pub cards: Seq<CardView>,
    /// The audit trail of all boards, oldest first.
    pub audit_logs: Seq<AuditView>,
    /// Events of the changes made since the caller last took them.
    pub pending_events: Seq<WsEventView>,
}

impl AppStateView {
    /// Ids are distinct within boards, within columns and within cards.
    pub open spec fn wf(self) -> bool {
        &&& unique_keys(self.boards)
        &&& unique_keys(self.columns)
        &&& unique_keys(self.cards)
    }

    pub open spec fn has_board(self, id: Seq<char>) -> bool {
        has_key(self.boards, id)
    }

    pub open spec fn board(self, id: Seq<char>) -> BoardView {
        lookup(self.boards, id)
    }

    pub open spec fn has_column(self, id: Seq<char>) -> bool {
        has_key(self.columns, id)
    }

    pub open spec fn column(self, id: Seq<char>) -> ColumnView {
        lookup(self.columns, id)
    }

    pub open spec fn has_card(self, id: Seq<char>) -> bool {
        has_key(self.cards, id)
    }

    pub open spec fn card(self, id: Seq<char>) -> CardView {
        lookup(self.cards, id)
    }

    /// The board of a column, or the empty id when the column is unknown.
    pub open spec fn board_of_column(self, column_id: Seq<char>) -> Seq<char> {
        if self.has_column(column_id) {
            self.column(column_id).board_id
        } else {
            Seq::empty()
        }
    }

    /// `t` has the same boards and columns.
    pub open spec fn same_boards_and_columns(self, t: AppStateView) -> bool {
        &&& t.boards == self.boards
        &&& t.columns == self.columns
    }
}

/// One entry was appended to the audit trail, with these fields.
pub open spec fn audit_appended(
    old_logs: Seq<AuditView>,
    new_logs: Seq<AuditView>,
    board_id: Seq<char>,
    actor: Seq<char>,
    action: Seq<char>,
    target_type: Seq<char>,
    target_id: Seq<char>,
    detail: Seq<char>,
) -> bool {
    &&& new_logs.len() == old_logs.len() + 1
    &&& new_logs.drop_last() == old_logs
    &&& new_logs.last().board_id == board_id
    &&& new_logs.last().actor_nickname == actor
    &&& new_logs.last().action == action
    &&& new_logs.last().target_type == target_type
    &&& new_logs.last().target_id == target_id
    &&& new_logs.last().detail == detail
    &&& new_logs.last().id.len() == 36
}

/// As `audit_appended` for a known board (a non-empty board id); the trail
/// is unchanged when the board is unknown.
pub open spec fn audit_appended_if_known(
    old_logs: Seq<AuditView>,
    new_logs: Seq<AuditView>,
    board_id: Seq<char>,
    actor: Seq<char>,
    action: Seq<char>,
    target_type: Seq<char>,
    target_id: Seq<char>,
    detail: Seq<char>,
) -> bool {
    if board_id.len() > 0 {
        audit_appended(old_logs, new_logs, board_id, actor, action, target_type, target_id, detail)
    } else {
        new_logs == old_logs
    }
}

/// `"<prefix>\"<title>\"<suffix>"`, the shape of an audit entry's detail.
pub open spec fn quoted(prefix: Seq<char>, title: Seq<char>, suffix: Seq<char>) -> Seq<char> {
    prefix + "\""@ + title + "\""@ + suffix
}

/// The in-memory store.
pub struct AppState {
    boards: Vec<Board>,
    columns: Vec<Column>,
    cards: Vec<Card>,
    audit_logs: Vec<AuditLog>,
    pending_events: Vec<WsEvent>,
}

impl View for AppState {
    type V = AppStateView;

    closed spec fn view(&self) -> AppStateView {
        AppStateView {
            boards: views_of(self.boards@),
            columns: views_of(self.columns@),
            cards: views_of(self.cards@),
            audit_logs: views_of(self.audit_logs@),
            pending_events: views_of(self.pending_events@),
        }
    }
}

impl AppState {
    /// An empty store.
    pub fn new() -> (s: Self)
        ensures
            s@.wf(),
            s@.boards.len() == 0,
            s@.columns.len() == 0,
            s@.cards.len() == 0,
            s@.audit_logs.len() == 0,
            s@.pending_events.len() == 0,
    {
        AppState {
            boards: Vec::new(),
            columns: Vec::new(),
            cards: Vec::new(),
            audit_logs: Vec::new(),
            pending_events: Vec::new(),
        }
    }

    // ---------- lookups ----------
    fn find_board(&self, id: &String) -> (r: Option<usize>)
        requires
            self@.wf(),
        ensures
            match r {
                Some(i) => self@.has_board(id@) && i == key_index(self@.boards, id@) && i
                    < self@.boards.len(),
                None => !self@.has_board(id@),
            },
    {
        let mut i: usize = 0;
        while i < self.boards.len()
            invariant
                i <= self.boards@.len(),
                self@.boards == views_of(self.boards@),
                unique_keys(self@.boards),
                forall|j: int| 0 <= j < i ==> (#[trigger] self@.boards[j]).id != id@,
            decreases self.boards.len() - i,
        {
            if self.boards[i].id == *id {
                proof {
                    assert(self@.boards[i as int].key() == id@);
                    lemma_key_index(self@.boards, id@);
                }
                return Some(i);
            }
            i = i + 1;
        }
        None
    }

    fn find_column(&self, id: &String) -> (r: Option<usize>)
        requires
            self@.wf(),
        ensures
            match r {
                Some(i) => self@.has_column(id@) && i == key_index(self@.columns, id@) && i
                    < self@.columns.len(),
                None => !self@.has_column(id@),
            },
    {
        let mut i: usize = 0;
        while i < self.columns.len()
            invariant
                i <= self.columns@.len(),
                self@.columns == views_of(self.columns@),
                unique_keys(self@.columns),
                forall|j: int| 0 <= j < i ==> (#[trigger] self@.columns[j]).id != id@,
            decreases self.columns.len() - i,
        {
            if self.columns[i].id == *id {
                proof {
                    assert(self@.columns[i as int].key() == id@);
                    lemma_key_index(self@.columns, id@);
                }
                return Some(i);
            }
            i = i + 1;
        }
        None
    }

    fn find_card(&self, id: &String) -> (r: Option<usize>)
        requires
            self@.wf(),
        ensures
            match r {
                Some(i) => self@.has_card(id@) && i == key_index(self@.cards, id@) && i
                    < self@.cards.len(),
                None => !self@.has_card(id@),
            },
    {
        let mut i: usize = 0;
        while i < self.cards.len()
            invariant
                i <= self.cards@.len(),
                self@.cards == views_of(self.cards@),
                unique_keys(self@.cards),
                forall|j: int| 0 <= j < i ==> (#[trigger] self@.cards[j]).id != id@,
            decreases self.cards.len() - i,
        {
            if self.cards[i].id == *id {
                proof {
                    assert(self@.cards[i as int].key() == id@);
                    lemma_key_index(self@.cards, id@);
                }
                return Some(i);
            }
            i = i + 1;
        }
        None
    }

    /// The board id of a column, or the empty string when it is unknown.
    fn board_id_of_column(&self, column_id: &String) -> (r: String)
        requires
            self@.wf(),
        ensures
            r@ == self@.board_of_column(column_id@),
    {
        match self.find_column(column_id) {
            Some(i) => self.columns[i].board_id.clone(),
            None => String::new(),
        }
    }

    // ---------- outbox and audit trail ----------
    fn emit(&mut self, event: WsEvent)
        ensures
            final(self)@ == (AppStateView {
                pending_events: old(self)@.pending_events.push(event@),
                ..old(self)@
            }),
    {
        self.pending_events.push(event);
        proof {
            assert(self@.pending_events =~= old(self)@.pending_events.push(event@));
            assert(self@ =~= (AppStateView {
                pending_events: old(self)@.pending_events.push(event@),
                ..old(self)@
            }));
        }
    }

    fn record_audit(&mut self, log: AuditLog)
        ensures
            final(self)@ == (AppStateView {
                audit_logs: old(self)@.audit_logs.push(log@),
                ..old(self)@
            }),
    {
        self.audit_logs.push(log);
        proof {
            assert(self@.audit_logs =~= old(self)@.audit_logs.push(log@));
            assert(self@ =~= (AppStateView { audit_logs: old(self)@.audit_logs.push(log@), ..old(self)@ }));
        }
    }

    /// Hands over the events of the changes made since the last call, oldest
    /// first, and forgets them.
    pub fn take_pending_events(&mut self) -> (r: Vec<WsEvent>)
        ensures
            events_view(r@) == old(self)@.pending_events,
            final(self)@ == (AppStateView { pending_events: Seq::empty(), ..old(self)@ }),
    {
        let mut r: Vec<WsEvent> = Vec::new();
        std::mem::swap(&mut r, &mut self.pending_events);
        proof {
            assert(events_view(r@) =~= old(self)@.pending_events);
            assert(self@ =~= (AppStateView { pending_events: Seq::empty(), ..old(self)@ }));
        }
        r
    }

    /// The number of entries in the audit trail.
    pub fn audit_count(&self) -> (r: usize)
        ensures
            r == self@.audit_logs.len(),
    {
        self.audit_logs.len()
    }

    /// Copies of the audit entries from position `from` on, oldest first.
    pub fn audit_logs_since(&self, from: usize) -> (r: Vec<AuditLog>)
        ensures
            from <= self@.audit_logs.len() ==> audits_view(r@) == self@.audit_logs.skip(from as int),
            from > self@.audit_logs.len() ==> r@.len() == 0,
    {
        let mut r: Vec<AuditLog> = Vec::new();
        let mut i: usize = from;
        if i > self.audit_logs.len() {
            i = self.audit_logs.len();
        }
        let start = i;
        while i < self.audit_logs.len()
            invariant
                start <= i <= self.audit_logs@.len(),
                start == if from > self.audit_logs@.len() { self.audit_logs@.len() as usize } else { from },
                audits_view(r@) == self@.audit_logs.subrange(start as int, i as int),
            decreases self.audit_logs.len() - i,
        {
            let ghost before = r@;
            r.push(self.audit_logs[i].clone());
            proof {
                assert(audits_view(r@) =~= audits_view(before).push(self@.audit_logs[i as int]));
                assert(self@.audit_logs.subrange(start as int, i + 1) =~= self@.audit_logs.subrange(
                    start as int,
                    i as int,
                ).push(self@.audit_logs[i as int]));
            }
            i = i + 1;
        }
        proof {
            if from > self@.audit_logs.len() {
                assert(self@.audit_logs.subrange(start as int, i as int) =~= Seq::<AuditView>::empty());
            } else {
                assert(self@.audit_logs.subrange(start as int, i as int) =~= self@.audit_logs.skip(
                    from as int,
                ));
            }
        }
        r
    }

    /// Appends replayed audit entries to the trail, in order.
    pub fn apply_audit_logs(&mut self, logs: Vec<AuditLog>)
        ensures
            final(self)@ == (AppStateView {
                audit_logs: old(self)@.audit_logs + audits_view(logs@),
                ..old(self)@
            }),
    {
        let mut logs = logs;
        let ghost all = audits_view(logs@);
        let mut taken: Vec<AuditLog> = Vec::new();
        std::mem::swap(&mut taken, &mut logs);
        let mut i: usize = 0;
        let n = taken.len();
        let ghost start = self@;
        while i < n
            invariant
                n == taken@.len(),
                i <= n,
                audits_view(taken@) == all,
                self@ == (AppStateView {
                    audit_logs: start.audit_logs + all.take(i as int),
                    ..start
                }),
            decreases n - i,
        {
            let log = taken[i].clone();
            self.record_audit(log);
            proof {
                assert(all.take(i + 1) =~= all.take(i as int).push(all[i as int]));
                assert(start.audit_logs + all.take(i + 1) =~= (start.audit_logs + all.take(
                    i as int,
                )).push(all[i as int]));
            }
            i = i + 1;
        }
        assert(all.take(n as int) =~= all);
    }
}


/// `r` lists the records of `s` that satisfy `p`, in order.
fn filter_by_mask<T: OrderedRecord>(v: &Vec<T>, mask: &Vec<bool>, Ghost(p): Ghost<spec_fn(T::V) -> bool>) -> (r: Vec<T>)
    requires
        mask@.len() == v@.len(),
        forall|i: int| 0 <= i < v@.len() ==> mask@[i] == p(#[trigger] v@[i]@),
    ensures
        views_of(r@) == views_of(v@).filter(p),
{
    let mut r: Vec<T> = Vec::new();
    let mut i: usize = 0;
    while i < v.len()
        invariant
            i <= v@.len(),
            mask@.len() == v@.len(),
            forall|j: int| 0 <= j < v@.len() ==> mask@[j] == p(#[trigger] v@[j]@),
            views_of(r@) == views_of(v@).take(i as int).filter(p),
        decreases v.len() - i,
    {
        let ghost before = r@;
        proof {
            assert(views_of(v@).take(i + 1) =~= views_of(v@).take(i as int).push(v@[i as int]@));
            views_of(v@).take(i as int).lemma_filter_push(v@[i as int]@, p);
        }
        if mask[i] {
            r.push(v[i].copy_record());
            assert(views_of(r@) =~= views_of(before).push(v@[i as int]@));
        }
        i = i + 1;
    }
    assert(views_of(v@).take(v@.len() as int) =~= views_of(v@));
    r
}

/// `"<prefix>\"<title>\"<suffix>"`.
fn quoted_text(prefix: &str, title: &String, suffix: &str) -> (r: String)
    ensures
        r@ == quoted(prefix@, title@, suffix@),
{
    let r = String::from_str(prefix).concat("\"").concat(title.as_str()).concat("\"").concat(suffix);
    assert(r@ =~= quoted(prefix@, title@, suffix@));
    r
}

/// The columns that remain when board `board_id` is deleted.
pub open spec fn columns_outside_board(columns: Seq<ColumnView>, board_id: Seq<char>) -> Seq<ColumnView> {
    columns.filter(|c: ColumnView| c.board_id != board_id)
}

/// Column `column_id` belongs to board `board_id`.
pub open spec fn column_in_board(columns: Seq<ColumnView>, column_id: Seq<char>, board_id: Seq<char>) -> bool {
    exists|i: int| 0 <= i < columns.len() && #[trigger] columns[i].id == column_id && columns[i].board_id == board_id
}

/// The cards that remain when board `board_id` is deleted: those outside
/// the board's columns.
pub open spec fn cards_outside_board(cards: Seq<CardView>, columns: Seq<ColumnView>, board_id: Seq<char>) -> Seq<CardView> {
    cards.filter(|c: CardView| !column_in_board(columns, c.column_id, board_id))
}

/// Some id of `ids` is `x`.
pub open spec fn in_ids(ids: Seq<String>, x: Seq<char>) -> bool {
    exists|j: int| 0 <= j < ids.len() && #[trigger] ids[j]@ == x
}

/// Among the first `n` columns, column `x` belongs to board `board_id`.
pub open spec fn board_column_before(columns: Seq<ColumnView>, n: int, x: Seq<char>, board_id: Seq<char>) -> bool {
    exists|k: int| 0 <= k < n && #[trigger] columns[k].id == x && columns[k].board_id == board_id
}

/// The cards that remain when column `column_id` is deleted.
pub open spec fn cards_outside_column(cards: Seq<CardView>, column_id: Seq<char>) -> Seq<CardView> {
    cards.filter(|c: CardView| c.column_id != column_id)
}

/// A change that could not draw the fresh id it needs (for a new record or
/// for its audit entry) answers an internal error and changes nothing.
pub open spec fn id_unavailable<T>(s: AppStateView, t: AppStateView, r: Result<T, AppErrorView>) -> bool {
    &&& r is Err
    &&& r->Err_0 is Internal
    &&& t == s
}

/// What `create_board_as` does: the new board is stored, announced and
/// audited (unless no fresh id can be drawn).
pub open spec fn create_board_post(s: AppStateView, t: AppStateView, title: Seq<char>, actor: Option<Seq<char>>, r: Result<BoardView, AppErrorView>) -> bool {
    id_unavailable(s, t, r) || {
        &&& r is Ok
        &&& ({
            let b = r->Ok_0;
            &&& b.title == title
            &&& b.owner_nickname == normalized_actor(actor)
            &&& b.updated_at == b.created_at
            &&& b.id.len() == 36
            &&& t.boards == upsert(s.boards, b)
            &&& t.columns == s.columns
            &&& t.cards == s.cards
            &&& t.pending_events == s.pending_events.push(WsEventView::BoardCreated { board: b })
            &&& audit_appended(s.audit_logs, t.audit_logs, b.id, normalized_actor(actor), "board_created"@, "board"@, b.id, quoted("board "@, title, " created"@))
        })
    }
}

/// What `delete_board_as` does: an unknown board is an error and changes
/// nothing; otherwise the board goes, with its columns and their cards.
pub open spec fn delete_board_post(s: AppStateView, t: AppStateView, board_id: Seq<char>, actor: Option<Seq<char>>, r: Result<(), AppErrorView>) -> bool {
    if !s.has_board(board_id) {
        r == Err::<(), AppErrorView>(AppErrorView::BoardNotFound(board_id)) && t == s
    } else if id_unavailable(s, t, r) {
        true
    } else {
        &&& r == Ok::<(), AppErrorView>(())
        &&& t.boards == without_key(s.boards, board_id)
        &&& t.columns == columns_outside_board(s.columns, board_id)
        &&& t.cards == cards_outside_board(s.cards, s.columns, board_id)
        &&& t.pending_events == s.pending_events.push(WsEventView::BoardDeleted { board_id })
        &&& audit_appended(s.audit_logs, t.audit_logs, board_id, normalized_actor(actor), "board_deleted"@, "board"@, board_id, quoted("board "@, s.board(board_id).title, " deleted"@))
    }
}

/// The greatest position among the columns of a board, if it has any.
pub open spec fn max_column_position(columns: Seq<ColumnView>, board_id: Seq<char>) -> Option<int>
    decreases columns.len(),
{
    if columns.len() == 0 {
        None
    } else {
        let rest = max_column_position(columns.drop_last(), board_id);
        if columns.last().board_id == board_id {
            match rest {
                Some(m) => Some(if columns.last().position > m { columns.last().position as int } else { m }),
                None => Some(columns.last().position as int),
            }
        } else {
            rest
        }
    }
}

/// The position given to a new column of a board: one past the greatest
/// position among the board's columns, or 0 when it has none.
pub open spec fn next_column_position(columns: Seq<ColumnView>, board_id: Seq<char>) -> int {
    match max_column_position(columns, board_id) {
        Some(m) => m + 1,
        None => 0,
    }
}

/// What `create_column_as` does.
pub open spec fn create_column_post(s: AppStateView, t: AppStateView, board_id: Seq<char>, title: Seq<char>, actor: Option<Seq<char>>, r: Result<ColumnView, AppErrorView>) -> bool {
    if !s.has_board(board_id) {
        r == Err::<ColumnView, AppErrorView>(AppErrorView::BoardNotFound(board_id)) && t == s
    } else if id_unavailable(s, t, r) {
        true
    } else {
        &&& r is Ok
        &&& ({
            let c = r->Ok_0;
            &&& c.board_id == board_id
            &&& c.title == title
            &&& c.position == next_column_position(s.columns, board_id)
            &&& c.id.len() == 36
            &&& t.boards == s.boards
            &&& t.columns == upsert(s.columns, c)
            &&& t.cards == s.cards
            &&& t.pending_events == s.pending_events.push(WsEventView::ColumnCreated { column: c })
            &&& audit_appended(s.audit_logs, t.audit_logs, board_id, normalized_actor(actor), "column_created"@, "column"@, c.id, quoted("column "@, title, " created"@))
        })
    }
}

/// What `delete_column_as` does: the column goes, with its cards.
pub open spec fn delete_column_post(s: AppStateView, t: AppStateView, column_id: Seq<char>, actor: Option<Seq<char>>, r: Result<(), AppErrorView>) -> bool {
    if !s.has_column(column_id) {
        r == Err::<(), AppErrorView>(AppErrorView::ColumnNotFound(column_id)) && t == s
    } else if id_unavailable(s, t, r) {
        true
    } else {
        &&& r == Ok::<(), AppErrorView>(())
        &&& t.boards == s.boards
        &&& t.columns == without_key(s.columns, column_id)
        &&& t.cards == cards_outside_column(s.cards, column_id)
        &&& t.pending_events == s.pending_events.push(WsEventView::ColumnDeleted { column_id })
        &&& audit_appended(s.audit_logs, t.audit_logs, s.column(column_id).board_id, normalized_actor(actor), "column_deleted"@, "column"@, column_id, quoted("column "@, s.column(column_id).title, " deleted"@))
    }
}

pub open spec fn unit_result_view(r: Result<(), AppError>) -> Result<(), AppErrorView> {
    match r {
        Ok(()) => Ok(()),
        Err(e) => Err(e@),
    }
}

pub open spec fn result_view<T: View>(r: Result<T, AppError>) -> Result<T::V, AppErrorView> {
    match r {
        Ok(x) => Ok(x@),
        Err(e) => Err(e@),
    }
}

impl AppState {
    fn upsert_board(&mut self, b: Board)
        requires
            old(self)@.wf(),
        ensures
            final(self)@ == (AppStateView { boards: upsert(old(self)@.boards, b@), ..old(self)@ }),
            final(self)@.wf(),
    {
        proof { lemma_upsert(old(self)@.boards, b@); }
        match self.find_board(&b.id) {
            Some(i) => {
                self.boards.set(i, b);
            },
            None => {
                self.boards.push(b);
            },
        }
        proof {
            assert(self@.boards =~= upsert(old(self)@.boards, b@));
            assert(self@ =~= (AppStateView { boards: upsert(old(self)@.boards, b@), ..old(self)@ }));
        }
    }

    fn upsert_column(&mut self, c: Column)
        requires
            old(self)@.wf(),
        ensures
            final(self)@ == (AppStateView { columns: upsert(old(self)@.columns, c@), ..old(self)@ }),
            final(self)@.wf(),
    {
        proof { lemma_upsert(old(self)@.columns, c@); }
        match self.find_column(&c.id) {
            Some(i) => {
                self.columns.set(i, c);
            },
            None => {
                self.columns.push(c);
            },
        }
        proof {
            assert(self@.columns =~= upsert(old(self)@.columns, c@));
            assert(self@ =~= (AppStateView { columns: upsert(old(self)@.columns, c@), ..old(self)@ }));
        }
    }

    fn upsert_card(&mut self, c: Card)
        requires
            old(self)@.wf(),
        ensures
            final(self)@ == (AppStateView { cards: upsert(old(self)@.cards, c@), ..old(self)@ }),
            final(self)@.wf(),
    {
        proof { lemma_upsert(old(self)@.cards, c@); }
        match self.find_card(&c.id) {
            Some(i) => {
                self.cards.set(i, c);
            },
            None => {
                self.cards.push(c);
            },
        }
        proof {
            assert(self@.cards =~= upsert(old(self)@.cards, c@));
            assert(self@ =~= (AppStateView { cards: upsert(old(self)@.cards, c@), ..old(self)@ }));
        }
    }

    /// Removes a board, its columns and their cards.
    fn remove_board_cascade(&mut self, id: &String)
        requires
            old(self)@.wf(),
        ensures
            final(self)@.wf(),
            final(self)@ == (AppStateView {
                boards: without_key(old(self)@.boards, id@),
                columns: columns_outside_board(old(self)@.columns, id@),
                cards: cards_outside_board(old(self)@.cards, old(self)@.columns, id@),
                ..old(self)@
            }),
    {
        let ghost s = self@;
        // the ids of the board's columns
        let mut deleted: Vec<String> = Vec::new();
        let mut i: usize = 0;
        while i < self.columns.len()
            invariant
                self@ == s,
                i <= self.columns@.len(),
                forall|x: Seq<char>| #[trigger] in_ids(deleted@, x) <==> board_column_before(s.columns, i as int, x, id@),
            decreases self.columns.len() - i,
        {
            if self.columns[i].board_id == *id {
                let ghost before = deleted@;
                deleted.push(self.columns[i].id.clone());
                proof {
                    assert forall|x: Seq<char>| #[trigger] in_ids(deleted@, x) <==> board_column_before(s.columns, i + 1, x, id@) by {
                        if in_ids(deleted@, x) {
                            let j = choose|j: int| 0 <= j < deleted@.len() && #[trigger] deleted@[j]@ == x;
                            if j < before.len() {
                                assert(before[j]@ == x);
                                assert(in_ids(before, x));
                            } else {
                                assert(s.columns[i as int].id == x);
                            }
                        }
                        if board_column_before(s.columns, i + 1, x, id@) {
                            let k = choose|k: int| 0 <= k < i + 1 && #[trigger] s.columns[k].id == x && s.columns[k].board_id == id@;
                            if k < i {
                                assert(board_column_before(s.columns, i as int, x, id@));
                                assert(in_ids(before, x));
                                let j = choose|j: int| 0 <= j < before.len() && #[trigger] before[j]@ == x;
                                assert(deleted@[j]@ == x);
                            } else {
                                assert(deleted@[before.len() as int]@ == x);
                            }
                        }
                    }
                }
            } else {
                proof {
                    assert forall|x: Seq<char>| #[trigger] in_ids(deleted@, x) <==> board_column_before(s.columns, i + 1, x, id@) by {
                        if board_column_before(s.columns, i + 1, x, id@) {
                            let k = choose|k: int| 0 <= k < i + 1 && #[trigger] s.columns[k].id == x && s.columns[k].board_id == id@;
                            assert(k < i);
                            assert(board_column_before(s.columns, i as int, x, id@));
                        }
                        if board_column_before(s.columns, i as int, x, id@) {
                            let k = choose|k: int| 0 <= k < i && #[trigger] s.columns[k].id == x && s.columns[k].board_id == id@;
                            assert(board_column_before(s.columns, i + 1, x, id@));
                        }
                    }
                }
            }
            i = i + 1;
        }
        // keep the other boards
        let mut keep_b: Vec<bool> = Vec::new();
        let mut i: usize = 0;
        while i < self.boards.len()
            invariant
                self@ == s,
                i <= self.boards@.len(),
                keep_b@.len() == i,
                forall|j: int| 0 <= j < i ==> keep_b@[j] == ((#[trigger] s.boards[j]).id != id@),
            decreases self.boards.len() - i,
        {
            keep_b.push(!(self.boards[i].id == *id));
            i = i + 1;
        }
        let ghost pb = |b: BoardView| b.key() != id@;
        proof {
            assert forall|j: int| 0 <= j < self.boards@.len() implies keep_b@[j] == pb(#[trigger] self.boards@[j]@) by {
                assert(s.boards[j] == self.boards@[j]@);
            }
        }
        let new_boards = filter_by_mask(&self.boards, &keep_b, Ghost(pb));
        // keep the other boards' columns
        let mut keep_c: Vec<bool> = Vec::new();
        let mut i: usize = 0;
        while i < self.columns.len()
            invariant
                self@ == s,
                i <= self.columns@.len(),
                keep_c@.len() == i,
                forall|j: int| 0 <= j < i ==> keep_c@[j] == ((#[trigger] s.columns[j]).board_id != id@),
            decreases self.columns.len() - i,
        {
            keep_c.push(!(self.columns[i].board_id == *id));
            i = i + 1;
        }
        let ghost pc = |c: ColumnView| c.board_id != id@;
        proof {
            assert forall|j: int| 0 <= j < self.columns@.len() implies keep_c@[j] == pc(#[trigger] self.columns@[j]@) by {
                assert(s.columns[j] == self.columns@[j]@);
            }
        }
        let new_columns = filter_by_mask(&self.columns, &keep_c, Ghost(pc));
        // keep the cards outside the deleted columns
        let mut keep_k: Vec<bool> = Vec::new();
        let mut i: usize = 0;
        while i < self.cards.len()
            invariant
                self@ == s,
                i <= self.cards@.len(),
                keep_k@.len() == i,
                forall|x: Seq<char>| #[trigger] in_ids(deleted@, x) <==> column_in_board(s.columns, x, id@),
                forall|j: int| 0 <= j < i ==> keep_k@[j] == !column_in_board(s.columns, (#[trigger] s.cards[j]).column_id, id@),
            decreases self.cards.len() - i,
        {
            let mut found = false;
            let mut m: usize = 0;
            while m < deleted.len()
                invariant
                    m <= deleted@.len(),
                    found == exists|j: int| 0 <= j < m && #[trigger] deleted@[j]@ == self.cards@[i as int].column_id@,
                    i < self.cards@.len(),
                decreases deleted.len() - m,
            {
                if deleted[m] == self.cards[i].column_id {
                    found = true;
                }
                m = m + 1;
            }
            proof {
                assert(s.cards[i as int].column_id == self.cards@[i as int].column_id@);
                assert(found == in_ids(deleted@, s.cards[i as int].column_id));
            }
            keep_k.push(!found);
            i = i + 1;
        }
        let ghost pk = |c: CardView| !column_in_board(s.columns, c.column_id, id@);
        proof {
            assert forall|j: int| 0 <= j < self.cards@.len() implies keep_k@[j] == pk(#[trigger] self.cards@[j]@) by {
                assert(s.cards[j] == self.cards@[j]@);
            }
        }
        let new_cards = filter_by_mask(&self.cards, &keep_k, Ghost(pk));
        proof {
            lemma_filter_lookup(s.boards, pb);
            lemma_filter_lookup(s.columns, pc);
            lemma_filter_lookup(s.cards, pk);
            assert(views_of(new_boards@) =~= without_key(s.boards, id@));
        }
        self.boards = new_boards;
        self.columns = new_columns;
        self.cards = new_cards;
        proof {
            assert(self@ =~= (AppStateView {
                boards: without_key(s.boards, id@),
                columns: columns_outside_board(s.columns, id@),
                cards: cards_outside_board(s.cards, s.columns, id@),
                ..s
            }));
        }
    }

    /// Removes a column and its cards.
    fn remove_column_cascade(&mut self, id: &String)
        requires
            old(self)@.wf(),
        ensures
            final(self)@.wf(),
            final(self)@ == (AppStateView {
                columns: without_key(old(self)@.columns, id@),
                cards: cards_outside_column(old(self)@.cards, id@),
                ..old(self)@
            }),
    {
        let ghost s = self@;
        let mut keep_c: Vec<bool> = Vec::new();
        let mut i: usize = 0;
        while i < self.columns.len()
            invariant
                self@ == s,
                i <= self.columns@.len(),
                keep_c@.len() == i,
                forall|j: int| 0 <= j < i ==> keep_c@[j] == ((#[trigger] s.columns[j]).id != id@),
            decreases self.columns.len() - i,
        {
            keep_c.push(!(self.columns[i].id == *id));
            i = i + 1;
        }
        let ghost pc = |c: ColumnView| c.key() != id@;
        proof {
            assert forall|j: int| 0 <= j < self.columns@.len() implies keep_c@[j] == pc(#[trigger] self.columns@[j]@) by {
                assert(s.columns[j] == self.columns@[j]@);
            }
        }
        let new_columns = filter_by_mask(&self.columns, &keep_c, Ghost(pc));
        let mut keep_k: Vec<bool> = Vec::new();
        let mut i: usize = 0;
        while i < self.cards.len()
            invariant
                self@ == s,
                i <= self.cards@.len(),
                keep_k@.len() == i,
                forall|j: int| 0 <= j < i ==> keep_k@[j] == ((#[trigger] s.cards[j]).column_id != id@),
            decreases self.cards.len() - i,
        {
            keep_k.push(!(self.cards[i].column_id == *id));
            i = i + 1;
        }
        let ghost pk = |c: CardView| c.column_id != id@;
        proof {
            assert forall|j: int| 0 <= j < self.cards@.len() implies keep_k@[j] == pk(#[trigger] self.cards@[j]@) by {
                assert(s.cards[j] == self.cards@[j]@);
            }
        }
        let new_cards = filter_by_mask(&self.cards, &keep_k, Ghost(pk));
        proof {
            lemma_filter_lookup(s.columns, pc);
            lemma_filter_lookup(s.cards, pk);
        }
        self.columns = new_columns;
        self.cards = new_cards;
        proof {
            assert(self@ =~= (AppStateView {
                columns: without_key(s.columns, id@),
                cards: cards_outside_column(s.cards, id@),
                ..s
            }));
        }
    }

    /// Removes a card.
    fn remove_card(&mut self, id: &String)
        requires
            old(self)@.wf(),
        ensures
            final(self)@.wf(),
            final(self)@ == (AppStateView { cards: without_key(old(self)@.cards, id@), ..old(self)@ }),
    {
        let ghost s = self@;
        let mut keep: Vec<bool> = Vec::new();
        let mut i: usize = 0;
        while i < self.cards.len()
            invariant
                self@ == s,
                i <= self.cards@.len(),
                keep@.len() == i,
                forall|j: int| 0 <= j < i ==> keep@[j] == ((#[trigger] s.cards[j]).id != id@),
            decreases self.cards.len() - i,
        {
            keep.push(!(self.cards[i].id == *id));
            i = i + 1;
        }
        let ghost pk = |c: CardView| c.key() != id@;
        proof {
            assert forall|j: int| 0 <= j < self.cards@.len() implies keep@[j] == pk(#[trigger] self.cards@[j]@) by {
                assert(s.cards[j] == self.cards@[j]@);
            }
        }
        let remaining = filter_by_mask(&self.cards, &keep, Ghost(pk));
        proof {
            lemma_filter_lookup(s.cards, pk);
            lemma_filter_contains(s.cards, pk);
        }
        self.cards = remaining;
        proof {
            assert(self@ =~= (AppStateView { cards: without_key(s.cards, id@), ..s }));
        }
    }

    // ========== boards ==========

    pub fn create_board(&mut self, title: String) -> (r: Result<Board, AppError>)
        requires
            old(self)@.wf(),
        ensures
            final(self)@.wf(),
            create_board_post(old(self)@, final(self)@, title@, None, result_view(r)),
    {
        self.create_board_as(title, None)
    }

    /// Creates a board owned by the (normalized) actor.
    pub fn create_board_as(&mut self, title: String, actor_nickname: Option<String>) -> (r: Result<Board, AppError>)
        requires
            old(self)@.wf(),
        ensures
            final(self)@.wf(),
            create_board_post(old(self)@, final(self)@, title@, opt_view(actor_nickname), result_view(r)),
    {
        let ghost s = self@;
        let ghost title_v = title@;
        let actor = normalize_actor(actor_nickname);
        let board = match Board::new(title, actor.clone()) {
            Ok(b) => b,
            Err(e) => {
                return Err(e);
            },
        };
        let audit_id = match fresh_id() {
            Ok(i) => i,
            Err(e) => {
                return Err(e);
            },
        };
        self.upsert_board(board.clone());
        self.emit(WsEvent::BoardCreated { board: board.clone() });
        let detail = quoted_text("board ", &board.title, " created");
        let log = AuditLog::with_id(
            audit_id,
            board.id.clone(),
            actor,
            String::from_str("board_created"),
            String::from_str("board"),
            board.id.clone(),
            detail,
        );
        self.record_audit(log);
        proof {
            assert(self@.audit_logs.drop_last() =~= s.audit_logs);
        }
        Ok(board)
    }

    /// All boards, oldest first.
    pub fn list_boards(&self) -> (r: Vec<Board>)
        ensures
            views_of(r@).to_multiset() == self@.boards.to_multiset(),
            sorted_by_key::<Board>(views_of(r@)),
            forall|i: int, j: int| 0 <= i < j < r@.len() ==> (#[trigger] r@[i]).created_at <= (#[trigger] r@[j]).created_at,
    {
        let r = sorted_copy(&self.boards);
        proof {
            let v = views_of(r@);
            assert forall|i: int, j: int| 0 <= i < j < r@.len() implies (#[trigger] r@[i]).created_at <= (#[trigger] r@[j]).created_at by {
                assert(v[i] == r@[i]@ && v[j] == r@[j]@);
                assert(<Board as OrderedRecord>::order_key(v[i]) <= <Board as OrderedRecord>::order_key(v[j]));
            }
        }
        r
    }

    pub fn delete_board(&mut self, board_id: &str) -> (r: Result<(), AppError>)
        requires
            old(self)@.wf(),
        ensures
            final(self)@.wf(),
            delete_board_post(old(self)@, final(self)@, board_id@, None, unit_result_view(r)),
    {
        self.delete_board_as(board_id, None)
    }

    /// Deletes a board together with its columns and their cards.
    pub fn delete_board_as(&mut self, board_id: &str, actor_nickname: Option<String>) -> (r: Result<(), AppError>)
        requires
            old(self)@.wf(),
        ensures
            final(self)@.wf(),
            delete_board_post(old(self)@, final(self)@, board_id@, opt_view(actor_nickname), unit_result_view(r)),
    {
        let ghost s = self@;
        let actor = normalize_actor(actor_nickname);
        let id = String::from_str(board_id);
        let bi = match self.find_board(&id) {
            Some(i) => i,
            None => {
                return Err(AppError::BoardNotFound(id));
            },
        };
        let title = self.boards[bi].title.clone();
        let audit_id = match fresh_id() {
            Ok(i) => i,
            Err(e) => {
                return Err(e);
            },
        };
        self.remove_board_cascade(&id);
        self.emit(WsEvent::BoardDeleted { board_id: id.clone() });
        let detail = quoted_text("board ", &title, " deleted");
        let log = AuditLog::with_id(
            audit_id,
            id.clone(),
            actor,
            String::from_str("board_deleted"),
            String::from_str("board"),
            id,
            detail,
        );
        self.record_audit(log);
        proof {
            assert(self@.audit_logs.drop_last() =~= s.audit_logs);
        }
        Ok(())
    }
}


/// The greatest position among the cards of a column, if it has any.
pub open spec fn max_card_position(cards: Seq<CardView>, column_id: Seq<char>) -> Option<int>
    decreases cards.len(),
{
    if cards.len() == 0 {
        None
    } else {
        let rest = max_card_position(cards.drop_last(), column_id);
        if cards.last().column_id == column_id {
            match rest {
                Some(m) => Some(if cards.last().position > m { cards.last().position as int } else { m }),
                None => Some(cards.last().position as int),
            }
        } else {
            rest
        }
    }
}

/// The position given to a new card of a column: one past the greatest
/// position among the column's cards, or 0 when it has none.
pub open spec fn next_card_position(cards: Seq<CardView>, column_id: Seq<char>) -> int {
    match max_card_position(cards, column_id) {
        Some(m) => m + 1,
        None => 0,
    }
}

/// What `create_card_as` does.
pub open spec fn create_card_post(s: AppStateView, t: AppStateView, column_id: Seq<char>, title: Seq<char>, description: Seq<char>, actor: Option<Seq<char>>, r: Result<CardView, AppErrorView>) -> bool {
    if !s.has_column(column_id) {
        r == Err::<CardView, AppErrorView>(AppErrorView::ColumnNotFound(column_id)) && t == s
    } else if id_unavailable(s, t, r) {
        true
    } else {
        &&& r is Ok
        &&& ({
            let c = r->Ok_0;
            &&& c == new_card_view(c.id, column_id, title, description, next_card_position(s.cards, column_id) as i32, c.created_at)
            &&& c.id.len() == 36
            &&& t.boards == s.boards
            &&& t.columns == s.columns
            &&& t.cards == upsert(s.cards, c)
            &&& t.pending_events == s.pending_events.push(WsEventView::CardCreated { card: c })
            &&& audit_appended(s.audit_logs, t.audit_logs, s.column(column_id).board_id, normalized_actor(actor), "card_created"@, "card"@, c.id, quoted("card "@, title, " created"@))
        })
    }
}

impl AppState {
    // ========== columns ==========

    /// The position for a new column of a board.
    fn next_column_position_of(&self, board_id: &String) -> (r: i64)
        ensures
            r == next_column_position(self@.columns, board_id@),
            i32::MIN + 1 <= r <= i32::MAX + 1,
    {
        let mut found = false;
        let mut m: i32 = 0;
        let mut i: usize = 0;
        while i < self.columns.len()
            invariant
                i <= self.columns@.len(),
                self@.columns == views_of(self.columns@),
                max_column_position(self@.columns.take(i as int), board_id@) == if found { Some(m as int) } else { None },
            decreases self.columns.len() - i,
        {
            proof {
                assert(self@.columns.take(i + 1).drop_last() =~= self@.columns.take(i as int));
            }
            if self.columns[i].board_id == *board_id {
                if !found || self.columns[i].position > m {
                    m = self.columns[i].position;
                }
                found = true;
            }
            i = i + 1;
        }
        assert(self@.columns.take(self.columns@.len() as int) =~= self@.columns);
        if found {
            m as i64 + 1
        } else {
            0
        }
    }

    pub fn create_column(&mut self, board_id: &str, title: String) -> (r: Result<Column, AppError>)
        requires
            old(self)@.wf(),
            old(self)@.has_board(board_id@) ==> next_column_position(old(self)@.columns, board_id@) <= i32::MAX,
        ensures
            final(self)@.wf(),
            create_column_post(old(self)@, final(self)@, board_id@, title@, None, result_view(r)),
    {
        self.create_column_as(board_id, title, None)
    }

    /// Adds a column at the end of a board.
    pub fn create_column_as(&mut self, board_id: &str, title: String, actor_nickname: Option<String>) -> (r: Result<Column, AppError>)
        requires
            old(self)@.wf(),
            old(self)@.has_board(board_id@) ==> next_column_position(old(self)@.columns, board_id@) <= i32::MAX,
        ensures
            final(self)@.wf(),
            create_column_post(old(self)@, final(self)@, board_id@, title@, opt_view(actor_nickname), result_view(r)),
    {
        let ghost s = self@;
        let ghost title_v = title@;
        let actor = normalize_actor(actor_nickname);
        let id = String::from_str(board_id);
        if self.find_board(&id).is_none() {
            return Err(AppError::BoardNotFound(id));
        }
        let pos = self.next_column_position_of(&id);
        let column = match Column::new(id.clone(), title, pos as i32) {
            Ok(c) => c,
            Err(e) => {
                return Err(e);
            },
        };
        let audit_id = match fresh_id() {
            Ok(i) => i,
            Err(e) => {
                return Err(e);
            },
        };
        self.upsert_column(column.clone());
        self.emit(WsEvent::ColumnCreated { column: column.clone() });
        let detail = quoted_text("column ", &column.title, " created");
        let log = AuditLog::with_id(
            audit_id,
            id,
            actor,
            String::from_str("column_created"),
            String::from_str("column"),
            column.id.clone(),
            detail,
        );
        self.record_audit(log);
        proof {
            assert(self@.audit_logs.drop_last() =~= s.audit_logs);
        }
        Ok(column)
    }

    pub fn delete_column(&mut self, column_id: &str) -> (r: Result<(), AppError>)
        requires
            old(self)@.wf(),
        ensures
            final(self)@.wf(),
            delete_column_post(old(self)@, final(self)@, column_id@, None, unit_result_view(r)),
    {
        self.delete_column_as(column_id, None)
    }

    /// Deletes a column together with its cards.
    pub fn delete_column_as(&mut self, column_id: &str, actor_nickname: Option<String>) -> (r: Result<(), AppError>)
        requires
            old(self)@.wf(),
        ensures
            final(self)@.wf(),
            delete_column_post(old(self)@, final(self)@, column_id@, opt_view(actor_nickname), unit_result_view(r)),
    {
        let ghost s = self@;
        let actor = normalize_actor(actor_nickname);
        let id = String::from_str(column_id);
        let ci = match self.find_column(&id) {
            Some(i) => i,
            None => {
                return Err(AppError::ColumnNotFound(id));
            },
        };
        let board_id = self.columns[ci].board_id.clone();
        let title = self.columns[ci].title.clone();
        let audit_id = match fresh_id() {
            Ok(i) => i,
            Err(e) => {
                return Err(e);
            },
        };
        self.remove_column_cascade(&id);
        self.emit(WsEvent::ColumnDeleted { column_id: id.clone() });
        let detail = quoted_text("column ", &title, " deleted");
        let log = AuditLog::with_id(
            audit_id,
            board_id,
            actor,
            String::from_str("column_deleted"),
            String::from_str("column"),
            id,
            detail,
        );
        self.record_audit(log);
        proof {
            assert(self@.audit_logs.drop_last() =~= s.audit_logs);
        }
        Ok(())
    }

    // ========== cards ==========

    /// The position for a new card of a column.
    fn next_card_position_of(&self, column_id: &String) -> (r: i64)
        ensures
            r == next_card_position(self@.cards, column_id@),
            i32::MIN + 1 <= r <= i32::MAX + 1,
    {
        let mut found = false;
        let mut m: i32 = 0;
        let mut i: usize = 0;
        while i < self.cards.len()
            invariant
                i <= self.cards@.len(),
                self@.cards == views_of(self.cards@),
                max_card_position(self@.cards.take(i as int), column_id@) == if found { Some(m as int) } else { None },
            decreases self.cards.len() - i,
        {
            proof {
                assert(self@.cards.take(i + 1).drop_last() =~= self@.cards.take(i as int));
            }
            if self.cards[i].column_id == *column_id {
                if !found || self.cards[i].position > m {
                    m = self.cards[i].position;
                }
                found = true;
            }
            i = i + 1;
        }
        assert(self@.cards.take(self.cards@.len() as int) =~= self@.cards);
        if found {
            m as i64 + 1
        } else {
            0
        }
    }

    pub fn create_card(&mut self, column_id: &str, title: String, description: String) -> (r: Result<Card, AppError>)
        requires
            old(self)@.wf(),
            old(self)@.has_column(column_id@) ==> next_card_position(old(self)@.cards, column_id@) <= i32::MAX,
        ensures
            final(self)@.wf(),
            create_card_post(old(self)@, final(self)@, column_id@, title@, description@, None, result_view(r)),
    {
        self.create_card_as(column_id, title, description, None)
    }

    /// Adds a card at the end of a column: one past the greatest position
    /// there, all under one exclusive access so that positions never repeat.
    pub fn create_card_as(&mut self, column_id: &str, title: String, description: String, actor_nickname: Option<String>) -> (r: Result<Card, AppError>)
        requires
            old(self)@.wf(),
            old(self)@.has_column(column_id@) ==> next_card_position(old(self)@.cards, column_id@) <= i32::MAX,
        ensures
            final(self)@.wf(),
            create_card_post(old(self)@, final(self)@, column_id@, title@, description@, opt_view(actor_nickname), result_view(r)),
    {
        let ghost s = self@;
        let ghost title_v = title@;
        let actor = normalize_actor(actor_nickname);
        let id = String::from_str(column_id);
        let ci = match self.find_column(&id) {
            Some(i) => i,
            None => {
                return Err(AppError::ColumnNotFound(id));
            },
        };
        let board_id = self.columns[ci].board_id.clone();
        let pos = self.next_card_position_of(&id);
        let card = match Card::new(id, title, description, pos as i32) {
            Ok(c) => c,
            Err(e) => {
                return Err(e);
            },
        };
        let audit_id = match fresh_id() {
            Ok(i) => i,
            Err(e) => {
                return Err(e);
            },
        };
        self.upsert_card(card.clone());
        self.emit(WsEvent::CardCreated { card: card.clone() });
        let detail = quoted_text("card ", &card.title, " created");
        let log = AuditLog::with_id(
            audit_id,
            board_id,
            actor,
            String::from_str("card_created"),
            String::from_str("card"),
            card.id.clone(),
            detail,
        );
        self.record_audit(log);
        proof {
            assert(self@.audit_logs.drop_last() =~= s.audit_logs);
        }
        Ok(card)
    }

    /// A copy of a card.
    pub fn get_card(&self, card_id: &str) -> (r: Result<Card, AppError>)
        requires
            self@.wf(),
        ensures
            self@.has_card(card_id@) ==> result_view(r) == Ok::<CardView, AppErrorView>(self@.card(card_id@)),
            !self@.has_card(card_id@) ==> result_view(r) == Err::<CardView, AppErrorView>(AppErrorView::CardNotFound(card_id@)),
    {
        let id = String::from_str(card_id);
        match self.find_card(&id) {
            Some(i) => Ok(self.cards[i].clone()),
            None => Err(AppError::CardNotFound(id)),
        }
    }

    /// A card's modification history, oldest first.
    pub fn get_card_logs(&self, card_id: &str) -> (r: Result<Vec<ModificationLog>, AppError>)
        requires
            self@.wf(),
        ensures
            self@.has_card(card_id@) ==> (r is Ok && logs_view(r->Ok_0@) == self@.card(card_id@).modification_logs),
            !self@.has_card(card_id@) ==> (r is Err && r->Err_0@ == AppErrorView::CardNotFound(card_id@)),
    {
        let id = String::from_str(card_id);
        match self.find_card(&id) {
            Some(i) => Ok(clone_logs(&self.cards[i].modification_logs)),
            None => Err(AppError::CardNotFound(id)),
        }
    }

    /// A board's audit trail, oldest first.
    pub fn get_board_audit_logs(&self, board_id: &str) -> (r: Result<Vec<AuditLog>, AppError>)
        requires
            self@.wf(),
        ensures
            self@.has_board(board_id@) ==> (r is Ok && audits_view(r->Ok_0@) == self@.audit_logs.filter(|a: AuditView| a.board_id == board_id@)),
            !self@.has_board(board_id@) ==> (r is Err && r->Err_0@ == AppErrorView::BoardNotFound(board_id@)),
    {
        let id = String::from_str(board_id);
        if self.find_board(&id).is_none() {
            return Err(AppError::BoardNotFound(id));
        }
        let ghost p = |a: AuditView| a.board_id == id@;
        let mut r: Vec<AuditLog> = Vec::new();
        let mut i: usize = 0;
        while i < self.audit_logs.len()
            invariant
                i <= self.audit_logs@.len(),
                self@.audit_logs == views_of(self.audit_logs@),
                audits_view(r@) == self@.audit_logs.take(i as int).filter(p),
                p == (|a: AuditView| a.board_id == id@),
            decreases self.audit_logs.len() - i,
        {
            let ghost before = r@;
            proof {
                assert(self@.audit_logs.take(i + 1) =~= self@.audit_logs.take(i as int).push(self@.audit_logs[i as int]));
                self@.audit_logs.take(i as int).lemma_filter_push(self@.audit_logs[i as int], p);
                assert(self@.audit_logs[i as int] == self.audit_logs@[i as int]@);
            }
            if self.audit_logs[i].board_id == id {
                r.push(self.audit_logs[i].clone());
                assert(p(self@.audit_logs[i as int]));
                assert(audits_view(r@) =~= audits_view(before).push(self@.audit_logs[i as int]));
            } else {
                assert(!p(self@.audit_logs[i as int]));
            }
            i = i + 1;
        }
        assert(self@.audit_logs.take(self.audit_logs@.len() as int) =~= self@.audit_logs);
        Ok(r)
    }
}


/// `c` with its position moved by `delta` when it is a card of `column_id`,
/// other than `except`, whose position lies in `lo..=hi`.
pub open spec fn shifted(c: CardView, column_id: Seq<char>, except: Seq<char>, lo: int, hi: int, delta: int) -> CardView {
    if c.column_id == column_id && c.id != except && lo <= c.position <= hi {
        CardView { position: (c.position + delta) as i32, ..c }
    } else {
        c
    }
}

/// Every card shifted as `shifted` says.
pub open spec fn shift_cards(cards: Seq<CardView>, column_id: Seq<char>, except: Seq<char>, lo: int, hi: int, delta: int) -> Seq<CardView> {
    cards.map_values(|c: CardView| shifted(c, column_id, except, lo, hi, delta))
}

/// No position that `shift_cards` moves leaves the range of `i32`.
pub open spec fn shift_fits(cards: Seq<CardView>, column_id: Seq<char>, except: Seq<char>, lo: int, hi: int, delta: int) -> bool {
    forall|i: int| 0 <= i < cards.len() && (#[trigger] cards[i]).column_id == column_id && cards[i].id != except && lo <= cards[i].position <= hi
        ==> i32::MIN <= cards[i].position + delta <= i32::MAX
}

/// What `delete_card_as` does: the card goes, and the cards after it in its
/// column move up by one, closing the gap.
pub open spec fn delete_card_post(s: AppStateView, t: AppStateView, card_id: Seq<char>, actor: Option<Seq<char>>, r: Result<(), AppErrorView>) -> bool {
    if !s.has_card(card_id) {
        r == Err::<(), AppErrorView>(AppErrorView::CardNotFound(card_id)) && t == s
    } else if id_unavailable(s, t, r) {
        true
    } else {
        let c = s.card(card_id);
        &&& r == Ok::<(), AppErrorView>(())
        &&& t.boards == s.boards
        &&& t.columns == s.columns
        &&& t.cards == shift_cards(without_key(s.cards, card_id), c.column_id, card_id, c.position + 1, i32::MAX as int, -1)
        &&& t.pending_events == s.pending_events.push(WsEventView::CardDeleted { card_id })
        &&& audit_appended_if_known(s.audit_logs, t.audit_logs, s.board_of_column(c.column_id), normalized_actor(actor), "card_deleted"@, "card"@, card_id, quoted("card "@, c.title, " deleted"@))
    }
}

impl AppState {
    /// Moves by `delta` the position of each card of `column_id`, other than
    /// `except`, whose position lies in `lo..=hi`.
    fn shift_positions(&mut self, column_id: &String, except: &String, lo: i64, hi: i64, delta: i32)
        requires
            old(self)@.wf(),
            delta == 1 || delta == -1,
            shift_fits(old(self)@.cards, column_id@, except@, lo as int, hi as int, delta as int),
        ensures
            final(self)@ == (AppStateView {
                cards: shift_cards(old(self)@.cards, column_id@, except@, lo as int, hi as int, delta as int),
                ..old(self)@
            }),
            final(self)@.wf(),
    {
        let ghost s = self@;
        let ghost f = |c: CardView| shifted(c, column_id@, except@, lo as int, hi as int, delta as int);
        let mut i: usize = 0;
        while i < self.cards.len()
            invariant
                i <= self.cards@.len(),
                self.cards@.len() == s.cards.len(),
                self@.boards == s.boards,
                self@.columns == s.columns,
                self@.audit_logs == s.audit_logs,
                self@.pending_events == s.pending_events,
                shift_fits(s.cards, column_id@, except@, lo as int, hi as int, delta as int),
                delta == 1 || delta == -1,
                forall|j: int| 0 <= j < i ==> #[trigger] self.cards@[j]@ == shifted(s.cards[j], column_id@, except@, lo as int, hi as int, delta as int),
                forall|j: int| i <= j < self.cards@.len() ==> #[trigger] self.cards@[j]@ == s.cards[j],
            decreases self.cards.len() - i,
        {
            assert(self.cards@[i as int]@ == s.cards[i as int]);
            let p = self.cards[i].position as i64;
            if self.cards[i].column_id == *column_id && !(self.cards[i].id == *except) && lo <= p && p <= hi {
                let np = (p + delta as i64) as i32;
                let mut c = self.cards[i].clone();
                c.position = np;
                self.cards.set(i, c);
            }
            i = i + 1;
        }
        proof {
            assert(self@.cards =~= shift_cards(s.cards, column_id@, except@, lo as int, hi as int, delta as int));
            assert(self@ =~= (AppStateView { cards: shift_cards(s.cards, column_id@, except@, lo as int, hi as int, delta as int), ..s }));
            lemma_map_lookup(s.cards, f);
        }
    }

    pub fn delete_card(&mut self, card_id: &str) -> (r: Result<(), AppError>)
        requires
            old(self)@.wf(),
        ensures
            final(self)@.wf(),
            delete_card_post(old(self)@, final(self)@, card_id@, None, unit_result_view(r)),
    {
        self.delete_card_as(card_id, None)
    }

    /// Deletes a card and closes the gap it leaves in its column.
    pub fn delete_card_as(&mut self, card_id: &str, actor_nickname: Option<String>) -> (r: Result<(), AppError>)
        requires
            old(self)@.wf(),
        ensures
            final(self)@.wf(),
            delete_card_post(old(self)@, final(self)@, card_id@, opt_view(actor_nickname), unit_result_view(r)),
    {
        let ghost s = self@;
        let actor = normalize_actor(actor_nickname);
        let id = String::from_str(card_id);
        let ki = match self.find_card(&id) {
            Some(i) => i,
            None => {
                return Err(AppError::CardNotFound(id));
            },
        };
        let card = self.cards[ki].clone();
        let audit_id = match fresh_id() {
            Ok(i) => i,
            Err(e) => {
                return Err(e);
            },
        };
        self.remove_card(&id);
        let board_id = self.board_id_of_column(&card.column_id);
        proof {
            let w = without_key(s.cards, id@);
            assert forall|j: int| 0 <= j < w.len() && (#[trigger] w[j]).column_id == card@.column_id && w[j].id != id@ && card@.position + 1 <= w[j].position <= i32::MAX
                implies i32::MIN <= w[j].position - 1 <= i32::MAX by {
            }
        }
        self.shift_positions(&card.column_id, &id, card.position as i64 + 1, i32::MAX as i64, -1);
        self.emit(WsEvent::CardDeleted { card_id: id.clone() });
        if !board_id.as_str().is_empty() {
            let detail = quoted_text("card ", &card.title, " deleted");
            let log = AuditLog::with_id(
                audit_id,
                board_id,
                actor,
                String::from_str("card_deleted"),
                String::from_str("card"),
                id,
                detail,
            );
            self.record_audit(log);
            proof {
                assert(self@.audit_logs.drop_last() =~= s.audit_logs);
            }
        }
        Ok(())
    }
}


/// The parts joined with `sep` between each two.
pub open spec fn join(parts: Seq<Seq<char>>, sep: Seq<char>) -> Seq<char>
    decreases parts.len(),
{
    if parts.len() == 0 {
        Seq::empty()
    } else if parts.len() == 1 {
        parts[0]
    } else {
        join(parts.drop_last(), sep) + sep + parts.last()
    }
}

/// The changes that an update lists in its log entry, in this order.
pub open spec fn update_changes(req: UpdateCardView) -> Seq<Seq<char>> {
    (match req.title {
        Some(t) => seq![quoted("title → "@, t, Seq::empty())],
        None => Seq::empty(),
    }) + (match req.description {
        Some(d) => seq![quoted("description → "@, d, Seq::empty())],
        None => Seq::empty(),
    }) + (match req.status {
        Some(st) => seq!["status → "@ + status_label(st)],
        None => Seq::empty(),
    })
}

/// The log text of an update.
pub open spec fn update_detail(req: UpdateCardView) -> Seq<char> {
    if update_changes(req).len() == 0 {
        "변경 없음"@
    } else {
        join(update_changes(req), ", "@)
    }
}

/// `c` with the fields that the update gives replaced.
pub open spec fn updated_fields(c: CardView, req: UpdateCardView) -> CardView {
    CardView {
        title: match req.title {
            Some(t) => t,
            None => c.title,
        },
        description: match req.description {
            Some(d) => d,
            None => c.description,
        },
        status: match req.status {
            Some(st) => st,
            None => c.status,
        },
        ..c
    }
}

/// A change made under version `version` cannot overflow the card's version.
pub open spec fn version_room(s: AppStateView, card_id: Seq<char>, version: u64) -> bool {
    s.has_card(card_id) && s.card(card_id).version == version ==> version < u64::MAX
}

/// The outcome shared by the changes that carry the version the client
/// holds: an unknown card and a stale version are errors that change nothing.
pub open spec fn version_checked(s: AppStateView, t: AppStateView, card_id: Seq<char>, version: u64, r: Result<CardView, AppErrorView>, changed: bool) -> bool {
    if !s.has_card(card_id) {
        r == Err::<CardView, AppErrorView>(AppErrorView::CardNotFound(card_id)) && t == s
    } else if s.card(card_id).version != version {
        &&& r == Err::<CardView, AppErrorView>(AppErrorView::VersionConflict { expected: version, actual: s.card(card_id).version })
        &&& t == s
    } else {
        changed
    }
}

/// What `update_card` does: with the current version, the given fields
/// change, the version goes up by one and the change is logged.
pub open spec fn update_card_post(s: AppStateView, t: AppStateView, card_id: Seq<char>, req: UpdateCardView, r: Result<CardView, AppErrorView>) -> bool {
    version_checked(s, t, card_id, req.version, r, id_unavailable(s, t, r) || {
        &&& r is Ok
        &&& ({
            let c = r->Ok_0;
            &&& c == with_log(updated_fields(s.card(card_id), req), ModificationOperation::Updated, update_detail(req), c.updated_at)
            &&& s.same_boards_and_columns(t)
            &&& t.cards == upsert(s.cards, c)
            &&& t.pending_events == s.pending_events.push(WsEventView::CardUpdated { card: c })
            &&& audit_appended_if_known(s.audit_logs, t.audit_logs, s.board_of_column(c.column_id), normalized_actor(req.actor_nickname), "card_updated"@, "card"@, card_id, quoted("card "@, c.title, " updated"@))
        })
    })
}

/// What `update_card_status` does.
pub open spec fn update_card_status_post(s: AppStateView, t: AppStateView, card_id: Seq<char>, req: UpdateCardStatusView, r: Result<CardView, AppErrorView>) -> bool {
    version_checked(s, t, card_id, req.version, r, id_unavailable(s, t, r) || {
        &&& r is Ok
        &&& ({
            let c = r->Ok_0;
            &&& c == with_log(CardView { status: req.status, ..s.card(card_id) }, ModificationOperation::StatusChanged, "status → "@ + status_label(req.status), c.updated_at)
            &&& s.same_boards_and_columns(t)
            &&& t.cards == upsert(s.cards, c)
            &&& t.pending_events == s.pending_events.push(WsEventView::CardStatusChanged { card: c })
            &&& audit_appended_if_known(s.audit_logs, t.audit_logs, s.board_of_column(c.column_id), normalized_actor(req.actor_nickname), "card_status_changed"@, "card"@, card_id, quoted("card "@, c.title, " status changed"@))
        })
    })
}

/// `parts` joined with `sep`.
fn join_strings(parts: &Vec<String>, sep: &str) -> (r: String)
    ensures
        r@ == join(parts@.map_values(|p: String| p@), sep@),
{
    let ghost v = parts@.map_values(|p: String| p@);
    let mut r = String::new();
    let mut i: usize = 0;
    while i < parts.len()
        invariant
            i <= parts@.len(),
            v == parts@.map_values(|p: String| p@),
            r@ == join(v.take(i as int), sep@),
        decreases parts.len() - i,
    {
        proof {
            assert(v.take(i + 1).drop_last() =~= v.take(i as int));
        }
        if i == 0 {
            r = parts[0].clone();
            assert(v.take(1) =~= seq![v[0]]);
        } else {
            r.append(sep);
            r.append(parts[i].as_str());
        }
        i = i + 1;
    }
    assert(v.take(parts@.len() as int) =~= v);
    r
}

impl AppState {
    /// Stores a changed card, announces it and audits the change under the
    /// card's board when that is known.
    fn commit_card_change(
        &mut self,
        card: &Card,
        event: WsEvent,
        actor: String,
        action: &str,
        suffix: &str,
        audit_id: String,
    )
        requires
            old(self)@.wf(),
            old(self)@.has_card(card@.id),
            audit_id@.len() == 36,
        ensures
            final(self)@.wf(),
            final(self)@.boards == old(self)@.boards,
            final(self)@.columns == old(self)@.columns,
            final(self)@.cards == upsert(old(self)@.cards, card@),
            final(self)@.pending_events == old(self)@.pending_events.push(event@),
            audit_appended_if_known(old(self)@.audit_logs, final(self)@.audit_logs, old(self)@.board_of_column(card@.column_id), actor@, action@, "card"@, card@.id, quoted("card "@, card@.title, suffix@)),
    {
        let ghost s = self@;
        self.upsert_card(card.clone());
        let board_id = self.board_id_of_column(&card.column_id);
        self.emit(event);
        if !board_id.as_str().is_empty() {
            let detail = quoted_text("card ", &card.title, suffix);
            let log = AuditLog::with_id(
                audit_id,
                board_id,
                actor,
                String::from_str(action),
                String::from_str("card"),
                card.id.clone(),
                detail,
            );
            self.record_audit(log);
            proof {
                assert(self@.audit_logs.drop_last() =~= s.audit_logs);
            }
        }
    }

    /// Changes a card's fields, if the client holds its current version
    /// (optimistic locking).
    pub fn update_card(&mut self, card_id: &str, req: UpdateCardRequest) -> (r: Result<Card, AppError>)
        requires
            old(self)@.wf(),
            version_room(old(self)@, card_id@, req.version),
        ensures
            final(self)@.wf(),
            update_card_post(old(self)@, final(self)@, card_id@, req@, result_view(r)),
    {
        let ghost s = self@;
        let ghost rv = req@;
        let actor = normalize_actor(req.actor_nickname);
        let id = String::from_str(card_id);
        let ki = match self.find_card(&id) {
            Some(i) => i,
            None => {
                return Err(AppError::CardNotFound(id));
            },
        };
        let current = self.cards[ki].version;
        if current != req.version {
            return Err(AppError::VersionConflict { expected: req.version, actual: current });
        }
        let audit_id = match fresh_id() {
            Ok(i) => i,
            Err(e) => {
                return Err(e);
            },
        };
        let mut card = self.cards[ki].clone();
        let mut changed: Vec<String> = Vec::new();
        proof {
            reveal_strlit("");
            assert(""@ =~= Seq::<char>::empty());
        }
        let ghost tp: Seq<Seq<char>> = match rv.title {
            Some(t) => seq![quoted("title → "@, t, Seq::empty())],
            None => Seq::empty(),
        };
        let ghost dp: Seq<Seq<char>> = match rv.description {
            Some(d) => seq![quoted("description → "@, d, Seq::empty())],
            None => Seq::empty(),
        };
        let ghost sp: Seq<Seq<char>> = match rv.status {
            Some(st) => seq!["status → "@ + status_label(st)],
            None => Seq::empty(),
        };
        match req.title {
            Some(title) => {
                changed.push(quoted_text("title → ", &title, ""));
                card.title = title;
            },
            None => {},
        }
        assert(changed@.map_values(|p: String| p@) =~= tp);
        let ghost c1 = changed@;
        match req.description {
            Some(description) => {
                changed.push(quoted_text("description → ", &description, ""));
                assert(changed@.map_values(|p: String| p@) =~= c1.map_values(|p: String| p@) + dp);
                card.description = description;
            },
            None => {},
        }
        assert(changed@.map_values(|p: String| p@) =~= tp + dp);
        let ghost c2 = changed@;
        match req.status {
            Some(status) => {
                let label = status.label();
                changed.push(String::from_str("status → ").concat(label.as_str()));
                assert(changed@.map_values(|p: String| p@) =~= c2.map_values(|p: String| p@) + sp);
                card.status = status;
            },
            None => {},
        }
        assert(changed@.map_values(|p: String| p@) =~= tp + dp + sp);
        proof {
            assert(changed@.map_values(|p: String| p@) =~= update_changes(rv));
            assert(card@ =~= updated_fields(s.card(id@), rv));
        }
        let detail = if changed.len() == 0 {
            String::from_str("변경 없음")
        } else {
            join_strings(&changed, ", ")
        };
        card.push_log(ModificationOperation::Updated, detail);
        self.commit_card_change(&card, WsEvent::CardUpdated { card: card.clone() }, actor, "card_updated", " updated", audit_id);
        Ok(card)
    }

    /// Changes a card's status, if the client holds its current version.
    pub fn update_card_status(&mut self, card_id: &str, req: UpdateCardStatusRequest) -> (r: Result<Card, AppError>)
        requires
            old(self)@.wf(),
            version_room(old(self)@, card_id@, req.version),
        ensures
            final(self)@.wf(),
            update_card_status_post(old(self)@, final(self)@, card_id@, req@, result_view(r)),
    {
        let ghost s = self@;
        let actor = normalize_actor(req.actor_nickname);
        let id = String::from_str(card_id);
        let ki = match self.find_card(&id) {
            Some(i) => i,
            None => {
                return Err(AppError::CardNotFound(id));
            },
        };
        let current = self.cards[ki].version;
        if current != req.version {
            return Err(AppError::VersionConflict { expected: req.version, actual: current });
        }
        let audit_id = match fresh_id() {
            Ok(i) => i,
            Err(e) => {
                return Err(e);
            },
        };
        let mut card = self.cards[ki].clone();
        let label = req.status.label();
        let detail = String::from_str("status → ").concat(label.as_str());
        card.status = req.status;
        card.push_log(ModificationOperation::StatusChanged, detail);
        self.commit_card_change(&card, WsEvent::CardStatusChanged { card: card.clone() }, actor, "card_status_changed", " status changed", audit_id);
        Ok(card)
    }
}


/// The log text of a move.
pub open spec fn move_detail(from_column: Seq<char>, to_column: Seq<char>, from_position: i32, to_position: i32) -> Seq<char> {
    "column "@ + from_column + " → "@ + to_column + ", position "@ + decimal_int(from_position as int) + " → "@ + decimal_int(to_position as int)
}

/// The cards after a card leaves its column: the cards behind it move up.
pub open spec fn after_leaving(cards: Seq<CardView>, card: CardView) -> Seq<CardView> {
    shift_cards(cards, card.column_id, card.id, card.position + 1, i32::MAX as int, -1)
}

/// The cards after a card enters `column_id` at `position`: the cards at
/// and behind that position move down.
pub open spec fn after_entering(cards: Seq<CardView>, card_id: Seq<char>, column_id: Seq<char>, position: i32) -> Seq<CardView> {
    shift_cards(cards, column_id, card_id, position as int, i32::MAX as int, 1)
}

/// Making room at the target position does not push a position past `i32::MAX`.
pub open spec fn move_room(s: AppStateView, card_id: Seq<char>, req: MoveCardView) -> bool {
    s.has_column(req.target_column_id) && s.has_card(card_id) && s.card(card_id).version == req.version ==>
        shift_fits(after_leaving(s.cards, s.card(card_id)), req.target_column_id, card_id, req.target_position as int, i32::MAX as int, 1)
}

/// What `move_card` does: checks the target column, the card and its
/// version, in this order; then the card leaves its column (closing the
/// gap), enters the target column at the target position (making room),
/// and the move is logged.
pub open spec fn move_card_post(s: AppStateView, t: AppStateView, card_id: Seq<char>, req: MoveCardView, r: Result<CardView, AppErrorView>) -> bool {
    if !s.has_column(req.target_column_id) {
        r == Err::<CardView, AppErrorView>(AppErrorView::ColumnNotFound(req.target_column_id)) && t == s
    } else {
        version_checked(s, t, card_id, req.version, r, id_unavailable(s, t, r) || {
            let old_c = s.card(card_id);
            &&& r is Ok
            &&& ({
                let c = r->Ok_0;
                &&& c == with_log(CardView { column_id: req.target_column_id, position: req.target_position, ..old_c }, ModificationOperation::Moved, move_detail(old_c.column_id, req.target_column_id, old_c.position, req.target_position), c.updated_at)
                    &&& s.same_boards_and_columns(t)
                &&& t.cards == upsert(after_entering(after_leaving(s.cards, old_c), card_id, req.target_column_id, req.target_position), c)
                &&& t.pending_events == s.pending_events.push(WsEventView::CardMoved { card: c })
                &&& audit_appended_if_known(s.audit_logs, t.audit_logs, s.board_of_column(req.target_column_id), normalized_actor(req.actor_nickname), "card_moved"@, "card"@, card_id, quoted("card "@, c.title, " moved"@))
            })
        })
    }
}

/// The cards after a card moves within its column from `from` to `to`: the
/// cards between them move one step towards `from`.
pub open spec fn after_reordering(cards: Seq<CardView>, card: CardView, to: i32) -> Seq<CardView> {
    if to > card.position {
        shift_cards(cards, card.column_id, card.id, card.position + 1, to as int, -1)
    } else {
        shift_cards(cards, card.column_id, card.id, to as int, card.position - 1, 1)
    }
}

/// A reorder under version `version` cannot overflow the card's version.
pub open spec fn reorder_room(s: AppStateView, card_id: Seq<char>, req: ReorderCardView) -> bool {
    s.has_card(card_id) && s.card(card_id).version == req.version && s.card(card_id).position != req.target_position ==> req.version < u64::MAX
}

/// What `reorder_card` does: with the current version, a move to the
/// card's own position changes nothing; any other moves the card there
/// within its column, shifts the cards in between, and is logged.
pub open spec fn reorder_card_post(s: AppStateView, t: AppStateView, card_id: Seq<char>, req: ReorderCardView, r: Result<CardView, AppErrorView>) -> bool {
    version_checked(s, t, card_id, req.version, r, {
        let old_c = s.card(card_id);
        if old_c.position == req.target_position {
            r == Ok::<CardView, AppErrorView>(old_c) && t == s
        } else if id_unavailable(s, t, r) {
            true
        } else {
            &&& r is Ok
            &&& ({
                let c = r->Ok_0;
                &&& c == with_log(CardView { position: req.target_position, ..old_c }, ModificationOperation::Reordered, "position "@ + decimal_int(old_c.position as int) + " → "@ + decimal_int(req.target_position as int), c.updated_at)
                    &&& s.same_boards_and_columns(t)
                &&& t.cards == upsert(after_reordering(s.cards, old_c, req.target_position), c)
                &&& t.pending_events == s.pending_events.push(WsEventView::CardReordered { card: c })
                &&& audit_appended_if_known(s.audit_logs, t.audit_logs, s.board_of_column(old_c.column_id), normalized_actor(req.actor_nickname), "card_reordered"@, "card"@, card_id, quoted("card "@, c.title, " reordered"@))
            })
        }
    })
}

impl AppState {
    /// Moves a card to a position in a column (its own or another), if the
    /// client holds its current version; all in one step, so that no other
    /// change sees the column half-updated.
    pub fn move_card(&mut self, card_id: &str, req: MoveCardRequest) -> (r: Result<Card, AppError>)
        requires
            old(self)@.wf(),
            version_room(old(self)@, card_id@, req.version),
            move_room(old(self)@, card_id@, req@),
        ensures
            final(self)@.wf(),
            move_card_post(old(self)@, final(self)@, card_id@, req@, result_view(r)),
    {
        let ghost s = self@;
        let ghost rv = req@;
        let actor = normalize_actor(req.actor_nickname);
        let target = req.target_column_id;
        if self.find_column(&target).is_none() {
            return Err(AppError::ColumnNotFound(target));
        }
        let id = String::from_str(card_id);
        let ki = match self.find_card(&id) {
            Some(i) => i,
            None => {
                return Err(AppError::CardNotFound(id));
            },
        };
        let current = self.cards[ki].version;
        if current != req.version {
            return Err(AppError::VersionConflict { expected: req.version, actual: current });
        }
        let audit_id = match fresh_id() {
            Ok(i) => i,
            Err(e) => {
                return Err(e);
            },
        };
        let old_column = self.cards[ki].column_id.clone();
        let old_position = self.cards[ki].position;
        let target_position = req.target_position;
        proof {
            lemma_index_is_key_index(s.cards, ki as int);
            assert forall|j: int| 0 <= j < s.cards.len() && (#[trigger] s.cards[j]).column_id == old_column@ && s.cards[j].id != id@ && old_position + 1 <= s.cards[j].position <= i32::MAX
                implies i32::MIN <= s.cards[j].position - 1 <= i32::MAX by {}
        }
        self.shift_positions(&old_column, &id, old_position as i64 + 1, i32::MAX as i64, -1);
        self.shift_positions(&target, &id, target_position as i64, i32::MAX as i64, 1);
        let ghost s2 = self@;
        let ki2 = match self.find_card(&id) {
            Some(i) => i,
            None => {
                proof {
                    let f1 = |c: CardView| shifted(c, old_column@, id@, old_position + 1, i32::MAX as int, -1);
                    lemma_map_lookup(s.cards, f1);
                    let s1 = shift_cards(s.cards, old_column@, id@, old_position + 1, i32::MAX as int, -1);
                    let f2 = |c: CardView| shifted(c, target@, id@, target_position as int, i32::MAX as int, 1);
                    lemma_map_lookup(s1, f2);
                }
                return Err(AppError::CardNotFound(id));
            },
        };
        let mut card = self.cards[ki2].clone();
        proof {
            let f1 = |c: CardView| shifted(c, old_column@, id@, old_position + 1, i32::MAX as int, -1);
            lemma_map_lookup(s.cards, f1);
            let s1 = shift_cards(s.cards, old_column@, id@, old_position + 1, i32::MAX as int, -1);
            let f2 = |c: CardView| shifted(c, target@, id@, target_position as int, i32::MAX as int, 1);
            lemma_map_lookup(s1, f2);
            lemma_index_is_key_index(s2.cards, ki2 as int);
            assert(card@ == s.card(id@));
        }
        let p1 = i32_to_decimal(old_position);
        let p2 = i32_to_decimal(target_position);
        let detail = String::from_str("column ").concat(old_column.as_str()).concat(" → ").concat(
            target.as_str(),
        ).concat(", position ").concat(p1.as_str()).concat(" → ").concat(p2.as_str());
        card.column_id = target;
        card.position = target_position;
        proof {
            assert(detail@ =~= move_detail(old_column@, rv.target_column_id, old_position, target_position));
            assert(card@ =~= CardView { column_id: rv.target_column_id, position: target_position, ..s.card(id@) });
        }
        card.push_log(ModificationOperation::Moved, detail);
        self.commit_card_change(&card, WsEvent::CardMoved { card: card.clone() }, actor, "card_moved", " moved", audit_id);
        Ok(card)
    }

    /// Moves a card to another position within its column, if the client
    /// holds its current version.
    pub fn reorder_card(&mut self, card_id: &str, req: ReorderCardRequest) -> (r: Result<Card, AppError>)
        requires
            old(self)@.wf(),
            reorder_room(old(self)@, card_id@, req@),
        ensures
            final(self)@.wf(),
            reorder_card_post(old(self)@, final(self)@, card_id@, req@, result_view(r)),
    {
        let ghost s = self@;
        let actor = normalize_actor(req.actor_nickname);
        let id = String::from_str(card_id);
        let ki = match self.find_card(&id) {
            Some(i) => i,
            None => {
                return Err(AppError::CardNotFound(id));
            },
        };
        let current = self.cards[ki].version;
        if current != req.version {
            return Err(AppError::VersionConflict { expected: req.version, actual: current });
        }
        let column_id = self.cards[ki].column_id.clone();
        let old_pos = self.cards[ki].position;
        let new_pos = req.target_position;
        if old_pos == new_pos {
            return Ok(self.cards[ki].clone());
        }
        let audit_id = match fresh_id() {
            Ok(i) => i,
            Err(e) => {
                return Err(e);
            },
        };
        proof {
            lemma_index_is_key_index(s.cards, ki as int);
        }
        if new_pos > old_pos {
            self.shift_positions(&column_id, &id, old_pos as i64 + 1, new_pos as i64, -1);
        } else {
            self.shift_positions(&column_id, &id, new_pos as i64, old_pos as i64 - 1, 1);
        }
        let ghost s2 = self@;
        let ghost f = if new_pos > old_pos {
            |c: CardView| shifted(c, column_id@, id@, old_pos + 1, new_pos as int, -1)
        } else {
            |c: CardView| shifted(c, column_id@, id@, new_pos as int, old_pos - 1, 1)
        };
        proof {
            lemma_map_lookup(s.cards, f);
            assert(s2.cards == s.cards.map_values(f));
        }
        let ki2 = match self.find_card(&id) {
            Some(i) => i,
            None => {
                return Err(AppError::CardNotFound(id));
            },
        };
        let mut card = self.cards[ki2].clone();
        proof {
            lemma_index_is_key_index(s2.cards, ki2 as int);
            assert(card@ == s.card(id@));
        }
        let p1 = i32_to_decimal(old_pos);
        let p2 = i32_to_decimal(new_pos);
        let detail = String::from_str("position ").concat(p1.as_str()).concat(" → ").concat(p2.as_str());
        card.position = new_pos;
        proof {
            assert(card@ =~= CardView { position: new_pos, ..s.card(id@) });
        }
        card.push_log(ModificationOperation::Reordered, detail);
        self.commit_card_change(&card, WsEvent::CardReordered { card: card.clone() }, actor, "card_reordered", " reordered", audit_id);
        Ok(card)
    }
}


/// The columns of a board.
pub open spec fn columns_of_board(columns: Seq<ColumnView>, board_id: Seq<char>) -> Seq<ColumnView> {
    columns.filter(|c: ColumnView| c.board_id == board_id)
}

/// The cards of a column.
pub open spec fn cards_of_column(cards: Seq<CardView>, column_id: Seq<char>) -> Seq<CardView> {
    cards.filter(|c: CardView| c.column_id == column_id)
}

/// What `get_board_detail` answers: the board, its columns in position
/// order, and for each column its cards in position order.
pub open spec fn board_detail_post(s: AppStateView, board_id: Seq<char>, r: Result<BoardDetailView, AppErrorView>) -> bool {
    if !s.has_board(board_id) {
        r == Err::<BoardDetailView, AppErrorView>(AppErrorView::BoardNotFound(board_id))
    } else {
        &&& r is Ok
        &&& ({
            let d = r->Ok_0;
            let cols = d.columns.map_values(|c: ColumnWithCardsView| c.column);
            &&& d.board == s.board(board_id)
            &&& cols.to_multiset() == columns_of_board(s.columns, board_id).to_multiset()
            &&& sorted_by_key::<Column>(cols)
            &&& forall|i: int| 0 <= i < d.columns.len() ==> {
                &&& (#[trigger] d.columns[i]).cards.to_multiset() == cards_of_column(s.cards, d.columns[i].column.id).to_multiset()
                &&& sorted_by_key::<Card>(d.columns[i].cards)
            }
        })
    }
}

impl AppState {
    /// A board with its columns and their cards, each in position order.
    pub fn get_board_detail(&self, board_id: &str) -> (r: Result<BoardDetailResponse, AppError>)
        requires
            self@.wf(),
        ensures
            board_detail_post(self@, board_id@, result_view(r)),
    {
        let id = String::from_str(board_id);
        let bi = match self.find_board(&id) {
            Some(i) => i,
            None => {
                return Err(AppError::BoardNotFound(id));
            },
        };
        let board = self.boards[bi].clone();
        let mut mask: Vec<bool> = Vec::new();
        let mut i: usize = 0;
        while i < self.columns.len()
            invariant
                i <= self.columns@.len(),
                mask@.len() == i,
                forall|j: int| 0 <= j < i ==> mask@[j] == ((#[trigger] self.columns@[j]@).board_id == id@),
            decreases self.columns.len() - i,
        {
            mask.push(self.columns[i].board_id == id);
            i = i + 1;
        }
        let ghost pc = |c: ColumnView| c.board_id == id@;
        let board_columns = filter_by_mask(&self.columns, &mask, Ghost(pc));
        let columns = sorted_copy(&board_columns);
        let mut out: Vec<ColumnWithCards> = Vec::new();
        let mut k: usize = 0;
        while k < columns.len()
            invariant
                k <= columns@.len(),
                out@.len() == k,
                forall|i: int| 0 <= i < k ==> (#[trigger] out@[i]).column@ == columns@[i]@,
                forall|i: int| 0 <= i < k ==> {
                    &&& views_of((#[trigger] out@[i]).cards@).to_multiset() == cards_of_column(self@.cards, out@[i].column@.id).to_multiset()
                    &&& sorted_by_key::<Card>(views_of(out@[i].cards@))
                },
            decreases columns.len() - k,
        {
            let col_id = columns[k].id.clone();
            let mut m: Vec<bool> = Vec::new();
            let mut j: usize = 0;
            while j < self.cards.len()
                invariant
                    j <= self.cards@.len(),
                    m@.len() == j,
                    forall|x: int| 0 <= x < j ==> m@[x] == ((#[trigger] self.cards@[x]@).column_id == col_id@),
                decreases self.cards.len() - j,
            {
                m.push(self.cards[j].column_id == col_id);
                j = j + 1;
            }
            let ghost pk = |c: CardView| c.column_id == col_id@;
            let column_cards = filter_by_mask(&self.cards, &m, Ghost(pk));
            let cards = sorted_copy(&column_cards);
            proof {
                assert(views_of(self.cards@) == self@.cards);
                assert(cards_of_column(self@.cards, col_id@) == self@.cards.filter(pk));
            }
            out.push(ColumnWithCards { column: columns[k].clone(), cards });
            k = k + 1;
        }
        let d = BoardDetailResponse { board, columns: out };
        proof {
            let cols = d@.columns.map_values(|c: ColumnWithCardsView| c.column);
            assert(cols =~= views_of(columns@));
            assert(views_of(self.columns@) == self@.columns);
            assert(columns_of_board(self@.columns, id@) == self@.columns.filter(pc));
            lemma_key_index(self@.boards, id@);
            assert forall|i: int| 0 <= i < d@.columns.len() implies {
                &&& (#[trigger] d@.columns[i]).cards.to_multiset() == cards_of_column(self@.cards, d@.columns[i].column.id).to_multiset()
                &&& sorted_by_key::<Card>(d@.columns[i].cards)
            } by {
                assert(d@.columns[i] == out@[i]@);
                assert(out@[i]@.cards == views_of(out@[i].cards@));
            }
        }
        Ok(d)
    }
}


/// The cards after replaying the deletion of card `card_id`: it goes, and
/// the cards behind it in its column move up, as `delete_card_as` does.
pub open spec fn replayed_delete(cards: Seq<CardView>, card_id: Seq<char>) -> Seq<CardView> {
    if has_key(cards, card_id) {
        let c = lookup(cards, card_id);
        shift_cards(without_key(cards, card_id), c.column_id, card_id, c.position + 1, i32::MAX as int, -1)
    } else {
        without_key(cards, card_id)
    }
}

/// The cards after replaying the move of a card to where `card` stands: the
/// stored card leaves its column and the target column makes room, as
/// `move_card` does. Where there is no stored card, or making room would
/// push a position past `i32::MAX` (which `move_card` never does), `card`
/// is just stored.
pub open spec fn replayed_move(cards: Seq<CardView>, card: CardView) -> Seq<CardView> {
    if has_key(cards, card.id) {
        let s1 = after_leaving(cards, lookup(cards, card.id));
        if shift_fits(s1, card.column_id, card.id, card.position as int, i32::MAX as int, 1) {
            upsert(after_entering(s1, card.id, card.column_id, card.position), card)
        } else {
            upsert(cards, card)
        }
    } else {
        upsert(cards, card)
    }
}

/// The cards after replaying the reorder of a card to the position of
/// `card`: the cards between the stored card's position and the new one
/// shift, as `reorder_card` does, and `card` is stored.
pub open spec fn replayed_reorder(cards: Seq<CardView>, card: CardView) -> Seq<CardView> {
    if has_key(cards, card.id) {
        upsert(after_reordering(cards, lookup(cards, card.id), card.position), card)
    } else {
        upsert(cards, card)
    }
}

/// The state after replaying one event: it redoes the change that
/// announced it. A created or changed record is stored under its id; a
/// deleted one is removed, with what a deleted board or column holds; a
/// move, a reorder and a deletion of a card shift the other cards of the
/// columns as the change did. Audit events and the trail are left alone.
pub open spec fn apply_event_spec(s: AppStateView, e: WsEventView) -> AppStateView {
    match e {
        WsEventView::BoardCreated { board } => AppStateView { boards: upsert(s.boards, board), ..s },
        WsEventView::BoardDeleted { board_id } => AppStateView {
            boards: without_key(s.boards, board_id),
            columns: columns_outside_board(s.columns, board_id),
            cards: cards_outside_board(s.cards, s.columns, board_id),
            ..s
        },
        WsEventView::AuditLogged { .. } => s,
        WsEventView::ColumnCreated { column } => AppStateView { columns: upsert(s.columns, column), ..s },
        WsEventView::ColumnDeleted { column_id } => AppStateView {
            columns: without_key(s.columns, column_id),
            cards: cards_outside_column(s.cards, column_id),
            ..s
        },
        WsEventView::CardCreated { card } => AppStateView { cards: upsert(s.cards, card), ..s },
        WsEventView::CardUpdated { card } => AppStateView { cards: upsert(s.cards, card), ..s },
        WsEventView::CardMoved { card } => AppStateView { cards: replayed_move(s.cards, card), ..s },
        WsEventView::CardStatusChanged { card } => AppStateView { cards: upsert(s.cards, card), ..s },
        WsEventView::CardReordered { card } => AppStateView { cards: replayed_reorder(s.cards, card), ..s },
        WsEventView::CardDeleted { card_id } => AppStateView { cards: replayed_delete(s.cards, card_id), ..s },
    }
}

/// The state after replaying events in order.
pub open spec fn apply_events_spec(s: AppStateView, events: Seq<WsEventView>) -> AppStateView
    decreases events.len(),
{
    if events.len() == 0 {
        s
    } else {
        apply_event_spec(apply_events_spec(s, events.drop_last()), events.last())
    }
}

impl AppState {
    fn replay_card_deleted(&mut self, card_id: &String)
        requires
            old(self)@.wf(),
        ensures
            final(self)@.wf(),
            final(self)@ == (AppStateView { cards: replayed_delete(old(self)@.cards, card_id@), ..old(self)@ }),
    {
        let ghost s = self@;
        match self.find_card(card_id) {
            None => self.remove_card(card_id),
            Some(ki) => {
                let column_id = self.cards[ki].column_id.clone();
                let position = self.cards[ki].position;
                self.remove_card(card_id);
                proof {
                    let w = without_key(s.cards, card_id@);
                    assert forall|j: int| 0 <= j < w.len() && (#[trigger] w[j]).column_id == column_id@ && w[j].id != card_id@ && position + 1 <= w[j].position <= i32::MAX
                        implies i32::MIN <= w[j].position - 1 <= i32::MAX by {}
                }
                self.shift_positions(&column_id, card_id, position as i64 + 1, i32::MAX as i64, -1);
            },
        }
    }

    fn replay_card_moved(&mut self, card: &Card)
        requires
            old(self)@.wf(),
        ensures
            final(self)@.wf(),
            final(self)@ == (AppStateView { cards: replayed_move(old(self)@.cards, card@), ..old(self)@ }),
    {
        let ghost s = self@;
        match self.find_card(&card.id) {
            None => self.upsert_card(card.clone()),
            Some(ki) => {
                proof {
                    lemma_key_index(s.cards, card.id@);
                }
                if self.entering_fits(ki, &card.column_id, card.position) {
                    let old_column = self.cards[ki].column_id.clone();
                    let old_position = self.cards[ki].position;
                    proof {
                        assert forall|j: int| 0 <= j < s.cards.len() && (#[trigger] s.cards[j]).column_id == old_column@ && s.cards[j].id != card.id@ && old_position + 1 <= s.cards[j].position <= i32::MAX
                            implies i32::MIN <= s.cards[j].position - 1 <= i32::MAX by {}
                    }
                    self.shift_positions(&old_column, &card.id, old_position as i64 + 1, i32::MAX as i64, -1);
                    self.shift_positions(&card.column_id, &card.id, card.position as i64, i32::MAX as i64, 1);
                    self.upsert_card(card.clone());
                } else {
                    self.upsert_card(card.clone());
                }
            },
        }
    }

    fn replay_card_reordered(&mut self, card: &Card)
        requires
            old(self)@.wf(),
        ensures
            final(self)@.wf(),
            final(self)@ == (AppStateView { cards: replayed_reorder(old(self)@.cards, card@), ..old(self)@ }),
    {
        let ghost s = self@;
        match self.find_card(&card.id) {
            None => self.upsert_card(card.clone()),
            Some(ki) => {
                proof {
                    lemma_key_index(s.cards, card.id@);
                }
                let column_id = self.cards[ki].column_id.clone();
                let old_pos = self.cards[ki].position;
                let new_pos = card.position;
                if new_pos > old_pos {
                    self.shift_positions(&column_id, &card.id, old_pos as i64 + 1, new_pos as i64, -1);
                } else {
                    self.shift_positions(&column_id, &card.id, new_pos as i64, old_pos as i64 - 1, 1);
                }
                self.upsert_card(card.clone());
            },
        }
    }

    /// Replays one written-ahead event.
    pub fn apply_event(&mut self, event: &WsEvent)
        requires
            old(self)@.wf(),
        ensures
            final(self)@.wf(),
            final(self)@ == apply_event_spec(old(self)@, event@),
    {
        match event {
            WsEvent::BoardCreated { board } => self.upsert_board(board.clone()),
            WsEvent::BoardDeleted { board_id } => self.remove_board_cascade(board_id),
            WsEvent::AuditLogged { .. } => {},
            WsEvent::ColumnCreated { column } => self.upsert_column(column.clone()),
            WsEvent::ColumnDeleted { column_id } => self.remove_column_cascade(column_id),
            WsEvent::CardCreated { card } => self.upsert_card(card.clone()),
            WsEvent::CardUpdated { card } => self.upsert_card(card.clone()),
            WsEvent::CardMoved { card } => self.replay_card_moved(card),
            WsEvent::CardStatusChanged { card } => self.upsert_card(card.clone()),
            WsEvent::CardReordered { card } => self.replay_card_reordered(card),
            WsEvent::CardDeleted { card_id } => self.replay_card_deleted(card_id),
        }
    }

    /// Replays written-ahead events in order, restoring the state that
    /// produced them.
    pub fn apply_events(&mut self, events: Vec<WsEvent>)
        requires
            old(self)@.wf(),
        ensures
            final(self)@.wf(),
            final(self)@ == apply_events_spec(old(self)@, events_view(events@)),
    {
        let ghost s = self@;
        let ghost evs = events_view(events@);
        let mut i: usize = 0;
        while i < events.len()
            invariant
                i <= events@.len(),
                evs == events_view(events@),
                self@.wf(),
                self@ == apply_events_spec(s, evs.take(i as int)),
            decreases events.len() - i,
        {
            self.apply_event(&events[i]);
            proof {
                assert(evs.take(i + 1).drop_last() =~= evs.take(i as int));
            }
            i = i + 1;
        }
        assert(evs.take(events@.len() as int) =~= evs);
    }
}


impl AppState {
    /// A new column of the board, if the board is known, gets a position
    /// within `i32`.
    pub fn column_slot_fits(&self, board_id: &str) -> (r: bool)
        requires
            self@.wf(),
        ensures
            r == (self@.has_board(board_id@) ==> next_column_position(self@.columns, board_id@) <= i32::MAX),
    {
        let id = String::from_str(board_id);
        self.find_board(&id).is_none() || self.next_column_position_of(&id) <= i32::MAX as i64
    }

    /// A new card of the column, if the column is known, gets a position
    /// within `i32`.
    pub fn card_slot_fits(&self, column_id: &str) -> (r: bool)
        requires
            self@.wf(),
        ensures
            r == (self@.has_column(column_id@) ==> next_card_position(self@.cards, column_id@) <= i32::MAX),
    {
        let id = String::from_str(column_id);
        self.find_column(&id).is_none() || self.next_card_position_of(&id) <= i32::MAX as i64
    }

    /// A change made under `version` can raise the card's version.
    pub fn version_fits(&self, card_id: &str, version: u64) -> (r: bool)
        requires
            self@.wf(),
        ensures
            r == version_room(self@, card_id@, version),
    {
        let id = String::from_str(card_id);
        match self.find_card(&id) {
            Some(i) => !(self.cards[i].version == version && version == u64::MAX),
            None => true,
        }
    }

    /// A reorder made under this request can raise the card's version.
    pub fn reorder_fits(&self, card_id: &str, req: &ReorderCardRequest) -> (r: bool)
        requires
            self@.wf(),
        ensures
            r == reorder_room(self@, card_id@, req@),
    {
        let id = String::from_str(card_id);
        match self.find_card(&id) {
            Some(i) => !(self.cards[i].version == req.version && self.cards[i].position != req.target_position && req.version == u64::MAX),
            None => true,
        }
    }

    /// Making room for the moved card keeps every position within `i32`.
    pub fn move_fits(&self, card_id: &str, req: &MoveCardRequest) -> (r: bool)
        requires
            self@.wf(),
        ensures
            r == move_room(self@, card_id@, req@),
    {
        let id = String::from_str(card_id);
        if self.find_column(&req.target_column_id).is_none() {
            return true;
        }
        let ki = match self.find_card(&id) {
            Some(i) => i,
            None => {
                return true;
            },
        };
        if self.cards[ki].version != req.version {
            return true;
        }
        proof {
            lemma_key_index(self@.cards, id@);
        }
        self.entering_fits(ki, &req.target_column_id, req.target_position)
    }

    /// Whether, once the card at index `ki` has left its column, the cards
    /// of column `target` at and behind `tpos` can move down one place
    /// within `i32`.
    fn entering_fits(&self, ki: usize, target: &String, tpos: i32) -> (r: bool)
        requires
            self@.wf(),
            ki < self@.cards.len(),
        ensures
            r == shift_fits(after_leaving(self@.cards, self@.cards[ki as int]), target@, self@.cards[ki as int].id, tpos as int, i32::MAX as int, 1),
    {
        let ghost c = self@.cards[ki as int];
        let ghost s1 = after_leaving(self@.cards, c);
        let old_column = &self.cards[ki].column_id;
        let old_position = self.cards[ki].position;
        let id = &self.cards[ki].id;
        let mut ok = true;
        let mut i: usize = 0;
        while i < self.cards.len()
            invariant
                i <= self.cards@.len(),
                self@.cards == views_of(self.cards@),
                c.column_id == old_column@,
                c.position == old_position,
                c.id == id@,
                s1 == after_leaving(self@.cards, c),
                ok == forall|j: int| 0 <= j < i && (#[trigger] s1[j]).column_id == target@ && s1[j].id != id@ && tpos <= s1[j].position <= i32::MAX ==> i32::MIN <= s1[j].position + 1 <= i32::MAX,
            decreases self.cards.len() - i,
        {
            let x = &self.cards[i];
            let p: i64 = if x.column_id == *old_column && !(x.id == *id) && x.position > old_position {
                x.position as i64 - 1
            } else {
                x.position as i64
            };
            proof {
                assert(s1[i as int] == shifted(self@.cards[i as int], c.column_id, c.id, c.position + 1, i32::MAX as int, -1));
                assert(self@.cards[i as int] == x@);
                assert(s1[i as int].position == p);
            }
            if x.column_id == *target && !(x.id == *id) && p >= tpos as i64 && p == i32::MAX as i64 {
                ok = false;
            }
            i = i + 1;
        }
        ok
    }
}

} // verus!
