//! The board's records, the requests that change them and the events that
//! report each change, with the mathematical view of each.
//!
//! Times are nanoseconds since the Unix epoch; strings are viewed as
//! sequences of characters.
use vstd::prelude::*;
use vstd::string::*;

use crate::ambient::{fresh_id, now_nanos};
use crate::errors::AppError;
use crate::keyed::Keyed;
use crate::text::{trim, trimmed};

verus! {

// ===================== actors =====================

/// The nickname recorded when a request names no actor.
pub open spec fn anonymous_actor() -> Seq<char> {
    "anonymous"@
}

pub open spec fn opt_view(o: Option<String>) -> Option<Seq<char>> {
    match o {
        Some(s) => Some(s@),
        None => None,
    }
}

/// The actor recorded for a request: the given nickname without surrounding
/// white space, or the anonymous actor when none is given or nothing is left.
pub open spec fn normalized_actor(actor: Option<Seq<char>>) -> Seq<char> {
    match actor {
        Some(v) => if trimmed(v).len() > 0 {
            trimmed(v)
        } else {
            anonymous_actor()
        },
        None => anonymous_actor(),
    }
}

pub fn default_actor_nickname() -> (r: String)
    ensures
        r@ == anonymous_actor(),
{
    String::from_str("anonymous")
}

pub fn normalize_actor(actor: Option<String>) -> (r: String)
    ensures
        r@ == normalized_actor(opt_view(actor)),
{
    match actor {
        Some(value) => {
            let t = trim(value.as_str());
            if !t.is_empty() {
                String::from_str(t)
            } else {
                default_actor_nickname()
            }
        },
        None => default_actor_nickname(),
    }
}

// ===================== card status and log =====================

/// The kind of change that a modification log entry records.
#[derive(Clone, Copy, Debug, PartialEq, Eq, Structural)]
pub enum ModificationOperation {
    Created,
    Updated,
    StatusChanged,
    Moved,
    Reordered,
}

/// A card's progress: not started, in progress, done.
#[derive(Clone, Copy, Debug, PartialEq, Eq, Structural)]
pub enum CardStatus {
    Todo,
    InProgress,
    Done,
}

impl Default for CardStatus {
    fn default() -> (r: Self)
        ensures
            r == CardStatus::Todo,
    {
        CardStatus::Todo
    }
}

/// How a status reads to the board's users.
pub open spec fn status_label(s: CardStatus) -> Seq<char> {
    match s {
        CardStatus::Todo => "미진행"@,
        CardStatus::InProgress => "진행중"@,
        CardStatus::Done => "완료"@,
    }
}

impl CardStatus {
    /// The text by which the status is shown ("미진행", "진행중", "완료").
    pub fn label(&self) -> (r: String)
        ensures
            r@ == status_label(*self),
    {
        match self {
            CardStatus::Todo => String::from_str("미진행"),
            CardStatus::InProgress => String::from_str("진행중"),
            CardStatus::Done => String::from_str("완료"),
        }
    }
}

/// One entry of a card's modification history.
#[derive(Debug)]
pub struct ModificationLog {
    /// The card's version after this change.
    pub version: u64,
    pub operation: ModificationOperation,
    pub timestamp: i128,
    /// A summary of the change.
    pub detail: String,
}

#[verifier::ext_equal]
pub struct LogView {
    pub version: u64,
    pub operation: ModificationOperation,
    pub timestamp: i128,
    pub detail: Seq<char>,
}

impl View for ModificationLog {
    type V = LogView;

    open spec fn view(&self) -> LogView {
        LogView {
            version: self.version,
            operation: self.operation,
            timestamp: self.timestamp,
            detail: self.detail@,
        }
    }
}

impl Clone for ModificationLog {
    fn clone(&self) -> (r: Self)
        ensures
            r@ == self@,
    {
        ModificationLog {
            version: self.version,
            operation: self.operation,
            timestamp: self.timestamp,
            detail: self.detail.clone(),
        }
    }
}

pub open spec fn logs_view(v: Seq<ModificationLog>) -> Seq<LogView> {
    v.map_values(|l: ModificationLog| l@)
}

pub fn clone_logs(v: &Vec<ModificationLog>) -> (r: Vec<ModificationLog>)
    ensures
        logs_view(r@) == logs_view(v@),
{
    let mut r: Vec<ModificationLog> = Vec::new();
    let mut i: usize = 0;
    while i < v.len()
        invariant
            i <= v.len(),
            r@.len() == i,
            forall|j: int| 0 <= j < i ==> #[trigger] r@[j]@ == v@[j]@,
        decreases v.len() - i,
    {
        r.push(v[i].clone());
        i = i + 1;
    }
    assert(logs_view(r@) =~= logs_view(v@));
    r
}

// ===================== boards, columns, cards =====================

/// A board: the top-level container.
#[derive(Debug)]
pub struct Board {
    pub id: String,
    pub title: String,
    pub owner_nickname: String,
    pub created_at: i128,
    pub updated_at: i128,
}

#[verifier::ext_equal]
pub struct BoardView {
    pub id: Seq<char>,
    pub title: Seq<char>,
    pub owner_nickname: Seq<char>,
    pub created_at: i128,
    pub updated_at: i128,
}

impl View for Board {
    type V = BoardView;

    open spec fn view(&self) -> BoardView {
        BoardView {
            id: self.id@,
            title: self.title@,
            owner_nickname: self.owner_nickname@,
            created_at: self.created_at,
            updated_at: self.updated_at,
        }
    }
}

impl Keyed for BoardView {
    open spec fn key(self) -> Seq<char> {
        self.id
    }
}

impl Clone for Board {
    fn clone(&self) -> (r: Self)
        ensures
            r@ == self@,
    {
        Board {
            id: self.id.clone(),
            title: self.title.clone(),
            owner_nickname: self.owner_nickname.clone(),
            created_at: self.created_at,
            updated_at: self.updated_at,
        }
    }
}

impl Board {
    /// A new board with a fresh id, created and updated now; an internal
    /// error when no fresh id can be drawn.
    pub fn new(title: String, owner_nickname: String) -> (r: Result<Self, AppError>)
        ensures
            r is Ok ==> {
                let b = r->Ok_0@;
                &&& b.title == title@
                &&& b.owner_nickname == owner_nickname@
                &&& b.id.len() == 36
                &&& b.updated_at == b.created_at
            },
            r is Err ==> r->Err_0@ is Internal,
    {
        let id = match fresh_id() {
            Ok(id) => id,
            Err(e) => {
                return Err(e);
            },
        };
        let now = now_nanos();
        Ok(Board { id, title, owner_nickname, created_at: now, updated_at: now })
    }
}

/// A column: a group of cards within a board.
#[derive(Debug)]
pub struct Column {
    pub id: String,
    pub board_id: String,
    pub title: String,
    pub position: i32,
    pub created_at: i128,
}

#[verifier::ext_equal]
pub struct ColumnView {
    pub id: Seq<char>,
    pub board_id: Seq<char>,
    pub title: Seq<char>,
    pub position: i32,
    pub created_at: i128,
}

impl View for Column {
    type V = ColumnView;

    open spec fn view(&self) -> ColumnView {
        ColumnView {
            id: self.id@,
            board_id: self.board_id@,
            title: self.title@,
            position: self.position,
            created_at: self.created_at,
        }
    }
}

impl Keyed for ColumnView {
    open spec fn key(self) -> Seq<char> {
        self.id
    }
}

impl Clone for Column {
    fn clone(&self) -> (r: Self)
        ensures
            r@ == self@,
    {
        Column {
            id: self.id.clone(),
            board_id: self.board_id.clone(),
            title: self.title.clone(),
            position: self.position,
            created_at: self.created_at,
        }
    }
}

impl Column {
    /// A new column of a board, with a fresh id, created now; an internal
    /// error when no fresh id can be drawn.
    pub fn new(board_id: String, title: String, position: i32) -> (r: Result<Self, AppError>)
        ensures
            r is Ok ==> {
                let c = r->Ok_0@;
                &&& c.board_id == board_id@
                &&& c.title == title@
                &&& c.position == position
                &&& c.id.len() == 36
            },
            r is Err ==> r->Err_0@ is Internal,
    {
        let id = match fresh_id() {
            Ok(id) => id,
            Err(e) => {
                return Err(e);
            },
        };
        Ok(Column { id, board_id, title, position, created_at: now_nanos() })
    }
}

/// A card: one work item. `version` serves optimistic locking; the log
/// records every change.
#[derive(Debug)]
pub struct Card {
    pub id: String,
    pub column_id: String,
    pub title: String,
    pub description: String,
    pub status: CardStatus,
    pub position: i32,
    pub version: u64,
    pub created_at: i128,
    pub updated_at: i128,
    pub modification_logs: Vec<ModificationLog>,
}

#[verifier::ext_equal]
pub struct CardView {
    pub id: Seq<char>,
    pub column_id: Seq<char>,
    pub title: Seq<char>,
    pub description: Seq<char>,
    pub status: CardStatus,
    pub position: i32,
    pub version: u64,
    pub created_at: i128,
    pub updated_at: i128,
    pub modification_logs: Seq<LogView>,
}

impl View for Card {
    type V = CardView;

    open spec fn view(&self) -> CardView {
        CardView {
            id: self.id@,
            column_id: self.column_id@,
            title: self.title@,
            description: self.description@,
            status: self.status,
            position: self.position,
            version: self.version,
            created_at: self.created_at,
            updated_at: self.updated_at,
            modification_logs: logs_view(self.modification_logs@),
        }
    }
}

impl Keyed for CardView {
    open spec fn key(self) -> Seq<char> {
        self.id
    }
}

impl Clone for Card {
    fn clone(&self) -> (r: Self)
        ensures
            r@ == self@,
    {
        Card {
            id: self.id.clone(),
            column_id: self.column_id.clone(),
            title: self.title.clone(),
            description: self.description.clone(),
            status: self.status,
            position: self.position,
            version: self.version,
            created_at: self.created_at,
            updated_at: self.updated_at,
            modification_logs: clone_logs(&self.modification_logs),
        }
    }
}

pub open spec fn cards_view(v: Seq<Card>) -> Seq<CardView> {
    v.map_values(|c: Card| c@)
}

/// The log text of a card's creation.
pub open spec fn creation_detail() -> Seq<char> {
    "카드 생성"@
}

/// A card as it is created: status todo, version 1, one log entry.
pub open spec fn new_card_view(
    id: Seq<char>,
    column_id: Seq<char>,
    title: Seq<char>,
    description: Seq<char>,
    position: i32,
    now: i128,
) -> CardView {
    CardView {
        id,
        column_id,
        title,
        description,
        status: CardStatus::Todo,
        position,
        version: 1,
        created_at: now,
        updated_at: now,
        modification_logs: seq![
            LogView {
                version: 1,
                operation: ModificationOperation::Created,
                timestamp: now,
                detail: creation_detail(),
            },
        ],
    }
}

/// `c` after one more change: the version goes up by one, the change is
/// logged under the new version, and `now` becomes the update time.
pub open spec fn with_log(c: CardView, operation: ModificationOperation, detail: Seq<char>, now: i128) -> CardView {
    CardView {
        version: (c.version + 1) as u64,
        updated_at: now,
        modification_logs: c.modification_logs.push(
            LogView { version: (c.version + 1) as u64, operation, timestamp: now, detail },
        ),
        ..c
    }
}

/// The log holds one entry per version, numbered from 1, the first one
/// records the creation, and the card's version is that of its last entry.
pub open spec fn log_consistent(c: CardView) -> bool {
    &&& c.version >= 1
    &&& c.modification_logs.len() == c.version
    &&& forall|i: int|
        0 <= i < c.modification_logs.len() ==> #[trigger] c.modification_logs[i].version == i + 1
    &&& c.modification_logs[0].operation == ModificationOperation::Created
}

impl Card {
    /// A new card in a column, with a fresh id, created now; an internal
    /// error when no fresh id can be drawn.
    pub fn new(column_id: String, title: String, description: String, position: i32) -> (r: Result<Self, AppError>)
        ensures
            r is Ok ==> r->Ok_0@ == new_card_view(r->Ok_0@.id, column_id@, title@, description@, position, r->Ok_0@.created_at),
            r is Ok ==> r->Ok_0@.id.len() == 36,
            r is Err ==> r->Err_0@ is Internal,
    {
        let id = match fresh_id() {
            Ok(id) => id,
            Err(e) => {
                return Err(e);
            },
        };
        let now = now_nanos();
        let detail = String::from_str("카드 생성");
        let log = ModificationLog {
            version: 1,
            operation: ModificationOperation::Created,
            timestamp: now,
            detail,
        };
        let mut logs: Vec<ModificationLog> = Vec::new();
        logs.push(log);
        let c = Card {
            id,
            column_id,
            title,
            description,
            status: CardStatus::default(),
            position,
            version: 1,
            created_at: now,
            updated_at: now,
            modification_logs: logs,
        };
        assert(c@ =~= new_card_view(c@.id, c@.column_id, c@.title, c@.description, position, now));
        Ok(c)
    }

    /// Records a change: raises the version by one, stamps the update time and
    /// appends a log entry under the new version.
    pub fn push_log(&mut self, operation: ModificationOperation, detail: String)
        requires
            old(self).version < u64::MAX,
        ensures
            final(self)@ == with_log(old(self)@, operation, detail@, final(self)@.updated_at),
    {
        let now = now_nanos();
        self.version = self.version + 1;
        self.updated_at = now;
        let log = ModificationLog { version: self.version, operation, timestamp: now, detail };
        self.modification_logs.push(log);
        proof {
            let v = with_log(old(self)@, operation, log@.detail, now);
            assert(self@.modification_logs =~= v.modification_logs);
            assert(self@ =~= v);
        }
    }
}

/// A new card's log is consistent.
pub proof fn law_new_card_log_consistent(
    id: Seq<char>,
    column_id: Seq<char>,
    title: Seq<char>,
    description: Seq<char>,
    position: i32,
    now: i128,
)
    ensures
        log_consistent(new_card_view(id, column_id, title, description, position, now)),
{
}

/// Recording a change keeps a card's log consistent, while its version has
/// room to grow.
pub proof fn law_with_log_keeps_log_consistent(c: CardView, operation: ModificationOperation, detail: Seq<char>, now: i128)
    requires
        log_consistent(c),
        c.version < u64::MAX,
    ensures
        log_consistent(with_log(c, operation, detail, now)),
{
}

// ===================== audit log =====================

/// An entry of a board's audit trail: who did what to which record.
#[derive(Debug)]
pub struct AuditLog {
    pub id: String,
    pub board_id: String,
    pub actor_nickname: String,
    pub action: String,
    pub target_type: String,
    pub target_id: String,
    pub timestamp: i128,
    pub detail: String,
}

#[verifier::ext_equal]
pub struct AuditView {
    pub id: Seq<char>,
    pub board_id: Seq<char>,
    pub actor_nickname: Seq<char>,
    pub action: Seq<char>,
    pub target_type: Seq<char>,
    pub target_id: Seq<char>,
    pub timestamp: i128,
    pub detail: Seq<char>,
}

impl View for AuditLog {
    type V = AuditView;

    open spec fn view(&self) -> AuditView {
        AuditView {
            id: self.id@,
            board_id: self.board_id@,
            actor_nickname: self.actor_nickname@,
            action: self.action@,
            target_type: self.target_type@,
            target_id: self.target_id@,
            timestamp: self.timestamp,
            detail: self.detail@,
        }
    }
}

impl Clone for AuditLog {
    fn clone(&self) -> (r: Self)
        ensures
            r@ == self@,
    {
        AuditLog {
            id: self.id.clone(),
            board_id: self.board_id.clone(),
            actor_nickname: self.actor_nickname.clone(),
            action: self.action.clone(),
            target_type: self.target_type.clone(),
            target_id: self.target_id.clone(),
            timestamp: self.timestamp,
            detail: self.detail.clone(),
        }
    }
}

pub open spec fn audits_view(v: Seq<AuditLog>) -> Seq<AuditView> {
    v.map_values(|a: AuditLog| a@)
}

impl AuditLog {
    /// A new audit entry with a fresh id, stamped now; an internal error when
    /// no fresh id can be drawn.
    pub fn new(
        board_id: String,
        actor_nickname: String,
        action: String,
        target_type: String,
        target_id: String,
        detail: String,
    ) -> (r: Result<Self, AppError>)
        ensures
            r is Ok ==> {
                let a = r->Ok_0@;
                &&& a.board_id == board_id@
                &&& a.actor_nickname == actor_nickname@
                &&& a.action == action@
                &&& a.target_type == target_type@
                &&& a.target_id == target_id@
                &&& a.detail == detail@
                &&& a.id.len() == 36
            },
            r is Err ==> r->Err_0@ is Internal,
    {
        match fresh_id() {
            Ok(id) => Ok(AuditLog::with_id(id, board_id, actor_nickname, action, target_type, target_id, detail)),
            Err(e) => Err(e),
        }
    }

    /// A new audit entry under an id drawn beforehand, stamped now.
    pub(crate) fn with_id(
        id: String,
        board_id: String,
        actor_nickname: String,
        action: String,
        target_type: String,
        target_id: String,
        detail: String,
    ) -> (a: Self)
        ensures
            a@.id == id@,
            a@.board_id == board_id@,
            a@.actor_nickname == actor_nickname@,
            a@.action == action@,
            a@.target_type == target_type@,
            a@.target_id == target_id@,
            a@.detail == detail@,
    {
        AuditLog {
            id,
            board_id,
            actor_nickname,
            action,
            target_type,
            target_id,
            timestamp: now_nanos(),
            detail,
        }
    }
}

// ===================== requests and responses =====================

pub struct CreateBoardRequest {
    pub title: String,
    pub actor_nickname: Option<String>,
}

pub struct ActorRequest {
    pub actor_nickname: Option<String>,
}

pub struct CreateColumnRequest {
    pub title: String,
    pub actor_nickname: Option<String>,
}

pub struct CreateCardRequest {
    pub title: String,
    pub description: String,
    pub actor_nickname: Option<String>,
}

/// A change of a card's fields; `version` is the version the client holds.
pub struct UpdateCardRequest {
    pub title: Option<String>,
    pub description: Option<String>,
    pub status: Option<CardStatus>,
    pub version: u64,
    pub actor_nickname: Option<String>,
}

pub struct UpdateCardView {
    pub title: Option<Seq<char>>,
    pub description: Option<Seq<char>>,
    pub status: Option<CardStatus>,
    pub version: u64,
    pub actor_nickname: Option<Seq<char>>,
}

impl View for UpdateCardRequest {
    type V = UpdateCardView;

    open spec fn view(&self) -> UpdateCardView {
        UpdateCardView {
            title: opt_view(self.title),
            description: opt_view(self.description),
            status: self.status,
            version: self.version,
            actor_nickname: opt_view(self.actor_nickname),
        }
    }
}

pub struct UpdateCardStatusRequest {
    pub status: CardStatus,
    pub version: u64,
    pub actor_nickname: Option<String>,
}

pub struct UpdateCardStatusView {
    pub status: CardStatus,
    pub version: u64,
    pub actor_nickname: Option<Seq<char>>,
}

impl View for UpdateCardStatusRequest {
    type V = UpdateCardStatusView;

    open spec fn view(&self) -> UpdateCardStatusView {
        UpdateCardStatusView {
            status: self.status,
            version: self.version,
            actor_nickname: opt_view(self.actor_nickname),
        }
    }
}

/// A move of a card to a position in another (or the same) column.
pub struct MoveCardRequest {
    pub target_column_id: String,
    pub target_position: i32,
    pub version: u64,
    pub actor_nickname: Option<String>,
}

pub struct MoveCardView {
    pub target_column_id: Seq<char>,
    pub target_position: i32,
    pub version: u64,
    pub actor_nickname: Option<Seq<char>>,
}

impl View for MoveCardRequest {
    type V = MoveCardView;

    open spec fn view(&self) -> MoveCardView {
        MoveCardView {
            target_column_id: self.target_column_id@,
            target_position: self.target_position,
            version: self.version,
            actor_nickname: opt_view(self.actor_nickname),
        }
    }
}

/// A move of a card to another position in its column.
pub struct ReorderCardRequest {
    pub target_position: i32,
    pub version: u64,
    pub actor_nickname: Option<String>,
}

pub struct ReorderCardView {
    pub target_position: i32,
    pub version: u64,
    pub actor_nickname: Option<Seq<char>>,
}

impl View for ReorderCardRequest {
    type V = ReorderCardView;

    open spec fn view(&self) -> ReorderCardView {
        ReorderCardView {
            target_position: self.target_position,
            version: self.version,
            actor_nickname: opt_view(self.actor_nickname),
        }
    }
}

/// A board with its columns, each with its cards, in position order.
#[derive(Debug)]
pub struct BoardDetailResponse {
    pub board: Board,
    pub columns: Vec<ColumnWithCards>,
}

#[derive(Debug)]
pub struct ColumnWithCards {
    pub column: Column,
    pub cards: Vec<Card>,
}

pub struct ColumnWithCardsView {
    pub column: ColumnView,
    pub cards: Seq<CardView>,
}

impl View for ColumnWithCards {
    type V = ColumnWithCardsView;

    open spec fn view(&self) -> ColumnWithCardsView {
        ColumnWithCardsView { column: self.column@, cards: cards_view(self.cards@) }
    }
}

pub struct BoardDetailView {
    pub board: BoardView,
    pub columns: Seq<ColumnWithCardsView>,
}

impl View for BoardDetailResponse {
    type V = BoardDetailView;

    open spec fn view(&self) -> BoardDetailView {
        BoardDetailView {
            board: self.board@,
            columns: self.columns@.map_values(|c: ColumnWithCards| c@),
        }
    }
}

/// The body of an error answer.
#[derive(Debug)]
pub struct ErrorResponse {
    pub error: String,
    pub code: String,
}

// ===================== events =====================

/// A change of the board's state, as it is broadcast and written ahead.
#[derive(Debug)]
pub enum WsEvent {
    BoardCreated { board: Board },
    BoardDeleted { board_id: String },
    AuditLogged { log: AuditLog },
    CardCreated { card: Card },
    CardUpdated { card: Card },
    CardDeleted { card_id: String },
    CardMoved { card: Card },
    CardStatusChanged { card: Card },
    CardReordered { card: Card },
    ColumnCreated { column: Column },
    ColumnDeleted { column_id: String },
}

pub enum WsEventView {
    BoardCreated { board: BoardView },
    BoardDeleted { board_id: Seq<char> },
    AuditLogged { log: AuditView },
    CardCreated { card: CardView },
    CardUpdated { card: CardView },
    CardDeleted { card_id: Seq<char> },
    CardMoved { card: CardView },
    CardStatusChanged { card: CardView },
    CardReordered { card: CardView },
    ColumnCreated { column: ColumnView },
    ColumnDeleted { column_id: Seq<char> },
}

impl View for WsEvent {
    type V = WsEventView;

    open spec fn view(&self) -> WsEventView {
        match self {
            WsEvent::BoardCreated { board } => WsEventView::BoardCreated { board: board@ },
            WsEvent::BoardDeleted { board_id } => WsEventView::BoardDeleted { board_id: board_id@ },
            WsEvent::AuditLogged { log } => WsEventView::AuditLogged { log: log@ },
            WsEvent::CardCreated { card } => WsEventView::CardCreated { card: card@ },
            WsEvent::CardUpdated { card } => WsEventView::CardUpdated { card: card@ },
            WsEvent::CardDeleted { card_id } => WsEventView::CardDeleted { card_id: card_id@ },
            WsEvent::CardMoved { card } => WsEventView::CardMoved { card: card@ },
            WsEvent::CardStatusChanged { card } => WsEventView::CardStatusChanged { card: card@ },
            WsEvent::CardReordered { card } => WsEventView::CardReordered { card: card@ },
            WsEvent::ColumnCreated { column } => WsEventView::ColumnCreated { column: column@ },
            WsEvent::ColumnDeleted { column_id } => WsEventView::ColumnDeleted {
                column_id: column_id@,
            },
        }
    }
}

pub open spec fn events_view(v: Seq<WsEvent>) -> Seq<WsEventView> {
    v.map_values(|e: WsEvent| e@)
}

} // verus!
