use collab_board::ambient::id_from_random;
use collab_board::errors::AppError;
use collab_board::models::{
    AuditLog, Board, Card, Column,
    default_actor_nickname, normalize_actor, CardStatus, ModificationOperation, MoveCardRequest,
    ReorderCardRequest, UpdateCardRequest, UpdateCardStatusRequest, WsEvent,
};
use collab_board::store::AppState;
use collab_board::text::{i32_to_decimal, trim, u64_to_decimal};
use collab_board::wal::{is_blank_line, replay_lines, WalLine};

fn event_name(e: &WsEvent) -> &'static str {
    match e {
        WsEvent::BoardCreated { .. } => "board_created",
        WsEvent::BoardDeleted { .. } => "board_deleted",
        WsEvent::AuditLogged { .. } => "audit_logged",
        WsEvent::CardCreated { .. } => "card_created",
        WsEvent::CardUpdated { .. } => "card_updated",
        WsEvent::CardDeleted { .. } => "card_deleted",
        WsEvent::CardMoved { .. } => "card_moved",
        WsEvent::CardStatusChanged { .. } => "card_status_changed",
        WsEvent::CardReordered { .. } => "card_reordered",
        WsEvent::ColumnCreated { .. } => "column_created",
        WsEvent::ColumnDeleted { .. } => "column_deleted",
    }
}

#[test]
fn actor_is_trimmed_or_anonymous() {
    assert_eq!(default_actor_nickname(), "anonymous");
    assert_eq!(normalize_actor(None), "anonymous");
    assert_eq!(normalize_actor(Some("  bob \t".into())), "bob");
    assert_eq!(normalize_actor(Some("   ".into())), "anonymous");
    assert_eq!(normalize_actor(Some("".into())), "anonymous");
    assert_eq!(normalize_actor(Some("\u{3000}김 철수\u{a0}\n".into())), "김 철수");
}

#[test]
fn trim_matches_str_trim() {
    for s in ["", " ", " a ", "a b", "\u{2003}x\u{2028}", "\u{85}\u{1680}y", "z"] {
        assert_eq!(trim(s), s.trim());
    }
}

#[test]
fn decimals_match_to_string() {
    assert_eq!(u64_to_decimal(0), "0");
    assert_eq!(u64_to_decimal(1234567890), "1234567890");
    assert_eq!(u64_to_decimal(u64::MAX), u64::MAX.to_string());
    assert_eq!(i32_to_decimal(-42), "-42");
    assert_eq!(i32_to_decimal(7), "7");
    assert_eq!(i32_to_decimal(i32::MIN), "-2147483648");
    assert_eq!(i32_to_decimal(i32::MAX), "2147483647");
}

#[test]
fn status_labels_and_default() {
    assert_eq!(CardStatus::default(), CardStatus::Todo);
    assert_eq!(CardStatus::Todo.label(), "미진행");
    assert_eq!(CardStatus::InProgress.label(), "진행중");
    assert_eq!(CardStatus::Done.label(), "완료");
}

#[test]
fn errors_report_status_code_and_message() {
    let e = AppError::BoardNotFound("b1".into());
    assert_eq!((e.status_code(), e.code(), e.message().as_str()), (404, "BOARD_NOT_FOUND", "Board not found: b1"));
    let e = AppError::ColumnNotFound("c1".into());
    assert_eq!((e.status_code(), e.code(), e.message().as_str()), (404, "COLUMN_NOT_FOUND", "Column not found: c1"));
    let e = AppError::CardNotFound("k1".into());
    assert_eq!((e.status_code(), e.code(), e.message().as_str()), (404, "CARD_NOT_FOUND", "Card not found: k1"));
    let e = AppError::VersionConflict { expected: 1, actual: 2 };
    assert_eq!(
        (e.status_code(), e.code(), e.message().as_str()),
        (409, "VERSION_CONFLICT", "Version conflict: expected 1, got 2")
    );
    let e = AppError::InvalidPosition("-1".into());
    assert_eq!((e.status_code(), e.code(), e.message().as_str()), (400, "INVALID_POSITION", "Invalid position: -1"));
    let e = AppError::Internal("oops".into());
    assert_eq!((e.status_code(), e.code(), e.message().as_str()), (500, "INTERNAL_ERROR", "Internal error: oops"));
    let body = AppError::CardNotFound("x".into()).to_response();
    assert_eq!(body.error, "Card not found: x");
    assert_eq!(body.code, "CARD_NOT_FOUND");
}

#[test]
fn board_gets_fresh_id_owner_and_audit_entry() {
    let mut state = AppState::new();
    let a = state.create_board_as("A".into(), Some("  lee ".into())).unwrap();
    let b = state.create_board("B".into()).unwrap();
    assert_eq!(a.id.len(), 36);
    assert_eq!(b.id.len(), 36);
    assert_ne!(a.id, b.id);
    assert_eq!(a.owner_nickname, "lee");
    assert_eq!(b.owner_nickname, "anonymous");
    assert_eq!(a.created_at, a.updated_at);
    assert!(a.created_at > 0);

    let logs = state.get_board_audit_logs(&a.id).unwrap();
    assert_eq!(logs.len(), 1);
    assert_eq!(logs[0].action, "board_created");
    assert_eq!(logs[0].target_type, "board");
    assert_eq!(logs[0].target_id, a.id);
    assert_eq!(logs[0].actor_nickname, "lee");
    assert_eq!(logs[0].detail, "board \"A\" created");
    assert_eq!(logs[0].id.len(), 36);

    assert!(matches!(state.get_board_audit_logs("nope"), Err(AppError::BoardNotFound(id)) if id == "nope"));
}

#[test]
fn boards_are_listed_oldest_first() {
    let mut state = AppState::new();
    let mut ids = Vec::new();
    for i in 0..5 {
        ids.push(state.create_board(format!("b{}", i)).unwrap().id);
    }
    let listed = state.list_boards();
    assert_eq!(listed.len(), 5);
    for w in listed.windows(2) {
        assert!(w[0].created_at <= w[1].created_at);
    }
    for id in &ids {
        assert!(listed.iter().any(|b| &b.id == id));
    }
}

#[test]
fn columns_get_consecutive_positions() {
    let mut state = AppState::new();
    let board = state.create_board("B".into()).unwrap();
    let c0 = state.create_column(&board.id, "x".into()).unwrap();
    let c1 = state.create_column(&board.id, "y".into()).unwrap();
    let c2 = state.create_column_as(&board.id, "z".into(), Some("kim".into())).unwrap();
    assert_eq!((c0.position, c1.position, c2.position), (0, 1, 2));
    assert_eq!(c2.board_id, board.id);
    assert!(matches!(state.create_column("missing", "x".into()), Err(AppError::BoardNotFound(id)) if id == "missing"));
    let logs = state.get_board_audit_logs(&board.id).unwrap();
    assert_eq!(logs.last().unwrap().action, "column_created");
    assert_eq!(logs.last().unwrap().actor_nickname, "kim");
    assert_eq!(logs.last().unwrap().detail, "column \"z\" created");
}

#[test]
fn new_card_is_todo_with_one_log_entry() {
    let mut state = AppState::new();
    let board = state.create_board("B".into()).unwrap();
    let col = state.create_column(&board.id, "C".into()).unwrap();
    let card = state.create_card(&col.id, "T".into(), "D".into()).unwrap();
    assert_eq!(card.version, 1);
    assert_eq!(card.position, 0);
    assert_eq!(card.status, CardStatus::Todo);
    assert_eq!(card.created_at, card.updated_at);
    assert_eq!(card.modification_logs.len(), 1);
    assert_eq!(card.modification_logs[0].version, 1);
    assert_eq!(card.modification_logs[0].operation, ModificationOperation::Created);
    assert_eq!(card.modification_logs[0].detail, "카드 생성");
    assert_eq!(card.modification_logs[0].timestamp, card.created_at);
    assert!(matches!(state.create_card("nope", "T".into(), "".into()), Err(AppError::ColumnNotFound(id)) if id == "nope"));
}

#[test]
fn update_logs_the_listed_changes() {
    let mut state = AppState::new();
    let board = state.create_board("B".into()).unwrap();
    let col = state.create_column(&board.id, "C".into()).unwrap();
    let card = state.create_card(&col.id, "T".into(), "D".into()).unwrap();
    let u = state
        .update_card(
            &card.id,
            UpdateCardRequest {
                title: Some("X".into()),
                description: None,
                status: Some(CardStatus::InProgress),
                version: 1,
                actor_nickname: Some("park".into()),
            },
        )
        .unwrap();
    assert_eq!(u.title, "X");
    assert_eq!(u.description, "D");
    let last = u.modification_logs.last().unwrap();
    assert_eq!(last.detail, "title → \"X\", status → 진행중");
    assert_eq!(last.operation, ModificationOperation::Updated);
    assert_eq!(last.version, 2);
    assert_eq!(last.timestamp, u.updated_at);

    let v = state
        .update_card(
            &card.id,
            UpdateCardRequest { title: None, description: None, status: None, version: 2, actor_nickname: None },
        )
        .unwrap();
    assert_eq!(v.version, 3);
    assert_eq!(v.modification_logs.last().unwrap().detail, "변경 없음");

    let logs = state.get_card_logs(&card.id).unwrap();
    let versions: Vec<u64> = logs.iter().map(|l| l.version).collect();
    assert_eq!(versions, vec![1, 2, 3]);

    let audit = state.get_board_audit_logs(&board.id).unwrap();
    let actions: Vec<&str> = audit.iter().map(|a| a.action.as_str()).collect();
    assert_eq!(actions, vec!["board_created", "column_created", "card_created", "card_updated", "card_updated"]);
    assert_eq!(audit[3].actor_nickname, "park");
    assert_eq!(audit[3].detail, "card \"X\" updated");
}

#[test]
fn stale_version_is_a_conflict_that_changes_nothing() {
    let mut state = AppState::new();
    let board = state.create_board("B".into()).unwrap();
    let col = state.create_column(&board.id, "C".into()).unwrap();
    let card = state.create_card(&col.id, "T".into(), "".into()).unwrap();
    state.take_pending_events();
    let r = state.update_card_status(
        &card.id,
        UpdateCardStatusRequest { status: CardStatus::Done, version: 7, actor_nickname: None },
    );
    assert!(matches!(r, Err(AppError::VersionConflict { expected: 7, actual: 1 })));
    assert_eq!(state.get_card(&card.id).unwrap().status, CardStatus::Todo);
    assert!(state.take_pending_events().is_empty());
    let r = state.move_card(
        &card.id,
        MoveCardRequest { target_column_id: "nowhere".into(), target_position: 0, version: 1, actor_nickname: None },
    );
    assert!(matches!(r, Err(AppError::ColumnNotFound(id)) if id == "nowhere"));
    let r = state.reorder_card("ghost", ReorderCardRequest { target_position: 0, version: 1, actor_nickname: None });
    assert!(matches!(r, Err(AppError::CardNotFound(id)) if id == "ghost"));
}

#[test]
fn move_and_reorder_logs_read_like_the_change() {
    let mut state = AppState::new();
    let board = state.create_board("B".into()).unwrap();
    let a = state.create_column(&board.id, "A".into()).unwrap();
    let b = state.create_column(&board.id, "B".into()).unwrap();
    let k0 = state.create_card(&a.id, "k0".into(), "".into()).unwrap();
    let k1 = state.create_card(&a.id, "k1".into(), "".into()).unwrap();
    let k2 = state.create_card(&a.id, "k2".into(), "".into()).unwrap();

    let r = state
        .reorder_card(&k2.id, ReorderCardRequest { target_position: 0, version: 1, actor_nickname: None })
        .unwrap();
    assert_eq!(r.position, 0);
    assert_eq!(r.modification_logs.last().unwrap().detail, "position 2 → 0");
    assert_eq!(r.modification_logs.last().unwrap().operation, ModificationOperation::Reordered);
    assert_eq!(state.get_card(&k0.id).unwrap().position, 1);
    assert_eq!(state.get_card(&k1.id).unwrap().position, 2);

    // a reorder to the card's own position changes nothing
    let same = state
        .reorder_card(&k0.id, ReorderCardRequest { target_position: 1, version: 1, actor_nickname: None })
        .unwrap();
    assert_eq!(same.version, 1);

    let m = state
        .move_card(
            &k1.id,
            MoveCardRequest { target_column_id: b.id.clone(), target_position: 0, version: 1, actor_nickname: None },
        )
        .unwrap();
    assert_eq!(m.column_id, b.id);
    assert_eq!(
        m.modification_logs.last().unwrap().detail,
        format!("column {} → {}, position 2 → 0", a.id, b.id)
    );
    let audit = state.get_board_audit_logs(&board.id).unwrap();
    assert_eq!(audit.last().unwrap().action, "card_moved");
    assert_eq!(audit.last().unwrap().detail, "card \"k1\" moved");
}

#[test]
fn events_are_announced_in_the_order_of_the_changes() {
    let mut state = AppState::new();
    let board = state.create_board("mixed-test".into()).unwrap();
    let a = state.create_column(&board.id, "A".into()).unwrap();
    let b = state.create_column(&board.id, "B".into()).unwrap();
    state.take_pending_events();
    let card = state.create_card(&a.id, "card".into(), "".into()).unwrap();
    state
        .update_card_status(
            &card.id,
            UpdateCardStatusRequest { status: CardStatus::InProgress, version: 1, actor_nickname: None },
        )
        .unwrap();
    state
        .move_card(
            &card.id,
            MoveCardRequest { target_column_id: b.id.clone(), target_position: 0, version: 2, actor_nickname: None },
        )
        .unwrap();
    let events = state.take_pending_events();
    let names: Vec<&str> = events.iter().map(event_name).collect();
    assert_eq!(names, vec!["card_created", "card_status_changed", "card_moved"]);
    assert!(state.take_pending_events().is_empty());
}

#[test]
fn replaying_announced_events_restores_the_board() {
    let mut state = AppState::new();
    let board = state.create_board("B".into()).unwrap();
    let col = state.create_column(&board.id, "C".into()).unwrap();
    let k0 = state.create_card(&col.id, "k0".into(), "".into()).unwrap();
    let _k1 = state.create_card(&col.id, "k1".into(), "".into()).unwrap();
    state
        .update_card(
            &k0.id,
            UpdateCardRequest { title: Some("new".into()), description: None, status: None, version: 1, actor_nickname: None },
        )
        .unwrap();
    let events = state.take_pending_events();

    let mut replayed = AppState::new();
    replayed.apply_events(events);
    let want = state.get_board_detail(&board.id).unwrap();
    let got = replayed.get_board_detail(&board.id).unwrap();
    assert_eq!(got.board.title, want.board.title);
    assert_eq!(got.columns.len(), want.columns.len());
    for (g, w) in got.columns.iter().zip(want.columns.iter()) {
        assert_eq!(g.column.id, w.column.id);
        let gc: Vec<(String, String, i32, u64)> = g.cards.iter().map(|c| (c.id.clone(), c.title.clone(), c.position, c.version)).collect();
        let wc: Vec<(String, String, i32, u64)> = w.cards.iter().map(|c| (c.id.clone(), c.title.clone(), c.position, c.version)).collect();
        assert_eq!(gc, wc);
    }
}

#[test]
fn deleting_a_board_deletes_its_columns_and_cards_only() {
    let mut state = AppState::new();
    let b1 = state.create_board("one".into()).unwrap();
    let b2 = state.create_board("two".into()).unwrap();
    let c1 = state.create_column(&b1.id, "c1".into()).unwrap();
    let c2 = state.create_column(&b2.id, "c2".into()).unwrap();
    let k1 = state.create_card(&c1.id, "k1".into(), "".into()).unwrap();
    let k2 = state.create_card(&c2.id, "k2".into(), "".into()).unwrap();
    state.delete_board_as(&b1.id, Some("owner".into())).unwrap();
    assert!(state.get_board_detail(&b1.id).is_err());
    assert!(state.get_card(&k1.id).is_err());
    assert!(state.get_card(&k2.id).is_ok());
    assert_eq!(state.get_board_detail(&b2.id).unwrap().columns.len(), 1);
    assert!(matches!(state.delete_board(&b1.id), Err(AppError::BoardNotFound(_))));
    assert!(matches!(state.delete_column(&c1.id), Err(AppError::ColumnNotFound(_))));
    assert!(matches!(state.delete_card(&k1.id), Err(AppError::CardNotFound(_))));
}

#[test]
fn audit_trail_is_appended_and_read_back() {
    let mut state = AppState::new();
    let board = state.create_board("B".into()).unwrap();
    let n = state.audit_count();
    let col = state.create_column(&board.id, "C".into()).unwrap();
    state.create_card(&col.id, "K".into(), "".into()).unwrap();
    let fresh = state.audit_logs_since(n);
    let actions: Vec<&str> = fresh.iter().map(|a| a.action.as_str()).collect();
    assert_eq!(actions, vec!["column_created", "card_created"]);
    assert!(state.audit_logs_since(100).is_empty());

    let mut other = AppState::new();
    other.apply_audit_logs(fresh);
    assert_eq!(other.audit_count(), 2);
}

#[test]
fn wal_replay_stops_at_a_torn_line() {
    let mut state = AppState::new();
    state.create_board("x".into()).unwrap();
    state.create_board("y".into()).unwrap();
    state.create_board("z".into()).unwrap();
    let mut events = state.take_pending_events();
    let third = events.pop().unwrap();
    let second = events.pop().unwrap();
    let first = events.pop().unwrap();
    let lines = vec![
        WalLine::Record(first),
        WalLine::Blank,
        WalLine::Record(second),
        WalLine::Corrupt,
        WalLine::Record(third),
    ];
    let replayed = replay_lines(lines);
    assert_eq!(replayed.len(), 2);
    assert!(matches!(&replayed[0], WsEvent::BoardCreated { board } if board.title == "x"));
    assert!(matches!(&replayed[1], WsEvent::BoardCreated { board } if board.title == "y"));
    assert!(is_blank_line("  \t"));
    assert!(is_blank_line(""));
    assert!(!is_blank_line(" {} "));
}


fn card_summary(state: &AppState, id: &str) -> (String, String, i32, u64, usize) {
    let c = state.get_card(id).unwrap();
    (c.column_id.clone(), c.title.clone(), c.position, c.version, c.modification_logs.len())
}

fn board_summary(state: &AppState, board_id: &str) -> Vec<(String, Vec<(String, i32, u64)>)> {
    let d = state.get_board_detail(board_id).unwrap();
    d.columns
        .iter()
        .map(|cw| (cw.column.id.clone(), cw.cards.iter().map(|c| (c.id.clone(), c.position, c.version)).collect()))
        .collect()
}

#[test]
fn replay_redoes_the_shifts_of_delete_move_and_reorder() {
    let mut state = AppState::new();
    let board = state.create_board("B".into()).unwrap();
    let a = state.create_column(&board.id, "A".into()).unwrap();
    let b = state.create_column(&board.id, "B".into()).unwrap();
    let k0 = state.create_card(&a.id, "k0".into(), "".into()).unwrap();
    let k1 = state.create_card(&a.id, "k1".into(), "".into()).unwrap();
    let k2 = state.create_card(&a.id, "k2".into(), "".into()).unwrap();
    let k3 = state.create_card(&a.id, "k3".into(), "".into()).unwrap();
    let m0 = state.create_card(&b.id, "m0".into(), "".into()).unwrap();
    let mut log = state.take_pending_events();

    state.delete_card(&k0.id).unwrap();
    assert_eq!(state.get_card(&k1.id).unwrap().position, 0);
    state
        .move_card(&k1.id, MoveCardRequest { target_column_id: b.id.clone(), target_position: 0, version: 1, actor_nickname: None })
        .unwrap();
    assert_eq!(state.get_card(&m0.id).unwrap().position, 1);
    assert_eq!(state.get_card(&k2.id).unwrap().position, 0);
    state
        .reorder_card(&k3.id, ReorderCardRequest { target_position: 0, version: 1, actor_nickname: None })
        .unwrap();
    assert_eq!(state.get_card(&k2.id).unwrap().position, 1);
    log.extend(state.take_pending_events());

    let mut replayed = AppState::new();
    replayed.apply_events(log);
    assert_eq!(board_summary(&replayed, &board.id), board_summary(&state, &board.id));
    for id in [&k1.id, &k2.id, &k3.id, &m0.id] {
        assert_eq!(card_summary(&replayed, id), card_summary(&state, id));
    }
    assert!(replayed.get_card(&k0.id).is_err());
    let want: Vec<String> = state.list_boards().iter().map(|x| x.id.clone()).collect();
    let got: Vec<String> = replayed.list_boards().iter().map(|x| x.id.clone()).collect();
    assert_eq!(got, want);
}

#[test]
fn replaying_a_deletion_closes_the_gap() {
    let mut state = AppState::new();
    let board = state.create_board("B".into()).unwrap();
    let col = state.create_column(&board.id, "C".into()).unwrap();
    let k0 = state.create_card(&col.id, "k0".into(), "".into()).unwrap();
    let k1 = state.create_card(&col.id, "k1".into(), "".into()).unwrap();
    let before = state.take_pending_events();
    let mut replayed = AppState::new();
    replayed.apply_events(before);
    state.delete_card(&k0.id).unwrap();
    replayed.apply_events(state.take_pending_events());
    assert_eq!(replayed.get_card(&k1.id).unwrap().position, 0);
    assert_eq!(state.get_card(&k1.id).unwrap().position, 0);
}

#[test]
fn new_card_follows_the_greatest_position_even_below_zero() {
    let mut state = AppState::new();
    let board = state.create_board("B".into()).unwrap();
    let col = state.create_column(&board.id, "C".into()).unwrap();
    let other = state.create_column(&board.id, "D".into()).unwrap();
    let k = state.create_card(&other.id, "k".into(), "".into()).unwrap();
    state
        .move_card(&k.id, MoveCardRequest { target_column_id: col.id.clone(), target_position: -5, version: 1, actor_nickname: None })
        .unwrap();
    let n = state.create_card(&col.id, "n".into(), "".into()).unwrap();
    assert_eq!(n.position, -4);
    let e = state.create_card(&other.id, "e".into(), "".into()).unwrap();
    assert_eq!(e.position, 0);
}

#[test]
fn slot_checks_pass_for_unknown_boards_and_columns() {
    let state = AppState::new();
    assert!(state.column_slot_fits("missing"));
    assert!(state.card_slot_fits("missing"));
}

#[test]
fn move_and_reorder_keep_the_other_cards_in_order() {
    let mut state = AppState::new();
    let board = state.create_board("B".into()).unwrap();
    let a = state.create_column(&board.id, "A".into()).unwrap();
    let b = state.create_column(&board.id, "B".into()).unwrap();
    let ks: Vec<String> = (0..4).map(|i| state.create_card(&a.id, format!("k{i}"), "".into()).unwrap().id).collect();
    let ms: Vec<String> = (0..3).map(|i| state.create_card(&b.id, format!("m{i}"), "".into()).unwrap().id).collect();
    state
        .reorder_card(&ks[1], ReorderCardRequest { target_position: 3, version: 1, actor_nickname: None })
        .unwrap();
    let pa: Vec<i32> = [&ks[0], &ks[2], &ks[3]].iter().map(|id| state.get_card(id).unwrap().position).collect();
    assert_eq!(pa, vec![0, 1, 2]);
    state
        .move_card(&ks[0], MoveCardRequest { target_column_id: b.id.clone(), target_position: 1, version: 1, actor_nickname: None })
        .unwrap();
    let pa: Vec<i32> = [&ks[2], &ks[3], &ks[1]].iter().map(|id| state.get_card(id).unwrap().position).collect();
    assert_eq!(pa, vec![0, 1, 2]);
    let pb: Vec<i32> = ms.iter().map(|id| state.get_card(id).unwrap().position).collect();
    assert_eq!(pb, vec![0, 2, 3]);
    assert_eq!(state.get_card(&ks[0]).unwrap().position, 1);
}

#[test]
fn card_logs_are_numbered_by_version_from_creation() {
    let mut state = AppState::new();
    let board = state.create_board("B".into()).unwrap();
    let a = state.create_column(&board.id, "A".into()).unwrap();
    let b = state.create_column(&board.id, "B".into()).unwrap();
    let k = state.create_card(&a.id, "k".into(), "".into()).unwrap();
    state
        .update_card(&k.id, UpdateCardRequest { title: Some("t".into()), description: None, status: None, version: 1, actor_nickname: None })
        .unwrap();
    state
        .update_card_status(&k.id, UpdateCardStatusRequest { status: CardStatus::Done, version: 2, actor_nickname: None })
        .unwrap();
    state
        .move_card(&k.id, MoveCardRequest { target_column_id: b.id.clone(), target_position: 0, version: 3, actor_nickname: None })
        .unwrap();
    let logs = state.get_card_logs(&k.id).unwrap();
    let card = state.get_card(&k.id).unwrap();
    assert_eq!(logs.len() as u64, card.version);
    assert_eq!(logs[0].operation, ModificationOperation::Created);
    for (i, l) in logs.iter().enumerate() {
        assert_eq!(l.version, i as u64 + 1);
    }
}

#[test]
fn times_keep_nanoseconds() {
    let mut state = AppState::new();
    let board = state.create_board("B".into()).unwrap();
    // nanoseconds since the epoch: well past 10^18 for any date after 2001
    assert!(board.created_at > 1_000_000_000_000_000_000);
}

#[test]
fn ids_are_version_four_uuids_of_the_drawn_bytes() {
    assert_eq!(id_from_random(Some([0u8; 16])).unwrap(), "00000000-0000-4000-8000-000000000000");
    assert_eq!(
        id_from_random(Some([0xffu8; 16])).unwrap(),
        "ffffffff-ffff-4fff-bfff-ffffffffffff"
    );
    let bytes: [u8; 16] = [0x12, 0x34, 0x56, 0x78, 0x9a, 0xbc, 0xde, 0xf0, 0x01, 0x23, 0x45, 0x67, 0x89, 0xab, 0xcd, 0xef];
    assert_eq!(id_from_random(Some(bytes)).unwrap(), "12345678-9abc-4ef0-8123-456789abcdef");
    assert!(matches!(id_from_random(None), Err(AppError::Internal(_))));
}

#[test]
fn constructors_draw_fresh_ids() {
    let b = Board::new("t".into(), "o".into()).unwrap();
    assert_eq!(b.id.len(), 36);
    assert_eq!(b.created_at, b.updated_at);
    let c = Column::new(b.id.clone(), "c".into(), 3).unwrap();
    assert_eq!((c.board_id.as_str(), c.position, c.id.len()), (b.id.as_str(), 3, 36));
    let k = Card::new(c.id.clone(), "k".into(), "d".into(), 2).unwrap();
    assert_eq!((k.position, k.version, k.modification_logs.len()), (2, 1, 1));
    let a = AuditLog::new(b.id.clone(), "x".into(), "act".into(), "board".into(), b.id.clone(), "d".into()).unwrap();
    assert_eq!(a.id.len(), 36);
    assert_ne!(a.id, b.id);
}
