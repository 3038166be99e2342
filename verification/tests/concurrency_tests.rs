//! Concurrency and consistency scenarios of the board. Every change takes the
//! state exclusively, so requests that race are applied one after the other;
//! these tests apply them in one such order.

use collab_board::errors::AppError;
use collab_board::models::{
    Card, CardStatus, MoveCardRequest, ReorderCardRequest, UpdateCardRequest,
    UpdateCardStatusRequest,
};
use collab_board::store::AppState;

/// A board with one column holding `card_count` cards.
fn setup_board_with_cards(state: &mut AppState, card_count: usize) -> (String, String, Vec<Card>) {
    let board = state.create_board("Test Board".into()).unwrap();
    let column = state.create_column(&board.id, "Test Column".into()).unwrap();
    let mut cards = Vec::new();
    for i in 0..card_count {
        let card = state
            .create_card(&column.id, format!("Card {}", i), format!("Desc {}", i))
            .unwrap();
        cards.push(card);
    }
    (board.id, column.id, cards)
}

#[test]
fn test_concurrent_card_update_version_conflict() {
    let mut state = AppState::new();
    let (_, _col_id, cards) = setup_board_with_cards(&mut state, 1);
    let card = &cards[0];
    let card_id = card.id.clone();
    let initial_version = card.version;

    let result_a = state.update_card(
        &card_id,
        UpdateCardRequest {
            title: Some("Updated by A".into()),
            description: None,
            status: None,
            version: initial_version,
            actor_nickname: None,
        },
    );
    let result_b = state.update_card(
        &card_id,
        UpdateCardRequest {
            title: Some("Updated by B".into()),
            description: None,
            status: None,
            version: initial_version,
            actor_nickname: None,
        },
    );

    let success_count = [&result_a, &result_b].iter().filter(|r| r.is_ok()).count();
    let conflict_count = [&result_a, &result_b]
        .iter()
        .filter(|r| matches!(r, Err(AppError::VersionConflict { .. })))
        .count();

    assert_eq!(success_count, 1, "정확히 하나의 수정만 성공해야 함");
    assert_eq!(conflict_count, 1, "정확히 하나의 수정은 충돌이어야 함");

    let final_card = state.get_card(&card_id).unwrap();
    assert_eq!(final_card.version, 2, "버전이 1 증가해야 함");
}

#[test]
fn test_sequential_card_updates_succeed() {
    let mut state = AppState::new();
    let (_, _, cards) = setup_board_with_cards(&mut state, 1);
    let card_id = cards[0].id.clone();

    let updated = state
        .update_card(
            &card_id,
            UpdateCardRequest {
                title: Some("First update".into()),
                description: None,
                status: None,
                version: 1,
                actor_nickname: None,
            },
        )
        .unwrap();
    assert_eq!(updated.version, 2);

    let updated = state
        .update_card(
            &card_id,
            UpdateCardRequest {
                title: Some("Second update".into()),
                description: None,
                status: None,
                version: 2,
                actor_nickname: None,
            },
        )
        .unwrap();
    assert_eq!(updated.version, 3);
    assert_eq!(updated.title, "Second update");
}

#[test]
fn test_concurrent_move_and_delete() {
    let mut state = AppState::new();
    let board = state.create_board("Board".into()).unwrap();
    let col_a = state.create_column(&board.id, "Col A".into()).unwrap();
    let col_b = state.create_column(&board.id, "Col B".into()).unwrap();
    let card = state.create_card(&col_a.id, "Card".into(), "".into()).unwrap();

    let card_id = card.id.clone();
    let version = card.version;

    let result_move = state.move_card(
        &card_id,
        MoveCardRequest {
            target_column_id: col_b.id.clone(),
            target_position: 0,
            version,
            actor_nickname: None,
        },
    );
    let result_delete = state.delete_card(&card_id);

    let total_success = result_move.is_ok() as usize + result_delete.is_ok() as usize;
    assert!(total_success >= 1, "최소 하나의 작업은 성공해야 함");

    if result_delete.is_ok() {
        assert!(state.get_card(&card_id).is_err());
    }
}

#[test]
fn test_concurrent_card_creation_position_integrity() {
    let mut state = AppState::new();
    let board = state.create_board("Board".into()).unwrap();
    let column = state.create_column(&board.id, "Column".into()).unwrap();
    let col_id = column.id.clone();

    let num_tasks = 20;
    let mut created_cards = Vec::new();
    for i in 0..num_tasks {
        let result = state.create_card(&col_id, format!("Card {}", i), "".into());
        assert!(result.is_ok(), "모든 카드 생성이 성공해야 함");
        created_cards.push(result.unwrap());
    }

    let mut positions: Vec<i32> = created_cards.iter().map(|c| c.position).collect();
    positions.sort();
    positions.dedup();
    assert_eq!(positions.len(), num_tasks, "모든 카드의 position이 고유해야 함 (중복 없음)");

    for (i, pos) in positions.iter().enumerate() {
        assert_eq!(*pos, i as i32, "position이 연속적이어야 함");
    }
}

#[test]
fn test_concurrent_reorder_version_conflict() {
    let mut state = AppState::new();
    let (_, _col_id, cards) = setup_board_with_cards(&mut state, 5);
    let target_card = &cards[2];
    let card_id = target_card.id.clone();
    let version = target_card.version;

    let r1 = state.reorder_card(
        &card_id,
        ReorderCardRequest { target_position: 0, version, actor_nickname: None },
    );
    let r2 = state.reorder_card(
        &card_id,
        ReorderCardRequest { target_position: 4, version, actor_nickname: None },
    );

    let success = r1.is_ok() as usize + r2.is_ok() as usize;
    assert_eq!(success, 1, "정확히 하나의 순서 변경만 성공해야 함");
}

#[test]
fn test_position_consistency_after_delete() {
    let mut state = AppState::new();
    let (board_id, _col_id, cards) = setup_board_with_cards(&mut state, 5);

    state.delete_card(&cards[2].id).unwrap();

    let detail = state.get_board_detail(&board_id).unwrap();
    let remaining_cards = &detail.columns[0].cards;

    assert_eq!(remaining_cards.len(), 4);
    for (i, card) in remaining_cards.iter().enumerate() {
        assert_eq!(card.position, i as i32, "삭제 후 position이 연속적이어야 함");
    }
}

#[test]
fn test_deleted_card_not_accessible() {
    let mut state = AppState::new();
    let (_, _, cards) = setup_board_with_cards(&mut state, 1);
    let card_id = cards[0].id.clone();

    state.delete_card(&card_id).unwrap();

    assert!(state.get_card(&card_id).is_err());

    assert!(state
        .update_card(
            &card_id,
            UpdateCardRequest {
                title: Some("Ghost".into()),
                description: None,
                status: None,
                version: 1,
                actor_nickname: None,
            },
        )
        .is_err());

    assert!(state
        .move_card(
            &card_id,
            MoveCardRequest {
                target_column_id: "any".into(),
                target_position: 0,
                version: 1,
                actor_nickname: None,
            },
        )
        .is_err());
}

#[test]
fn test_column_delete_cascades_cards() {
    let mut state = AppState::new();
    let (_, col_id, cards) = setup_board_with_cards(&mut state, 3);

    state.delete_column(&col_id).unwrap();

    for card in &cards {
        assert!(state.get_card(&card.id).is_err(), "컬럼 삭제 시 카드도 삭제되어야 함");
    }
}

#[test]
fn test_move_card_position_integrity() {
    let mut state = AppState::new();
    let board = state.create_board("Board".into()).unwrap();
    let col_a = state.create_column(&board.id, "A".into()).unwrap();
    let col_b = state.create_column(&board.id, "B".into()).unwrap();

    let _c0 = state.create_card(&col_a.id, "C0".into(), "".into()).unwrap();
    let c1 = state.create_card(&col_a.id, "C1".into(), "".into()).unwrap();
    let _c2 = state.create_card(&col_a.id, "C2".into(), "".into()).unwrap();

    let _b0 = state.create_card(&col_b.id, "B0".into(), "".into()).unwrap();
    let _b1 = state.create_card(&col_b.id, "B1".into(), "".into()).unwrap();

    state
        .move_card(
            &c1.id,
            MoveCardRequest {
                target_column_id: col_b.id.clone(),
                target_position: 1,
                version: c1.version,
                actor_nickname: None,
            },
        )
        .unwrap();

    let detail = state.get_board_detail(&board.id).unwrap();

    let col_a_cards = &detail.columns[0].cards;
    assert_eq!(col_a_cards.len(), 2);
    assert_eq!(col_a_cards[0].position, 0);
    assert_eq!(col_a_cards[1].position, 1);

    let col_b_cards = &detail.columns[1].cards;
    assert_eq!(col_b_cards.len(), 3);
    for (i, card) in col_b_cards.iter().enumerate() {
        assert_eq!(card.position, i as i32);
    }
}

#[test]
fn test_high_concurrency_mixed_operations() {
    let mut state = AppState::new();
    let board = state.create_board("Load Test".into()).unwrap();
    let column = state.create_column(&board.id, "Col".into()).unwrap();
    let col_id = column.id.clone();

    let mut card_ids = Vec::new();
    for i in 0..50 {
        let card = state.create_card(&col_id, format!("Card {}", i), "".into()).unwrap();
        card_ids.push(card.id);
    }
    assert_eq!(card_ids.len(), 50);

    for id in card_ids.iter().take(10) {
        state.delete_card(id).unwrap();
    }

    let detail = state.get_board_detail(&board.id).unwrap();
    let remaining = &detail.columns[0].cards;
    assert_eq!(remaining.len(), 40, "삭제 후 40개 카드가 남아야 함");

    for (i, card) in remaining.iter().enumerate() {
        assert_eq!(card.position, i as i32, "부하 테스트 후에도 position이 연속적이어야 함");
    }
}

#[test]
fn test_card_default_status_is_todo() {
    let mut state = AppState::new();
    let (_, _, cards) = setup_board_with_cards(&mut state, 1);
    assert_eq!(cards[0].status, CardStatus::Todo);
}

#[test]
fn test_card_status_transitions() {
    let mut state = AppState::new();
    let (_, _, cards) = setup_board_with_cards(&mut state, 1);
    let card_id = cards[0].id.clone();

    let updated = state
        .update_card_status(
            &card_id,
            UpdateCardStatusRequest { status: CardStatus::InProgress, version: 1, actor_nickname: None },
        )
        .unwrap();
    assert_eq!(updated.status, CardStatus::InProgress);
    assert_eq!(updated.version, 2);

    let updated = state
        .update_card_status(
            &card_id,
            UpdateCardStatusRequest { status: CardStatus::Done, version: 2, actor_nickname: None },
        )
        .unwrap();
    assert_eq!(updated.status, CardStatus::Done);
    assert_eq!(updated.version, 3);

    let updated = state
        .update_card_status(
            &card_id,
            UpdateCardStatusRequest { status: CardStatus::Todo, version: 3, actor_nickname: None },
        )
        .unwrap();
    assert_eq!(updated.status, CardStatus::Todo);
    assert_eq!(updated.version, 4);
}

#[test]
fn test_concurrent_status_update_version_conflict() {
    let mut state = AppState::new();
    let (_, _, cards) = setup_board_with_cards(&mut state, 1);
    let card_id = cards[0].id.clone();
    let version = cards[0].version;

    let r1 = state.update_card_status(
        &card_id,
        UpdateCardStatusRequest { status: CardStatus::InProgress, version, actor_nickname: None },
    );
    let r2 = state.update_card_status(
        &card_id,
        UpdateCardStatusRequest { status: CardStatus::Done, version, actor_nickname: None },
    );

    let success = r1.is_ok() as usize + r2.is_ok() as usize;
    assert_eq!(success, 1, "동시 상태 변경 시 하나만 성공해야 함");

    let final_card = state.get_card(&card_id).unwrap();
    assert_eq!(final_card.version, 2);
    assert!(
        final_card.status == CardStatus::InProgress || final_card.status == CardStatus::Done,
        "성공한 쪽의 상태가 반영되어야 함"
    );
}

#[test]
fn test_update_card_with_status_field() {
    let mut state = AppState::new();
    let (_, _, cards) = setup_board_with_cards(&mut state, 1);
    let card_id = cards[0].id.clone();

    let updated = state
        .update_card(
            &card_id,
            UpdateCardRequest {
                title: Some("Updated title".into()),
                description: None,
                status: Some(CardStatus::InProgress),
                version: 1,
                actor_nickname: None,
            },
        )
        .unwrap();

    assert_eq!(updated.title, "Updated title");
    assert_eq!(updated.status, CardStatus::InProgress);
    assert_eq!(updated.version, 2);
}
