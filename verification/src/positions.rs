//! Card positions within a column.
//!
//! A column is *dense* when its cards' positions are distinct, not negative,
//! and each positive position directly follows another one; listed in
//! position order, its cards then stand at 0, 1, ..., n - 1
//! (`lemma_dense_listing`). The laws below show that every change of the
//! board keeps every dense column dense, as long as the target positions of
//! moves and reorders lie within the column, and that moves and reorders
//! keep the other cards of a column in their order.
use vstd::prelude::*;

use crate::keyed::{has_key, key_index, lemma_key_index, lookup, unique_keys, Keyed};
use crate::errors::AppErrorView;
use crate::models::{
    BoardDetailView, Card, CardView, MoveCardView, ReorderCardView, UpdateCardStatusView,
    UpdateCardView,
};
use crate::ordering::{sorted_by_key, OrderedRecord};
use crate::keyed::{lemma_filter_contains, lemma_filter_unique, lemma_map_lookup, without_key};
use crate::store::{
    after_entering, after_leaving, after_reordering, board_detail_post, cards_of_column,
    column_in_board, create_card_post, delete_board_post, delete_card_post, delete_column_post,
    max_card_position, move_card_post, move_room, next_card_position, reorder_card_post, shift_cards, shifted,
    update_card_post, update_card_status_post, AppStateView,
};

verus! {

broadcast use vstd::seq_lib::group_to_multiset_ensures;

/// Index `i` of `cards` holds a card of column `col`.
pub open spec fn in_col(cards: Seq<CardView>, i: int, col: Seq<char>) -> bool {
    0 <= i < cards.len() && cards[i].column_id == col
}

/// Some card of column `col` has position `p`.
pub open spec fn taken(cards: Seq<CardView>, col: Seq<char>, p: int) -> bool {
    exists|j: int| #[trigger] in_col(cards, j, col) && cards[j].position == p
}

/// The positions of column `col` are exactly 0, 1, ..., n - 1.
pub open spec fn dense(cards: Seq<CardView>, col: Seq<char>) -> bool {
    &&& forall|i: int| #[trigger] in_col(cards, i, col) ==> cards[i].position >= 0
    &&& forall|i: int, j: int|
        #![trigger in_col(cards, i, col), in_col(cards, j, col)]
        in_col(cards, i, col) && in_col(cards, j, col) && i != j ==> cards[i].position
            != cards[j].position
    &&& forall|i: int|
        #[trigger] in_col(cards, i, col) && cards[i].position > 0 ==> taken(
            cards,
            col,
            cards[i].position - 1,
        )
}

/// Index `i` holds a card of column `col` other than card `x`.
pub open spec fn in_col_except(cards: Seq<CardView>, i: int, col: Seq<char>, x: Seq<char>) -> bool {
    in_col(cards, i, col) && cards[i].id != x
}

/// Some card of column `col` other than `x` has position `p`.
pub open spec fn taken_except(cards: Seq<CardView>, col: Seq<char>, x: Seq<char>, p: int) -> bool {
    exists|j: int| #[trigger] in_col_except(cards, j, col, x) && cards[j].position == p
}

/// Column `col` without card `x` is dense.
pub open spec fn dense_except(cards: Seq<CardView>, col: Seq<char>, x: Seq<char>) -> bool {
    &&& forall|i: int| #[trigger] in_col_except(cards, i, col, x) ==> cards[i].position >= 0
    &&& forall|i: int, j: int|
        #![trigger in_col_except(cards, i, col, x), in_col_except(cards, j, col, x)]
        in_col_except(cards, i, col, x) && in_col_except(cards, j, col, x) && i != j
            ==> cards[i].position != cards[j].position
    &&& forall|i: int|
        #[trigger] in_col_except(cards, i, col, x) && cards[i].position > 0 ==> taken_except(
            cards,
            col,
            x,
            cards[i].position - 1,
        )
}

/// Column `col` without card `x` is dense except for a free slot at `b`:
/// its positions are 0, ..., n with `b` left out.
pub open spec fn dense_with_slot(cards: Seq<CardView>, col: Seq<char>, x: Seq<char>, b: int) -> bool {
    &&& b >= 0
    &&& forall|i: int| #[trigger] in_col_except(cards, i, col, x) ==> cards[i].position >= 0 && cards[i].position != b
    &&& forall|i: int, j: int|
        #![trigger in_col_except(cards, i, col, x), in_col_except(cards, j, col, x)]
        in_col_except(cards, i, col, x) && in_col_except(cards, j, col, x) && i != j
            ==> cards[i].position != cards[j].position
    &&& forall|i: int|
        #[trigger] in_col_except(cards, i, col, x) && cards[i].position > 0 ==> (cards[i].position - 1 == b
            || taken_except(cards, col, x, cards[i].position - 1))
    &&& b == 0 || taken_except(cards, col, x, b - 1)
}

/// The greatest position of a column is held by one of its cards and bounds
/// all of them; a column without cards has no greatest position.
pub proof fn lemma_max_card_position(cards: Seq<CardView>, col: Seq<char>)
    ensures
        max_card_position(cards, col) is None ==> forall|i: int| !#[trigger] in_col(cards, i, col),
        max_card_position(cards, col) is Some ==> taken(cards, col, max_card_position(cards, col)->0),
        max_card_position(cards, col) is Some ==> forall|i: int| #[trigger] in_col(cards, i, col) ==> cards[i].position <= max_card_position(cards, col)->0,
    decreases cards.len(),
{
    if cards.len() > 0 {
        let d = cards.drop_last();
        let l = cards.len() - 1;
        lemma_max_card_position(d, col);
        assert forall|i: int| 0 <= i < d.len() implies (#[trigger] in_col(cards, i, col) == in_col(d, i, col)) by {}
        match max_card_position(cards, col) {
            None => {
                assert forall|i: int| !#[trigger] in_col(cards, i, col) by {
                    if i < d.len() {
                        assert(!in_col(d, i, col));
                    }
                }
            },
            Some(m) => {
                if cards.last().column_id == col && (max_card_position(d, col) is None || cards.last().position > max_card_position(d, col)->0) {
                    assert(in_col(cards, l, col));
                } else {
                    let j = choose|j: int| #[trigger] in_col(d, j, col) && d[j].position == m;
                    assert(in_col(cards, j, col));
                }
                assert forall|i: int| #[trigger] in_col(cards, i, col) implies cards[i].position <= m by {
                    if i < d.len() {
                        assert(in_col(d, i, col));
                    }
                }
            },
        }
    }
}

/// Dense without `x` when `x` is not in the column.
pub proof fn lemma_dense_except_of_dense(cards: Seq<CardView>, col: Seq<char>, x: Seq<char>)
    requires
        dense(cards, col),
        forall|i: int| #[trigger] in_col(cards, i, col) ==> cards[i].id != x,
    ensures
        dense_except(cards, col, x),
{
    assert forall|i: int| #[trigger] in_col_except(cards, i, col, x) && cards[i].position > 0 implies taken_except(cards, col, x, cards[i].position - 1) by {
        assert(in_col(cards, i, col));
        let j = choose|j: int| #[trigger] in_col(cards, j, col) && cards[j].position == cards[i].position - 1;
        assert(in_col_except(cards, j, col, x));
    }
    assert forall|i: int, j: int|
        in_col_except(cards, i, col, x) && in_col_except(cards, j, col, x) && i != j
        implies #[trigger] cards[i].position != #[trigger] cards[j].position by {
        assert(in_col(cards, i, col) && in_col(cards, j, col));
    }
    assert forall|i: int| #[trigger] in_col_except(cards, i, col, x) implies cards[i].position >= 0 by {
        assert(in_col(cards, i, col));
    }
}

/// A column that no change touches stays as dense as it was.
pub proof fn lemma_dense_untouched(s: Seq<CardView>, t: Seq<CardView>, col: Seq<char>)
    requires
        s.len() == t.len(),
        forall|i: int| 0 <= i < s.len() && (s[i].column_id == col || t[i].column_id == col) ==> #[trigger] s[i] == t[i],
        dense(s, col),
    ensures
        dense(t, col),
{
    assert forall|i: int| #[trigger] in_col(t, i, col) implies t[i].position >= 0 by {
        assert(s[i] == t[i]);
        assert(in_col(s, i, col));
    }
    assert forall|i: int, j: int|
        #![trigger in_col(t, i, col), in_col(t, j, col)]
        in_col(t, i, col) && in_col(t, j, col) && i != j implies t[i].position != t[j].position by {
        assert(s[i] == t[i]);
        assert(s[j] == t[j]);
        assert(in_col(s, i, col) && in_col(s, j, col));
    }
    assert forall|i: int| #[trigger] in_col(t, i, col) && t[i].position > 0 implies taken(t, col, t[i].position - 1) by {
        assert(s[i] == t[i]);
        assert(in_col(s, i, col));
        let j = choose|j: int| #[trigger] in_col(s, j, col) && s[j].position == s[i].position - 1;
        assert(s[j] == t[j]);
        assert(in_col(t, j, col));
    }
}


/// When a card leaves a dense column and the cards behind it move up, the
/// rest of the column is dense.
pub proof fn lemma_leave(s: Seq<CardView>, k: int)
    requires
        unique_keys(s),
        0 <= k < s.len(),
        dense(s, s[k].column_id),
    ensures
        dense_except(after_leaving(s, s[k]), s[k].column_id, s[k].id),
        after_leaving(s, s[k]).len() == s.len(),
        forall|i: int| 0 <= i < s.len() && s[i].column_id != s[k].column_id ==> #[trigger] after_leaving(s, s[k])[i] == s[i],
        forall|i: int| 0 <= i < s.len() ==> (#[trigger] after_leaving(s, s[k])[i]).id == s[i].id && after_leaving(s, s[k])[i].column_id == s[i].column_id,
{
    let c = s[k];
    let a = c.column_id;
    let x = c.id;
    let p = c.position as int;
    let t = after_leaving(s, c);
    assert(in_col(s, k, a));
    assert(p >= 0);
    assert forall|i: int| 0 <= i < s.len() implies #[trigger] t[i] == shifted(s[i], a, x, p + 1, i32::MAX as int, -1) by {}
    assert forall|i: int| #[trigger] in_col_except(t, i, a, x) implies in_col(s, i, a) && i != k && s[i].position != p by {
        assert(t[i] == shifted(s[i], a, x, p + 1, i32::MAX as int, -1));
        assert(in_col(s, i, a));
        if i != k {
            assert(s[i].position != s[k].position);
        }
    }
    assert forall|i: int| #[trigger] in_col_except(t, i, a, x) implies t[i].position >= 0 by {
        assert(in_col(s, i, a));
    }
    assert forall|i: int, j: int|
        #![trigger in_col_except(t, i, a, x), in_col_except(t, j, a, x)]
        in_col_except(t, i, a, x) && in_col_except(t, j, a, x) && i != j implies t[i].position != t[j].position by {
        assert(in_col(s, i, a) && in_col(s, j, a));
    }
    assert forall|i: int| #[trigger] in_col_except(t, i, a, x) && t[i].position > 0 implies taken_except(t, a, x, t[i].position - 1) by {
        assert(in_col(s, i, a));
        let q = s[i].position as int;
        if q > p {
            // t[i] sits at q - 1 > 0
            if q - 1 > p {
                let j = choose|j: int| #[trigger] in_col(s, j, a) && s[j].position == q - 1;
                assert(j != k);
                assert(s[j].id != x) by {
                    assert(s[j].key() == s[k].key() ==> j == k);
                }
                assert(in_col_except(t, j, a, x));
            } else {
                let j = choose|j: int| #[trigger] in_col(s, j, a) && s[j].position == p - 1;
                assert(j != k);
                assert(s[j].id != x) by {
                    assert(s[j].key() == s[k].key() ==> j == k);
                }
                assert(in_col_except(t, j, a, x));
            }
        } else {
            let j = choose|j: int| #[trigger] in_col(s, j, a) && s[j].position == q - 1;
            assert(j != k);
            assert(s[j].id != x) by {
                assert(s[j].key() == s[k].key() ==> j == k);
            }
            assert(in_col_except(t, j, a, x));
        }
    }
}

/// When the cards of a column (other than `x`) at and behind `b` move down
/// by one, `b` becomes a free slot, provided `b` lies within the column.
pub proof fn lemma_enter(s: Seq<CardView>, x: Seq<char>, col: Seq<char>, b: i32)
    requires
        dense_except(s, col, x),
        b >= 0,
        b == 0 || taken_except(s, col, x, b - 1),
        forall|i: int| #[trigger] in_col_except(s, i, col, x) ==> s[i].position < i32::MAX,
    ensures
        dense_with_slot(shift_cards(s, col, x, b as int, i32::MAX as int, 1), col, x, b as int),
        shift_cards(s, col, x, b as int, i32::MAX as int, 1).len() == s.len(),
        forall|i: int| 0 <= i < s.len() && s[i].column_id != col ==> #[trigger] shift_cards(s, col, x, b as int, i32::MAX as int, 1)[i] == s[i],
        forall|i: int| 0 <= i < s.len() ==> (#[trigger] shift_cards(s, col, x, b as int, i32::MAX as int, 1)[i]).id == s[i].id && shift_cards(s, col, x, b as int, i32::MAX as int, 1)[i].column_id == s[i].column_id,
{
    let t = shift_cards(s, col, x, b as int, i32::MAX as int, 1);
    assert forall|i: int| 0 <= i < s.len() implies #[trigger] t[i] == shifted(s[i], col, x, b as int, i32::MAX as int, 1) by {}
    assert forall|i: int| #[trigger] in_col_except(t, i, col, x) implies in_col_except(s, i, col, x) by {
        assert(t[i] == shifted(s[i], col, x, b as int, i32::MAX as int, 1));
    }
    assert forall|i: int| #[trigger] in_col_except(t, i, col, x) implies t[i].position >= 0 && t[i].position != b by {
        assert(in_col_except(s, i, col, x));
    }
    assert forall|i: int, j: int|
        #![trigger in_col_except(t, i, col, x), in_col_except(t, j, col, x)]
        in_col_except(t, i, col, x) && in_col_except(t, j, col, x) && i != j implies t[i].position != t[j].position by {
        assert(in_col_except(s, i, col, x) && in_col_except(s, j, col, x));
    }
    assert forall|i: int| #[trigger] in_col_except(t, i, col, x) && t[i].position > 0 implies (t[i].position - 1 == b || taken_except(t, col, x, t[i].position - 1)) by {
        assert(in_col_except(s, i, col, x));
        let q = s[i].position as int;
        if q > b {
            let j = choose|j: int| #[trigger] in_col_except(s, j, col, x) && s[j].position == q - 1;
            assert(t[j] == shifted(s[j], col, x, b as int, i32::MAX as int, 1));
            assert(in_col_except(t, j, col, x));
        } else if q < b {
            let j = choose|j: int| #[trigger] in_col_except(s, j, col, x) && s[j].position == q - 1;
            assert(t[j] == shifted(s[j], col, x, b as int, i32::MAX as int, 1));
            assert(in_col_except(t, j, col, x));
        }
    }
    if b > 0 {
        let j = choose|j: int| #[trigger] in_col_except(s, j, col, x) && s[j].position == b - 1;
        assert(t[j] == shifted(s[j], col, x, b as int, i32::MAX as int, 1));
        assert(in_col_except(t, j, col, x));
    }
}

/// Putting card `x` into the free slot makes the column dense.
pub proof fn lemma_place(s: Seq<CardView>, k: int, c: CardView, b: int)
    requires
        unique_keys(s),
        0 <= k < s.len(),
        dense_with_slot(s, c.column_id, c.id, b),
        s[k].id == c.id,
        c.position == b,
    ensures
        dense(s.update(k, c), c.column_id),
{
    let col = c.column_id;
    let x = c.id;
    let t = s.update(k, c);
    assert forall|i: int| 0 <= i < s.len() && i != k implies s[i].id != x by {
        assert(s[i].key() == s[k].key() ==> i == k);
    }
    assert forall|i: int| #[trigger] in_col(t, i, col) && i != k implies in_col_except(s, i, col, x) by {}
    assert forall|i: int| #[trigger] in_col(t, i, col) implies t[i].position >= 0 by {
        if i != k {
            assert(in_col_except(s, i, col, x));
        }
    }
    assert forall|i: int, j: int|
        #![trigger in_col(t, i, col), in_col(t, j, col)]
        in_col(t, i, col) && in_col(t, j, col) && i != j implies t[i].position != t[j].position by {
        if i != k {
            assert(in_col_except(s, i, col, x));
        }
        if j != k {
            assert(in_col_except(s, j, col, x));
        }
    }
    assert forall|i: int| #[trigger] in_col(t, i, col) && t[i].position > 0 implies taken(t, col, t[i].position - 1) by {
        if i == k {
            let j = choose|j: int| #[trigger] in_col_except(s, j, col, x) && s[j].position == b - 1;
            assert(j != k);
            assert(in_col(t, j, col));
        } else {
            assert(in_col_except(s, i, col, x));
            if t[i].position - 1 == b {
                assert(in_col(t, k, col));
            } else {
                let j = choose|j: int| #[trigger] in_col_except(s, j, col, x) && s[j].position == t[i].position - 1;
                assert(j != k);
                assert(in_col(t, j, col));
            }
        }
    }
}

/// When card `x` leaves a column that is dense without it, the column is
/// dense.
pub proof fn lemma_drop_out(s: Seq<CardView>, k: int, c: CardView, col: Seq<char>)
    requires
        unique_keys(s),
        0 <= k < s.len(),
        dense_except(s, col, c.id),
        s[k].id == c.id,
        c.column_id != col,
    ensures
        dense(s.update(k, c), col),
{
    let x = c.id;
    let t = s.update(k, c);
    assert forall|i: int| 0 <= i < s.len() && i != k implies s[i].id != x by {
        assert(s[i].key() == s[k].key() ==> i == k);
    }
    assert forall|i: int| #[trigger] in_col(t, i, col) implies in_col_except(s, i, col, x) && i != k by {}
    assert forall|i: int| #[trigger] in_col(t, i, col) implies t[i].position >= 0 by {
        assert(in_col_except(s, i, col, x));
    }
    assert forall|i: int, j: int|
        #![trigger in_col(t, i, col), in_col(t, j, col)]
        in_col(t, i, col) && in_col(t, j, col) && i != j implies t[i].position != t[j].position by {
        assert(in_col_except(s, i, col, x));
        assert(in_col_except(s, j, col, x));
    }
    assert forall|i: int| #[trigger] in_col(t, i, col) && t[i].position > 0 implies taken(t, col, t[i].position - 1) by {
        assert(in_col_except(s, i, col, x));
        let j = choose|j: int| #[trigger] in_col_except(s, j, col, x) && s[j].position == t[i].position - 1;
        assert(j != k);
        assert(in_col(t, j, col));
    }
}


/// A column that no change touches stays dense without `x`.
pub proof fn lemma_dense_except_untouched(s: Seq<CardView>, t: Seq<CardView>, col: Seq<char>, x: Seq<char>)
    requires
        s.len() == t.len(),
        forall|i: int| 0 <= i < s.len() && (s[i].column_id == col || t[i].column_id == col) ==> #[trigger] s[i] == t[i],
        dense_except(s, col, x),
    ensures
        dense_except(t, col, x),
{
    assert forall|i: int| #[trigger] in_col_except(t, i, col, x) implies t[i].position >= 0 by {
        assert(s[i] == t[i]);
        assert(in_col_except(s, i, col, x));
    }
    assert forall|i: int, j: int|
        #![trigger in_col_except(t, i, col, x), in_col_except(t, j, col, x)]
        in_col_except(t, i, col, x) && in_col_except(t, j, col, x) && i != j implies t[i].position != t[j].position by {
        assert(s[i] == t[i]);
        assert(s[j] == t[j]);
        assert(in_col_except(s, i, col, x) && in_col_except(s, j, col, x));
    }
    assert forall|i: int| #[trigger] in_col_except(t, i, col, x) && t[i].position > 0 implies taken_except(t, col, x, t[i].position - 1) by {
        assert(s[i] == t[i]);
        assert(in_col_except(s, i, col, x));
        let j = choose|j: int| #[trigger] in_col_except(s, j, col, x) && s[j].position == s[i].position - 1;
        assert(s[j] == t[j]);
        assert(in_col_except(t, j, col, x));
    }
}

/// Removing card `x` from a column that is dense without it leaves it dense.
pub proof fn lemma_remove(s: Seq<CardView>, k: int, col: Seq<char>)
    requires
        unique_keys(s),
        0 <= k < s.len(),
        dense_except(s, col, s[k].id),
    ensures
        dense(s.remove(k), col),
{
    let x = s[k].id;
    let t = s.remove(k);
    assert forall|i: int| 0 <= i < s.len() && i != k implies s[i].id != x by {
        assert(s[i].key() == s[k].key() ==> i == k);
    }
    assert forall|i: int| 0 <= i < t.len() implies #[trigger] t[i] == if i < k { s[i] } else { s[i + 1] } by {}
    assert forall|i: int| #[trigger] in_col(t, i, col) implies in_col_except(s, if i < k { i } else { i + 1 }, col, x) by {}
    assert forall|i: int| #[trigger] in_col(t, i, col) implies t[i].position >= 0 by {
        assert(in_col_except(s, if i < k { i } else { i + 1 }, col, x));
    }
    assert forall|i: int, j: int|
        #![trigger in_col(t, i, col), in_col(t, j, col)]
        in_col(t, i, col) && in_col(t, j, col) && i != j implies t[i].position != t[j].position by {
        assert(in_col_except(s, if i < k { i } else { i + 1 }, col, x));
        assert(in_col_except(s, if j < k { j } else { j + 1 }, col, x));
    }
    assert forall|i: int| #[trigger] in_col(t, i, col) && t[i].position > 0 implies taken(t, col, t[i].position - 1) by {
        let si = if i < k { i } else { i + 1 };
        assert(in_col_except(s, si, col, x));
        let j = choose|j: int| #[trigger] in_col_except(s, j, col, x) && s[j].position == s[si].position - 1;
        assert(j != k);
        let tj = if j < k { j } else { j - 1 };
        assert(t[tj] == s[j]);
        assert(in_col(t, tj, col));
    }
}

/// Without the only card with id `x`, a sequence of cards is that sequence
/// with its index removed.
pub proof fn lemma_without_key_is_remove(s: Seq<CardView>, k: int)
    requires
        unique_keys(s),
        0 <= k < s.len(),
    ensures
        s.filter(|c: CardView| c.key() != s[k].key()) == s.remove(k),
    decreases s.len(),
{
    let x = s[k].key();
    let p = |c: CardView| c.key() != x;
    reveal(Seq::filter);
    let d = s.drop_last();
    assert(unique_keys(d)) by {
        assert forall|i: int, j: int|
            0 <= i < d.len() && 0 <= j < d.len() && #[trigger] d[i].key() == #[trigger] d[j].key()
            implies i == j by {
            assert(s[i].key() == s[j].key());
        }
    }
    assert(s.filter(p) == if p(s.last()) { d.filter(p).push(s.last()) } else { d.filter(p) });
    assert((|c: CardView| c.key() != s[k].key()) =~= p);
    if k == s.len() - 1 {
        lemma_filter_all(d, p);
        assert forall|i: int| 0 <= i < d.len() implies p(#[trigger] d[i]) by {
            assert(s[i].key() == s[k].key() ==> i == k);
        }
        lemma_filter_all(d, p);
        assert(s.remove(k) =~= d);
    } else {
        lemma_without_key_is_remove(d, k);
        assert(d[k] == s[k]);
        assert(p(s.last())) by {
            assert(s[s.len() - 1].key() == s[k].key() ==> s.len() - 1 == k);
        }
        assert(s.remove(k) =~= d.remove(k).push(s.last()));
        assert(d.filter(p) == d.remove(k)) by {
            assert((|c: CardView| c.key() != d[k].key()) =~= p);
        }
    }
}

/// Filtering with a predicate that every element satisfies keeps them all.
pub proof fn lemma_filter_all(s: Seq<CardView>, p: spec_fn(CardView) -> bool)
    ensures
        (forall|i: int| 0 <= i < s.len() ==> p(#[trigger] s[i])) ==> s.filter(p) == s,
    decreases s.len(),
{
    reveal(Seq::filter);
    if s.len() > 0 {
        lemma_filter_all(s.drop_last(), p);
        if forall|i: int| 0 <= i < s.len() ==> p(#[trigger] s[i]) {
            assert forall|i: int| 0 <= i < s.drop_last().len() implies p(#[trigger] s.drop_last()[i]) by {
                assert(s.drop_last()[i] == s[i]);
            }
            assert(p(s[s.len() - 1]));
            assert(s.drop_last().push(s.last()) =~= s);
        }
    }
}


/// Where a moved card may enter: position 0, or directly after a card of
/// the target column once the moved card has left its own column; that is,
/// no further than one past the last of the other cards there.
pub open spec fn move_target_within(s: AppStateView, card_id: Seq<char>, req: MoveCardView) -> bool {
    &&& req.target_position >= 0
    &&& (req.target_position == 0 || taken_except(after_leaving(s.cards, s.card(card_id)), req.target_column_id, card_id, req.target_position - 1))
}

/// Moving a card to a position within the target column keeps every dense
/// column dense: the source column closes its gap and the target column
/// makes room.
pub proof fn law_move_card_keeps_columns_dense(s: AppStateView, t: AppStateView, card_id: Seq<char>, req: MoveCardView, r: Result<CardView, AppErrorView>, col: Seq<char>)
    requires
        s.wf(),
        move_room(s, card_id, req),
        move_card_post(s, t, card_id, req, r),
        r is Ok,
        move_target_within(s, card_id, req),
        dense(s.cards, col),
    ensures
        dense(t.cards, col),
{
    lemma_key_index(s.cards, card_id);
    let k = key_index(s.cards, card_id);
    let c = s.cards[k];
    let a = c.column_id;
    let bc = req.target_column_id;
    let b = req.target_position;
    let x = card_id;
    let f1 = |v: CardView| shifted(v, a, x, c.position + 1, i32::MAX as int, -1);
    let s1 = after_leaving(s.cards, c);
    assert(s1 == s.cards.map_values(f1));
    lemma_map_lookup(s.cards, f1);
    let f2 = |v: CardView| shifted(v, bc, x, b as int, i32::MAX as int, 1);
    let s2 = after_entering(s1, x, bc, b);
    assert(s2 == s1.map_values(f2));
    lemma_map_lookup(s1, f2);
    let c2 = r->Ok_0;
    assert(c2.id == x && c2.column_id == bc && c2.position == b);
    assert(has_key(s2, x));
    assert(key_index(s2, x) == k);
    assert(t.cards == s2.update(k, c2));
    assert forall|i: int| 0 <= i < s.cards.len() implies #[trigger] s2[i] == f2(s1[i]) && s1[i] == f1(s.cards[i]) by {}
    assert forall|i: int| 0 <= i < s.cards.len() && i != k implies s.cards[i].id != x by {
        assert(s.cards[i].key() == s.cards[k].key() ==> i == k);
    }
    // no position of the target column reaches i32::MAX
    assert forall|i: int| #[trigger] in_col_except(s1, i, bc, x) implies s1[i].position < i32::MAX by {
        if s1[i].position >= b {
            assert(s1[i].column_id == bc && s1[i].id != x && b <= s1[i].position <= i32::MAX);
        }
    }
    if col == a {
        lemma_leave(s.cards, k);
        if a == bc {
            lemma_enter(s1, x, bc, b);
            lemma_place(s2, k, c2, b as int);
        } else {
            lemma_dense_except_untouched(s1, s2, a, x);
            lemma_drop_out(s2, k, c2, a);
        }
    } else if col == bc {
        assert forall|i: int| #[trigger] in_col(s.cards, i, bc) implies s.cards[i].id != x by {
            assert(i != k);
        }
        lemma_dense_except_of_dense(s.cards, bc, x);
        lemma_dense_except_untouched(s.cards, s1, bc, x);
        lemma_enter(s1, x, bc, b);
        lemma_place(s2, k, c2, b as int);
    } else {
        lemma_dense_untouched(s.cards, t.cards, col);
    }
}

/// Reordering a card to a position that its column holds keeps every dense
/// column dense.
pub proof fn law_reorder_card_keeps_columns_dense(s: AppStateView, t: AppStateView, card_id: Seq<char>, req: ReorderCardView, r: Result<CardView, AppErrorView>, col: Seq<char>)
    requires
        s.wf(),
        reorder_card_post(s, t, card_id, req, r),
        r is Ok,
        taken(s.cards, s.card(card_id).column_id, req.target_position as int),
        dense(s.cards, col),
    ensures
        dense(t.cards, col),
{
    lemma_key_index(s.cards, card_id);
    let k = key_index(s.cards, card_id);
    let c = s.cards[k];
    if c.position == req.target_position {
        return;
    }
    let a = c.column_id;
    let b = req.target_position;
    let x = card_id;
    let f1 = |v: CardView| shifted(v, a, x, c.position + 1, i32::MAX as int, -1);
    let s1 = after_leaving(s.cards, c);
    assert(s1 == s.cards.map_values(f1));
    lemma_map_lookup(s.cards, f1);
    let f2 = |v: CardView| shifted(v, a, x, b as int, i32::MAX as int, 1);
    let s2 = after_entering(s1, x, a, b);
    assert(s2 == s1.map_values(f2));
    lemma_map_lookup(s1, f2);
    let fr = if b > c.position {
        |v: CardView| shifted(v, a, x, c.position + 1, b as int, -1)
    } else {
        |v: CardView| shifted(v, a, x, b as int, c.position - 1, 1)
    };
    let r1 = after_reordering(s.cards, c, b);
    assert(r1 == s.cards.map_values(fr));
    lemma_map_lookup(s.cards, fr);
    let c2 = r->Ok_0;
    assert(c2.id == x && c2.column_id == a && c2.position == b);
    assert(key_index(r1, x) == k);
    assert(t.cards == r1.update(k, c2));
    assert forall|i: int| 0 <= i < s.cards.len() implies #[trigger] r1[i] == fr(s.cards[i]) && s1[i] == f1(s.cards[i]) && s2[i] == f2(s1[i]) by {}
    assert forall|i: int| 0 <= i < s.cards.len() && i != k implies s.cards[i].id != x by {
        assert(s.cards[i].key() == s.cards[k].key() ==> i == k);
    }
    if col != a {
        lemma_dense_untouched(s.cards, t.cards, col);
    } else {
        assert(in_col(s.cards, k, a));
        // reordering is leaving and entering the same column
        assert forall|i: int| 0 <= i < s.cards.len() implies #[trigger] r1[i] == s2[i] by {
            if in_col(s.cards, i, a) && i != k {
                assert(s.cards[i].position != c.position);
            }
        }
        assert(r1 =~= s2);
        lemma_leave(s.cards, k);
        let jb = choose|j: int| #[trigger] in_col(s.cards, j, a) && s.cards[j].position == b;
        assert(jb != k);
        assert(b >= 0);
        if b > c.position {
            assert(in_col_except(s1, jb, a, x));
        } else if b > 0 {
            let m = choose|m: int| #[trigger] in_col(s.cards, m, a) && s.cards[m].position == b - 1;
            assert(m != k);
            assert(in_col_except(s1, m, a, x));
        }
        assert forall|i: int| #[trigger] in_col_except(s1, i, a, x) implies s1[i].position < i32::MAX by {
            assert(in_col(s.cards, i, a));
            assert(s.cards[i].position != c.position);
        }
        lemma_enter(s1, x, a, b);
        lemma_place(s2, k, c2, b as int);
    }
}

/// Deleting a card keeps every dense column dense: the cards behind it
/// move up.
pub proof fn law_delete_card_keeps_columns_dense(s: AppStateView, t: AppStateView, card_id: Seq<char>, actor: Option<Seq<char>>, r: Result<(), AppErrorView>, col: Seq<char>)
    requires
        s.wf(),
        delete_card_post(s, t, card_id, actor, r),
        r is Ok,
        dense(s.cards, col),
    ensures
        dense(t.cards, col),
{
    lemma_key_index(s.cards, card_id);
    let k = key_index(s.cards, card_id);
    let c = s.cards[k];
    let a = c.column_id;
    let x = card_id;
    let f1 = |v: CardView| shifted(v, a, x, c.position + 1, i32::MAX as int, -1);
    let s1 = after_leaving(s.cards, c);
    assert(s1 == s.cards.map_values(f1));
    lemma_map_lookup(s.cards, f1);
    lemma_without_key_is_remove(s.cards, k);
    assert(without_key(s.cards, x) == s.cards.remove(k)) by {
        assert((|v: CardView| v.key() != x) =~= (|v: CardView| v.key() != s.cards[k].key()));
    }
    assert(t.cards =~= s1.remove(k));
    assert forall|i: int| 0 <= i < s.cards.len() implies #[trigger] s1[i] == f1(s.cards[i]) by {}
    assert forall|i: int| 0 <= i < s.cards.len() && i != k implies s.cards[i].id != x by {
        assert(s.cards[i].key() == s.cards[k].key() ==> i == k);
    }
    assert(s1[k].id == x);
    if col == a {
        lemma_leave(s.cards, k);
        lemma_remove(s1, k, a);
    } else {
        lemma_dense_untouched(s.cards, s1, col);
        assert forall|i: int| #[trigger] in_col(s1, i, col) implies s1[i].id != x by {
            assert(i != k);
        }
        lemma_dense_except_of_dense(s1, col, x);
        lemma_remove(s1, k, col);
    }
}

/// Creating a card (under a fresh id) keeps every dense column dense: the
/// new card comes right after the last one of its column.
pub proof fn law_create_card_keeps_columns_dense(s: AppStateView, t: AppStateView, column_id: Seq<char>, title: Seq<char>, description: Seq<char>, actor: Option<Seq<char>>, r: Result<CardView, AppErrorView>, col: Seq<char>)
    requires
        s.wf(),
        next_card_position(s.cards, column_id) <= i32::MAX,
        create_card_post(s, t, column_id, title, description, actor, r),
        r is Ok,
        !s.has_card(r->Ok_0.id),
        dense(s.cards, col),
    ensures
        dense(t.cards, col),
{
    let c = r->Ok_0;
    let n = s.cards.len() as int;
    assert(t.cards == s.cards.push(c));
    lemma_max_card_position(s.cards, column_id);
    assert forall|i: int| #[trigger] in_col(t.cards, i, col) && i < n implies in_col(s.cards, i, col) by {}
    assert forall|i: int| #[trigger] in_col(t.cards, i, col) implies t.cards[i].position >= 0 by {
        if i < n {
            assert(in_col(s.cards, i, col));
        } else if max_card_position(s.cards, column_id) is Some {
            let m = max_card_position(s.cards, column_id)->0;
            let j = choose|j: int| #[trigger] in_col(s.cards, j, column_id) && s.cards[j].position == m;
            assert(in_col(s.cards, j, col));
        }
    }
    assert forall|i: int, j: int|
        #![trigger in_col(t.cards, i, col), in_col(t.cards, j, col)]
        in_col(t.cards, i, col) && in_col(t.cards, j, col) && i != j implies t.cards[i].position != t.cards[j].position by {
        if i < n {
            assert(in_col(s.cards, i, col));
        } else {
            assert(in_col(s.cards, j, column_id));
        }
        if j < n {
            assert(in_col(s.cards, j, col));
        } else {
            assert(in_col(s.cards, i, column_id));
        }
    }
    assert forall|i: int| #[trigger] in_col(t.cards, i, col) && t.cards[i].position > 0 implies taken(t.cards, col, t.cards[i].position - 1) by {
        let p = t.cards[i].position - 1;
        let j = if i < n {
            assert(in_col(s.cards, i, col));
            choose|j: int| #[trigger] in_col(s.cards, j, col) && s.cards[j].position == p
        } else {
            choose|j: int| #[trigger] in_col(s.cards, j, col) && s.cards[j].position == p
        };
        assert(in_col(t.cards, j, col));
    }
}


proof fn lemma_listing_prefix(cards: Seq<CardView>, col: Seq<char>, listed: Seq<CardView>, i: int)
    requires
        dense(cards, col),
        unique_keys(cards),
        listed.no_duplicates(),
        forall|y: CardView| #[trigger] listed.contains(y) <==> (cards.contains(y) && y.column_id == col),
        sorted_by_key::<Card>(listed),
        0 <= i < listed.len(),
    ensures
        forall|j: int| 0 <= j <= i ==> #[trigger] listed[j].position == j,
    decreases i,
{
    if i > 0 {
        lemma_listing_prefix(cards, col, listed, i - 1);
    }
    let y = listed[i];
    assert(listed.contains(y));
    let m = choose|m: int| 0 <= m < cards.len() && cards[m] == y;
    assert(in_col(cards, m, col));
    assert(y.position >= 0);
    if i > 0 {
        let w = listed[i - 1];
        assert(listed.contains(w));
        let mw = choose|m: int| 0 <= m < cards.len() && cards[m] == w;
        assert(in_col(cards, mw, col));
        assert(w != y);
        assert(mw != m);
        assert(Card::order_key(w) <= Card::order_key(y));
        assert(y.position >= i);
    }
    if y.position > i {
        let q = choose|q: int| #[trigger] in_col(cards, q, col) && cards[q].position == y.position - 1;
        let z = cards[q];
        assert(cards.contains(z));
        assert(listed.contains(z));
        let jz = choose|jz: int| 0 <= jz < listed.len() && listed[jz] == z;
        if jz >= i {
            if jz == i {
                assert(z == y);
            } else {
                assert(Card::order_key(listed[i]) <= Card::order_key(listed[jz]));
            }
        } else {
            assert(listed[jz].position == jz);
        }
    }
}

/// The cards of a dense column, listed in position order, stand at
/// positions 0, 1, 2, ... in that list.
pub proof fn lemma_dense_listing(cards: Seq<CardView>, col: Seq<char>, listed: Seq<CardView>)
    requires
        unique_keys(cards),
        dense(cards, col),
        listed.to_multiset() == cards_of_column(cards, col).to_multiset(),
        sorted_by_key::<Card>(listed),
    ensures
        forall|j: int| 0 <= j < listed.len() ==> #[trigger] listed[j].position == j,
{
    let p = |c: CardView| c.column_id == col;
    let f = cards_of_column(cards, col);
    assert(f == cards.filter(p));
    lemma_filter_unique(cards, p);
    lemma_filter_contains(cards, p);
    assert(f.no_duplicates()) by {
        assert forall|i: int, j: int| 0 <= i < f.len() && 0 <= j < f.len() && i != j implies f[i] != f[j] by {
            if f[i] == f[j] {
                assert(f[i].key() == f[j].key());
            }
        }
    }
    f.lemma_multiset_has_no_duplicates();
    listed.lemma_multiset_has_no_duplicates_conv();
    assert forall|y: CardView| #[trigger] listed.contains(y) <==> (cards.contains(y) && y.column_id == col) by {
        assert(listed.contains(y) <==> listed.to_multiset().count(y) > 0);
        assert(f.contains(y) <==> f.to_multiset().count(y) > 0);
    }
    if listed.len() > 0 {
        lemma_listing_prefix(cards, col, listed, listed.len() - 1);
    }
}

/// In a board's detail, the cards of a dense column are listed at positions
/// 0, 1, 2, ... in order.
pub proof fn law_detail_lists_dense_columns_in_order(s: AppStateView, board_id: Seq<char>, r: Result<BoardDetailView, AppErrorView>, i: int)
    requires
        s.wf(),
        board_detail_post(s, board_id, r),
        r is Ok,
        0 <= i < r->Ok_0.columns.len(),
        dense(s.cards, r->Ok_0.columns[i].column.id),
    ensures
        forall|j: int| 0 <= j < r->Ok_0.columns[i].cards.len() ==> #[trigger] r->Ok_0.columns[i].cards[j].position == j,
{
    let d = r->Ok_0;
    assert(d.columns[i].cards.to_multiset() == cards_of_column(s.cards, d.columns[i].column.id).to_multiset());
    lemma_dense_listing(s.cards, d.columns[i].column.id, d.columns[i].cards);
}


/// Density depends only on the cards' ids, columns and positions.
pub proof fn lemma_dense_same_places(s: Seq<CardView>, t: Seq<CardView>, col: Seq<char>)
    requires
        s.len() == t.len(),
        forall|i: int| 0 <= i < s.len() ==> (#[trigger] s[i]).column_id == t[i].column_id && s[i].position == t[i].position,
        dense(s, col),
    ensures
        dense(t, col),
{
    assert forall|i: int| #[trigger] in_col(t, i, col) implies in_col(s, i, col) by {}
    assert forall|i: int| #[trigger] in_col(t, i, col) && t[i].position > 0 implies taken(t, col, t[i].position - 1) by {
        assert(in_col(s, i, col));
        let j = choose|j: int| #[trigger] in_col(s, j, col) && s[j].position == s[i].position - 1;
        assert(in_col(t, j, col));
    }
    assert forall|i: int, j: int|
        #![trigger in_col(t, i, col), in_col(t, j, col)]
        in_col(t, i, col) && in_col(t, j, col) && i != j implies t[i].position != t[j].position by {
        assert(in_col(s, i, col) && in_col(s, j, col));
    }
}

/// Filtering that keeps every card of a dense column keeps it dense; one
/// that drops them all leaves it empty, hence dense.
pub proof fn lemma_dense_filter(s: Seq<CardView>, p: spec_fn(CardView) -> bool, col: Seq<char>)
    requires
        unique_keys(s),
        dense(s, col),
        (forall|x: CardView| x.column_id == col ==> #[trigger] p(x)) || (forall|x: CardView| x.column_id == col ==> !#[trigger] p(x)),
    ensures
        dense(s.filter(p), col),
{
    let t = s.filter(p);
    lemma_filter_unique(s, p);
    lemma_filter_contains(s, p);
    assert forall|i: int| #[trigger] in_col(t, i, col) implies exists|m: int| #[trigger] in_col(s, m, col) && s[m] == t[i] by {
        assert(t.contains(t[i]));
        let m = choose|m: int| 0 <= m < s.len() && s[m] == t[i];
        assert(in_col(s, m, col));
    }
    assert forall|i: int| #[trigger] in_col(t, i, col) implies t[i].position >= 0 by {
        let m = choose|m: int| #[trigger] in_col(s, m, col) && s[m] == t[i];
    }
    assert forall|i: int, j: int|
        #![trigger in_col(t, i, col), in_col(t, j, col)]
        in_col(t, i, col) && in_col(t, j, col) && i != j implies t[i].position != t[j].position by {
        let mi = choose|m: int| #[trigger] in_col(s, m, col) && s[m] == t[i];
        let mj = choose|m: int| #[trigger] in_col(s, m, col) && s[m] == t[j];
        if mi == mj {
            assert(t[i].key() == t[j].key());
        }
    }
    assert forall|i: int| #[trigger] in_col(t, i, col) && t[i].position > 0 implies taken(t, col, t[i].position - 1) by {
        let mi = choose|m: int| #[trigger] in_col(s, m, col) && s[m] == t[i];
        assert(t.contains(t[i]));
        assert(p(t[i]));
        let q = choose|q: int| #[trigger] in_col(s, q, col) && s[q] == s[q] && s[q].position == s[mi].position - 1;
        assert(p(s[q]));
        assert(s.contains(s[q]));
        assert(t.contains(s[q]));
        let j = choose|j: int| 0 <= j < t.len() && t[j] == s[q];
        assert(in_col(t, j, col));
    }
}

/// Changing a card's fields or status keeps every dense column dense.
pub proof fn law_update_card_keeps_columns_dense(s: AppStateView, t: AppStateView, card_id: Seq<char>, req: UpdateCardView, r: Result<CardView, AppErrorView>, col: Seq<char>)
    requires
        s.wf(),
        update_card_post(s, t, card_id, req, r),
        dense(s.cards, col),
    ensures
        dense(t.cards, col),
{
    if r is Ok {
        lemma_key_index(s.cards, card_id);
        let k = key_index(s.cards, card_id);
        assert(t.cards == s.cards.update(k, r->Ok_0));
        lemma_dense_same_places(s.cards, t.cards, col);
    }
}

/// Changing a card's status keeps every dense column dense.
pub proof fn law_update_card_status_keeps_columns_dense(s: AppStateView, t: AppStateView, card_id: Seq<char>, req: UpdateCardStatusView, r: Result<CardView, AppErrorView>, col: Seq<char>)
    requires
        s.wf(),
        update_card_status_post(s, t, card_id, req, r),
        dense(s.cards, col),
    ensures
        dense(t.cards, col),
{
    if r is Ok {
        lemma_key_index(s.cards, card_id);
        let k = key_index(s.cards, card_id);
        assert(t.cards == s.cards.update(k, r->Ok_0));
        lemma_dense_same_places(s.cards, t.cards, col);
    }
}

/// Deleting a column keeps every other dense column dense.
pub proof fn law_delete_column_keeps_columns_dense(s: AppStateView, t: AppStateView, column_id: Seq<char>, actor: Option<Seq<char>>, r: Result<(), AppErrorView>, col: Seq<char>)
    requires
        s.wf(),
        delete_column_post(s, t, column_id, actor, r),
        dense(s.cards, col),
    ensures
        dense(t.cards, col),
{
    if r is Ok {
        let p = |v: CardView| v.column_id != column_id;
        assert(t.cards == s.cards.filter(p));
        lemma_dense_filter(s.cards, p, col);
    }
}

/// Deleting a board keeps every dense column dense.
pub proof fn law_delete_board_keeps_columns_dense(s: AppStateView, t: AppStateView, board_id: Seq<char>, actor: Option<Seq<char>>, r: Result<(), AppErrorView>, col: Seq<char>)
    requires
        s.wf(),
        delete_board_post(s, t, board_id, actor, r),
        dense(s.cards, col),
    ensures
        dense(t.cards, col),
{
    if r is Ok {
        let p = |v: CardView| !column_in_board(s.columns, v.column_id, board_id);
        assert(t.cards == s.cards.filter(p));
        lemma_dense_filter(s.cards, p, col);
    }
}

/// A move keeps the other cards in their order: two other cards of one
/// column stand in the same order after the move as before it (each card
/// keeping its index and its column), and the cards of every column other
/// than the card's old and new one are unchanged. The order of the old
/// column needs its positions distinct, as in a dense column.
pub proof fn law_move_card_keeps_order(s: AppStateView, t: AppStateView, card_id: Seq<char>, req: MoveCardView, r: Result<CardView, AppErrorView>, i: int, j: int)
    requires
        s.wf(),
        move_room(s, card_id, req),
        move_card_post(s, t, card_id, req, r),
        r is Ok,
        dense(s.cards, s.card(card_id).column_id),
        0 <= i < s.cards.len(),
        0 <= j < s.cards.len(),
        s.cards[i].id != card_id,
        s.cards[j].id != card_id,
        s.cards[i].column_id == s.cards[j].column_id,
    ensures
        t.cards.len() == s.cards.len(),
        t.cards[i].id == s.cards[i].id,
        t.cards[i].column_id == s.cards[i].column_id,
        (s.cards[i].position < s.cards[j].position) == (t.cards[i].position < t.cards[j].position),
        s.cards[i].column_id != s.card(card_id).column_id && s.cards[i].column_id != req.target_column_id ==> t.cards[i] == s.cards[i],
{
    lemma_key_index(s.cards, card_id);
    let k = key_index(s.cards, card_id);
    let c = s.cards[k];
    let a = c.column_id;
    let x = card_id;
    let f1 = |v: CardView| shifted(v, a, x, c.position + 1, i32::MAX as int, -1);
    let s1 = after_leaving(s.cards, c);
    assert(s1 == s.cards.map_values(f1));
    let f2 = |v: CardView| shifted(v, req.target_column_id, x, req.target_position as int, i32::MAX as int, 1);
    let s2 = after_entering(s1, x, req.target_column_id, req.target_position);
    assert(s2 == s1.map_values(f2));
    let c2 = r->Ok_0;
    assert(has_key(s2, x)) by {
        assert(s2[k].id == x);
    }
    assert(key_index(s2, x) == k) by {
        assert(s2[k].id == x);
        lemma_key_index(s2, x);
        lemma_map_lookup(s.cards, f1);
        lemma_map_lookup(s1, f2);
    }
    assert(t.cards == s2.update(k, c2));
    assert(i != k && j != k);
    if s.cards[i].column_id == a {
        assert(in_col(s.cards, i, a) && in_col(s.cards, k, a));
        assert(in_col(s.cards, j, a));
    }
    assert(s1[i] == f1(s.cards[i]) && s1[j] == f1(s.cards[j]));
    assert(s2[i] == f2(s1[i]) && s2[j] == f2(s1[j]));
}

/// A reorder keeps the other cards in their order: two other cards of one
/// column stand in the same order after it as before it (each card keeping
/// its index and its column), and the cards of every other column are
/// unchanged. It needs the card's column to have distinct positions, as a
/// dense column has.
pub proof fn law_reorder_card_keeps_order(s: AppStateView, t: AppStateView, card_id: Seq<char>, req: ReorderCardView, r: Result<CardView, AppErrorView>, i: int, j: int)
    requires
        s.wf(),
        reorder_card_post(s, t, card_id, req, r),
        r is Ok,
        dense(s.cards, s.card(card_id).column_id),
        0 <= i < s.cards.len(),
        0 <= j < s.cards.len(),
        s.cards[i].id != card_id,
        s.cards[j].id != card_id,
        s.cards[i].column_id == s.cards[j].column_id,
    ensures
        t.cards.len() == s.cards.len(),
        t.cards[i].id == s.cards[i].id,
        t.cards[i].column_id == s.cards[i].column_id,
        (s.cards[i].position < s.cards[j].position) == (t.cards[i].position < t.cards[j].position),
        s.cards[i].column_id != s.card(card_id).column_id ==> t.cards[i] == s.cards[i],
{
    lemma_key_index(s.cards, card_id);
    let k = key_index(s.cards, card_id);
    let c = s.cards[k];
    let a = c.column_id;
    let x = card_id;
    let to = req.target_position;
    assert(i != k && j != k);
    if c.position != to {
        let f = if to > c.position {
            |v: CardView| shifted(v, a, x, c.position + 1, to as int, -1)
        } else {
            |v: CardView| shifted(v, a, x, to as int, c.position - 1, 1)
        };
        let s1 = after_reordering(s.cards, c, to);
        assert(s1 == s.cards.map_values(f));
        let c2 = r->Ok_0;
        assert(key_index(s1, x) == k) by {
            assert(s1[k].id == x);
            lemma_key_index(s1, x);
            lemma_map_lookup(s.cards, f);
        }
        assert(t.cards == s1.update(k, c2));
        if s.cards[i].column_id == a {
            assert(in_col(s.cards, i, a) && in_col(s.cards, k, a));
            assert(in_col(s.cards, j, a));
        }
        assert(s1[i] == f(s.cards[i]) && s1[j] == f(s.cards[j]));
    }
}

} // verus!
