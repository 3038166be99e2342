//! A collaborative kanban board: boards hold columns, columns hold cards.
//! Cards carry a version for optimistic locking and a modification log.
pub mod text;
pub mod keyed;
pub mod ambient;
pub mod models;
pub mod errors;
pub mod ordering;
pub mod store;
pub mod wal;
pub mod positions;
pub mod laws;
