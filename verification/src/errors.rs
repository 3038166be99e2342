//! The errors that the board's operations answer, with the status code,
//! error code and message by which each is reported.
use vstd::prelude::*;
use vstd::string::*;

use crate::text::{decimal_nat, u64_to_decimal};

verus! {

#[derive(Debug)]
pub enum AppError {
    BoardNotFound(String),
    ColumnNotFound(String),
    CardNotFound(String),
    VersionConflict { expected: u64, actual: u64 },
    InvalidPosition(String),
    Internal(String),
}

pub enum AppErrorView {
    BoardNotFound(Seq<char>),
    ColumnNotFound(Seq<char>),
    CardNotFound(Seq<char>),
    VersionConflict { expected: u64, actual: u64 },
    InvalidPosition(Seq<char>),
    Internal(Seq<char>),
}

impl View for AppError {
    type V = AppErrorView;

    open spec fn view(&self) -> AppErrorView {
        match self {
            AppError::BoardNotFound(s) => AppErrorView::BoardNotFound(s@),
            AppError::ColumnNotFound(s) => AppErrorView::ColumnNotFound(s@),
            AppError::CardNotFound(s) => AppErrorView::CardNotFound(s@),
            AppError::VersionConflict { expected, actual } => AppErrorView::VersionConflict {
                expected: *expected,
                actual: *actual,
            },
            AppError::InvalidPosition(s) => AppErrorView::InvalidPosition(s@),
            AppError::Internal(s) => AppErrorView::Internal(s@),
        }
    }
}

/// The HTTP status by which an error is answered.
pub open spec fn error_status(e: AppErrorView) -> u16 {
    match e {
        AppErrorView::BoardNotFound(_) => 404,
        AppErrorView::ColumnNotFound(_) => 404,
        AppErrorView::CardNotFound(_) => 404,
        AppErrorView::VersionConflict { .. } => 409,
        AppErrorView::InvalidPosition(_) => 400,
        AppErrorView::Internal(_) => 500,
    }
}

/// The machine-readable code of an error.
pub open spec fn error_code(e: AppErrorView) -> Seq<char> {
    match e {
        AppErrorView::BoardNotFound(_) => "BOARD_NOT_FOUND"@,
        AppErrorView::ColumnNotFound(_) => "COLUMN_NOT_FOUND"@,
        AppErrorView::CardNotFound(_) => "CARD_NOT_FOUND"@,
        AppErrorView::VersionConflict { .. } => "VERSION_CONFLICT"@,
        AppErrorView::InvalidPosition(_) => "INVALID_POSITION"@,
        AppErrorView::Internal(_) => "INTERNAL_ERROR"@,
    }
}

/// The human-readable message of an error.
pub open spec fn error_message(e: AppErrorView) -> Seq<char> {
    match e {
        AppErrorView::BoardNotFound(s) => "Board not found: "@ + s,
        AppErrorView::ColumnNotFound(s) => "Column not found: "@ + s,
        AppErrorView::CardNotFound(s) => "Card not found: "@ + s,
        AppErrorView::VersionConflict { expected, actual } => "Version conflict: expected "@
            + decimal_nat(expected as nat) + ", got "@ + decimal_nat(actual as nat),
        AppErrorView::InvalidPosition(s) => "Invalid position: "@ + s,
        AppErrorView::Internal(s) => "Internal error: "@ + s,
    }
}

impl AppError {
    pub fn status_code(&self) -> (r: u16)
        ensures
            r == error_status(self@),
    {
        match self {
            AppError::BoardNotFound(_) => 404,
            AppError::ColumnNotFound(_) => 404,
            AppError::CardNotFound(_) => 404,
            AppError::VersionConflict { .. } => 409,
            AppError::InvalidPosition(_) => 400,
            AppError::Internal(_) => 500,
        }
    }

    pub fn code(&self) -> (r: &'static str)
        ensures
            r@ == error_code(self@),
    {
        match self {
            AppError::BoardNotFound(_) => "BOARD_NOT_FOUND",
            AppError::ColumnNotFound(_) => "COLUMN_NOT_FOUND",
            AppError::CardNotFound(_) => "CARD_NOT_FOUND",
            AppError::VersionConflict { .. } => "VERSION_CONFLICT",
            AppError::InvalidPosition(_) => "INVALID_POSITION",
            AppError::Internal(_) => "INTERNAL_ERROR",
        }
    }

    /// The message that the error's `Display` shows.
    pub fn message(&self) -> (r: String)
        ensures
            r@ == error_message(self@),
    {
        match self {
            AppError::BoardNotFound(s) => String::from_str("Board not found: ").concat(s.as_str()),
            AppError::ColumnNotFound(s) => String::from_str("Column not found: ").concat(
                s.as_str(),
            ),
            AppError::CardNotFound(s) => String::from_str("Card not found: ").concat(s.as_str()),
            AppError::VersionConflict { expected, actual } => {
                let e = u64_to_decimal(*expected);
                let a = u64_to_decimal(*actual);
                let r = String::from_str("Version conflict: expected ").concat(e.as_str()).concat(
                    ", got ",
                ).concat(a.as_str());
                r
            },
            AppError::InvalidPosition(s) => String::from_str("Invalid position: ").concat(
                s.as_str(),
            ),
            AppError::Internal(s) => String::from_str("Internal error: ").concat(s.as_str()),
        }
    }

    /// The body by which the error is answered.
    pub fn to_response(&self) -> (r: crate::models::ErrorResponse)
        ensures
            r.error@ == error_message(self@),
            r.code@ == error_code(self@),
    {
        crate::models::ErrorResponse { error: self.message(), code: String::from_str(self.code()) }
    }
}

} // verus!
