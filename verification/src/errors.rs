use vstd::prelude::*;

verus! {

use vstd::string::StringExecFns;

/// The error taxonomy of the service. Client input errors carry status
/// 400, lookups that miss carry 404, and failures of the process itself
/// (an unreadable upload, a poisoned lock) carry 500.
#[derive(Debug, Clone, PartialEq)]
pub enum ApiError {
    /// The workbook decoded, but its header row is not the expected one.
    InvalidFormat,
    /// The workbook has no readable first sheet, or the sheet is empty.
    EmptyWorksheet,
    /// The bytes could not be decoded as a workbook at all; the payload
    /// is the decoder's own description of the failure.
    Unreadable(String),
    /// A loan was requested for a non-positive amount.
    NonPositiveAmount,
    /// The requested amount is above the client's credit limit.
    ExceedsLimit,
    /// The client is not in the credit registry.
    ClientNotFound,
    /// The client identifier is empty or whitespace-only.
    EmptyClientId,
    /// The client is not in the loan-status registry.
    StatusNotFound,
    /// Shared registry state could not be locked.
    LockFailure,
}

impl ApiError {
    /// The HTTP status class this error is reported with.
    pub open spec fn spec_status_code(self) -> u16 {
        match self {
            ApiError::InvalidFormat => 400,
            ApiError::EmptyWorksheet => 400,
            ApiError::Unreadable(_) => 500,
            ApiError::NonPositiveAmount => 400,
            ApiError::ExceedsLimit => 400,
            ApiError::ClientNotFound => 404,
            ApiError::EmptyClientId => 400,
            ApiError::StatusNotFound => 404,
            ApiError::LockFailure => 500,
        }
    }

    /// The fixed message each error is reported with; an unreadable
    /// upload appends the decoder's description.
    pub open spec fn spec_message(self) -> Seq<char> {
        match self {
            ApiError::InvalidFormat => "Invalid Excel format"@,
            ApiError::EmptyWorksheet => "Invalid or empty worksheet"@,
            ApiError::Unreadable(d) => "Failed to read XLSX file: "@ + d@,
            ApiError::NonPositiveAmount => "Requested amount must be greater than zero"@,
            ApiError::ExceedsLimit => "Loan amount exceeds credit limit"@,
            ApiError::ClientNotFound => "Client ID not found"@,
            ApiError::EmptyClientId => "Client ID cannot be empty"@,
            ApiError::StatusNotFound => "Loan status not found"@,
            ApiError::LockFailure => "Failed to acquire lock"@,
        }
    }

    pub fn status_code(&self) -> (r: u16)
        ensures
            r == self.spec_status_code(),
    {
        match self {
            ApiError::InvalidFormat => 400,
            ApiError::EmptyWorksheet => 400,
            ApiError::Unreadable(_) => 500,
            ApiError::NonPositiveAmount => 400,
            ApiError::ExceedsLimit => 400,
            ApiError::ClientNotFound => 404,
            ApiError::EmptyClientId => 400,
            ApiError::StatusNotFound => 404,
            ApiError::LockFailure => 500,
        }
    }

    pub fn message(&self) -> (r: String)
        ensures
            r@ == self.spec_message(),
    {
        match self {
            ApiError::InvalidFormat => "Invalid Excel format".to_owned(),
            ApiError::EmptyWorksheet => "Invalid or empty worksheet".to_owned(),
            ApiError::Unreadable(d) => String::from_str("Failed to read XLSX file: ").concat(
                d.as_str(),
            ),
            ApiError::NonPositiveAmount => "Requested amount must be greater than zero".to_owned(),
            ApiError::ExceedsLimit => "Loan amount exceeds credit limit".to_owned(),
            ApiError::ClientNotFound => "Client ID not found".to_owned(),
            ApiError::EmptyClientId => "Client ID cannot be empty".to_owned(),
            ApiError::StatusNotFound => "Loan status not found".to_owned(),
            ApiError::LockFailure => "Failed to acquire lock".to_owned(),
        }
    }
}

} // verus!
