use vstd::prelude::*;

verus! {

/// A page request: page number and page size.
#[derive(Clone, Copy, Debug, PartialEq, Eq, Structural)]
pub struct Pagination {
    pub page: i64,
    pub page_size: i64,
}

impl Pagination {
    /// Rows to skip: the page size times the page number; `None` when that
    /// does not fit in an `i64`.
    pub fn offset(&self) -> (r: Option<i64>)
        ensures
            r is Some <==> i64::MIN <= self.page_size * self.page <= i64::MAX,
            r is Some ==> r.unwrap() == self.page_size * self.page,
    {
        self.page_size.checked_mul(self.page)
    }
}

impl Default for Pagination {
    fn default() -> (r: Pagination)
        ensures
            r.page == 0 && r.page_size == 0,
    {
        Pagination { page: 0, page_size: 0 }
    }
}

/// Page size used when a request names none.
pub fn default_page_size() -> (r: i64)
    ensures
        r == 100,
{
    100
}

/// Page used when a request names none.
pub fn default_page() -> (r: i64)
    ensures
        r == 0,
{
    0
}

/// Kinds of error reported to a client.
#[derive(Clone, Copy, Debug, PartialEq, Eq, Structural)]
pub enum ErrorType {
    InvalidTicker,
    InvalidFireRate,
    InvalidReturns,
    InvalidExpenses,
    InvalidMonthlyInvestment,
    DatabaseError,
}

/// An error report: its kind and an optional message.
pub struct ErrorJson {
    pub error: ErrorType,
    pub message: Option<String>,
}

impl ErrorJson {
    /// A report without a message.
    pub fn default(error: ErrorType) -> (r: ErrorJson)
        ensures
            r.error == error,
            r.message is None,
    {
        ErrorJson { error: error, message: None }
    }

    /// A report with a message.
    pub fn with_message(error: ErrorType, message: String) -> (r: ErrorJson)
        ensures
            r.error == error,
            r.message == Some(message),
    {
        ErrorJson { error: error, message: Some(message) }
    }
}

} // verus!
