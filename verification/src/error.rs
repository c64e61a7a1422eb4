use vstd::prelude::*;

verus! {

/// Why a request was turned down.
#[derive(Debug)]
pub enum AppError {
    /// The request is not acceptable; the text names the field at fault.
    InvalidInput(&'static str),
}

pub type AppResult<T> = Result<T, AppError>;

} // verus!
