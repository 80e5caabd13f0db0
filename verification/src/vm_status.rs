use crate::task::{CategorizeError, ErrorCategory};
use move_core_types::vm_status::VMStatus;
use vstd::prelude::*;

verus! {

/// `move_core_types::vm_status::VMStatus`, taken as an opaque value.
#[verifier::external_type_specification]
#[verifier::external_body]
pub struct ExVMStatus(VMStatus);

/// Status code that reports a broken invariant of the delayed-field machinery.
pub const DELAYED_FIELDS_CODE_INVARIANT_ERROR: u64 = 2023;

/// Status code that reports an abort caused by speculative reads.
pub const SPECULATIVE_EXECUTION_ABORT_ERROR: u64 = 2024;

/// The number of the status code that `status` carries: what
/// `status_code_of` reads out of it.
pub uninterp spec fn status_code_number(status: VMStatus) -> u64;

/// Category of a status code, given by its number.
pub open spec fn category_of_code(code: u64) -> ErrorCategory {
    if code == DELAYED_FIELDS_CODE_INVARIANT_ERROR {
        ErrorCategory::CodeInvariantError
    } else if code == SPECULATIVE_EXECUTION_ABORT_ERROR {
        ErrorCategory::SpeculativeExecutionAbortError
    } else {
        ErrorCategory::ValidError
    }
}

/// Calls `VMStatus::status_code` and converts the code with `u64::from`. On
/// an `Error` the code is taken from the variant instead, which is what
/// `status_code` returns there: on that variant it first asserts, in a debug
/// build, that the code is not `EXECUTED`, `ABORTED` or of the execution
/// range. The contract only names the number that comes back.
#[verifier::external_body]
fn status_code_of(status: &VMStatus) -> (code: u64)
    ensures
        code == status_code_number(*status),
{
    match status {
        VMStatus::Error(code) => u64::from(*code),
        _ => u64::from(status.status_code()),
    }
}

/// The category of a status code: a broken invariant of the delayed-field
/// machinery is a code invariant error, a speculative abort is a speculative
/// error, and every other code is a valid error.
pub fn categorize_status_code(code: u64) -> (category: ErrorCategory)
    ensures
        category == category_of_code(code),
{
    if code == DELAYED_FIELDS_CODE_INVARIANT_ERROR {
        ErrorCategory::CodeInvariantError
    } else if code == SPECULATIVE_EXECUTION_ABORT_ERROR {
        ErrorCategory::SpeculativeExecutionAbortError
    } else {
        ErrorCategory::ValidError
    }
}

impl CategorizeError for VMStatus {
    open spec fn category(&self) -> ErrorCategory {
        category_of_code(status_code_number(*self))
    }

    fn categorize(&self) -> (category: ErrorCategory) {
        categorize_status_code(status_code_of(self))
    }
}

} // verus!
