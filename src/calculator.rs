//! The example calculator service's request handling.
use vstd::prelude::*;

verus! {

pub struct AddRequest {
    pub a: i32,
    pub b: Option<i32>,
}

pub struct AddResponse {
    pub result: i32,
    pub message: Option<String>,
    pub b: Option<i32>,
}

/// The value that stands for a missing operand.
pub open spec fn operand(b: Option<i32>) -> int {
    match b {
        Some(x) => x as int,
        None => 0,
    }
}

pub struct CalculatorService {}

impl Default for CalculatorService {
    fn default() -> (r: CalculatorService)
        ensures
            r == (CalculatorService {}),
    {
        CalculatorService {}
    }
}

impl CalculatorService {
    /// Adds `a` and `b`, a missing `b` counting as zero, and echoes `b`.
    pub fn add(&self, request: AddRequest) -> (r: AddResponse)
        requires
            i32::MIN <= request.a + operand(request.b) <= i32::MAX,
        ensures
            r.result == request.a + operand(request.b),
            r.message is None,
            r.b == request.b,
    {
        let b = match request.b {
            Some(x) => x,
            None => 0,
        };
        AddResponse { result: request.a + b, message: None, b: request.b }
    }
}

} // verus!
