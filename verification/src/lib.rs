//! Two small text-and-arithmetic utilities: an increment helper and a
//! whitespace tokenizer, each with a full functional contract.

use vstd::prelude::*;

pub mod tokenize;

pub use crate::tokenize::split_string;

verus! {

/// Returns `num + 2`. The caller keeps the sum inside `i64`.
pub fn add_two(num: i64) -> (r: i64)
    requires
        num + 2 <= i64::MAX,
    ensures
        r == num + 2,
{
    num + 2
}

} // verus!
