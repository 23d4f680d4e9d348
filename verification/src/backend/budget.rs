//! Device memory: how much may be used, and which sizes are refused.

use super::error::{BackendError, ErrorModel};
use crate::text::{decimal, push_decimal};
use vstd::prelude::*;
use vstd::string::*;

verus! {

/// How much device memory there is, and how much of it may be used.
#[derive(Debug, Clone, Copy, PartialEq, Eq, Structural)]
pub struct VramBudget {
    /// All device memory, in bytes.
    pub total_bytes: u64,
    /// What may be used of it, in bytes.
    pub usable_bytes: u64,
}

/// Three quarters of `n`; the product is clamped to 64 bits.
pub open spec fn three_quarters(n: u64) -> u64 {
    ((if n * 3 > u64::MAX {
        u64::MAX as int
    } else {
        n * 3
    }) / 4) as u64
}

/// What may be used of a heap: three quarters of what its budget leaves,
/// clamped to what there is.
pub open spec fn heap_usable(used: u64, heap_budget: u64, total: u64) -> u64 {
    let left = if heap_budget > used {
        (heap_budget - used) as u64
    } else {
        0
    };
    if three_quarters(left) > total {
        total
    } else {
        three_quarters(left)
    }
}

fn three_quarters_of(n: u64) -> (q: u64)
    ensures
        q == three_quarters(n),
        q <= n,
{
    let product: u64 = if n > u64::MAX / 3 {
        u64::MAX
    } else {
        n * 3
    };
    product / 4
}

impl VramBudget {
    /// A budget; what may be used is no more than there is.
    #[must_use]
    pub fn new(total_bytes: u64, usable_bytes: u64) -> (budget: Self)
        requires
            usable_bytes <= total_bytes,
        ensures
            budget.total_bytes == total_bytes,
            budget.usable_bytes == usable_bytes,
    {
        VramBudget { total_bytes, usable_bytes }
    }

    /// The budget of a device that reports its free memory: three quarters
    /// of it.
    #[must_use]
    pub fn from_free(free: u64, total: u64) -> (budget: Self)
        requires
            free <= total,
        ensures
            budget.total_bytes == total,
            budget.usable_bytes == three_quarters(free),
            budget.usable_bytes <= budget.total_bytes,
    {
        VramBudget::new(total, three_quarters_of(free))
    }

    /// The budget of a device that reports a heap budget and its use: three
    /// quarters of what is left, clamped to what there is.
    #[must_use]
    pub fn from_heap(used: u64, heap_budget: u64, total: u64) -> (budget: Self)
        ensures
            budget.total_bytes == total,
            budget.usable_bytes == heap_usable(used, heap_budget, total),
            budget.usable_bytes <= budget.total_bytes,
    {
        let left: u64 = if heap_budget > used {
            heap_budget - used
        } else {
            0
        };
        let usable: u64 = three_quarters_of(left);
        VramBudget::new(
            total,
            if usable > total {
                total
            } else {
                usable
            },
        )
    }
}

/// Refuse an allocation of nothing.
pub fn reject_zero_size(size: usize, operation: &str) -> (r: Result<(), BackendError>)
    ensures
        match r {
            Ok(_) => size > 0,
            Err(e) => size == 0 && e@ == ErrorModel::Message(
                operation@ + ": size must be greater than zero"@,
            ),
        },
{
    if size == 0 {
        let mut s = String::from_str(operation);
        s.append(": size must be greater than zero");
        return Err(BackendError::Message(s));
    }
    Ok(())
}

/// Refuse a transfer of more bytes than the device buffer holds.
pub fn check_transfer(operation: &str, len: usize, capacity: usize) -> (r: Result<(), BackendError>)
    ensures
        match r {
            Ok(_) => len <= capacity,
            Err(e) => len > capacity && e@ == ErrorModel::Message(
                operation@ + ": "@ + decimal(len as nat) + " bytes exceed the buffer's "@ + decimal(
                    capacity as nat,
                ),
            ),
        },
{
    if len > capacity {
        let mut s = String::from_str(operation);
        s.append(": ");
        push_decimal(&mut s, len as u64);
        s.append(" bytes exceed the buffer's ");
        push_decimal(&mut s, capacity as u64);
        return Err(BackendError::Message(s));
    }
    Ok(())
}

/// A budget takes three quarters of the memory, rounded down, as long as
/// three times the memory can be counted, and never more than there is.
pub proof fn law_budget_is_three_quarters(n: u64)
    ensures
        3 * n <= u64::MAX ==> 4 * three_quarters(n) <= 3 * n < 4 * three_quarters(n) + 4,
        3 * n > u64::MAX ==> 4 * three_quarters(n) <= u64::MAX < 4 * three_quarters(n) + 4,
        three_quarters(n) <= n,
{
}

/// A heap that is used up leaves nothing, more use never leaves more, and a
/// heap that can be counted leaves three quarters of what its budget has
/// left, or all there is where that is less.
pub proof fn law_heap_budget_shrinks_with_use(used: u64, more: u64, heap_budget: u64, total: u64)
    requires
        used <= more,
    ensures
        heap_usable(used, heap_budget, total) <= total,
        heap_usable(more, heap_budget, total) <= heap_usable(used, heap_budget, total),
        used >= heap_budget ==> heap_usable(used, heap_budget, total) == 0,
        used < heap_budget && 3 * (heap_budget - used) <= u64::MAX && heap_usable(
            used,
            heap_budget,
            total,
        ) < total ==> {
            let left = heap_budget - used;
            let usable = heap_usable(used, heap_budget, total);
            4 * usable <= 3 * left < 4 * usable + 4
        },
        used < heap_budget && 3 * (heap_budget - used) >= 4 * total ==> heap_usable(
            used,
            heap_budget,
            total,
        ) == total || 3 * (heap_budget - used) > u64::MAX,
{
}

} // verus!
