//! The demo signal: a name and some numbers come in, and the mean of the
//! numbers goes back. The mean itself is a quotient of two machine numbers
//! and is formed by whoever sends the answer; what is decided here is its
//! numerator.

use vstd::prelude::*;

verus! {

/// Inbound message of the demo.
#[derive(Debug, PartialEq, Eq)]
pub struct DemoRequest {
    pub name: String,
    pub nums: Vec<i32>,
}

/// The sum of `nums`.
pub open spec fn sum(nums: Seq<i32>) -> int
    decreases nums.len(),
{
    if nums.len() == 0 {
        0
    } else {
        sum(nums.drop_last()) + nums.last()
    }
}

/// Every running total of `nums`, taken from the front, fits in 32 bits.
pub open spec fn running_totals_fit(nums: Seq<i32>) -> bool {
    forall|k: int| 0 <= k <= nums.len() ==> i32::MIN <= #[trigger] sum(nums.take(k)) <= i32::MAX
}

impl DemoRequest {
    /// The sum of the numbers, added up from the front in 32 bits. There is
    /// none where a running total leaves that range.
    pub fn total(&self) -> (r: Option<i32>)
        ensures
            r is Some <==> running_totals_fit(self.nums@),
            r matches Some(t) ==> t == sum(self.nums@),
    {
        let n = self.nums.len();
        let mut acc: i32 = 0;
        let mut k: usize = 0;
        proof {
            assert(self.nums@.take(0) =~= Seq::<i32>::empty());
        }
        while k < n
            invariant
                k <= n,
                n == self.nums@.len(),
                acc == sum(self.nums@.take(k as int)),
                forall|m: int| 0 <= m <= k ==> i32::MIN <= #[trigger] sum(self.nums@.take(m)) <= i32::MAX,
            decreases n - k,
        {
            proof {
                assert(self.nums@.take(k as int + 1).drop_last() =~= self.nums@.take(k as int));
            }
            match acc.checked_add(self.nums[k]) {
                Some(next) => {
                    acc = next;
                },
                None => {
                    proof {
                        let upto = self.nums@.take(k as int + 1);
                        assert(sum(upto) == acc + self.nums@[k as int]);
                    }
                    return None;
                },
            }
            k += 1;
        }
        proof {
            assert(self.nums@.take(n as int) =~= self.nums@);
        }
        Some(acc)
    }
}

} // verus!
