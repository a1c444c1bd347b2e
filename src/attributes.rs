//! The attribute list that an identity provider certifies, and the checks
//! that make it well formed.
use crate::scalar::Scalar;
use vstd::prelude::*;

verus! {

/// A month of a year.
#[derive(Clone, Copy, Debug, PartialEq, Eq, Structural)]
pub struct YearMonth {
    pub year: u16,
    pub month: u8,
}

/// The attributes, each under a one-byte tag, with the validity window and
/// the number of accounts that may be made from the identity.
#[derive(Clone, Debug, PartialEq, Eq)]
pub struct AttributeList {
    pub valid_to: YearMonth,
    pub created_at: YearMonth,
    pub max_accounts: u8,
    pub alist: Vec<(u8, Scalar)>,
}

/// Why an attribute list is refused.
#[derive(Clone, Copy, Debug, PartialEq, Eq, Structural)]
pub enum AttributeError {
    /// A month outside 1 to 12.
    InvalidMonth,
    /// The list was created after it expires.
    CreatedAfterExpiry,
    /// No account may be made.
    NoAccounts,
    /// Two attributes have the same tag.
    DuplicateTag,
}

impl YearMonth {
    pub open spec fn valid(&self) -> bool {
        1 <= self.month <= 12
    }

    /// The months since year 0: the order of year-months.
    pub open spec fn index(&self) -> int {
        self.year as int * 12 + self.month as int
    }

    /// Whether `self` is not later than `other`.
    pub fn not_after(&self, other: &YearMonth) -> (r: bool)
        requires
            self.valid(),
            other.valid(),
        ensures
            r == (self.index() <= other.index()),
    {
        self.year < other.year || (self.year == other.year && self.month <= other.month)
    }
}

/// The tags are distinct.
pub open spec fn tags_distinct(alist: Seq<(u8, Scalar)>) -> bool {
    forall|j: int, k: int| 0 <= j < alist.len() && 0 <= k < alist.len() && j != k ==> alist[j].0 != alist[k].0
}

impl AttributeList {
    /// Valid months, `created_at ≤ valid_to`, at least one account, and
    /// distinct tags.
    pub open spec fn wf(&self) -> bool {
        &&& self.valid_to.valid()
        &&& self.created_at.valid()
        &&& self.created_at.index() <= self.valid_to.index()
        &&& self.max_accounts >= 1
        &&& tags_distinct(self.alist@)
    }

    /// Checks the list; the error names the first check that failed, in the
    /// order of the variants.
    pub fn check(&self) -> (r: Result<(), AttributeError>)
        ensures
            r.is_ok() == self.wf(),
            r == Err::<(), AttributeError>(AttributeError::InvalidMonth) ==> !(self.valid_to.valid()
                && self.created_at.valid()),
            r == Err::<(), AttributeError>(AttributeError::CreatedAfterExpiry) ==> self.created_at.index()
                > self.valid_to.index(),
            r == Err::<(), AttributeError>(AttributeError::NoAccounts) ==> self.max_accounts == 0,
            r == Err::<(), AttributeError>(AttributeError::DuplicateTag) ==> !tags_distinct(self.alist@),
    {
        if self.valid_to.month < 1 || self.valid_to.month > 12 || self.created_at.month < 1
            || self.created_at.month > 12 {
            return Err(AttributeError::InvalidMonth);
        }
        if !self.created_at.not_after(&self.valid_to) {
            return Err(AttributeError::CreatedAfterExpiry);
        }
        if self.max_accounts == 0 {
            return Err(AttributeError::NoAccounts);
        }
        let n = self.alist.len();
        let mut j: usize = 0;
        while j < n
            invariant
                j <= n,
                n == self.alist@.len(),
                forall|a: int, b: int|
                    0 <= a < j && 0 <= b < n && a != b ==> self.alist@[a].0 != self.alist@[b].0,
            decreases n - j,
        {
            let mut k: usize = 0;
            while k < n
                invariant
                    k <= n,
                    j < n,
                    n == self.alist@.len(),
                    forall|b: int| 0 <= b < k && b != j ==> self.alist@[j as int].0 != self.alist@[b].0,
                    forall|a: int, b: int|
                        0 <= a < j && 0 <= b < n && a != b ==> self.alist@[a].0 != self.alist@[b].0,
                decreases n - k,
            {
                if k != j && self.alist[k].0 == self.alist[j].0 {
                    return Err(AttributeError::DuplicateTag);
                }
                k = k + 1;
            }
            j = j + 1;
        }
        Ok(())
    }
}

} // verus!
