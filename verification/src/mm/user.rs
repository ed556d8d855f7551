//! Checks on ranges of memory that user programs name.
use super::address::{PAGE_SIZE, USER_ADDRESS_LIMIT};
use vstd::prelude::*;

verus! {

#[derive(Clone, Copy, Debug, PartialEq, Eq, Structural)]
pub enum UserAccess {
    Read,
    Write,
}

#[derive(Clone, Copy, Debug, PartialEq, Eq, Structural)]
pub enum UserRangeError {
    LengthTooLarge,
    AddressOverflow,
    OutsideUserSpace,
}

/// A range of user memory that has been checked.
#[derive(Clone, Copy, Debug, PartialEq, Eq, Structural)]
pub struct UserRange {
    start: u64,
    end: u64,
    length: usize,
    access: UserAccess,
}

impl UserRange {
    pub closed spec fn spec_start(self) -> u64 {
        self.start
    }

    pub closed spec fn spec_end(self) -> u64 {
        self.end
    }

    pub closed spec fn spec_length(self) -> usize {
        self.length
    }

    pub closed spec fn spec_access(self) -> UserAccess {
        self.access
    }

    /// The range covers exactly its length, and is empty or lies in user space
    /// above the first page.
    #[verifier::type_invariant]
    spec fn checked(self) -> bool {
        &&& self.start + self.length == self.end
        &&& self.length == 0 || (PAGE_SIZE <= self.start && self.end <= USER_ADDRESS_LIMIT)
    }

    pub fn start(self) -> (start: u64)
        ensures
            start == self.spec_start(),
    {
        self.start
    }

    pub fn end(self) -> (end: u64)
        ensures
            end == self.spec_end(),
    {
        self.end
    }

    pub fn length(self) -> (length: usize)
        ensures
            length == self.spec_length(),
            self.spec_start() + length == self.spec_end(),
            length > 0 ==> PAGE_SIZE <= self.spec_start() && self.spec_end() <= USER_ADDRESS_LIMIT,
    {
        proof {
            use_type_invariant(self);
        }
        self.length
    }

    pub fn access(self) -> (access: UserAccess)
        ensures
            access == self.spec_access(),
    {
        self.access
    }
}

/// The length `raw` as a `usize` that is at most `maximum`.
pub fn checked_user_length(raw: u64, maximum: usize) -> (result: Result<usize, UserRangeError>)
    ensures
        result == (if raw <= maximum && raw <= isize::MAX {
            Ok::<usize, UserRangeError>(raw as usize)
        } else {
            Err(UserRangeError::LengthTooLarge)
        }),
{
    if raw <= maximum as u64 && raw <= isize::MAX as u64 {
        Ok(raw as usize)
    } else {
        Err(UserRangeError::LengthTooLarge)
    }
}

pub fn checked_user_offset(address: u64, offset: usize) -> (result: Result<u64, UserRangeError>)
    ensures
        result == (if address + offset <= u64::MAX {
            Ok::<u64, UserRangeError>((address + offset) as u64)
        } else {
            Err(UserRangeError::AddressOverflow)
        }),
{
    match address.checked_add(offset as u64) {
        Some(sum) => Ok(sum),
        None => Err(UserRangeError::AddressOverflow),
    }
}

/// Why a range is refused, if it is.
pub open spec fn user_range_error(address: u64, length: usize) -> Option<UserRangeError> {
    if length > isize::MAX {
        Some(UserRangeError::LengthTooLarge)
    } else if length == 0 {
        None
    } else if address + length > u64::MAX {
        Some(UserRangeError::AddressOverflow)
    } else if address < PAGE_SIZE || address + length > USER_ADDRESS_LIMIT {
        Some(UserRangeError::OutsideUserSpace)
    } else {
        None
    }
}

/// Checks that `length` bytes from `address` on lie in user space. An empty range
/// is accepted anywhere.
pub fn checked_user_range(address: u64, length: usize, access: UserAccess) -> (result: Result<
    UserRange,
    UserRangeError,
>)
    ensures
        match result {
            Ok(range) => user_range_error(address, length) is None && range.spec_start() == address
                && range.spec_end() == address + length && range.spec_length() == length
                && range.spec_access() == access,
            Err(error) => user_range_error(address, length) == Some(error),
        },
{
    if length > isize::MAX as usize {
        return Err(UserRangeError::LengthTooLarge);
    }
    if length == 0 {
        return Ok(UserRange { start: address, end: address, length, access });
    }
    let end: u64 = match address.checked_add(length as u64) {
        Some(end) => end,
        None => return Err(UserRangeError::AddressOverflow),
    };
    if address < PAGE_SIZE || end > USER_ADDRESS_LIMIT || end <= address {
        return Err(UserRangeError::OutsideUserSpace);
    }
    Ok(UserRange { start: address, end, length, access })
}

} // verus!
