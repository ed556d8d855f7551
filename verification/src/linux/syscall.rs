//! The encoding of system call results in one register.
use super::errno;
use super::errno::{Errno, Result};
use vstd::prelude::*;

verus! {

/// The smallest register value that denotes an error: `-MAX_ERRNO`.
pub const MIN_ERROR_RETURN: u64 = 0xffff_ffff_ffff_f001;

/// The register value for `result`.
pub open spec fn encoded(result: Result<u64>) -> int {
    match result {
        Ok(value) => value as int,
        Err(error) => 0x1_0000_0000_0000_0000 - errno::errno_code(error),
    }
}

pub fn encode(result: Result<u64>) -> (register: u64)
    requires
        result matches Err(error) ==> error.wf(),
    ensures
        register == encoded(result),
{
    match result {
        Ok(value) => value,
        Err(error) => error.return_value(),
    }
}

pub fn is_error(value: u64) -> (error: bool)
    ensures
        error == (value >= MIN_ERROR_RETURN),
{
    value >= MIN_ERROR_RETURN
}

/// Whether register value `value` denotes `result`.
pub open spec fn decodes_to(value: u64, result: Result<u64>) -> bool {
    if value < MIN_ERROR_RETURN {
        result == Result::<u64>::Ok(value)
    } else {
        result matches Err(error) && error.wf() && errno::errno_code(error) == 0x1_0000_0000_0000_0000
            - value
    }
}

/// The result that a register value denotes.
pub fn decode(value: u64) -> (result: Result<u64>)
    ensures
        decodes_to(value, result),
{
    if is_error(value) {
        let code: i32 = (u64::MAX - value + 1) as i32;
        match Errno::from_code(code) {
            Some(error) => Err(error),
            None => Err(Errno::EINVAL),
        }
    } else {
        Ok(value)
    }
}

/// No system call is implemented: every number is answered with `ENOSYS`.
pub fn dispatch(_number: u64, _arguments: [u64; 6]) -> (register: u64)
    ensures
        register == encoded(Result::<u64>::Err(Errno::ENOSYS)),
{
    encode(Err(Errno::ENOSYS))
}

/// Decoding undoes encoding, for errors and for the values below the error range.
pub proof fn law_decode_undoes_encode(result: Result<u64>, register: u64, decoded: Result<u64>)
    requires
        result matches Err(error) ==> error.wf(),
        result matches Ok(value) ==> value < MIN_ERROR_RETURN,
        register == encoded(result),
        decodes_to(register, decoded),
    ensures
        decoded == result,
{
    if let Err(error) = result {
        errno::law_code_in_range(error);
        if let Err(other) = decoded {
            errno::law_code_determines_errno(error, other);
        }
    }
}

} // verus!
