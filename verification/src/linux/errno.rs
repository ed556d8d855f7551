//! Linux error numbers.
use vstd::prelude::*;

verus! {

pub const MAX_ERRNO: i32 = 4095;

/// A Linux error number between 1 and [`MAX_ERRNO`]. The numbers that Linux
/// names have a variant each; every other number is `Unnamed`.
#[derive(Clone, Copy, Debug, PartialEq, Eq, Structural)]
pub enum Errno {
    EPERM,
    ENOENT,
    ESRCH,
    EINTR,
    EIO,
    ENXIO,
    E2BIG,
    ENOEXEC,
    EBADF,
    ECHILD,
    EAGAIN,
    ENOMEM,
    EACCES,
    EFAULT,
    ENOTBLK,
    EBUSY,
    EEXIST,
    EXDEV,
    ENODEV,
    ENOTDIR,
    EISDIR,
    EINVAL,
    ENFILE,
    EMFILE,
    ENOTTY,
    ETXTBSY,
    EFBIG,
    ENOSPC,
    ESPIPE,
    EROFS,
    EMLINK,
    EPIPE,
    EDOM,
    ERANGE,
    EDEADLK,
    ENAMETOOLONG,
    ENOLCK,
    ENOSYS,
    ENOTEMPTY,
    ELOOP,
    ENOMSG,
    EIDRM,
    ECHRNG,
    EL2NSYNC,
    EL3HLT,
    EL3RST,
    ELNRNG,
    EUNATCH,
    ENOCSI,
    EL2HLT,
    EBADE,
    EBADR,
    EXFULL,
    ENOANO,
    EBADRQC,
    EBADSLT,
    EBFONT,
    ENOSTR,
    ENODATA,
    ETIME,
    ENOSR,
    ENONET,
    ENOPKG,
    EREMOTE,
    ENOLINK,
    EADV,
    ESRMNT,
    ECOMM,
    EPROTO,
    EMULTIHOP,
    EDOTDOT,
    EBADMSG,
    EOVERFLOW,
    ENOTUNIQ,
    EBADFD,
    EREMCHG,
    ELIBACC,
    ELIBBAD,
    ELIBSCN,
    ELIBMAX,
    ELIBEXEC,
    EILSEQ,
    ERESTART,
    ESTRPIPE,
    EUSERS,
    ENOTSOCK,
    EDESTADDRREQ,
    EMSGSIZE,
    EPROTOTYPE,
    ENOPROTOOPT,
    EPROTONOSUPPORT,
    ESOCKTNOSUPPORT,
    EOPNOTSUPP,
    EPFNOSUPPORT,
    EAFNOSUPPORT,
    EADDRINUSE,
    EADDRNOTAVAIL,
    ENETDOWN,
    ENETUNREACH,
    ENETRESET,
    ECONNABORTED,
    ECONNRESET,
    ENOBUFS,
    EISCONN,
    ENOTCONN,
    ESHUTDOWN,
    ETOOMANYREFS,
    ETIMEDOUT,
    ECONNREFUSED,
    EHOSTDOWN,
    EHOSTUNREACH,
    EALREADY,
    EINPROGRESS,
    ESTALE,
    EUCLEAN,
    ENOTNAM,
    ENAVAIL,
    EISNAM,
    EREMOTEIO,
    EDQUOT,
    ENOMEDIUM,
    EMEDIUMTYPE,
    ECANCELED,
    ENOKEY,
    EKEYEXPIRED,
    EKEYREVOKED,
    EKEYREJECTED,
    EOWNERDEAD,
    ENOTRECOVERABLE,
    ERFKILL,
    EHWPOISON,
    Unnamed(i32),
}

pub type Result<T> = core::result::Result<T, Errno>;

/// Whether Linux has a name for error number `code`.
pub open spec fn is_named(code: int) -> bool {
    1 <= code <= 133 && code != 41 && code != 58
}

/// The error number that `error` stands for.
pub open spec fn errno_code(error: Errno) -> int {
    match error {
        Errno::EPERM => 1,
        Errno::ENOENT => 2,
        Errno::ESRCH => 3,
        Errno::EINTR => 4,
        Errno::EIO => 5,
        Errno::ENXIO => 6,
        Errno::E2BIG => 7,
        Errno::ENOEXEC => 8,
        Errno::EBADF => 9,
        Errno::ECHILD => 10,
        Errno::EAGAIN => 11,
        Errno::ENOMEM => 12,
        Errno::EACCES => 13,
        Errno::EFAULT => 14,
        Errno::ENOTBLK => 15,
        Errno::EBUSY => 16,
        Errno::EEXIST => 17,
        Errno::EXDEV => 18,
        Errno::ENODEV => 19,
        Errno::ENOTDIR => 20,
        Errno::EISDIR => 21,
        Errno::EINVAL => 22,
        Errno::ENFILE => 23,
        Errno::EMFILE => 24,
        Errno::ENOTTY => 25,
        Errno::ETXTBSY => 26,
        Errno::EFBIG => 27,
        Errno::ENOSPC => 28,
        Errno::ESPIPE => 29,
        Errno::EROFS => 30,
        Errno::EMLINK => 31,
        Errno::EPIPE => 32,
        Errno::EDOM => 33,
        Errno::ERANGE => 34,
        Errno::EDEADLK => 35,
        Errno::ENAMETOOLONG => 36,
        Errno::ENOLCK => 37,
        Errno::ENOSYS => 38,
        Errno::ENOTEMPTY => 39,
        Errno::ELOOP => 40,
        Errno::ENOMSG => 42,
        Errno::EIDRM => 43,
        Errno::ECHRNG => 44,
        Errno::EL2NSYNC => 45,
        Errno::EL3HLT => 46,
        Errno::EL3RST => 47,
        Errno::ELNRNG => 48,
        Errno::EUNATCH => 49,
        Errno::ENOCSI => 50,
        Errno::EL2HLT => 51,
        Errno::EBADE => 52,
        Errno::EBADR => 53,
        Errno::EXFULL => 54,
        Errno::ENOANO => 55,
        Errno::EBADRQC => 56,
        Errno::EBADSLT => 57,
        Errno::EBFONT => 59,
        Errno::ENOSTR => 60,
        Errno::ENODATA => 61,
        Errno::ETIME => 62,
        Errno::ENOSR => 63,
        Errno::ENONET => 64,
        Errno::ENOPKG => 65,
        Errno::EREMOTE => 66,
        Errno::ENOLINK => 67,
        Errno::EADV => 68,
        Errno::ESRMNT => 69,
        Errno::ECOMM => 70,
        Errno::EPROTO => 71,
        Errno::EMULTIHOP => 72,
        Errno::EDOTDOT => 73,
        Errno::EBADMSG => 74,
        Errno::EOVERFLOW => 75,
        Errno::ENOTUNIQ => 76,
        Errno::EBADFD => 77,
        Errno::EREMCHG => 78,
        Errno::ELIBACC => 79,
        Errno::ELIBBAD => 80,
        Errno::ELIBSCN => 81,
        Errno::ELIBMAX => 82,
        Errno::ELIBEXEC => 83,
        Errno::EILSEQ => 84,
        Errno::ERESTART => 85,
        Errno::ESTRPIPE => 86,
        Errno::EUSERS => 87,
        Errno::ENOTSOCK => 88,
        Errno::EDESTADDRREQ => 89,
        Errno::EMSGSIZE => 90,
        Errno::EPROTOTYPE => 91,
        Errno::ENOPROTOOPT => 92,
        Errno::EPROTONOSUPPORT => 93,
        Errno::ESOCKTNOSUPPORT => 94,
        Errno::EOPNOTSUPP => 95,
        Errno::EPFNOSUPPORT => 96,
        Errno::EAFNOSUPPORT => 97,
        Errno::EADDRINUSE => 98,
        Errno::EADDRNOTAVAIL => 99,
        Errno::ENETDOWN => 100,
        Errno::ENETUNREACH => 101,
        Errno::ENETRESET => 102,
        Errno::ECONNABORTED => 103,
        Errno::ECONNRESET => 104,
        Errno::ENOBUFS => 105,
        Errno::EISCONN => 106,
        Errno::ENOTCONN => 107,
        Errno::ESHUTDOWN => 108,
        Errno::ETOOMANYREFS => 109,
        Errno::ETIMEDOUT => 110,
        Errno::ECONNREFUSED => 111,
        Errno::EHOSTDOWN => 112,
        Errno::EHOSTUNREACH => 113,
        Errno::EALREADY => 114,
        Errno::EINPROGRESS => 115,
        Errno::ESTALE => 116,
        Errno::EUCLEAN => 117,
        Errno::ENOTNAM => 118,
        Errno::ENAVAIL => 119,
        Errno::EISNAM => 120,
        Errno::EREMOTEIO => 121,
        Errno::EDQUOT => 122,
        Errno::ENOMEDIUM => 123,
        Errno::EMEDIUMTYPE => 124,
        Errno::ECANCELED => 125,
        Errno::ENOKEY => 126,
        Errno::EKEYEXPIRED => 127,
        Errno::EKEYREVOKED => 128,
        Errno::EKEYREJECTED => 129,
        Errno::EOWNERDEAD => 130,
        Errno::ENOTRECOVERABLE => 131,
        Errno::ERFKILL => 132,
        Errno::EHWPOISON => 133,
        Errno::Unnamed(code) => code as int,
    }
}

/// The text that describes `error`.
pub open spec fn errno_message(error: Errno) -> Seq<char> {
    match error {
        Errno::EPERM => "operation not permitted"@,
        Errno::ENOENT => "no such file or directory"@,
        Errno::ENOEXEC => "exec format error"@,
        Errno::EBADF => "bad file descriptor"@,
        Errno::ECHILD => "no child processes"@,
        Errno::EAGAIN => "resource temporarily unavailable"@,
        Errno::ENOMEM => "cannot allocate memory"@,
        Errno::EACCES => "permission denied"@,
        Errno::EFAULT => "bad address"@,
        Errno::EEXIST => "file exists"@,
        Errno::ENOTDIR => "not a directory"@,
        Errno::EISDIR => "is a directory"@,
        Errno::EINVAL => "invalid argument"@,
        Errno::EFBIG => "file too large"@,
        Errno::ENOSPC => "no space left on device"@,
        Errno::EROFS => "read-only file system"@,
        Errno::ENAMETOOLONG => "file name too long"@,
        Errno::ENOSYS => "function not implemented"@,
        Errno::EOVERFLOW => "value too large for defined data type"@,
        Errno::EMSGSIZE => "message too long"@,
        Errno::EOPNOTSUPP => "operation not supported"@,
        _ => "Linux error"@,
    }
}

impl Errno {
    pub const EWOULDBLOCK: Self = Self::EAGAIN;
    pub const EDEADLOCK: Self = Self::EDEADLK;
    pub const ENOTSUP: Self = Self::EOPNOTSUPP;
    pub const NoEntry: Self = Self::ENOENT;
    pub const NoMemory: Self = Self::ENOMEM;
    pub const Access: Self = Self::EACCES;
    pub const Exists: Self = Self::EEXIST;
    pub const NotDirectory: Self = Self::ENOTDIR;
    pub const IsDirectory: Self = Self::EISDIR;
    pub const Invalid: Self = Self::EINVAL;
    pub const FileTooLarge: Self = Self::EFBIG;
    pub const NoSpace: Self = Self::ENOSPC;
    pub const ReadOnlyFilesystem: Self = Self::EROFS;
    pub const NameTooLong: Self = Self::ENAMETOOLONG;

    /// An unnamed number is in range and has no variant of its own.
    pub open spec fn wf(self) -> bool {
        match self {
            Errno::Unnamed(code) => 0 < code <= MAX_ERRNO && !is_named(code as int),
            _ => true,
        }
    }

    /// The error with number `code`, for the numbers from 1 to [`MAX_ERRNO`].
    pub fn from_code(code: i32) -> (result: Option<Self>)
        ensures
            result is Some <==> 0 < code <= MAX_ERRNO,
            result matches Some(error) ==> error.wf() && errno_code(error) == code,
    {
        if code <= 0 || code > MAX_ERRNO {
            return None;
        }
        let error = match code {
            1 => Errno::EPERM,
            2 => Errno::ENOENT,
            3 => Errno::ESRCH,
            4 => Errno::EINTR,
            5 => Errno::EIO,
            6 => Errno::ENXIO,
            7 => Errno::E2BIG,
            8 => Errno::ENOEXEC,
            9 => Errno::EBADF,
            10 => Errno::ECHILD,
            11 => Errno::EAGAIN,
            12 => Errno::ENOMEM,
            13 => Errno::EACCES,
            14 => Errno::EFAULT,
            15 => Errno::ENOTBLK,
            16 => Errno::EBUSY,
            17 => Errno::EEXIST,
            18 => Errno::EXDEV,
            19 => Errno::ENODEV,
            20 => Errno::ENOTDIR,
            21 => Errno::EISDIR,
            22 => Errno::EINVAL,
            23 => Errno::ENFILE,
            24 => Errno::EMFILE,
            25 => Errno::ENOTTY,
            26 => Errno::ETXTBSY,
            27 => Errno::EFBIG,
            28 => Errno::ENOSPC,
            29 => Errno::ESPIPE,
            30 => Errno::EROFS,
            31 => Errno::EMLINK,
            32 => Errno::EPIPE,
            33 => Errno::EDOM,
            34 => Errno::ERANGE,
            35 => Errno::EDEADLK,
            36 => Errno::ENAMETOOLONG,
            37 => Errno::ENOLCK,
            38 => Errno::ENOSYS,
            39 => Errno::ENOTEMPTY,
            40 => Errno::ELOOP,
            42 => Errno::ENOMSG,
            43 => Errno::EIDRM,
            44 => Errno::ECHRNG,
            45 => Errno::EL2NSYNC,
            46 => Errno::EL3HLT,
            47 => Errno::EL3RST,
            48 => Errno::ELNRNG,
            49 => Errno::EUNATCH,
            50 => Errno::ENOCSI,
            51 => Errno::EL2HLT,
            52 => Errno::EBADE,
            53 => Errno::EBADR,
            54 => Errno::EXFULL,
            55 => Errno::ENOANO,
            56 => Errno::EBADRQC,
            57 => Errno::EBADSLT,
            59 => Errno::EBFONT,
            60 => Errno::ENOSTR,
            61 => Errno::ENODATA,
            62 => Errno::ETIME,
            63 => Errno::ENOSR,
            64 => Errno::ENONET,
            65 => Errno::ENOPKG,
            66 => Errno::EREMOTE,
            67 => Errno::ENOLINK,
            68 => Errno::EADV,
            69 => Errno::ESRMNT,
            70 => Errno::ECOMM,
            71 => Errno::EPROTO,
            72 => Errno::EMULTIHOP,
            73 => Errno::EDOTDOT,
            74 => Errno::EBADMSG,
            75 => Errno::EOVERFLOW,
            76 => Errno::ENOTUNIQ,
            77 => Errno::EBADFD,
            78 => Errno::EREMCHG,
            79 => Errno::ELIBACC,
            80 => Errno::ELIBBAD,
            81 => Errno::ELIBSCN,
            82 => Errno::ELIBMAX,
            83 => Errno::ELIBEXEC,
            84 => Errno::EILSEQ,
            85 => Errno::ERESTART,
            86 => Errno::ESTRPIPE,
            87 => Errno::EUSERS,
            88 => Errno::ENOTSOCK,
            89 => Errno::EDESTADDRREQ,
            90 => Errno::EMSGSIZE,
            91 => Errno::EPROTOTYPE,
            92 => Errno::ENOPROTOOPT,
            93 => Errno::EPROTONOSUPPORT,
            94 => Errno::ESOCKTNOSUPPORT,
            95 => Errno::EOPNOTSUPP,
            96 => Errno::EPFNOSUPPORT,
            97 => Errno::EAFNOSUPPORT,
            98 => Errno::EADDRINUSE,
            99 => Errno::EADDRNOTAVAIL,
            100 => Errno::ENETDOWN,
            101 => Errno::ENETUNREACH,
            102 => Errno::ENETRESET,
            103 => Errno::ECONNABORTED,
            104 => Errno::ECONNRESET,
            105 => Errno::ENOBUFS,
            106 => Errno::EISCONN,
            107 => Errno::ENOTCONN,
            108 => Errno::ESHUTDOWN,
            109 => Errno::ETOOMANYREFS,
            110 => Errno::ETIMEDOUT,
            111 => Errno::ECONNREFUSED,
            112 => Errno::EHOSTDOWN,
            113 => Errno::EHOSTUNREACH,
            114 => Errno::EALREADY,
            115 => Errno::EINPROGRESS,
            116 => Errno::ESTALE,
            117 => Errno::EUCLEAN,
            118 => Errno::ENOTNAM,
            119 => Errno::ENAVAIL,
            120 => Errno::EISNAM,
            121 => Errno::EREMOTEIO,
            122 => Errno::EDQUOT,
            123 => Errno::ENOMEDIUM,
            124 => Errno::EMEDIUMTYPE,
            125 => Errno::ECANCELED,
            126 => Errno::ENOKEY,
            127 => Errno::EKEYEXPIRED,
            128 => Errno::EKEYREVOKED,
            129 => Errno::EKEYREJECTED,
            130 => Errno::EOWNERDEAD,
            131 => Errno::ENOTRECOVERABLE,
            132 => Errno::ERFKILL,
            133 => Errno::EHWPOISON,
            _ => Errno::Unnamed(code),
        };
        Some(error)
    }

    pub fn code(self) -> (code: i32)
        ensures
            code == errno_code(self),
    {
        match self {
            Errno::EPERM => 1,
            Errno::ENOENT => 2,
            Errno::ESRCH => 3,
            Errno::EINTR => 4,
            Errno::EIO => 5,
            Errno::ENXIO => 6,
            Errno::E2BIG => 7,
            Errno::ENOEXEC => 8,
            Errno::EBADF => 9,
            Errno::ECHILD => 10,
            Errno::EAGAIN => 11,
            Errno::ENOMEM => 12,
            Errno::EACCES => 13,
            Errno::EFAULT => 14,
            Errno::ENOTBLK => 15,
            Errno::EBUSY => 16,
            Errno::EEXIST => 17,
            Errno::EXDEV => 18,
            Errno::ENODEV => 19,
            Errno::ENOTDIR => 20,
            Errno::EISDIR => 21,
            Errno::EINVAL => 22,
            Errno::ENFILE => 23,
            Errno::EMFILE => 24,
            Errno::ENOTTY => 25,
            Errno::ETXTBSY => 26,
            Errno::EFBIG => 27,
            Errno::ENOSPC => 28,
            Errno::ESPIPE => 29,
            Errno::EROFS => 30,
            Errno::EMLINK => 31,
            Errno::EPIPE => 32,
            Errno::EDOM => 33,
            Errno::ERANGE => 34,
            Errno::EDEADLK => 35,
            Errno::ENAMETOOLONG => 36,
            Errno::ENOLCK => 37,
            Errno::ENOSYS => 38,
            Errno::ENOTEMPTY => 39,
            Errno::ELOOP => 40,
            Errno::ENOMSG => 42,
            Errno::EIDRM => 43,
            Errno::ECHRNG => 44,
            Errno::EL2NSYNC => 45,
            Errno::EL3HLT => 46,
            Errno::EL3RST => 47,
            Errno::ELNRNG => 48,
            Errno::EUNATCH => 49,
            Errno::ENOCSI => 50,
            Errno::EL2HLT => 51,
            Errno::EBADE => 52,
            Errno::EBADR => 53,
            Errno::EXFULL => 54,
            Errno::ENOANO => 55,
            Errno::EBADRQC => 56,
            Errno::EBADSLT => 57,
            Errno::EBFONT => 59,
            Errno::ENOSTR => 60,
            Errno::ENODATA => 61,
            Errno::ETIME => 62,
            Errno::ENOSR => 63,
            Errno::ENONET => 64,
            Errno::ENOPKG => 65,
            Errno::EREMOTE => 66,
            Errno::ENOLINK => 67,
            Errno::EADV => 68,
            Errno::ESRMNT => 69,
            Errno::ECOMM => 70,
            Errno::EPROTO => 71,
            Errno::EMULTIHOP => 72,
            Errno::EDOTDOT => 73,
            Errno::EBADMSG => 74,
            Errno::EOVERFLOW => 75,
            Errno::ENOTUNIQ => 76,
            Errno::EBADFD => 77,
            Errno::EREMCHG => 78,
            Errno::ELIBACC => 79,
            Errno::ELIBBAD => 80,
            Errno::ELIBSCN => 81,
            Errno::ELIBMAX => 82,
            Errno::ELIBEXEC => 83,
            Errno::EILSEQ => 84,
            Errno::ERESTART => 85,
            Errno::ESTRPIPE => 86,
            Errno::EUSERS => 87,
            Errno::ENOTSOCK => 88,
            Errno::EDESTADDRREQ => 89,
            Errno::EMSGSIZE => 90,
            Errno::EPROTOTYPE => 91,
            Errno::ENOPROTOOPT => 92,
            Errno::EPROTONOSUPPORT => 93,
            Errno::ESOCKTNOSUPPORT => 94,
            Errno::EOPNOTSUPP => 95,
            Errno::EPFNOSUPPORT => 96,
            Errno::EAFNOSUPPORT => 97,
            Errno::EADDRINUSE => 98,
            Errno::EADDRNOTAVAIL => 99,
            Errno::ENETDOWN => 100,
            Errno::ENETUNREACH => 101,
            Errno::ENETRESET => 102,
            Errno::ECONNABORTED => 103,
            Errno::ECONNRESET => 104,
            Errno::ENOBUFS => 105,
            Errno::EISCONN => 106,
            Errno::ENOTCONN => 107,
            Errno::ESHUTDOWN => 108,
            Errno::ETOOMANYREFS => 109,
            Errno::ETIMEDOUT => 110,
            Errno::ECONNREFUSED => 111,
            Errno::EHOSTDOWN => 112,
            Errno::EHOSTUNREACH => 113,
            Errno::EALREADY => 114,
            Errno::EINPROGRESS => 115,
            Errno::ESTALE => 116,
            Errno::EUCLEAN => 117,
            Errno::ENOTNAM => 118,
            Errno::ENAVAIL => 119,
            Errno::EISNAM => 120,
            Errno::EREMOTEIO => 121,
            Errno::EDQUOT => 122,
            Errno::ENOMEDIUM => 123,
            Errno::EMEDIUMTYPE => 124,
            Errno::ECANCELED => 125,
            Errno::ENOKEY => 126,
            Errno::EKEYEXPIRED => 127,
            Errno::EKEYREVOKED => 128,
            Errno::EKEYREJECTED => 129,
            Errno::EOWNERDEAD => 130,
            Errno::ENOTRECOVERABLE => 131,
            Errno::ERFKILL => 132,
            Errno::EHWPOISON => 133,
            Errno::Unnamed(code) => code,
        }
    }

    /// The value that a system call returns for this error: its number, negated,
    /// in two's complement.
    pub fn return_value(self) -> (value: u64)
        requires
            self.wf(),
        ensures
            value == 0x1_0000_0000_0000_0000 - errno_code(self),
    {
        let code: u64 = self.code() as u64;
        u64::MAX - (code - 1)
    }

    pub fn message(self) -> (text: &'static str)
        ensures
            text@ == errno_message(self),
    {
        match self {
            Errno::EPERM => "operation not permitted",
            Errno::ENOENT => "no such file or directory",
            Errno::ENOEXEC => "exec format error",
            Errno::EBADF => "bad file descriptor",
            Errno::ECHILD => "no child processes",
            Errno::EAGAIN => "resource temporarily unavailable",
            Errno::ENOMEM => "cannot allocate memory",
            Errno::EACCES => "permission denied",
            Errno::EFAULT => "bad address",
            Errno::EEXIST => "file exists",
            Errno::ENOTDIR => "not a directory",
            Errno::EISDIR => "is a directory",
            Errno::EINVAL => "invalid argument",
            Errno::EFBIG => "file too large",
            Errno::ENOSPC => "no space left on device",
            Errno::EROFS => "read-only file system",
            Errno::ENAMETOOLONG => "file name too long",
            Errno::ENOSYS => "function not implemented",
            Errno::EOVERFLOW => "value too large for defined data type",
            Errno::EMSGSIZE => "message too long",
            Errno::EOPNOTSUPP => "operation not supported",
            _ => "Linux error",
        }
    }
}

/// An error number determines the error.
pub proof fn law_code_determines_errno(a: Errno, b: Errno)
    requires
        a.wf(),
        b.wf(),
        errno_code(a) == errno_code(b),
    ensures
        a == b,
{
}

/// Every error has a number from 1 to [`MAX_ERRNO`].
pub proof fn law_code_in_range(error: Errno)
    requires
        error.wf(),
    ensures
        1 <= errno_code(error) <= MAX_ERRNO,
{
}

} // verus!
