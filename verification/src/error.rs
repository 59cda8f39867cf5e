//! Error numbers shared by every driver.

use vstd::prelude::*;

verus! {

/// The error numbers that the drivers report to their callers.
#[allow(non_camel_case_types)]
#[derive(Clone, Copy, Debug, PartialEq, Eq, Structural)]
pub enum SystemError {
    E2BIG,
    EADDRINUSE,
    EADDRNOTAVAIL,
    EAFNOSUPPORT,
    EAGAIN_OR_EWOULDBLOCK,
    EBUSY,
    EEXIST,
    EFAULT,
    EINVAL,
    EIO,
    EMSGSIZE,
    ENETDOWN,
    ENETUNREACH,
    ENOBUFS,
    ENODEV,
    ENOENT,
    ENOMEM,
    ENOSYS,
    ENXIO,
    EOPNOTSUPP_OR_ENOTSUP,
    EOVERFLOW,
    EPERM,
}

} // verus!
