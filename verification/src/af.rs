//! Address families, as the C library numbers them.

use vstd::prelude::*;

verus! {

/// The number of the IPv4 address family.
pub const AF_INET: i32 = 2;

/// The number of the IPv6 address family.
pub const AF_INET6: i32 = 10;

/// `libc::AF_INET`, which the `libc` crate defines as 2 for Linux and the
/// other targets it groups with it.
#[verifier::external_body]
pub(crate) fn af_inet() -> (r: i32)
    ensures
        r == AF_INET,
{
    libc::AF_INET
}

/// `libc::AF_INET6`, which the `libc` crate defines as 10 for Linux and the
/// other targets it groups with it.
#[verifier::external_body]
pub(crate) fn af_inet6() -> (r: i32)
    ensures
        r == AF_INET6,
{
    libc::AF_INET6
}

} // verus!
