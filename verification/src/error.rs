//! Status codes and their messages.

use vstd::prelude::*;

verus! {

pub const ARES_SUCCESS: i32 = 0;

pub const ARES_ENODATA: i32 = 1;

pub const ARES_EFORMERR: i32 = 2;

pub const ARES_ESERVFAIL: i32 = 3;

pub const ARES_ENOTFOUND: i32 = 4;

pub const ARES_ENOTIMP: i32 = 5;

pub const ARES_EREFUSED: i32 = 6;

pub const ARES_EBADQUERY: i32 = 7;

pub const ARES_EBADNAME: i32 = 8;

pub const ARES_EBADFAMILY: i32 = 9;

pub const ARES_EBADRESP: i32 = 10;

pub const ARES_ECONNREFUSED: i32 = 11;

pub const ARES_ETIMEOUT: i32 = 12;

pub const ARES_EOF: i32 = 13;

pub const ARES_EFILE: i32 = 14;

pub const ARES_ENOMEM: i32 = 15;

pub const ARES_EDESTRUCTION: i32 = 16;

pub const ARES_EBADSTR: i32 = 17;

pub const ARES_EBADFLAGS: i32 = 18;

pub const ARES_ENONAME: i32 = 19;

pub const ARES_EBADHINTS: i32 = 20;

pub const ARES_ENOTINITIALIZED: i32 = 21;

pub const ARES_ECANCELLED: i32 = 24;

pub const ARES_ESERVICE: i32 = 25;

pub const ARES_ENOSERVER: i32 = 26;

/// The flag that asks `ares_library_init` to initialise everything.
pub const ARES_LIB_INIT_ALL: i32 = 1;

/// The message for a status code; `"unknown"` for a number that is no code.
pub open spec fn spec_strerror(code: i32) -> Seq<char> {
    match code {
        0 => "Successful completion"@,
        1 => "DNS server returned answer with no data"@,
        2 => "DNS server claims query was misformatted"@,
        3 => "DNS server returned general failure"@,
        4 => "Domain name not found"@,
        5 => "DNS server does not implement requested operation"@,
        6 => "DNS server refused query"@,
        7 => "Misformatted DNS query"@,
        8 => "Misformatted domain name"@,
        9 => "Unsupported address family"@,
        10 => "Misformatted DNS reply"@,
        11 => "Could not contact DNS servers"@,
        12 => "Timeout while contacting DNS servers"@,
        13 => "End of file"@,
        14 => "Error reading file"@,
        15 => "Out of memory"@,
        16 => "Channel is being destroyed"@,
        17 => "Misformatted string"@,
        18 => "Illegal flags specified"@,
        19 => "Given hostname is not numeric"@,
        20 => "Illegal hints flags specified"@,
        21 => "c-ares library initialization not yet performed"@,
        24 => "DNS query cancelled"@,
        25 => "Invalid service name or number"@,
        26 => "No DNS servers were configured"@,
        _ => "unknown"@,
    }
}

/// The message for a status code.
pub fn ares_strerror(code: i32) -> (msg: &'static str)
    ensures
        msg@ == spec_strerror(code),
{
    match code {
        ARES_SUCCESS => "Successful completion",
        ARES_ENODATA => "DNS server returned answer with no data",
        ARES_EFORMERR => "DNS server claims query was misformatted",
        ARES_ESERVFAIL => "DNS server returned general failure",
        ARES_ENOTFOUND => "Domain name not found",
        ARES_ENOTIMP => "DNS server does not implement requested operation",
        ARES_EREFUSED => "DNS server refused query",
        ARES_EBADQUERY => "Misformatted DNS query",
        ARES_EBADNAME => "Misformatted domain name",
        ARES_EBADFAMILY => "Unsupported address family",
        ARES_EBADRESP => "Misformatted DNS reply",
        ARES_ECONNREFUSED => "Could not contact DNS servers",
        ARES_ETIMEOUT => "Timeout while contacting DNS servers",
        ARES_EOF => "End of file",
        ARES_EFILE => "Error reading file",
        ARES_ENOMEM => "Out of memory",
        ARES_EDESTRUCTION => "Channel is being destroyed",
        ARES_EBADSTR => "Misformatted string",
        ARES_EBADFLAGS => "Illegal flags specified",
        ARES_ENONAME => "Given hostname is not numeric",
        ARES_EBADHINTS => "Illegal hints flags specified",
        ARES_ENOTINITIALIZED => "c-ares library initialization not yet performed",
        ARES_ECANCELLED => "DNS query cancelled",
        ARES_ESERVICE => "Invalid service name or number",
        ARES_ENOSERVER => "No DNS servers were configured",
        _ => "unknown",
    }
}

/// What the reply code of a response, the low four bits of its flags, means
/// for the query: success for 0, "not found" for 3, a server failure for any
/// other.
pub open spec fn spec_rcode_status(flags: u16) -> i32 {
    if flags % 16 == 0 {
        ARES_SUCCESS
    } else if flags % 16 == 3 {
        ARES_ENOTFOUND
    } else {
        ARES_ESERVFAIL
    }
}

/// The status that the reply code of a response stands for.
pub fn rcode_status(flags: u16) -> (status: i32)
    ensures
        status == spec_rcode_status(flags),
{
    let reply_code: u16 = flags & 0x0f;
    assert(reply_code == flags % 16) by (bit_vector)
        requires
            reply_code == flags & 0x0f,
    ;
    if reply_code == 0 {
        ARES_SUCCESS
    } else if reply_code == 3 {
        ARES_ENOTFOUND
    } else {
        ARES_ESERVFAIL
    }
}

} // verus!
