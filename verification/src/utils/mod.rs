//! Helpers at the edge of the core: a look into the header of a raw
//! message, a synthetic error response, and sizes and durations as text.

pub mod dns_rcode;

use vstd::prelude::*;
use std::time::Duration;
use crate::addr::IpAddress;
use crate::text::{decimal, decimal_text, digit_char};

verus! {

/// The length of the header every DNS message starts with.
pub const DNS_HEADER_LEN: usize = 12;

/// Whether `addr` is an IPv4 address.
pub fn is_ipv4(addr: &IpAddress) -> (yes: bool)
    ensures
        yes == (*addr is V4),
{
    match addr {
        IpAddress::V4(_) => true,
        IpAddress::V6(_) => false,
    }
}

/// Whether `addr` is an IPv6 address.
pub fn is_ipv6(addr: &IpAddress) -> (yes: bool)
    ensures
        yes == (*addr is V6),
{
    match addr {
        IpAddress::V4(_) => false,
        IpAddress::V6(_) => true,
    }
}

/// The sixteen-bit number that two bytes spell, most significant first.
pub open spec fn be_u16(high: u8, low: u8) -> u16 {
    (high as int * 256 + low as int) as u16
}

/// The operation code in the flags of a header: bits 11 to 14.
pub open spec fn opcode(flags: u16) -> int {
    (flags as int / 2048) % 16
}

/// Whether `data` passes for a DNS message: it holds a whole header, and
/// the operation code in it is that of a standard query.
pub open spec fn valid_dns_message(data: Seq<u8>) -> bool {
    data.len() >= DNS_HEADER_LEN && opcode(be_u16(data[2], data[3])) == 0
}

/// Checks the form of a raw DNS message.
pub fn is_valid_dns_message(data: &[u8]) -> (valid: bool)
    ensures
        valid == valid_dns_message(data@),
{
    if data.len() < DNS_HEADER_LEN {
        return false;
    }
    let flags: u16 = data[2] as u16 * 256 + data[3] as u16;
    let opcode: u16 = (flags / 2048) % 16;
    opcode == 0
}

/// The transaction id of a raw DNS message: its first two bytes, where it
/// has them.
pub fn extract_query_id(data: &[u8]) -> (id: Option<u16>)
    ensures
        id == if data@.len() >= 2 {
            Some(be_u16(data@[0], data@[1]))
        } else {
            None
        },
{
    if data.len() >= 2 {
        Some(data[0] as u16 * 256 + data[1] as u16)
    } else {
        None
    }
}

/// The header-only response that reports `error_code` for the query with
/// id `query_id`: the id, the flags of a response with recursion desired
/// and available and the code in the low byte, and four zero counts,
/// `DNS_HEADER_LEN` bytes in all.
pub open spec fn dns_error_response(query_id: u16, error_code: u8) -> Seq<u8> {
    seq![
        (query_id / 256) as u8,
        (query_id % 256) as u8,
        0x81u8,
        0x80u8 | error_code,
        0u8,
        0u8,
        0u8,
        0u8,
        0u8,
        0u8,
        0u8,
        0u8,
    ]
}

/// Builds the response that reports an error for a query.
pub fn create_dns_error_response(query_id: u16, error_code: u8) -> (response: Vec<u8>)
    ensures
        response@ == dns_error_response(query_id, error_code),
{
    let mut response: Vec<u8> = Vec::new();
    response.push((query_id / 256) as u8);
    response.push((query_id % 256) as u8);
    response.push(0x81u8);
    response.push(0x80u8 | error_code);
    let mut i: usize = 4;
    while i < DNS_HEADER_LEN
        invariant
            4 <= i <= DNS_HEADER_LEN,
            response@.len() == i,
            response@[0] == (query_id / 256) as u8,
            response@[1] == (query_id % 256) as u8,
            response@[2] == 0x81u8,
            response@[3] == 0x80u8 | error_code,
            forall|j: int| 4 <= j < i ==> response@[j] == 0u8,
        decreases DNS_HEADER_LEN - i,
    {
        response.push(0u8);
        i = i + 1;
    }
    assert(response@ =~= dns_error_response(query_id, error_code));
    response
}

/// The index of the unit a size is written in: the largest of B, KB, MB,
/// GB and TB that leaves a value below 1024, or TB where none does.
pub open spec fn size_unit(bytes: nat) -> nat {
    if bytes < 1024 {
        0
    } else if bytes < 1024 * 1024 {
        1
    } else if bytes < 1024 * 1024 * 1024 {
        2
    } else if bytes < 1024 * 1024 * 1024 * 1024 {
        3
    } else {
        4
    }
}

/// The number of bytes in the unit at `unit`.
pub open spec fn unit_bytes(unit: nat) -> nat {
    if unit == 0 {
        1
    } else if unit == 1 {
        1024
    } else if unit == 2 {
        1024 * 1024
    } else if unit == 3 {
        1024 * 1024 * 1024
    } else {
        1024 * 1024 * 1024 * 1024
    }
}

/// The name of the unit at `unit`.
pub open spec fn unit_name(unit: nat) -> Seq<char> {
    if unit == 0 {
        "B"@
    } else if unit == 1 {
        "KB"@
    } else if unit == 2 {
        "MB"@
    } else if unit == 3 {
        "GB"@
    } else {
        "TB"@
    }
}

/// A size in hundredths of its unit, rounded to the nearest hundredth, and
/// to the even one where two are equally near.
pub open spec fn size_hundredths(bytes: nat) -> nat {
    let unit = unit_bytes(size_unit(bytes));
    let whole = (bytes * 100) / unit;
    let rest = (bytes * 100) % unit;
    if 2 * rest > unit || (2 * rest == unit && whole % 2 == 1) {
        whole + 1
    } else {
        whole
    }
}

/// A size as text: the value in its unit with two decimals, a space, and
/// the unit's name.
pub open spec fn size_text(bytes: nat) -> Seq<char> {
    let hundredths = size_hundredths(bytes);
    decimal(hundredths / 100) + "."@ + seq![
        digit_char((hundredths % 100) / 10),
        digit_char(hundredths % 10),
    ] + " "@ + unit_name(size_unit(bytes))
}

/// Writes a size in bytes the way people read it, as in `1.50 KB`.
pub fn format_bytes(bytes: usize) -> (text: String)
    ensures
        text@ == size_text(bytes as nat),
{
    let size = bytes as u128;
    let (unit, name): (u128, &str) = if size < 1024 {
        (1, "B")
    } else if size < 1024 * 1024 {
        (1024, "KB")
    } else if size < 1024 * 1024 * 1024 {
        (1024 * 1024, "MB")
    } else if size < 1024 * 1024 * 1024 * 1024 {
        (1024 * 1024 * 1024, "GB")
    } else {
        (1024 * 1024 * 1024 * 1024, "TB")
    };
    let whole = (size * 100) / unit;
    let rest = (size * 100) % unit;
    let hundredths: u128 = if 2 * rest > unit || (2 * rest == unit && whole % 2 == 1) {
        whole + 1
    } else {
        whole
    };
    let mut text = decimal_text((hundredths / 100) as u64);
    text.append(".");
    text.append(decimal_text(((hundredths % 100) / 10) as u64).as_str());
    text.append(decimal_text((hundredths % 10) as u64).as_str());
    text.append(" ");
    text.append(name);
    proof {
        reveal_with_fuel(decimal, 2);
        assert(text@ =~= size_text(bytes as nat));
    }
    text
}

/// A duration of `total_secs` whole seconds and `millis` milliseconds as
/// text, in the largest units that fit: hours, minutes and seconds from an
/// hour on, minutes and seconds from a minute on, seconds and tenths from
/// a second on, and milliseconds below that.
pub open spec fn duration_text(total_secs: u64, millis: u32) -> Seq<char> {
    let hours = (total_secs / 3600) as nat;
    let minutes = ((total_secs % 3600) / 60) as nat;
    let seconds = (total_secs % 60) as nat;
    if hours > 0 {
        decimal(hours) + "h "@ + decimal(minutes) + "m "@ + decimal(seconds) + "s"@
    } else if minutes > 0 {
        decimal(minutes) + "m "@ + decimal(seconds) + "s"@
    } else if seconds > 0 {
        decimal(seconds) + "."@ + decimal((millis / 100) as nat) + "s"@
    } else {
        decimal(millis as nat) + "ms"@
    }
}

/// Whether `text` is what some duration is written as.
pub open spec fn is_duration_text(text: Seq<char>) -> bool {
    exists|total_secs: u64, millis: u32|
        millis < 1000 && text == #[trigger] duration_text(total_secs, millis)
}

/// Reads the whole seconds of a duration.
///
/// Trusted: `Duration::as_secs` returns the number of whole seconds the
/// duration holds. A duration is opaque here, so nothing is claimed of the
/// number.
pub assume_specification[ Duration::as_secs ](duration: &Duration) -> (secs: u64);

/// Reads the milliseconds of a duration beyond its whole seconds.
///
/// Trusted: `Duration::subsec_millis` returns the fractional part of the
/// duration in whole milliseconds, which is always less than one thousand.
pub assume_specification[ Duration::subsec_millis ](duration: &Duration) -> (millis: u32)
    ensures
        millis < 1000,
;

/// Writes a duration the way people read it, as in `1h 1m 1s`.
pub fn format_duration(duration: Duration) -> (text: String)
    ensures
        is_duration_text(text@),
{
    let total_secs = duration.as_secs();
    let millis = duration.subsec_millis();
    let text = format_duration_parts(total_secs, millis);
    assert(text@ == duration_text(total_secs, millis));
    text
}

/// Writes a duration of `total_secs` whole seconds and `millis`
/// milliseconds the way people read it.
pub fn format_duration_parts(total_secs: u64, millis: u32) -> (text: String)
    ensures
        text@ == duration_text(total_secs, millis),
{
    let hours = total_secs / 3600;
    let minutes = (total_secs % 3600) / 60;
    let seconds = total_secs % 60;
    if hours > 0 {
        let mut text = decimal_text(hours);
        text.append("h ");
        text.append(decimal_text(minutes).as_str());
        text.append("m ");
        text.append(decimal_text(seconds).as_str());
        text.append("s");
        text
    } else if minutes > 0 {
        let mut text = decimal_text(minutes);
        text.append("m ");
        text.append(decimal_text(seconds).as_str());
        text.append("s");
        text
    } else if seconds > 0 {
        let mut text = decimal_text(seconds);
        text.append(".");
        text.append(decimal_text((millis / 100) as u64).as_str());
        text.append("s");
        text
    } else {
        let mut text = decimal_text(millis as u64);
        text.append("ms");
        text
    }
}

} // verus!
