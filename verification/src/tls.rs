//! Broker addresses for TLS connections.
use vstd::prelude::*;
use vstd::string::StrSliceExecFns;

use crate::error::{ErrorKind, IoError};
use crate::text::chars_of;
use crate::time::{Duration, Instant, MAX_INSTANT_NANOS};

verus! {

/// The position of the first `c` at or behind `from`, or the length where there is none.
pub open spec fn first_at(s: Seq<char>, c: char, from: int) -> int
    decreases s.len() - from,
{
    if from < 0 || from >= s.len() {
        s.len() as int
    } else if s[from] == c {
        from
    } else {
        first_at(s, c, from + 1)
    }
}

/// The position of the last `c` before `to`, or -1 where there is none.
pub open spec fn last_before(s: Seq<char>, c: char, to: int) -> int
    decreases to,
{
    if to <= 0 {
        -1
    } else if s[to - 1] == c {
        to - 1
    } else {
        last_before(s, c, to - 1)
    }
}

/// Whether `c` is a decimal digit.
pub open spec fn is_decimal_digit(c: char) -> bool {
    '0' <= c <= '9'
}

/// The number that decimal digits stand for.
pub open spec fn decimal_value(s: Seq<char>) -> nat
    decreases s.len(),
{
    if s.len() == 0 {
        0
    } else {
        10 * decimal_value(s.drop_last()) + (s.last() as nat - '0' as nat) as nat
    }
}

/// Decimal digits of a value below 2^16.
pub open spec fn is_port_number(digits: Seq<char>) -> bool {
    &&& digits.len() > 0
    &&& forall|i: int| 0 <= i < digits.len() ==> is_decimal_digit(#[trigger] digits[i])
    &&& decimal_value(digits) <= 65_535
}

/// A port: its number, with or without a plus sign before it.
pub open spec fn is_port(s: Seq<char>) -> bool {
    if s.len() > 0 && s[0] == '+' {
        is_port_number(s.skip(1))
    } else {
        is_port_number(s)
    }
}

/// What follows once host and port are told apart.
pub open spec fn host_and_port(host: Seq<char>, port: Seq<char>) -> core::result::Result<
    Seq<char>,
    Seq<char>,
> {
    if host.len() == 0 {
        Err("host must not be empty"@)
    } else if !is_port(port) {
        Err("port must be an unsigned 16-bit integer"@)
    } else {
        Ok(host)
    }
}

/// The host of a `host:port` address, or what is wrong with the address. A host in
/// brackets may hold colons, another may not.
pub open spec fn host_of(addr: Seq<char>) -> core::result::Result<Seq<char>, Seq<char>> {
    if addr.len() > 0 && addr[0] == '[' {
        let closing = first_at(addr, ']', 1);
        if closing >= addr.len() {
            Err("missing closing ']'"@)
        } else if closing + 1 >= addr.len() || addr[closing + 1] != ':' {
            Err("missing port after bracketed host"@)
        } else {
            host_and_port(addr.subrange(1, closing), addr.skip(closing + 2))
        }
    } else {
        let colon = last_before(addr, ':', addr.len() as int);
        if colon < 0 {
            Err("address must be host:port"@)
        } else if last_before(addr, ':', colon) >= 0 {
            Err("IPv6 addresses must be enclosed in brackets"@)
        } else {
            host_and_port(addr.take(colon), addr.skip(colon + 1))
        }
    }
}

/// What an address function returns: the host, or an error of invalid input.
pub open spec fn gives_host(
    r: core::result::Result<&str, IoError>,
    host: core::result::Result<Seq<char>, Seq<char>>,
) -> bool {
    match host {
        Ok(h) => r matches Ok(s) && s@ == h,
        Err(message) => r matches Err(e) && e.spec_kind() == ErrorKind::InvalidInput
            && e.spec_message() == message,
    }
}

fn find_from(chars: &Vec<char>, c: char, from: usize) -> (r: usize)
    requires
        from <= chars.len(),
    ensures
        r == first_at(chars@, c, from as int),
        from <= r <= chars.len(),
{
    let mut i: usize = from;
    while i < chars.len() && chars[i] != c
        invariant
            from <= i <= chars.len(),
            first_at(chars@, c, from as int) == first_at(chars@, c, i as int),
        decreases chars.len() - i,
    {
        i += 1;
    }
    i
}

fn find_last(chars: &Vec<char>, c: char, to: usize) -> (r: Option<usize>)
    requires
        to <= chars.len(),
    ensures
        match r {
            Some(i) => i == last_before(chars@, c, to as int) && i < to,
            None => last_before(chars@, c, to as int) < 0,
        },
{
    let mut i: usize = to;
    while i > 0
        invariant
            i <= to <= chars.len(),
            last_before(chars@, c, to as int) == last_before(chars@, c, i as int),
        decreases i,
    {
        if chars[i - 1] == c {
            return Some(i - 1);
        }
        i -= 1;
    }
    None
}

proof fn decimal_value_grows(s: Seq<char>, n: int)
    requires
        0 <= n <= s.len(),
        forall|i: int| 0 <= i < s.len() ==> is_decimal_digit(#[trigger] s[i]),
    ensures
        decimal_value(s.take(n)) <= decimal_value(s),
    decreases s.len() - n,
{
    if n < s.len() {
        decimal_value_grows(s, n + 1);
        let next = s.take(n + 1);
        assert(next.drop_last() =~= s.take(n));
        assert(is_decimal_digit(s[n]));
    } else {
        assert(s.take(n) =~= s);
    }
}

fn parses_as_port(chars: &Vec<char>, from: usize) -> (r: bool)
    requires
        from <= chars.len(),
    ensures
        r == is_port(chars@.skip(from as int)),
{
    let ghost port = chars@.skip(from as int);
    let mut start: usize = from;
    if start < chars.len() && chars[start] == '+' {
        start += 1;
    }
    let ghost digits = chars@.skip(start as int);
    assert(port.len() > 0 ==> port[0] == chars@[from as int]);
    assert(port.len() > 0 && port[0] == '+' ==> digits =~= port.skip(1));
    assert(is_port(port) == is_port_number(digits));
    if start == chars.len() {
        return false;
    }
    let mut value: u32 = 0;
    let mut i: usize = start;
    assert(digits.take(0) =~= Seq::empty());
    while i < chars.len()
        invariant
            start <= i <= chars.len(),
            digits == chars@.skip(start as int),
            forall|j: int| 0 <= j < i - start ==> is_decimal_digit(#[trigger] digits[j]),
            value <= 65_535,
            value == decimal_value(digits.take(i - start)),
            port == chars@.skip(from as int),
            digits.len() > 0,
            is_port(port) == is_port_number(digits),
        decreases chars.len() - i,
    {
        let c = chars[i];
        assert(digits[i - start] == c);
        assert(digits.take(i - start + 1).drop_last() =~= digits.take(i - start));
        if c < '0' || c > '9' {
            return false;
        }
        value = value * 10 + (c as u32 - '0' as u32);
        i += 1;
        if value > 65_535 {
            proof {
                if is_port_number(digits) {
                    decimal_value_grows(digits, i - start);
                }
            }
            return false;
        }
    }
    assert(digits.take(i - start) =~= digits);
    true
}

/// The host of a `host:port` address. Bracketed IPv6 addresses are accepted.
pub fn host_from_address(addr: &str) -> (r: core::result::Result<&str, IoError>)
    ensures
        gives_host(r, host_of(addr@)),
{
    let chars = chars_of(addr);
    let from: usize;
    let to: usize;
    let port: usize;
    if !chars.is_empty() && chars[0] == '[' {
        let closing: usize = find_from(&chars, ']', 1);
        if closing == chars.len() {
            return Err(invalid_address("missing closing ']'"));
        }
        if closing + 1 == chars.len() || chars[closing + 1] != ':' {
            return Err(invalid_address("missing port after bracketed host"));
        }
        from = 1;
        to = closing;
        port = closing + 2;
    } else {
        let colon: usize = match find_last(&chars, ':', chars.len()) {
            Some(colon) => colon,
            None => {
                return Err(invalid_address("address must be host:port"));
            },
        };
        if find_last(&chars, ':', colon).is_some() {
            return Err(invalid_address("IPv6 addresses must be enclosed in brackets"));
        }
        from = 0;
        to = colon;
        port = colon + 1;
        assert(addr@.subrange(0, colon as int) =~= addr@.take(colon as int));
    }
    if from == to {
        return Err(invalid_address("host must not be empty"));
    }
    if !parses_as_port(&chars, port) {
        return Err(invalid_address("port must be an unsigned 16-bit integer"));
    }
    Ok(addr.substring_char(from, to))
}

fn invalid_address(message: &'static str) -> (r: IoError)
    ensures
        r.spec_kind() == ErrorKind::InvalidInput,
        r.spec_message() == message@,
{
    IoError::new(ErrorKind::InvalidInput, message)
}

/// Whether a TLS server can be named by this host.
pub uninterp spec fn names_a_server(host: Seq<char>) -> bool;

/// Ask `rustls::pki_types::ServerName::try_from` whether the host is a DNS name or an IP
/// address. Which hosts it accepts depends on the host alone.
#[verifier::external_body]
fn is_server_name(host: &str) -> (r: bool)
    ensures
        r == names_a_server(host@),
{
    rustls::pki_types::ServerName::try_from(host.to_owned()).is_ok()
}

/// The name under which the server at a `host:port` address must identify itself.
pub fn server_name_of(addr: &str) -> (r: core::result::Result<&str, IoError>)
    ensures
        gives_host(
            r,
            match host_of(addr@) {
                Ok(host) => checked_name(host, names_a_server(host)),
                Err(message) => Err(message),
            },
        ),
{
    let host = host_from_address(addr)?;
    check_server_name(host, is_server_name(host))
}

/// A host, if it names a server.
pub open spec fn checked_name(host: Seq<char>, accepted: bool) -> core::result::Result<
    Seq<char>,
    Seq<char>,
> {
    if accepted {
        Ok(host)
    } else {
        Err("invalid dns name"@)
    }
}

/// Turn down a host that does not name a server.
pub fn check_server_name(host: &str, accepted: bool) -> (r: core::result::Result<&str, IoError>)
    ensures
        gives_host(r, checked_name(host@, accepted)),
{
    if accepted {
        Ok(host)
    } else {
        Err(invalid_address("invalid dns name"))
    }
}

/// How long connecting may take where nothing else is asked for, in seconds.
pub const DEFAULT_TLS_CONNECT_TIMEOUT_SECS: u64 = 10;

/// When a TCP connection that starts now has to stand. Resolving the address counts.
pub fn tcp_deadline(timeout: Duration, now: Instant) -> (r: core::result::Result<Instant, IoError>)
    ensures
        match r {
            Ok(at) => at.spec_nanos() == now.spec_nanos() + timeout.spec_nanos(),
            Err(e) => e.spec_kind() == ErrorKind::InvalidInput && e.spec_message() == (
            if timeout.spec_nanos() == 0 {
                "TLS connect timeout must be non-zero"@
            } else {
                "TLS connect timeout is too large"@
            }),
        },
        r is Ok <==> timeout.spec_nanos() != 0 && now.spec_nanos() + timeout.spec_nanos()
            <= MAX_INSTANT_NANOS,
{
    if timeout.is_zero() {
        return Err(invalid_address("TLS connect timeout must be non-zero"));
    }
    match now.checked_add(timeout) {
        Some(at) => Ok(at),
        None => Err(invalid_address("TLS connect timeout is too large")),
    }
}

/// How long the next address may take to be connected to.
pub fn tcp_remaining(deadline: Instant, now: Instant) -> (r: core::result::Result<
    Duration,
    IoError,
>)
    ensures
        match r {
            Ok(left) => left.spec_nanos() == deadline.spec_nanos() - now.spec_nanos(),
            Err(e) => e.spec_kind() == ErrorKind::TimedOut && e.spec_message()
                == "TLS TCP connection deadline elapsed"@,
        },
        r is Ok <==> now.spec_nanos() < deadline.spec_nanos(),
{
    let remaining = deadline.since(now);
    if remaining.is_zero() {
        return Err(IoError::new(ErrorKind::TimedOut, "TLS TCP connection deadline elapsed"));
    }
    Ok(remaining)
}

/// Why no address could be connected to, where `last` is what the last one that was tried
/// failed with.
pub fn tcp_failure(last: Option<IoError>) -> (r: IoError)
    ensures
        match last {
            Some(error) => r == error,
            None => r.spec_kind() == ErrorKind::InvalidInput && r.spec_message()
                == "address resolved to no endpoints"@,
        },
{
    match last {
        Some(error) => error,
        None => invalid_address("address resolved to no endpoints"),
    }
}

} // verus!
