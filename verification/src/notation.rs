//! How numbers, identifiers and addresses are written down, and read again.
use vstd::prelude::*;

use crate::request::hyphenated;
use crate::text::{decimal, hex};
use crate::tls::{
    decimal_value, first_at, host_of, is_decimal_digit, is_port, is_port_number, last_before,
};
use crate::trace::{hex_len, hex_round_trip, unhex};

verus! {

/// A number in decimal is digits that stand for it, without a zero in front.
pub proof fn decimal_is_read_back(n: nat)
    ensures
        decimal_value(decimal(n)) == n,
        decimal(n).len() > 0,
        forall|i: int| 0 <= i < decimal(n).len() ==> is_decimal_digit(#[trigger] decimal(n)[i]),
        decimal(n)[0] == '0' ==> n == 0 && decimal(n).len() == 1,
    decreases n,
{
    reveal_with_fuel(decimal_value, 2);
    let s = decimal(n);
    if n < 10 {
        assert(s.drop_last() =~= Seq::<char>::empty());
    } else {
        decimal_is_read_back(n / 10);
        assert(s.drop_last() =~= decimal(n / 10));
        assert(s[0] == decimal(n / 10)[0]);
    }
}

/// A number is that of a port exactly where it fits in sixteen bits.
pub proof fn ports_have_sixteen_bits(n: nat)
    ensures
        is_port_number(decimal(n)) <==> n < 65_536,
        is_port(decimal(n)) <==> n < 65_536,
        is_port(seq!['+'] + decimal(n)) <==> n < 65_536,
{
    decimal_is_read_back(n);
    assert(is_decimal_digit(decimal(n)[0]));
    assert((seq!['+'] + decimal(n)).skip(1) =~= decimal(n));
}

proof fn last_is_found(s: Seq<char>, c: char, to: int)
    requires
        0 <= to <= s.len(),
    ensures
        -1 <= last_before(s, c, to) < to || to == 0,
        last_before(s, c, to) >= 0 ==> s[last_before(s, c, to)] == c,
        to == 0 ==> last_before(s, c, to) == -1,
        forall|i: int| last_before(s, c, to) < i < to ==> s[i] != c,
    decreases to,
{
    if to > 0 && s[to - 1] != c {
        last_is_found(s, c, to - 1);
    }
}

proof fn first_is_found(s: Seq<char>, c: char, from: int)
    requires
        0 <= from <= s.len(),
    ensures
        from <= first_at(s, c, from) <= s.len(),
        first_at(s, c, from) < s.len() ==> s[first_at(s, c, from)] == c,
        forall|i: int| from <= i < first_at(s, c, from) ==> s[i] != c,
    decreases s.len() - from,
{
    if from < s.len() && s[from] != c {
        first_is_found(s, c, from + 1);
    }
}

/// Whether a character occurs in a text.
pub open spec fn occurs(c: char, s: Seq<char>) -> bool {
    exists|i: int| 0 <= i < s.len() && #[trigger] s[i] == c
}

/// An address, of a host without brackets or with them.
pub open spec fn address(host: Seq<char>, port: Seq<char>, bracketed: bool) -> Seq<char> {
    if bracketed {
        seq!['['] + host + seq![']', ':'] + port
    } else {
        host + seq![':'] + port
    }
}

/// Whether a host can be told apart from the rest of its address.
pub open spec fn is_plain_host(host: Seq<char>, bracketed: bool) -> bool {
    &&& host.len() > 0
    &&& bracketed ==> !occurs(']', host)
    &&& !bracketed ==> !occurs(':', host) && host[0] != '['
}

/// The host of an address is the one that the address was made of: in brackets it may hold
/// colons, else not.
pub proof fn host_is_read_back(host: Seq<char>, port: Seq<char>, bracketed: bool)
    requires
        is_plain_host(host, bracketed),
        is_port(port),
    ensures
        host_of(address(host, port, bracketed)) == Ok::<Seq<char>, Seq<char>>(host),
{
    let addr = address(host, port, bracketed);
    let n = host.len() as int;
    if bracketed {
        first_is_found(addr, ']', 1);
        let k = first_at(addr, ']', 1);
        assert(addr[n + 1] == ']');
        assert(k == n + 1) by {
            if k < n + 1 {
                assert(addr[k] == host[k - 1]);
            }
        }
        assert(addr.subrange(1, n + 1) =~= host);
        assert(addr.skip(n + 3) =~= port);
    } else {
        last_is_found(addr, ':', addr.len() as int);
        let k = last_before(addr, ':', addr.len() as int);
        assert(addr[n] == ':');
        assert(k == n) by {
            if k > n {
                assert(addr[k] == port[k - n - 1]);
                if port[0] == '+' {
                    if k > n + 1 {
                        assert(port.skip(1)[k - n - 2] == port[k - n - 1]);
                        assert(is_decimal_digit(port.skip(1)[k - n - 2]));
                    }
                } else {
                    assert(is_decimal_digit(port[k - n - 1]));
                }
            }
        }
        last_is_found(addr, ':', n);
        let j = last_before(addr, ':', n);
        if j >= 0 {
            assert(addr[j] == host[j]);
        }
        assert(addr[0] == host[0]);
        assert(addr.take(n) =~= host);
        assert(addr.skip(n + 1) =~= port);
    }
}

/// An address from which a host is read is made of that host and a port.
pub proof fn read_host_is_in_the_address(addr: Seq<char>)
    ensures
        host_of(addr) matches Ok(host) ==> exists|port: Seq<char>, bracketed: bool|
            #[trigger] address(host, port, bracketed) == addr && is_port(port) && is_plain_host(
                host,
                bracketed,
            ),
{
    if let Ok(host) = host_of(addr) {
        if addr[0] == '[' {
            first_is_found(addr, ']', 1);
            let k = first_at(addr, ']', 1);
            let port = addr.skip(k + 2);
            assert(address(host, port, true) =~= addr);
            assert(!occurs(']', host)) by {
                assert forall|i: int| 0 <= i < host.len() implies #[trigger] host[i] != ']' by {
                    assert(host[i] == addr[i + 1]);
                }
            }
        } else {
            last_is_found(addr, ':', addr.len() as int);
            let k = last_before(addr, ':', addr.len() as int);
            last_is_found(addr, ':', k);
            let port = addr.skip(k + 1);
            assert(address(host, port, false) =~= addr);
            assert(!occurs(':', host)) by {
                assert forall|i: int| 0 <= i < host.len() implies #[trigger] host[i] != ':' by {
                    assert(host[i] == addr[i]);
                }
            }
        }
    }
}

/// An identifier of sixteen bytes is 36 characters, with hyphens behind the first 8, 12, 16
/// and 20 digits, and the bytes can be read from the digits.
pub proof fn identifier_is_read_back(bytes: Seq<u8>)
    requires
        bytes.len() == 16,
    ensures
        ({
            let id = hyphenated(bytes);
            &&& id.len() == 36
            &&& id[8] == '-'
            &&& id[13] == '-'
            &&& id[18] == '-'
            &&& id[23] == '-'
            &&& unhex(id, 0, 4) + unhex(id, 9, 2) + unhex(id, 14, 2) + unhex(id, 19, 2) + unhex(
                id,
                24,
                6,
            ) == bytes
        }),
{
    reveal_strlit("-");
    let id = hyphenated(bytes);
    let a = bytes.subrange(0, 4);
    let b = bytes.subrange(4, 6);
    let c = bytes.subrange(6, 8);
    let d = bytes.subrange(8, 10);
    let e = bytes.subrange(10, 16);
    hex_len(a);
    hex_len(b);
    hex_len(c);
    hex_len(d);
    hex_len(e);
    assert(id.subrange(0, 8) =~= hex(a));
    assert(id.subrange(9, 13) =~= hex(b));
    assert(id.subrange(14, 18) =~= hex(c));
    assert(id.subrange(19, 23) =~= hex(d));
    assert(id.subrange(24, 36) =~= hex(e));
    hex_round_trip(id, 0, a);
    hex_round_trip(id, 9, b);
    hex_round_trip(id, 14, c);
    hex_round_trip(id, 19, d);
    hex_round_trip(id, 24, e);
    assert(a + b + c + d + e =~= bytes);
}

} // verus!
