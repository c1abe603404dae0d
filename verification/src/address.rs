//! Address-family-tagged addresses, their canonical display text, and the
//! synthesis of a bindable socket description and a shareable URL.

use vstd::prelude::*;
use vstd::string::StringExecFns;
use crate::numerals::dec_of;
use crate::numerals::dec_string;
use crate::numerals::digit_char;
use crate::numerals::hex_of;
use crate::numerals::hex_string;

verus! {

/// An assigned interface address in its native binary form: four octets for
/// V4, eight 16-bit groups for V6.
#[derive(Debug, Clone, Copy, PartialEq, Eq, Structural)]
pub enum IpAddress {
    V4(u8, u8, u8, u8),
    V6(u16, u16, u16, u16, u16, u16, u16, u16),
}

/// A display string tagged with the address family it was rendered from.
#[derive(Debug, Clone)]
pub enum IpString {
    V4(String),
    V6(String),
}

/// The text carried by a tagged display string.
pub open spec fn label_of(ip: IpString) -> Seq<char> {
    match ip {
        IpString::V4(s) => s@,
        IpString::V6(s) => s@,
    }
}

/// The canonical display text of an address: four decimal octets joined by
/// `.` for V4; eight unpadded lowercase hexadecimal groups joined by `:` for
/// V6 (a zero group renders as `0`, never `0000`).
pub open spec fn display_of(ip: IpAddress) -> Seq<char> {
    match ip {
        IpAddress::V4(a, b, c, d) => dec_of(a as nat) + "."@ + dec_of(b as nat) + "."@ + dec_of(
            c as nat,
        ) + "."@ + dec_of(d as nat),
        IpAddress::V6(g0, g1, g2, g3, g4, g5, g6, g7) => hex_of(g0 as nat) + ":"@ + hex_of(
            g1 as nat,
        ) + ":"@ + hex_of(g2 as nat) + ":"@ + hex_of(g3 as nat) + ":"@ + hex_of(g4 as nat) + ":"@
            + hex_of(g5 as nat) + ":"@ + hex_of(g6 as nat) + ":"@ + hex_of(g7 as nat),
    }
}

/// Renders an address exactly as `display_of` states it.
pub fn display_string(ip: &IpAddress) -> (s: String)
    ensures
        s@ == display_of(*ip),
{
    match ip {
        IpAddress::V4(a, b, c, d) => {
            let mut s = dec_string(*a as usize);
            s.append(".");
            s.append(dec_string(*b as usize).as_str());
            s.append(".");
            s.append(dec_string(*c as usize).as_str());
            s.append(".");
            s.append(dec_string(*d as usize).as_str());
            proof {
                assert(s@ =~= display_of(*ip));
            }
            s
        },
        IpAddress::V6(g0, g1, g2, g3, g4, g5, g6, g7) => {
            let mut s = hex_string(*g0 as usize);
            s.append(":");
            s.append(hex_string(*g1 as usize).as_str());
            s.append(":");
            s.append(hex_string(*g2 as usize).as_str());
            s.append(":");
            s.append(hex_string(*g3 as usize).as_str());
            s.append(":");
            s.append(hex_string(*g4 as usize).as_str());
            s.append(":");
            s.append(hex_string(*g5 as usize).as_str());
            s.append(":");
            s.append(hex_string(*g6 as usize).as_str());
            s.append(":");
            s.append(hex_string(*g7 as usize).as_str());
            proof {
                assert(s@ =~= display_of(*ip));
            }
            s
        },
    }
}

/// A bindable socket description: the chosen address, the port, and, read
/// only for a V6 address, a zero flow label and a zero scope id.
#[derive(Debug, Clone, Copy, PartialEq, Eq, Structural)]
pub struct HostSocket {
    pub ip: IpAddress,
    pub port: u16,
    pub flowinfo: u32,
    pub scope_id: u32,
}

/// The socket that serves a chosen address and port.
pub open spec fn socket_of(ip: IpAddress, port: u16) -> HostSocket {
    HostSocket { ip, port, flowinfo: 0, scope_id: 0 }
}

/// Builds the bindable socket description for an address and port.
pub fn create_socket(ip: IpAddress, port: u16) -> (s: HostSocket)
    ensures
        s == socket_of(ip, port),
{
    HostSocket { ip, port, flowinfo: 0, scope_id: 0 }
}

/// The shareable URL text for a host display string and port; a V6 host is
/// enclosed in brackets, as URL syntax requires of literal IPv6 hosts.
pub open spec fn url_of(v4: bool, host: Seq<char>, port: nat) -> Seq<char> {
    if v4 {
        "http://"@ + host + ":"@ + dec_of(port)
    } else {
        "http://["@ + host + "]:"@ + dec_of(port)
    }
}

/// Builds the shareable URL from a tagged display string and a port.
pub fn create_url(ip: IpString, port: u16) -> (r: String)
    ensures
        r@ == url_of(ip is V4, label_of(ip), port as nat),
{
    match ip {
        IpString::V4(v4) => {
            let mut s = "http://".to_owned();
            s.append(v4.as_str());
            s.append(":");
            s.append(dec_string(port as usize).as_str());
            proof {
                assert(s@ =~= url_of(true, v4@, port as nat));
            }
            s
        },
        IpString::V6(v6) => {
            let mut s = "http://[".to_owned();
            s.append(v6.as_str());
            s.append("]:");
            s.append(dec_string(port as usize).as_str());
            proof {
                assert(s@ =~= url_of(false, v6@, port as nat));
            }
            s
        },
    }
}

/// How often a character occurs in a piece of text.
pub open spec fn count_char(s: Seq<char>, c: char) -> nat
    decreases s.len(),
{
    if s.len() == 0 {
        0
    } else {
        count_char(s.drop_last(), c) + if s.last() == c {
            1nat
        } else {
            0nat
        }
    }
}

proof fn lemma_count_char_concat(a: Seq<char>, b: Seq<char>, c: char)
    ensures
        count_char(a + b, c) == count_char(a, c) + count_char(b, c),
    decreases b.len(),
{
    if b.len() == 0 {
        assert(a + b =~= a);
    } else {
        lemma_count_char_concat(a, b.drop_last(), c);
        assert((a + b).drop_last() =~= a + b.drop_last());
        assert((a + b).last() == b.last());
    }
}

proof fn lemma_hex_no_colon(n: nat)
    ensures
        hex_of(n).len() >= 1,
        count_char(hex_of(n), ':') == 0,
    decreases n,
{
    if n < 16 {
        let s = seq![digit_char(n)];
        assert(count_char(Seq::<char>::empty(), ':') == 0);
        assert(s.drop_last() =~= Seq::<char>::empty());
        assert(count_char(s, ':') == 0);
    } else {
        lemma_hex_no_colon(n / 16);
        lemma_hex_no_colon(n % 16);
        lemma_count_char_concat(hex_of(n / 16), seq![digit_char(n % 16)], ':');
    }
}

/// An IPv6 display string always consists of exactly eight `:`-separated
/// groups: each of the eight rendered groups is nonempty and free of `:`,
/// and exactly seven separators stand between them.
pub proof fn lemma_v6_display_groups(ip: IpAddress)
    requires
        ip is V6,
    ensures
        count_char(display_of(ip), ':') == 7,
        display_of(ip).len() >= 15,
{
    match ip {
        IpAddress::V4(..) => {
        },
        IpAddress::V6(g0, g1, g2, g3, g4, g5, g6, g7) => {
            lemma_v6_groups_counted(g0, g1, g2, g3, g4, g5, g6, g7);
        },
    }
}

proof fn lemma_v6_groups_counted(
    g0: u16,
    g1: u16,
    g2: u16,
    g3: u16,
    g4: u16,
    g5: u16,
    g6: u16,
    g7: u16,
)
    ensures
        count_char(display_of(IpAddress::V6(g0, g1, g2, g3, g4, g5, g6, g7)), ':') == 7,
        display_of(IpAddress::V6(g0, g1, g2, g3, g4, g5, g6, g7)).len() >= 15,
{
    lemma_hex_no_colon(g0 as nat);
    lemma_hex_no_colon(g1 as nat);
    lemma_hex_no_colon(g2 as nat);
    lemma_hex_no_colon(g3 as nat);
    lemma_hex_no_colon(g4 as nat);
    lemma_hex_no_colon(g5 as nat);
    lemma_hex_no_colon(g6 as nat);
    lemma_hex_no_colon(g7 as nat);
    let colon = ":"@;
    reveal_strlit(":");
    assert(count_char(Seq::<char>::empty(), ':') == 0);
    assert(colon.drop_last() =~= Seq::<char>::empty());
    assert(colon.last() == ':');
    assert(count_char(colon, ':') == 1);
    lemma_count_char_concat(hex_of(g0 as nat), colon, ':');
    lemma_count_char_concat(hex_of(g0 as nat) + colon, hex_of(g1 as nat), ':');
    lemma_count_char_concat(hex_of(g0 as nat) + colon + hex_of(g1 as nat), colon, ':');
    lemma_count_char_concat(hex_of(g0 as nat) + colon + hex_of(g1 as nat) + colon, hex_of(g2 as nat), ':');
    lemma_count_char_concat(hex_of(g0 as nat) + colon + hex_of(g1 as nat) + colon + hex_of(g2 as nat), colon, ':');
    lemma_count_char_concat(hex_of(g0 as nat) + colon + hex_of(g1 as nat) + colon + hex_of(g2 as nat) + colon, hex_of(g3 as nat), ':');
    lemma_count_char_concat(hex_of(g0 as nat) + colon + hex_of(g1 as nat) + colon + hex_of(g2 as nat) + colon + hex_of(g3 as nat), colon, ':');
    lemma_count_char_concat(hex_of(g0 as nat) + colon + hex_of(g1 as nat) + colon + hex_of(g2 as nat) + colon + hex_of(g3 as nat) + colon, hex_of(g4 as nat), ':');
    lemma_count_char_concat(hex_of(g0 as nat) + colon + hex_of(g1 as nat) + colon + hex_of(g2 as nat) + colon + hex_of(g3 as nat) + colon + hex_of(g4 as nat), colon, ':');
    lemma_count_char_concat(hex_of(g0 as nat) + colon + hex_of(g1 as nat) + colon + hex_of(g2 as nat) + colon + hex_of(g3 as nat) + colon + hex_of(g4 as nat) + colon, hex_of(g5 as nat), ':');
    lemma_count_char_concat(hex_of(g0 as nat) + colon + hex_of(g1 as nat) + colon + hex_of(g2 as nat) + colon + hex_of(g3 as nat) + colon + hex_of(g4 as nat) + colon + hex_of(g5 as nat), colon, ':');
    lemma_count_char_concat(hex_of(g0 as nat) + colon + hex_of(g1 as nat) + colon + hex_of(g2 as nat) + colon + hex_of(g3 as nat) + colon + hex_of(g4 as nat) + colon + hex_of(g5 as nat) + colon, hex_of(g6 as nat), ':');
    lemma_count_char_concat(hex_of(g0 as nat) + colon + hex_of(g1 as nat) + colon + hex_of(g2 as nat) + colon + hex_of(g3 as nat) + colon + hex_of(g4 as nat) + colon + hex_of(g5 as nat) + colon + hex_of(g6 as nat), colon, ':');
    lemma_count_char_concat(hex_of(g0 as nat) + colon + hex_of(g1 as nat) + colon + hex_of(g2 as nat) + colon + hex_of(g3 as nat) + colon + hex_of(g4 as nat) + colon + hex_of(g5 as nat) + colon + hex_of(g6 as nat) + colon, hex_of(g7 as nat), ':');
}

/// Socket and URL synthesis agree on the family, the address, and the port:
/// rebuilding the URL from the fields of the synthesized socket yields the
/// same URL that the inputs themselves yield.
pub proof fn lemma_endpoint_family_consistent(ip: IpAddress, port: u16)
    ensures
        socket_of(ip, port).ip == ip,
        socket_of(ip, port).port == port,
        socket_of(ip, port).flowinfo == 0,
        socket_of(ip, port).scope_id == 0,
        url_of(
            socket_of(ip, port).ip is V4,
            display_of(socket_of(ip, port).ip),
            socket_of(ip, port).port as nat,
        ) == url_of(ip is V4, display_of(ip), port as nat),
{
}

} // verus!
