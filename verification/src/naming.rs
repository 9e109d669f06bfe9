//! Names of the Unix socket files through which sibling servers find each
//! other, and of the TCP address a server listens on.

use vstd::prelude::*;
use crate::decimal::{all_digits, decimal, is_digit, lemma_decimal_digits, lemma_decimal_injective, lemma_parse_decimal, parse_u32, parse_u32_spec, push_decimal};
use crate::text::{dot_free, ends_with, lemma_until_dot_stops_at_dot, starts_with, strip_prefix, until_dot, until_first_dot};

verus! {

/// The start shared by the socket file names of all servers on `port`.
pub open spec fn socket_prefix(port: u16) -> Seq<char> {
    "socket-forward_"@ + decimal(port as nat) + "_"@
}

/// The socket file name of server `id` on `port`.
pub open spec fn socket_name(port: u16, id: u32) -> Seq<char> {
    socket_prefix(port) + decimal(id as nat) + ".sock"@
}

/// The path of the file `name` in the directory `folder`.
pub open spec fn in_folder(folder: Seq<char>, name: Seq<char>) -> Seq<char> {
    folder + "/"@ + name
}

/// The path of the Unix socket that server `id` on `port` listens on in `folder`.
pub open spec fn socket_path(folder: Seq<char>, port: u16, id: u32) -> Seq<char> {
    in_folder(folder, socket_name(port, id))
}

/// The `host:port` address that a server listens on for TCP clients.
pub open spec fn listen_address(host: Seq<char>, port: u16) -> Seq<char> {
    host + ":"@ + decimal(port as nat)
}

/// The server id that a socket file name announces for `port`: the text after
/// the port's prefix and before the first `.`, read as a `u32`.
pub open spec fn server_id_of(name: Seq<char>, port: u16) -> Option<u32> {
    if socket_prefix(port).is_prefix_of(name) {
        parse_u32_spec(until_dot(name.skip(socket_prefix(port).len() as int)))
    } else {
        None
    }
}

/// Whether the file `name` is the socket of a sibling of server `my_id` on `port`.
pub open spec fn is_peer_socket_name(name: Seq<char>, port: u16, my_id: u32) -> bool {
    &&& socket_prefix(port).is_prefix_of(name)
    &&& ".sock"@.is_suffix_of(name)
    &&& name != socket_name(port, my_id)
}

/// Builds `socket-forward_<port>_`.
pub fn socket_file_prefix(port: u16) -> (r: String)
    ensures
        r@ == socket_prefix(port),
{
    let mut s = String::from_str("socket-forward_");
    push_decimal(&mut s, port as u64);
    s.append("_");
    s
}

/// Builds `socket-forward_<port>_<id>.sock`.
pub fn socket_file_name(port: u16, id: u32) -> (r: String)
    ensures
        r@ == socket_name(port, id),
{
    let mut s = socket_file_prefix(port);
    push_decimal(&mut s, id as u64);
    s.append(".sock");
    s
}

/// Builds `<folder>/socket-forward_<port>_<id>.sock`.
pub fn unix_socket_path(folder: &str, port: u16, id: u32) -> (r: String)
    ensures
        r@ == socket_path(folder@, port, id),
{
    let mut s = String::from_str(folder);
    s.append("/");
    let name = socket_file_name(port, id);
    s.append(name.as_str());
    proof {
        assert(s@ =~= socket_path(folder@, port, id));
    }
    s
}

/// Builds `<host>:<port>`.
pub fn tcp_listen_address(host: &str, port: u16) -> (r: String)
    ensures
        r@ == listen_address(host@, port),
        r@.len() > host@.len(),
        r@.subrange(0, host@.len() as int) == host@,
        r@[host@.len() as int] == ':',
        parse_u32_spec(r@.skip(host@.len() as int + 1)) == Some(port as u32),
{
    proof {
        lemma_listen_address_splits(host@, port);
    }
    let mut s = String::from_str(host);
    s.append(":");
    push_decimal(&mut s, port as u64);
    s
}

/// The server id that the socket file `name` announces for `port`, if any.
pub fn server_id_from_file_name(name: &str, port: u16) -> (r: Option<u32>)
    ensures
        r == server_id_of(name@, port),
{
    let prefix = socket_file_prefix(port);
    match strip_prefix(name, prefix.as_str()) {
        Some(rest) => parse_u32(until_first_dot(rest)),
        None => None,
    }
}

/// Whether the file `name` is the socket of a sibling of server `my_id` on `port`.
pub fn is_peer_socket(name: &str, port: u16, my_id: u32) -> (r: bool)
    ensures
        r == is_peer_socket_name(name@, port, my_id),
{
    let prefix = socket_file_prefix(port);
    if !starts_with(name, prefix.as_str()) {
        return false;
    }
    if !ends_with(name, ".sock") {
        return false;
    }
    let own = socket_file_name(port, my_id);
    let name_owned = String::from_str(name);
    !(name_owned == own)
}

/// Builds `<folder>/<name>`, the path of a sibling's socket.
pub fn peer_socket_path(folder: &str, name: &str) -> (r: String)
    ensures
        r@ == in_folder(folder@, name@),
{
    let mut s = String::from_str(folder);
    s.append("/");
    s.append(name);
    s
}

/// Reading back the id from the socket name of server `id` gives `id`.
pub proof fn lemma_socket_name_round_trip(port: u16, id: u32)
    ensures
        server_id_of(socket_name(port, id), port) == Some(id),
{
    let p = socket_prefix(port);
    let d = decimal(id as nat);
    let name = socket_name(port, id);
    reveal_strlit(".sock");
    assert(p.is_prefix_of(name)) by {
        assert(name.subrange(0, p.len() as int) =~= p);
    }
    assert(name.skip(p.len() as int) =~= d + ".sock"@);
    lemma_decimal_digits(id as nat);
    assert(dot_free(d)) by {
        assert forall|i: int| 0 <= i < d.len() implies #[trigger] d[i] != '.' by {
            assert(crate::decimal::is_digit(d[i]));
        }
    }
    lemma_until_dot_stops_at_dot(d, ".sock"@);
    lemma_parse_decimal(id);
}

/// Servers with different ids on one port have different socket names.
pub proof fn lemma_socket_names_distinct(port: u16, a: u32, b: u32)
    requires
        a != b,
    ensures
        socket_name(port, a) != socket_name(port, b),
{
    lemma_socket_name_round_trip(port, a);
    lemma_socket_name_round_trip(port, b);
}

/// A server never counts its own socket as a sibling's.
pub proof fn lemma_own_socket_not_peer(port: u16, my_id: u32)
    ensures
        !is_peer_socket_name(socket_name(port, my_id), port, my_id),
{
}

/// The socket of every other server on the same port counts as a sibling's.
pub proof fn lemma_other_socket_is_peer(port: u16, my_id: u32, other: u32)
    requires
        other != my_id,
    ensures
        is_peer_socket_name(socket_name(port, other), port, my_id),
{
    let name = socket_name(port, other);
    let p = socket_prefix(port);
    assert(name.subrange(0, p.len() as int) =~= p);
    assert(name.subrange(name.len() - ".sock"@.len(), name.len() as int) =~= ".sock"@);
    lemma_socket_names_distinct(port, other, my_id);
}

/// The listen address is the given host, then `:`, then a decimal number that
/// reads back as the port.
pub proof fn lemma_listen_address_splits(host: Seq<char>, port: u16)
    ensures
        listen_address(host, port).len() > host.len(),
        listen_address(host, port).subrange(0, host.len() as int) == host,
        listen_address(host, port)[host.len() as int] == ':',
        parse_u32_spec(listen_address(host, port).skip(host.len() as int + 1)) == Some(port as u32),
{
    let a = listen_address(host, port);
    reveal_strlit(":");
    lemma_decimal_digits(port as nat);
    assert(a.subrange(0, host.len() as int) =~= host);
    assert(a.skip(host.len() as int + 1) =~= decimal(port as nat));
    lemma_parse_decimal(port as u32);
}

/// A digit string followed by `_` that is a prefix of another digit string
/// followed by `_` is that digit string.
proof fn lemma_digit_field_prefix(d1: Seq<char>, d2: Seq<char>, rest: Seq<char>)
    requires
        all_digits(d1),
        all_digits(d2),
        (d1 + seq!['_']).is_prefix_of(d2 + seq!['_'] + rest),
    ensures
        d1 == d2,
{
    let l = d1 + seq!['_'];
    let r = d2 + seq!['_'] + rest;
    assert(l[d1.len() as int] == '_');
    if d1.len() < d2.len() {
        assert(r[d1.len() as int] == d2[d1.len() as int]);
        assert(is_digit(d2[d1.len() as int]));
        assert(l[d1.len() as int] == r.subrange(0, l.len() as int)[d1.len() as int]);
    } else if d1.len() > d2.len() {
        assert(r[d2.len() as int] == '_');
        assert(l[d2.len() as int] == d1[d2.len() as int]);
        assert(is_digit(d1[d2.len() as int]));
        assert(l[d2.len() as int] == r.subrange(0, l.len() as int)[d2.len() as int]);
    } else {
        assert forall|i: int| 0 <= i < d1.len() implies d1[i] == d2[i] by {
            assert(l[i] == r.subrange(0, l.len() as int)[i]);
            assert(l[i] == d1[i]);
            assert(r[i] == d2[i]);
        }
        assert(d1 =~= d2);
    }
}

/// A file name starts with the socket prefix of at most one port.
pub proof fn lemma_prefix_identifies_port(p1: u16, p2: u16, name: Seq<char>)
    requires
        socket_prefix(p1).is_prefix_of(name),
        socket_prefix(p2).is_prefix_of(name),
    ensures
        p1 == p2,
{
    reveal_strlit("socket-forward_");
    reveal_strlit("_");
    let stem = "socket-forward_"@;
    let d1 = decimal(p1 as nat);
    let d2 = decimal(p2 as nat);
    lemma_decimal_digits(p1 as nat);
    lemma_decimal_digits(p2 as nat);
    let n1 = socket_prefix(p1);
    let n2 = socket_prefix(p2);
    let tail = name.skip(stem.len() as int);
    assert(n1 =~= stem + (d1 + seq!['_']));
    assert(n2 =~= stem + (d2 + seq!['_']));
    // both fields follow the shared stem; the shorter one is a prefix of the longer
    let t2 = name.subrange(stem.len() as int, n2.len() as int);
    assert(t2 =~= d2 + seq!['_']) by {
        assert forall|i: int| 0 <= i < t2.len() implies t2[i] == (d2 + seq!['_'])[i] by {
            assert(t2[i] == name[stem.len() + i]);
            assert(name[stem.len() + i] == name.subrange(0, n2.len() as int)[stem.len() + i]);
            assert(n2[stem.len() + i] == (d2 + seq!['_'])[i]);
        }
    }
    if n1.len() <= n2.len() {
        assert((d1 + seq!['_']).is_prefix_of(d2 + seq!['_'] + Seq::<char>::empty())) by {
            let l = d1 + seq!['_'];
            let r = d2 + seq!['_'] + Seq::<char>::empty();
            assert(r =~= t2);
            assert forall|i: int| 0 <= i < l.len() implies l[i] == r[i] by {
                assert(n1[stem.len() + i] == l[i]);
                assert(name[stem.len() + i] == name.subrange(0, n1.len() as int)[stem.len() + i]);
                assert(t2[i] == name[stem.len() + i]);
            }
            assert(l =~= r.subrange(0, l.len() as int));
        }
        lemma_digit_field_prefix(d1, d2, Seq::<char>::empty());
    } else {
        let t1 = name.subrange(stem.len() as int, n1.len() as int);
        assert((d2 + seq!['_']).is_prefix_of(d1 + seq!['_'] + Seq::<char>::empty())) by {
            let l = d2 + seq!['_'];
            let r = d1 + seq!['_'] + Seq::<char>::empty();
            assert forall|i: int| 0 <= i < l.len() implies l[i] == r[i] by {
                assert(n2[stem.len() + i] == l[i]);
                assert(n1[stem.len() + i] == r[i]);
                assert(name[stem.len() + i] == name.subrange(0, n2.len() as int)[stem.len() + i]);
                assert(name[stem.len() + i] == name.subrange(0, n1.len() as int)[stem.len() + i]);
            }
            assert(l =~= r.subrange(0, l.len() as int));
        }
        lemma_digit_field_prefix(d2, d1, Seq::<char>::empty());
    }
    lemma_decimal_injective(p1 as u32, p2 as u32);
}

/// Servers on different ports never share a socket name.
pub proof fn lemma_socket_names_differ_across_ports(p1: u16, p2: u16, a: u32, b: u32)
    requires
        p1 != p2,
    ensures
        socket_name(p1, a) != socket_name(p2, b),
{
    if socket_name(p1, a) == socket_name(p2, b) {
        let name = socket_name(p1, a);
        assert(name.subrange(0, socket_prefix(p1).len() as int) =~= socket_prefix(p1));
        assert(socket_name(p2, b).subrange(0, socket_prefix(p2).len() as int) =~= socket_prefix(p2));
        lemma_prefix_identifies_port(p1, p2, name);
    }
}

/// A server never takes the socket of a server on another port for a
/// sibling's, nor reads a server id out of it.
pub proof fn lemma_other_port_not_peer(my_port: u16, my_id: u32, other_port: u16, other: u32)
    requires
        my_port != other_port,
    ensures
        !is_peer_socket_name(socket_name(other_port, other), my_port, my_id),
        server_id_of(socket_name(other_port, other), my_port) is None,
{
    let name = socket_name(other_port, other);
    assert(name.subrange(0, socket_prefix(other_port).len() as int) =~= socket_prefix(other_port));
    if socket_prefix(my_port).is_prefix_of(name) {
        lemma_prefix_identifies_port(my_port, other_port, name);
    }
}

} // verus!
