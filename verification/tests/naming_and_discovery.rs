use socket_forward::decimal::{parse_u32, push_decimal};
use socket_forward::discovery::{choose_server_id, find_available_server_id, first_free_id, used_server_ids};
use socket_forward::naming::{
    is_peer_socket, peer_socket_path, server_id_from_file_name, socket_file_name,
    socket_file_prefix, tcp_listen_address, unix_socket_path,
};
use socket_forward::server::Server;
use socket_forward::text::{ends_with, starts_with, strip_prefix, until_first_dot};
use std::collections::HashSet;

fn names(list: &[&str]) -> Vec<String> {
    list.iter().map(|s| s.to_string()).collect()
}

#[test]
fn decimal_matches_display() {
    for n in [0u64, 1, 9, 10, 42, 99, 100, 3000, 65535, 4294967295, u64::MAX] {
        let mut s = String::from("x");
        push_decimal(&mut s, n);
        assert_eq!(s, format!("x{}", n));
    }
}

#[test]
fn parse_matches_std() {
    let cases = [
        "", "+", "-", "0", "7", "+7", "-7", "007", "42", "4294967295", "4294967296",
        "99999999999999999999", "12a", "a12", " 1", "1 ", "++1", "+-1", "1.5", "٣", "+0",
    ];
    for c in cases {
        assert_eq!(parse_u32(c), c.parse::<u32>().ok(), "input {:?}", c);
    }
}

#[test]
fn string_helpers_match_std() {
    let cases = [("socket-forward_3000_1.sock", "socket-forward_3000_"), ("abc", "abcd"), ("", ""), ("héllo", "hé"), ("abc", "b")];
    for (s, p) in cases {
        assert_eq!(starts_with(s, p), s.starts_with(p));
        assert_eq!(ends_with(s, p), s.ends_with(p));
        assert_eq!(strip_prefix(s, p), s.strip_prefix(p));
    }
    for s in ["a.b.c", "abc", ".x", "", "é.é"] {
        assert_eq!(until_first_dot(s), s.split('.').next().unwrap());
    }
}

#[test]
fn socket_names() {
    assert_eq!(socket_file_prefix(3000), "socket-forward_3000_");
    assert_eq!(socket_file_name(3000, 2), "socket-forward_3000_2.sock");
    assert_eq!(unix_socket_path("/tmp", 3000, 7), "/tmp/socket-forward_3000_7.sock");
    assert_eq!(tcp_listen_address("127.0.0.1", 3000), "127.0.0.1:3000");
    assert_eq!(peer_socket_path("/tmp", "socket-forward_3000_4.sock"), "/tmp/socket-forward_3000_4.sock");
    assert_eq!(peer_socket_path("/var/run/sf", "socket-forward_3000_4.sock"), "/var/run/sf/socket-forward_3000_4.sock");
}

#[test]
fn server_id_round_trip() {
    for id in [0u32, 1, 12, 4294967295] {
        let name = socket_file_name(8080, id);
        assert_eq!(server_id_from_file_name(&name, 8080), Some(id));
        assert_eq!(server_id_from_file_name(&name, 80), None);
    }
    assert_eq!(server_id_from_file_name("socket-forward_3000_5", 3000), Some(5));
    assert_eq!(server_id_from_file_name("socket-forward_3000_5.sock.old", 3000), Some(5));
    assert_eq!(server_id_from_file_name("socket-forward_3000_x.sock", 3000), None);
    assert_eq!(server_id_from_file_name("socket-forward_30001_5.sock", 3000), None);
    assert_eq!(server_id_from_file_name("other", 3000), None);
}

#[test]
fn used_ids_and_first_free() {
    let list = names(&["socket-forward_3000_1.sock", "socket-forward_3000_3.sock", "socket-forward_4000_2.sock", "notes.txt"]);
    let used = used_server_ids(&list, 3000);
    let expected: HashSet<u32> = [1u32, 3].into_iter().collect();
    assert_eq!(used, expected);
    assert_eq!(first_free_id(&used), 2);
    assert_eq!(first_free_id(&HashSet::new()), 1);
}

#[test]
fn available_id_skips_taken_ids() {
    assert_eq!(find_available_server_id(&names(&[]), 3000), 1);
    let list = names(&["socket-forward_3000_1.sock", "socket-forward_3000_2.sock", "socket-forward_3000_0.sock"]);
    assert_eq!(find_available_server_id(&list, 3000), 3);
    assert_eq!(find_available_server_id(&list, 3001), 1);
    let id = find_available_server_id(&list, 3000);
    let fresh = socket_file_name(3000, id);
    assert!(list.iter().all(|n| *n != fresh));
}

#[test]
fn peers_exclude_own_socket() {
    let tmp = names(&[
        "socket-forward_3000_1.sock",
        "socket-forward_3000_2.sock",
        "socket-forward_3000_3.sock.bak",
        "socket-forward_4000_4.sock",
        "unrelated.sock",
        "socket-forward_3000_5.sock",
    ]);
    assert!(is_peer_socket("socket-forward_3000_2.sock", 3000, 1));
    assert!(!is_peer_socket("socket-forward_3000_1.sock", 3000, 1));
    let server = Server::new(1, 3000, "/tmp");
    assert_eq!(server.unix_socket_path(), "/tmp/socket-forward_3000_1.sock");
    assert_eq!(server.id(), 1);
    assert_eq!(server.port(), 3000);
    assert_eq!(
        server.discover_peers(3000, &tmp),
        vec!["/tmp/socket-forward_3000_2.sock".to_string(), "/tmp/socket-forward_3000_5.sock".to_string()]
    );
    assert_eq!(server.discover_peers(4000, &tmp), vec!["/tmp/socket-forward_4000_4.sock".to_string()]);
}

#[test]
fn sibling_dials_the_path_it_listens_on() {
    let sibling = Server::new(2, 3000, "/tmp");
    let me = Server::new(1, 3000, "/tmp");
    let tmp = vec![socket_file_name(3000, 1), socket_file_name(3000, 2)];
    assert_eq!(me.discover_peers(3000, &tmp), vec![sibling.unix_socket_path().clone()]);
    assert_eq!(sibling.discover_peers(3000, &tmp), vec![me.unix_socket_path().clone()]);
}

#[test]
fn peers_found_in_the_socket_folder() {
    let sibling = Server::new(2, 3000, "/var/run/sf");
    let me = Server::new(1, 3000, "/var/run/sf");
    assert_eq!(me.unix_socket_folder(), "/var/run/sf");
    let folder = vec![socket_file_name(3000, 1), socket_file_name(3000, 2), "readme".to_string()];
    assert_eq!(me.discover_peers(3000, &folder), vec!["/var/run/sf/socket-forward_3000_2.sock".to_string()]);
    assert_eq!(me.discover_peers(3000, &folder), vec![sibling.unix_socket_path().clone()]);
}

#[test]
fn chosen_id_ignores_order_and_unrelated_files_and_grows_with_more_files() {
    let a = names(&["socket-forward_3000_2.sock", "socket-forward_3000_1.sock"]);
    let b = names(&["x.txt", "socket-forward_3000_1.sock", "socket-forward_4000_3.sock", "socket-forward_3000_2.sock"]);
    assert_eq!(choose_server_id(&a, 3000), 3);
    assert_eq!(choose_server_id(&b, 3000), 3);
    let fewer = names(&["socket-forward_3000_1.sock"]);
    let more = names(&["socket-forward_3000_1.sock", "socket-forward_3000_3.sock"]);
    assert!(choose_server_id(&fewer, 3000) <= choose_server_id(&more, 3000));
    assert_eq!(choose_server_id(&more, 3000), 2);
}
