//! Choosing a fresh server id from the socket files already present, and
//! finding the sockets of sibling servers.

use vstd::prelude::*;
use vstd::set_lib::{lemma_int_range, lemma_len_subset, set_int_range};
use crate::text::string_views;
use std::collections::HashSet;
use crate::naming::{
    in_folder, is_peer_socket, is_peer_socket_name, lemma_socket_name_round_trip,
    peer_socket_path, server_id_from_file_name, server_id_of, socket_name, socket_path,
};

verus! {

broadcast use vstd::std_specs::hash::group_hash_axioms;

/// Whether one of the files `names` is a socket of server `id` on `port`.
pub open spec fn id_in_use(names: Seq<String>, port: u16, id: u32) -> bool {
    exists|i: int| 0 <= i < names.len() && server_id_of(#[trigger] names[i]@, port) == Some(id)
}

/// Whether some positive id is announced by none of the files `names`.
pub open spec fn has_free_id(names: Seq<String>, port: u16) -> bool {
    exists|k: u32| 1 <= k && !id_in_use(names, port, k)
}

/// Whether `id` is the smallest positive id that none of the files `names`
/// announces for `port`.
pub open spec fn is_least_free_id(names: Seq<String>, port: u16, id: u32) -> bool {
    &&& 1 <= id
    &&& !id_in_use(names, port, id)
    &&& forall|k: u32| 1 <= k < id ==> id_in_use(names, port, k)
}

/// The server ids that the socket files `names` announce for `port`.
pub fn used_server_ids(names: &Vec<String>, port: u16) -> (r: HashSet<u32>)
    ensures
        forall|k: u32|
            #![trigger r@.contains(k)]
            #![trigger id_in_use(names@, port, k)]
            r@.contains(k) <==> id_in_use(names@, port, k),
{
    let mut used: HashSet<u32> = HashSet::new();
    let mut i: usize = 0;
    while i < names.len()
        invariant
            i <= names.len(),
            forall|k: u32|
                #![trigger used@.contains(k)]
                #![trigger id_in_use(names@.take(i as int), port, k)]
                used@.contains(k) <==> id_in_use(names@.take(i as int), port, k),
        decreases names.len() - i,
    {
        let found = server_id_from_file_name(names[i].as_str(), port);
        proof {
            assert forall|k: u32| id_in_use(names@.take(i as int), port, k)
                implies id_in_use(names@.take(i + 1), port, k) by {
                let j = choose|j: int| 0 <= j < i && server_id_of(#[trigger] names@.take(i as int)[j]@, port) == Some(k);
                assert(names@.take(i + 1)[j] == names@.take(i as int)[j]);
            }
            assert forall|k: u32| id_in_use(names@.take(i + 1), port, k) && server_id_of(names@[i as int]@, port) != Some(k)
                implies id_in_use(names@.take(i as int), port, k) by {
                let j = choose|j: int| 0 <= j < i + 1 && server_id_of(#[trigger] names@.take(i + 1)[j]@, port) == Some(k);
                assert(j != i);
                assert(names@.take(i + 1)[j] == names@.take(i as int)[j]);
            }
            if let Some(id) = found {
                assert(names@.take(i + 1)[i as int] == names@[i as int]);
                assert(id_in_use(names@.take(i + 1), port, id));
            }
        }
        if let Some(id) = found {
            used.insert(id);
        }
        i = i + 1;
    }
    assert(names@.take(names.len() as int) =~= names@);
    used
}

/// The smallest positive id that `used` does not hold.
pub fn first_free_id(used: &HashSet<u32>) -> (r: u32)
    requires
        exists|k: u32| 1 <= k && !used@.contains(k),
    ensures
        1 <= r,
        !used@.contains(r),
        forall|k: u32| 1 <= k < r ==> used@.contains(k),
{
    let ghost bound = choose|k: u32| 1 <= k && !used@.contains(k);
    let mut id: u32 = 1;
    while used.contains(&id)
        invariant
            1 <= id <= bound,
            !used@.contains(bound),
            forall|k: u32| 1 <= k < id ==> used@.contains(k),
        decreases bound - id,
    {
        id = id + 1;
    }
    id
}

/// The id for a new server on `port`, given the file names found in its
/// socket folder: the smallest positive id that no socket there announces.
pub fn find_available_server_id(names: &Vec<String>, port: u16) -> (r: u32)
    requires
        has_free_id(names@, port),
    ensures
        is_least_free_id(names@, port, r),
        forall|i: int| 0 <= i < names.len() ==> names@[i]@ != socket_name(port, r),
{
    let used = used_server_ids(names, port);
    let r = first_free_id(&used);
    proof {
        lemma_fresh_id_has_fresh_socket_name(names@, port, r);
    }
    r
}

/// An id that no file announces has a socket name that no file already has,
/// so a server started with it cannot collide with an existing socket.
pub proof fn lemma_fresh_id_has_fresh_socket_name(names: Seq<String>, port: u16, id: u32)
    requires
        !id_in_use(names, port, id),
    ensures
        forall|i: int| 0 <= i < names.len() ==> names[i]@ != socket_name(port, id),
{
    lemma_socket_name_round_trip(port, id);
    assert forall|i: int| 0 <= i < names.len() implies names[i]@ != socket_name(port, id) by {
        if names[i]@ == socket_name(port, id) {
            assert(server_id_of(names[i]@, port) == Some(id));
        }
    }
}

/// With fewer names than there are positive `u32` ids, some id is free.
pub proof fn lemma_few_names_leave_a_free_id(names: Seq<String>, port: u16)
    requires
        names.len() < u32::MAX,
    ensures
        has_free_id(names, port),
{
    let announced = Seq::new(names.len(), |i: int|
        match server_id_of(names[i]@, port) {
            Some(k) => k as int,
            None => 0int,
        });
    if !has_free_id(names, port) {
        let all = set_int_range(1, u32::MAX as int + 1);
        assert(all.subset_of(announced.to_set())) by {
            assert forall|x: int| all.contains(x) implies #[trigger] announced.to_set().contains(x) by {
                let k = x as u32;
                assert(1 <= k);
                assert(id_in_use(names, port, k));
                let i = choose|i: int| 0 <= i < names.len() && server_id_of(#[trigger] names[i]@, port) == Some(k);
                assert(announced[i] == x);
            }
        }
        lemma_int_range(1, u32::MAX as int + 1);
        announced.lemma_cardinality_of_set();
        vstd::seq_lib::seq_to_set_is_finite(announced);
        lemma_len_subset(all, announced.to_set());
        assert(false);
    }
}

/// The id for a new server on `port` when its socket folder holds fewer than
/// `u32::MAX` files: some id is then free, and this is the smallest one.
pub fn choose_server_id(names: &Vec<String>, port: u16) -> (r: u32)
    requires
        names.len() < u32::MAX,
    ensures
        is_least_free_id(names@, port, r),
        forall|i: int| 0 <= i < names.len() ==> names@[i]@ != socket_name(port, r),
{
    proof {
        lemma_few_names_leave_a_free_id(names@, port);
    }
    find_available_server_id(names, port)
}

/// The smallest free id is unique.
pub proof fn lemma_least_free_id_unique(names: Seq<String>, port: u16, a: u32, b: u32)
    requires
        is_least_free_id(names, port, a),
        is_least_free_id(names, port, b),
    ensures
        a == b,
{
    if a < b {
        assert(id_in_use(names, port, a));
    } else if b < a {
        assert(id_in_use(names, port, b));
    }
}

/// Whether every file name of `a` is also among `b`.
pub open spec fn names_included(a: Seq<String>, b: Seq<String>) -> bool {
    forall|i: int| 0 <= i < a.len() ==> exists|j: int| 0 <= j < b.len() && b[j]@ == #[trigger] a[i]@
}

proof fn lemma_in_use_carries_over(a: Seq<String>, b: Seq<String>, port: u16, k: u32)
    requires
        names_included(a, b),
        id_in_use(a, port, k),
    ensures
        id_in_use(b, port, k),
{
    let i = choose|i: int| 0 <= i < a.len() && server_id_of(#[trigger] a[i]@, port) == Some(k);
    assert(0 <= i < a.len());
    let j = choose|j: int| 0 <= j < b.len() && b[j]@ == a[i]@;
    assert(server_id_of(b[j]@, port) == Some(k));
}

/// More socket files in use never lower the chosen id: when every file of
/// `fewer` is also among `more`, the id chosen for `fewer` is at most the one
/// chosen for `more`.
pub proof fn lemma_more_files_never_lower_the_id(fewer: Seq<String>, more: Seq<String>, port: u16, r1: u32, r2: u32)
    requires
        names_included(fewer, more),
        is_least_free_id(fewer, port, r1),
        is_least_free_id(more, port, r2),
    ensures
        r1 <= r2,
{
    if r2 < r1 {
        assert(id_in_use(fewer, port, r2));
        lemma_in_use_carries_over(fewer, more, port, r2);
    }
}

/// A file whose name does not start with the port's socket prefix announces no id.
pub proof fn lemma_unrelated_name_announces_nothing(name: Seq<char>, port: u16)
    requires
        !crate::naming::socket_prefix(port).is_prefix_of(name),
    ensures
        server_id_of(name, port) is None,
{
}

/// Whether each name of `b` is among `a` or does not start with the port's
/// socket prefix.
pub open spec fn only_unrelated_names_added(a: Seq<String>, b: Seq<String>, port: u16) -> bool {
    forall|j: int| 0 <= j < b.len() ==> (exists|i: int| 0 <= i < a.len() && a[i]@ == #[trigger] b[j]@)
        || !crate::naming::socket_prefix(port).is_prefix_of(b[j]@)
}

proof fn lemma_in_use_comes_back(a: Seq<String>, b: Seq<String>, port: u16, k: u32)
    requires
        only_unrelated_names_added(a, b, port),
        id_in_use(b, port, k),
    ensures
        id_in_use(a, port, k),
{
    let j = choose|j: int| 0 <= j < b.len() && server_id_of(#[trigger] b[j]@, port) == Some(k);
    assert(0 <= j < b.len());
    if !crate::naming::socket_prefix(port).is_prefix_of(b[j]@) {
        lemma_unrelated_name_announces_nothing(b[j]@, port);
    } else {
        let i = choose|i: int| 0 <= i < a.len() && a[i]@ == b[j]@;
        assert(server_id_of(a[i]@, port) == Some(k));
    }
}

/// Only the socket files of the port matter, not their order nor other files:
/// when `b` holds every name of `a`, and each name of `b` is either in `a` or
/// does not start with the port's prefix, the chosen ids agree.
pub proof fn lemma_order_and_unrelated_files_do_not_matter(a: Seq<String>, b: Seq<String>, port: u16, ra: u32, rb: u32)
    requires
        names_included(a, b),
        only_unrelated_names_added(a, b, port),
        is_least_free_id(a, port, ra),
        is_least_free_id(b, port, rb),
    ensures
        ra == rb,
{
    if id_in_use(b, port, ra) {
        lemma_in_use_comes_back(a, b, port, ra);
    }
    assert forall|k: u32| 1 <= k < ra implies id_in_use(b, port, k) by {
        lemma_in_use_carries_over(a, b, port, k);
    }
    lemma_least_free_id_unique(b, port, ra, rb);
}

/// The paths, in order, of the sibling sockets among the files `names` of
/// the socket folder `folder`.
pub open spec fn peer_paths(folder: Seq<char>, names: Seq<String>, port: u16, my_id: u32) -> Seq<Seq<char>>
    decreases names.len(),
{
    if names.len() == 0 {
        Seq::empty()
    } else {
        let rest = peer_paths(folder, names.drop_last(), port, my_id);
        if is_peer_socket_name(names.last()@, port, my_id) {
            rest.push(in_folder(folder, names.last()@))
        } else {
            rest
        }
    }
}

/// The paths `<folder>/<name>` of the sibling sockets among the files `names`
/// found in the socket folder `folder`, in the order of `names`.
pub fn sibling_socket_paths(folder: &str, names: &Vec<String>, port: u16, my_id: u32) -> (r: Vec<String>)
    ensures
        string_views(r@) == peer_paths(folder@, names@, port, my_id),
        string_views(r@) == names@.filter(sibling_file(port, my_id)).map_values(path_in(folder@)),
        string_views(names@).no_duplicates() ==> string_views(r@).no_duplicates(),
{
    proof {
        lemma_peer_paths_filter_map(folder@, names@, port, my_id);
        if string_views(names@).no_duplicates() {
            lemma_peer_paths_no_duplicates(folder@, names@, port, my_id);
        }
    }
    let mut peers: Vec<String> = Vec::new();
    let mut i: usize = 0;
    while i < names.len()
        invariant
            i <= names.len(),
            string_views(peers@) == peer_paths(folder@, names@.take(i as int), port, my_id),
        decreases names.len() - i,
    {
        let name = names[i].as_str();
        assert(names@.take(i + 1).drop_last() =~= names@.take(i as int));
        assert(names@.take(i + 1).last() == names@[i as int]);
        if is_peer_socket(name, port, my_id) {
            let path = peer_socket_path(folder, name);
            let ghost before = peers@;
            peers.push(path);
            assert(string_views(peers@) =~= string_views(before).push(path@));
        }
        i = i + 1;
    }
    assert(names@.take(names.len() as int) =~= names@);
    peers
}

/// A path is among the sibling paths exactly when some file is a sibling
/// socket and the path names it in the folder.
pub proof fn lemma_peer_paths_members(folder: Seq<char>, names: Seq<String>, port: u16, my_id: u32, path: Seq<char>)
    ensures
        peer_paths(folder, names, port, my_id).contains(path) <==> exists|i: int|
            0 <= i < names.len() && is_peer_socket_name(#[trigger] names[i]@, port, my_id)
                && path == in_folder(folder, names[i]@),
    decreases names.len(),
{
    if names.len() > 0 {
        let init = names.drop_last();
        lemma_peer_paths_members(folder, init, port, my_id, path);
        let rest = peer_paths(folder, init, port, my_id);
        let whole = peer_paths(folder, names, port, my_id);
        if whole.contains(path) {
            if is_peer_socket_name(names.last()@, port, my_id) && path == in_folder(folder, names.last()@) {
                assert(names[names.len() - 1] == names.last());
            } else {
                if is_peer_socket_name(names.last()@, port, my_id) {
                    let j = choose|j: int| 0 <= j < whole.len() && whole[j] == path;
                    assert(j < rest.len());
                    assert(rest[j] == path);
                }
                let i = choose|i: int| 0 <= i < init.len() && is_peer_socket_name(#[trigger] init[i]@, port, my_id)
                    && path == in_folder(folder, init[i]@);
                assert(names[i] == init[i]);
            }
        }
        if exists|i: int| 0 <= i < names.len() && is_peer_socket_name(#[trigger] names[i]@, port, my_id)
            && path == in_folder(folder, names[i]@) {
            let i = choose|i: int| 0 <= i < names.len() && is_peer_socket_name(#[trigger] names[i]@, port, my_id)
                && path == in_folder(folder, names[i]@);
            if i == names.len() - 1 {
                assert(whole.last() == path);
                assert(whole.contains(path));
            } else {
                assert(init[i] == names[i]);
                let j = choose|j: int| 0 <= j < rest.len() && rest[j] == path;
                if is_peer_socket_name(names.last()@, port, my_id) {
                    assert(whole[j] == path);
                }
                assert(whole.contains(path));
            }
        }
    }
}

/// A server never offers its connections to its own socket.
pub proof fn lemma_own_socket_never_a_peer(folder: Seq<char>, names: Seq<String>, port: u16, my_id: u32)
    ensures
        !peer_paths(folder, names, port, my_id).contains(socket_path(folder, port, my_id)),
{
    lemma_peer_paths_members(folder, names, port, my_id, socket_path(folder, port, my_id));
    let pre = folder + "/"@;
    assert forall|i: int| 0 <= i < names.len() && is_peer_socket_name(#[trigger] names[i]@, port, my_id)
        implies socket_path(folder, port, my_id) != in_folder(folder, names[i]@) by {
        let a = socket_path(folder, port, my_id);
        let b = in_folder(folder, names[i]@);
        if a == b {
            assert(a.skip(pre.len() as int) =~= socket_name(port, my_id));
            assert(b.skip(pre.len() as int) =~= names[i]@);
        }
    }
}

/// Every other server on the same port whose socket lies in the folder is
/// found, under the very path on which it listens.
pub proof fn lemma_sibling_sockets_found(folder: Seq<char>, names: Seq<String>, port: u16, my_id: u32, i: int, other: u32)
    requires
        0 <= i < names.len(),
        names[i]@ == socket_name(port, other),
        other != my_id,
    ensures
        peer_paths(folder, names, port, my_id).contains(socket_path(folder, port, other)),
{
    crate::naming::lemma_other_socket_is_peer(port, my_id, other);
    lemma_peer_paths_members(folder, names, port, my_id, socket_path(folder, port, other));
}

/// Whether a file is the socket of a sibling of server `my_id` on `port`.
pub open spec fn sibling_file(port: u16, my_id: u32) -> spec_fn(String) -> bool {
    |n: String| is_peer_socket_name(n@, port, my_id)
}

/// The path of a file in `folder`.
pub open spec fn path_in(folder: Seq<char>) -> spec_fn(String) -> Seq<char> {
    |n: String| in_folder(folder, n@)
}

/// The sibling paths are the sibling files, kept in their order, one path per
/// file, each placed in the folder.
pub proof fn lemma_peer_paths_filter_map(folder: Seq<char>, names: Seq<String>, port: u16, my_id: u32)
    ensures
        peer_paths(folder, names, port, my_id) == names.filter(sibling_file(port, my_id)).map_values(path_in(folder)),
    decreases names.len(),
{
    reveal(Seq::filter);
    let pred = sibling_file(port, my_id);
    let f = path_in(folder);
    if names.len() == 0 {
        assert(names.filter(pred) =~= Seq::<String>::empty());
        assert(names.filter(pred).map_values(f) =~= Seq::<Seq<char>>::empty());
    } else {
        let init = names.drop_last();
        lemma_peer_paths_filter_map(folder, init, port, my_id);
        if pred(names.last()) {
            assert(names.filter(pred) == init.filter(pred).push(names.last()));
            assert(names.filter(pred).map_values(f) =~= init.filter(pred).map_values(f).push(f(names.last())));
        } else {
            assert(names.filter(pred) == init.filter(pred));
        }
    }
}

/// Distinct file names give distinct sibling paths: no sibling is listed twice.
pub proof fn lemma_peer_paths_no_duplicates(folder: Seq<char>, names: Seq<String>, port: u16, my_id: u32)
    requires
        string_views(names).no_duplicates(),
    ensures
        peer_paths(folder, names, port, my_id).no_duplicates(),
    decreases names.len(),
{
    if names.len() > 0 {
        let init = names.drop_last();
        assert(string_views(init) =~= string_views(names).drop_last());
        assert(string_views(init).no_duplicates()) by {
            let v = string_views(init);
            assert forall|i: int, j: int| 0 <= i < v.len() && 0 <= j < v.len() && i != j implies v[i] != v[j] by {
                assert(v[i] == string_views(names)[i]);
                assert(v[j] == string_views(names)[j]);
            }
        }
        lemma_peer_paths_no_duplicates(folder, init, port, my_id);
        let rest = peer_paths(folder, init, port, my_id);
        let last = names.last();
        if is_peer_socket_name(last@, port, my_id) {
            let p = in_folder(folder, last@);
            lemma_peer_paths_members(folder, init, port, my_id, p);
            if rest.contains(p) {
                let i = choose|i: int| 0 <= i < init.len() && is_peer_socket_name(#[trigger] init[i]@, port, my_id)
                    && p == in_folder(folder, init[i]@);
                let pre = folder + "/"@;
                assert(p.skip(pre.len() as int) =~= last@);
                assert(in_folder(folder, init[i]@).skip(pre.len() as int) =~= init[i]@);
                assert(string_views(names)[i] == init[i]@);
                assert(string_views(names)[names.len() - 1] == last@);
                assert(false);
            }
            let whole = rest.push(p);
            assert forall|a: int, b: int| 0 <= a < whole.len() && 0 <= b < whole.len() && a != b
                implies whole[a] != whole[b] by {
                if a == rest.len() {
                    assert(whole[b] == rest[b]);
                } else if b == rest.len() {
                    assert(whole[a] == rest[a]);
                } else {
                    assert(whole[a] == rest[a] && whole[b] == rest[b]);
                }
            }
        }
    }
}

} // verus!
