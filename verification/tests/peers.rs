use dpc_node::lists::{contains, copy_of, extend, has_duplicates, meets_either, within_either, without};
use dpc_node::peers::{ConnectOutcome, PeerContext};

#[test]
fn peers_connect_until_the_node_is_full() {
    let mut context = PeerContext::new(1, 5, 2, 3, false, vec![100, 101]);
    assert_eq!(context.local(), 1);
    assert_eq!(context.mempool_interval(), 5);
    assert!(!context.is_bootnode());
    assert_eq!(context.bootnodes(), &vec![100, 101]);
    assert_eq!(context.connected_count(), 0);
    assert!(context.needs_peers());
    assert!(context.has_room());
    assert_eq!(context.connect(10), ConnectOutcome::Connected);
    assert!(context.needs_peers());
    assert_eq!(context.connect(11), ConnectOutcome::Connected);
    assert!(!context.needs_peers());
    assert!(context.has_room());
    assert_eq!(context.connect(10), ConnectOutcome::AlreadyConnected);
    assert_eq!(context.connect(12), ConnectOutcome::Connected);
    assert!(!context.has_room());
    assert_eq!(context.connect(13), ConnectOutcome::Full);
    assert_eq!(context.connect(12), ConnectOutcome::AlreadyConnected);
    assert_eq!(context.connected_peers(), vec![10, 11, 12]);
    assert!(context.is_connected(11));
    assert!(!context.is_connected(13));
}

#[test]
fn a_disconnected_peer_makes_room() {
    let mut context = PeerContext::new(1, 5, 1, 2, true, vec![]);
    assert!(context.is_bootnode());
    assert_eq!(context.connect(10), ConnectOutcome::Connected);
    assert_eq!(context.connect(11), ConnectOutcome::Connected);
    assert!(!context.disconnect(12));
    assert_eq!(context.connected_count(), 2);
    assert!(context.disconnect(10));
    assert!(!context.disconnect(10));
    assert_eq!(context.connected_peers(), vec![11]);
    assert_eq!(context.connect(12), ConnectOutcome::Connected);
    assert_eq!(context.connected_peers(), vec![11, 12]);
    assert!(context.disconnect(11));
    assert!(context.disconnect(12));
    assert!(context.needs_peers());
}

#[test]
fn a_node_that_takes_no_peers_is_always_full() {
    let mut context = PeerContext::new(1, 5, 0, 0, false, vec![]);
    assert_eq!(context.connect(10), ConnectOutcome::Full);
    assert!(!context.needs_peers());
    assert!(!context.has_room());
}

#[test]
fn what_came_from_a_peer_goes_to_all_the_others() {
    let mut context = PeerContext::new(1, 5, 1, 8, false, vec![]);
    for peer in [10u64, 11, 12, 13] {
        assert_eq!(context.connect(peer), ConnectOutcome::Connected);
    }
    assert_eq!(context.broadcast_targets(12), vec![10, 11, 13]);
    assert_eq!(context.broadcast_targets(10), vec![11, 12, 13]);
    assert_eq!(context.broadcast_targets(99), vec![10, 11, 12, 13]);
    assert_eq!(context.connected_count(), 4);
}

#[test]
fn list_helpers_search_and_copy() {
    let list = vec![3u64, 1, 4, 1, 5];
    assert!(contains(&list, 4));
    assert!(!contains(&list, 2));
    assert!(has_duplicates(&list));
    assert!(!has_duplicates(&vec![3, 1, 4]));
    assert!(!has_duplicates(&vec![]));
    assert!(meets_either(&vec![9, 5], &vec![1], &list));
    assert!(meets_either(&vec![9, 5], &list, &vec![]));
    assert!(!meets_either(&vec![9, 8], &list, &vec![7]));
    assert!(!meets_either(&vec![], &list, &list));
    assert!(within_either(&vec![3, 7], &list, &vec![7]));
    assert!(!within_either(&vec![3, 8], &list, &vec![7]));
    assert!(within_either(&vec![], &vec![], &vec![]));
    assert_eq!(copy_of(&list), list);
    assert_eq!(without(&list, 1), vec![3, 4, 5]);
    assert_eq!(without(&list, 9), list);
    let mut grown = vec![1u64, 2];
    extend(&mut grown, &vec![3, 4]);
    assert_eq!(grown, vec![1, 2, 3, 4]);
}
