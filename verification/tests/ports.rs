use std::collections::{BTreeMap, BTreeSet};

use herdr_dev::ports::{fold, listening, parse_groups, parse_lsof};

const RECORDED: &str =
    "p662\nf10\nn*:58306\nf11\nn*:58306\np708\nf10\nn127.0.0.1:7000\nf12\nn[::1]:5000\n";

#[test]
fn a_socket_belongs_to_the_pid_last_named_above_it() {
    let found = parse_lsof(RECORDED);
    assert_eq!(found[&662], BTreeSet::from([58306]));
    assert_eq!(found[&708], BTreeSet::from([7000, 5000]));
}

#[test]
fn the_same_port_on_two_addresses_is_one_port() {
    assert_eq!(parse_lsof("p1\nn*:3000\nn[::1]:3000\n")[&1].len(), 1);
}

#[test]
fn a_line_that_is_neither_a_pid_nor_an_address_is_passed_over() {
    assert!(parse_lsof("f10\nn*:3000\ncsomething\n").is_empty());
    assert!(parse_lsof("").is_empty());
}

#[test]
fn ports_land_under_the_group_leader_rather_than_the_pid_that_forked_last() {
    let listeners = BTreeMap::from([(920, BTreeSet::from([3000]))]);
    let groups = BTreeMap::from([(900, 900), (920, 900)]);
    assert_eq!(
        fold(&listeners, &groups),
        BTreeMap::from([(900, BTreeSet::from([3000]))])
    );
}

#[test]
fn a_listener_the_process_table_has_lost_is_dropped_rather_than_grouped_by_guess() {
    let listeners = BTreeMap::from([(920, BTreeSet::from([3000]))]);
    assert!(fold(&listeners, &BTreeMap::new()).is_empty());
}

#[test]
fn the_process_table_is_read_as_two_columns() {
    assert_eq!(
        parse_groups("  920   900\n 1 1\nnonsense\n"),
        BTreeMap::from([(920, 900), (1, 1)])
    );
}

#[test]
fn two_pids_of_one_group_pool_their_ports() {
    let table = "662 662\n708 662\n";
    assert_eq!(
        listening(RECORDED, table),
        BTreeMap::from([(662, BTreeSet::from([58306, 7000, 5000]))])
    );
}
