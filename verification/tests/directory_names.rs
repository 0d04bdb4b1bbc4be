use pathfinder::directory::{
    claim_nodes, claim_region, node_channel, node_region_key, pair_fields, parse_server_id,
    region_server_key, results_channel, server_info_key, server_updates_channel, BulkError,
    ServerInfo,
};
use pathfinder::graph::Graph;
use pathfinder::graph_provider::{
    group_object, nodes_object, vertices_object, RawNode, RawVertex,
};
use pathfinder::network::AddressBook;

fn info(id: u32, addr: &str) -> ServerInfo {
    ServerInfo::new(id, addr.to_string(), vec![id, id + 1])
}

#[test]
fn server_info_holds_what_it_is_given() {
    let server = ServerInfo::new(3, "tcp://10.0.0.3:5555".to_string(), vec![1, 4]);
    assert_eq!(server.id, 3);
    assert_eq!(server.addr, "tcp://10.0.0.3:5555");
    assert_eq!(server.regions, vec![1, 4]);
}

#[test]
fn directory_names() {
    assert_eq!(server_info_key(), "server_info");
    assert_eq!(server_updates_channel(), "server_updates");
    assert_eq!(region_server_key(0), "region_server_0");
    assert_eq!(region_server_key(4294967295), "region_server_4294967295");
    assert_eq!(node_region_key(12345678901234567890), "node_region_12345678901234567890");
    assert_eq!(node_channel(17), "node_17");
    assert_eq!(results_channel(120), "results_120");
}

#[test]
fn claim_for_the_nodes_of_a_region() {
    let claim = claim_nodes(&vec![5, 70], 2);
    assert_eq!(claim.keys, vec!["node_region_5".to_string(), "node_region_70".to_string()]);
    assert_eq!(
        claim.values,
        vec![("node_region_5".to_string(), 2), ("node_region_70".to_string(), 2)]
    );
}

#[test]
fn claim_names_only_the_regions_own_nodes() {
    let nodes = vec![
        RawNode { id: 1, cord_x: 0, cord_y: 0, region: 2 },
        RawNode { id: 2, cord_x: 0, cord_y: 0, region: 2 },
        RawNode { id: 9, cord_x: 0, cord_y: 0, region: 3 },
    ];
    let edges: Vec<RawVertex> = vec![];
    let graph = Graph::from_rows(&nodes, &edges, 2).unwrap();
    let (mut ids, claim) = claim_region(&graph, 2);
    assert_eq!(claim.keys.len(), 2);
    assert_eq!(claim.values.len(), 2);
    for (i, id) in ids.iter().enumerate() {
        assert_eq!(claim.keys[i], format!("node_region_{}", id));
        assert_eq!(claim.values[i], (format!("node_region_{}", id), 2));
    }
    ids.sort();
    assert_eq!(ids, vec![1, 2]);
    let mut other = graph.nodes_of(3);
    other.sort();
    assert_eq!(other, vec![9]);
    assert!(graph.nodes_of(4).is_empty());
}

#[test]
fn fields_come_in_pairs() {
    let fields: Vec<String> =
        ["3", "{a}", "+12", "{b}"].iter().map(|f| f.to_string()).collect();
    assert_eq!(pair_fields(&fields), Ok(vec![(3, 1), (12, 3)]));
    assert_eq!(pair_fields(&vec![]), Ok(vec![]));
    assert_eq!(pair_fields(&fields[..3].to_vec()), Err(BulkError::OddFieldCount(3)));
    let bad: Vec<String> = ["3", "{a}", "x", "{b}"].iter().map(|f| f.to_string()).collect();
    assert_eq!(pair_fields(&bad), Err(BulkError::BadServerId(2)));
    let large: Vec<String> = ["4294967296", "{a}"].iter().map(|f| f.to_string()).collect();
    assert_eq!(pair_fields(&large), Err(BulkError::BadServerId(0)));
    assert_eq!(parse_server_id("4294967295"), Some(4294967295));
    assert_eq!(parse_server_id("4294967296"), None);
}

#[test]
fn address_book_keeps_the_latest_entry() {
    let mut book =
        AddressBook::from_entries(vec![(1, info(1, "a")), (2, info(2, "b")), (1, info(1, "c"))]);
    assert_eq!(book.address(1), Some("c".to_string()));
    assert_eq!(book.address(2), Some("b".to_string()));
    assert_eq!(book.address(3), None);
    assert!(book.knows(2));
    assert!(!book.knows(3));
    book.apply_update(info(3, "d"));
    book.apply_update(info(2, "e"));
    assert_eq!(book.address(3), Some("d".to_string()));
    assert_eq!(book.address(2), Some("e".to_string()));
    assert_eq!(book.server_ids(), vec![1, 2, 3]);
    book.apply_update(info(0, "z"));
    assert_eq!(book.server_ids(), vec![0, 1, 2, 3]);
    assert!(AddressBook::new().server_ids().is_empty());
}

#[test]
fn object_names() {
    assert_eq!(group_object(2), "group_2.json");
    assert_eq!(nodes_object(17), "nodes_17.csv");
    assert_eq!(vertices_object(0), "vertices_0.csv");
}
