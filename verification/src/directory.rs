//! The cluster directory as the routing engine sees it: who serves which
//! region, under which names that is kept, and the address book of the
//! servers.

use crate::graph::{Graph, NodeIdx, RegionIdx};
use crate::text::{decimal, numbered, parse_u64, parsed};
use vstd::prelude::*;

verus! {

pub type ServerIdx = u32;

/// A group server: its id, its address and the regions that it owns.
#[derive(Debug, Clone)]
pub struct ServerInfo {
    pub id: ServerIdx,
    pub addr: String,
    pub regions: Vec<RegionIdx>,
}

/// The model of a server's entry.
pub ghost struct ServerInfoView {
    pub id: ServerIdx,
    pub addr: Seq<char>,
    pub regions: Seq<RegionIdx>,
}

impl View for ServerInfo {
    type V = ServerInfoView;

    open spec fn view(&self) -> ServerInfoView {
        ServerInfoView { id: self.id, addr: self.addr@, regions: self.regions@ }
    }
}

impl ServerInfo {
    pub fn new(id: ServerIdx, addr: String, regions: Vec<RegionIdx>) -> (info: Self)
        ensures
            info@ == (ServerInfoView { id, addr: addr@, regions: regions@ }),
    {
        Self { id, addr, regions }
    }
}

/// The hash that holds every server's entry.
pub fn server_info_key() -> (key: &'static str)
    ensures
        key@ == "server_info"@,
{
    "server_info"
}

/// The channel on which changes of a server's entry are announced.
pub fn server_updates_channel() -> (channel: &'static str)
    ensures
        channel@ == "server_updates"@,
{
    "server_updates"
}

/// The key under which the owner of `region` is kept.
pub fn region_server_key(region: RegionIdx) -> (key: String)
    ensures
        key@ == "region_server_"@ + decimal(region as nat),
{
    numbered("region_server_", region as u64)
}

/// The key under which the region of `node` is kept.
pub fn node_region_key(node: NodeIdx) -> (key: String)
    ensures
        key@ == "node_region_"@ + decimal(node as nat),
{
    numbered("node_region_", node)
}

/// The channel on which the server `server` takes requests.
pub fn node_channel(server: ServerIdx) -> (channel: String)
    ensures
        channel@ == "node_"@ + decimal(server as nat),
{
    numbered("node_", server as u64)
}

/// The channel on which the answer to the request `request_id` is given.
pub fn results_channel(request_id: u64) -> (channel: String)
    ensures
        channel@ == "results_"@ + decimal(request_id as nat),
{
    numbered("results_", request_id)
}

/// What a server files in the directory for a region that it has loaded:
/// for each node that lies in the region, the key to delete and the key to
/// set to the region where it is absent.
#[derive(Debug)]
pub struct RegionClaim {
    /// The keys to delete.
    pub keys: Vec<String>,
    /// The keys to set where absent, each with its value.
    pub values: Vec<(String, RegionIdx)>,
}

/// The key under which the region of `node` is kept, as a model.
pub open spec fn node_region_key_of(node: NodeIdx) -> Seq<char> {
    "node_region_"@ + decimal(node as nat)
}

/// The claim for the nodes `nodes`, which lie in `region`.
pub fn claim_nodes(nodes: &Vec<NodeIdx>, region: RegionIdx) -> (claim: RegionClaim)
    ensures
        claim.keys@.len() == nodes@.len(),
        claim.values@.len() == nodes@.len(),
        forall|i: int|
            0 <= i < nodes@.len() ==> {
                &&& (#[trigger] claim.keys@[i])@ == node_region_key_of(nodes@[i])
                &&& claim.values@[i].0@ == node_region_key_of(nodes@[i])
                &&& claim.values@[i].1 == region
            },
{
    let mut keys: Vec<String> = Vec::new();
    let mut values: Vec<(String, RegionIdx)> = Vec::new();
    let mut i: usize = 0;
    while i < nodes.len()
        invariant
            i <= nodes@.len(),
            keys@.len() == i,
            values@.len() == i,
            forall|j: int|
                0 <= j < i ==> {
                    &&& (#[trigger] keys@[j])@ == node_region_key_of(nodes@[j])
                    &&& values@[j].0@ == node_region_key_of(nodes@[j])
                    &&& values@[j].1 == region
                },
        decreases nodes@.len() - i,
    {
        keys.push(node_region_key(nodes[i]));
        values.push((node_region_key(nodes[i]), region));
        i += 1;
    }
    RegionClaim { keys, values }
}

/// The claim that a server files for `region` after it has loaded `graph`:
/// one key for each node of the graph that lies in the region, in no
/// particular order.
pub fn claim_region(graph: &Graph, region: RegionIdx) -> (r: (Vec<NodeIdx>, RegionClaim))
    ensures
        r.0@.no_duplicates(),
        forall|n: NodeIdx|
            r.0@.contains(n) <==> graph@.nodes.contains_key(n) && graph@.nodes[n].region == region,
        r.1.keys@.len() == r.0@.len(),
        r.1.values@.len() == r.0@.len(),
        forall|i: int|
            0 <= i < r.0@.len() ==> {
                &&& (#[trigger] r.1.keys@[i])@ == node_region_key_of(r.0@[i])
                &&& r.1.values@[i].0@ == node_region_key_of(r.0@[i])
                &&& r.1.values@[i].1 == region
            },
{
    let nodes = graph.nodes_of(region);
    let claim = claim_nodes(&nodes, region);
    (nodes, claim)
}

/// Why the reply that lists every server's entry cannot be read.
#[derive(Debug, Clone, Copy, PartialEq, Eq, Structural)]
pub enum BulkError {
    /// The reply holds an odd number of fields, this many.
    OddFieldCount(usize),
    /// The field at this place should be a server's id and is not.
    BadServerId(usize),
}

/// The server id that a field spells.
pub open spec fn server_id_of(field: Seq<char>) -> Option<nat> {
    parsed(field, u32::MAX as nat)
}

/// Reads a server's id.
pub fn parse_server_id(field: &str) -> (id: Option<ServerIdx>)
    ensures
        match id {
            Some(v) => server_id_of(field@) == Some(v as nat),
            None => server_id_of(field@) is None,
        },
{
    match parse_u64(field) {
        Some(v) => if v <= u32::MAX as u64 {
            Some(v as u32)
        } else {
            None
        },
        None => None,
    }
}

/// Splits the fields of the reply that lists every server's entry, which
/// come as id, entry, id, entry and so on: for each pair the id and the
/// place of the entry among the fields.
///
/// An odd number of fields is refused before any field is read; after that
/// the first field that should be an id and is not ends the reading.
pub fn pair_fields(fields: &Vec<String>) -> (r: Result<Vec<(ServerIdx, usize)>, BulkError>)
    ensures
        match r {
            Ok(pairs) => {
                &&& fields@.len() % 2 == 0
                &&& pairs@.len() * 2 == fields@.len()
                &&& forall|i: int|
                    0 <= i < pairs@.len() ==> {
                        &&& server_id_of(fields@[2 * i]@) == Some((#[trigger] pairs@[i]).0 as nat)
                        &&& pairs@[i].1 == 2 * i + 1
                    }
            },
            Err(BulkError::OddFieldCount(count)) => count == fields@.len() && count % 2 == 1,
            Err(BulkError::BadServerId(place)) => {
                &&& fields@.len() % 2 == 0
                &&& place < fields@.len()
                &&& place % 2 == 0
                &&& server_id_of(fields@[place as int]@) is None
                &&& forall|i: int|
                    0 <= i < place / 2 ==> server_id_of((#[trigger] fields@[2 * i])@) is Some
            },
        },
{
    if fields.len() % 2 == 1 {
        return Err(BulkError::OddFieldCount(fields.len()));
    }
    let mut pairs: Vec<(ServerIdx, usize)> = Vec::new();
    let mut place: usize = 0;
    while place < fields.len()
        invariant
            fields@.len() % 2 == 0,
            place <= fields@.len(),
            place % 2 == 0,
            pairs@.len() * 2 == place,
            forall|i: int|
                0 <= i < pairs@.len() ==> {
                    &&& server_id_of(fields@[2 * i]@) == Some((#[trigger] pairs@[i]).0 as nat)
                    &&& pairs@[i].1 == 2 * i + 1
                },
            forall|i: int| 0 <= i < place / 2 ==> server_id_of((#[trigger] fields@[2 * i])@) is Some,
        decreases fields@.len() - place,
    {
        match parse_server_id(fields[place].as_str()) {
            Some(id) => {
                pairs.push((id, place + 1));
            },
            None => {
                return Err(BulkError::BadServerId(place));
            },
        }
        place += 2;
    }
    Ok(pairs)
}

} // verus!
