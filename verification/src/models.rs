//! The network topology that the service exposes and the worker watches.
use vstd::prelude::*;

verus! {

/// Kind of a node of the topology.
#[derive(Debug, Clone, Copy, PartialEq, Eq, Structural)]
pub enum NodeType {
    Gateway,
    RemoteEndpoint,
    Subnet,
}

/// State of a VPN link.
#[derive(Debug, Clone, Copy, PartialEq, Eq, Structural)]
pub enum VpnStatus {
    Up,
    Down,
    Connecting,
}

#[derive(Debug, Clone)]
pub struct NetworkNode {
    pub id: String,
    pub name: String,
    pub node_type: NodeType,
    pub address: Option<String>,
}

/// A link between two nodes, by their ids.
#[derive(Debug, Clone)]
pub struct VpnEdge {
    pub from_node: String,
    pub to_node: String,
    pub status: VpnStatus,
}

#[derive(Debug, Clone)]
pub struct BifrostTopology {
    pub nodes: Vec<NetworkNode>,
    pub edges: Vec<VpnEdge>,
}

/// The view of an optional string.
pub open spec fn opt_view(o: Option<String>) -> Option<Seq<char>> {
    match o {
        Some(s) => Some(s@),
        None => None,
    }
}

/// The view of an optional character vector.
pub open spec fn opt_chars(o: Option<Vec<char>>) -> Option<Seq<char>> {
    match o {
        Some(s) => Some(s@),
        None => None,
    }
}

pub struct NodeModel {
    pub id: Seq<char>,
    pub name: Seq<char>,
    pub node_type: NodeType,
    pub address: Option<Seq<char>>,
}

pub struct EdgeModel {
    pub from_node: Seq<char>,
    pub to_node: Seq<char>,
    pub status: VpnStatus,
}

pub struct TopologyModel {
    pub nodes: Seq<NodeModel>,
    pub edges: Seq<EdgeModel>,
}

impl View for NetworkNode {
    type V = NodeModel;

    open spec fn view(&self) -> NodeModel {
        NodeModel {
            id: self.id@,
            name: self.name@,
            node_type: self.node_type,
            address: opt_view(self.address),
        }
    }
}

impl View for VpnEdge {
    type V = EdgeModel;

    open spec fn view(&self) -> EdgeModel {
        EdgeModel { from_node: self.from_node@, to_node: self.to_node@, status: self.status }
    }
}

impl View for BifrostTopology {
    type V = TopologyModel;

    open spec fn view(&self) -> TopologyModel {
        TopologyModel {
            nodes: self.nodes@.map_values(|n: NetworkNode| n@),
            edges: self.edges@.map_values(|e: VpnEdge| e@),
        }
    }
}

/// The characters held by a `Result` of strings.
pub open spec fn res_view(r: Result<String, String>) -> Result<Seq<char>, Seq<char>> {
    match r {
        Ok(s) => Ok(s@),
        Err(e) => Err(e@),
    }
}

/// A string holding the characters of `s`.
pub fn owned(s: &str) -> (r: String)
    ensures
        r@ == s@,
{
    s.to_owned()
}

} // verus!
