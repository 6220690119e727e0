//! The graph's data: nodes, the links between them, and the requests that
//! change a node.
use vstd::prelude::*;

verus! {

/// A position on the canvas, in thousandths of a pixel.
#[derive(Clone, Copy, Debug, PartialEq, Eq, Structural)]
pub struct Point {
    pub x: i64,
    pub y: i64,
}

/// One machine of the network.
#[derive(Clone, Debug)]
pub struct Node {
    pub id: String,
    pub name: String,
    /// Centre of the node's circle, in thousandths of a pixel.
    pub center: Point,
    /// Radius of the node's circle, in thousandths of a pixel.
    pub radius: i64,
    pub is_online: bool,
    pub ip_addr: String,
    pub cpu: String,
    pub ram: String,
    pub rom: String,
    pub os: String,
    pub network_bw: String,
    pub software: String,
}

/// A node as a mathematical value.
#[verifier::ext_equal]
pub struct NodeView {
    pub id: Seq<char>,
    pub name: Seq<char>,
    pub x: int,
    pub y: int,
    pub radius: int,
    pub is_online: bool,
    pub ip_addr: Seq<char>,
    pub cpu: Seq<char>,
    pub ram: Seq<char>,
    pub rom: Seq<char>,
    pub os: Seq<char>,
    pub network_bw: Seq<char>,
    pub software: Seq<char>,
}

impl View for Node {
    type V = NodeView;

    open spec fn view(&self) -> NodeView {
        NodeView {
            id: self.id@,
            name: self.name@,
            x: self.center.x as int,
            y: self.center.y as int,
            radius: self.radius as int,
            is_online: self.is_online,
            ip_addr: self.ip_addr@,
            cpu: self.cpu@,
            ram: self.ram@,
            rom: self.rom@,
            os: self.os@,
            network_bw: self.network_bw@,
            software: self.software@,
        }
    }
}

/// An undirected link between the nodes with the two ids.
#[derive(Clone, Debug)]
pub struct Link {
    pub node1_id: String,
    pub node2_id: String,
}

/// A link as a mathematical value.
#[verifier::ext_equal]
pub struct LinkView {
    pub node1_id: Seq<char>,
    pub node2_id: Seq<char>,
}

impl View for Link {
    type V = LinkView;

    open spec fn view(&self) -> LinkView {
        LinkView { node1_id: self.node1_id@, node2_id: self.node2_id@ }
    }
}

/// The views of a sequence of nodes.
pub open spec fn node_views(nodes: Seq<Node>) -> Seq<NodeView> {
    nodes.map_values(|n: Node| n@)
}

/// The views of a sequence of links.
pub open spec fn link_views(links: Seq<Link>) -> Seq<LinkView> {
    links.map_values(|l: Link| l@)
}

/// A node that has only just been created: no id, no name, at the origin,
/// with no radius, and online.
pub open spec fn blank_node_view() -> NodeView {
    NodeView {
        id: Seq::empty(),
        name: Seq::empty(),
        x: 0,
        y: 0,
        radius: 0,
        is_online: true,
        ip_addr: Seq::empty(),
        cpu: Seq::empty(),
        ram: Seq::empty(),
        rom: Seq::empty(),
        os: Seq::empty(),
        network_bw: Seq::empty(),
        software: Seq::empty(),
    }
}

/// Index of the first node with the id.
pub open spec fn first_index_of(nodes: Seq<NodeView>, id: Seq<char>) -> Option<int> {
    if exists|i: int| 0 <= i < nodes.len() && nodes[i].id == id {
        Some(
            choose|i: int|
                0 <= i < nodes.len() && nodes[i].id == id && forall|j: int|
                    0 <= j < i ==> nodes[j].id != id,
        )
    } else {
        None
    }
}

/// Whether some node has the id.
pub open spec fn has_id(nodes: Seq<NodeView>, id: Seq<char>) -> bool {
    exists|i: int| 0 <= i < nodes.len() && nodes[i].id == id
}

/// Whether some node has the name.
pub open spec fn has_name(nodes: Seq<NodeView>, name: Seq<char>) -> bool {
    exists|i: int| 0 <= i < nodes.len() && nodes[i].name == name
}

/// No two nodes share an id.
pub open spec fn ids_unique(nodes: Seq<NodeView>) -> bool {
    forall|i: int, j: int| 0 <= i < j < nodes.len() ==> nodes[i].id != nodes[j].id
}

/// Index of the first node with the id.
pub fn find_first(nodes: &Vec<Node>, id: &String) -> (r: Option<usize>)
    ensures
        match first_index_of(node_views(nodes@), id@) {
            Some(i) => r == Some(i as usize) && 0 <= i < nodes.len(),
            None => r is None,
        },
        r is None <==> !has_id(node_views(nodes@), id@),
{
    let ghost views = node_views(nodes@);
    let mut i: usize = 0;
    while i < nodes.len()
        invariant
            i <= nodes.len(),
            views == node_views(nodes@),
            forall|j: int| 0 <= j < i ==> views[j].id != id@,
        decreases nodes.len() - i,
    {
        if nodes[i].id == *id {
            proof {
                assert(views[i as int].id == id@);
                let k = choose|k: int|
                    0 <= k < views.len() && views[k].id == id@ && forall|j: int|
                        0 <= j < k ==> views[j].id != id@;
                if k < i {
                    assert(views[k].id != id@);
                } else if k > i {
                    assert(views[i as int].id != id@);
                }
            }
            return Some(i);
        }
        assert(views[i as int].id != id@);
        i = i + 1;
    }
    None
}

impl Node {
    /// A blank node.
    pub fn new() -> (node: Node)
        ensures
            node@ == blank_node_view(),
    {
        Node {
            id: String::new(),
            name: String::new(),
            center: Point { x: 0, y: 0 },
            radius: 0,
            is_online: true,
            ip_addr: String::new(),
            cpu: String::new(),
            ram: String::new(),
            rom: String::new(),
            os: String::new(),
            network_bw: String::new(),
            software: String::new(),
        }
    }

    /// A field-by-field copy of the node.
    pub fn duplicate(&self) -> (copy: Node)
        ensures
            copy@ == self@,
    {
        Node {
            id: self.id.clone(),
            name: self.name.clone(),
            center: self.center,
            radius: self.radius,
            is_online: self.is_online,
            ip_addr: self.ip_addr.clone(),
            cpu: self.cpu.clone(),
            ram: self.ram.clone(),
            rom: self.rom.clone(),
            os: self.os.clone(),
            network_bw: self.network_bw.clone(),
            software: self.software.clone(),
        }
    }

    /// Moves the node's centre to `pos`.
    pub fn set_pos(&mut self, pos: Point) -> (r: &mut Self)
        ensures
            *r == (Node { center: pos, ..*old(self) }),
            *final(self) == *final(r),
    {
        self.center = pos;
        self
    }

    /// Sets the node's radius.
    pub fn set_radius(&mut self, radius: i64) -> (r: &mut Self)
        ensures
            *r == (Node { radius: radius, ..*old(self) }),
            *final(self) == *final(r),
    {
        self.radius = radius;
        self
    }
}

impl Link {
    /// A field-by-field copy of the link.
    pub fn duplicate(&self) -> (copy: Link)
        ensures
            copy@ == self@,
    {
        Link { node1_id: self.node1_id.clone(), node2_id: self.node2_id.clone() }
    }
}

/// A request to change a node: its status, or any of its attributes.
#[derive(Debug)]
pub struct UpdateNodeRequest {
    pub node_id: String,
    pub name: Option<String>,
    pub status: Option<bool>,
    pub ip_addr: Option<String>,
    pub cpu: Option<String>,
    pub ram: Option<String>,
    pub rom: Option<String>,
    pub os: Option<String>,
    pub network_bw: Option<String>,
    pub software: Option<String>,
}

impl Default for UpdateNodeRequest {
    fn default() -> (r: UpdateNodeRequest)
        ensures
            r.node_id@ == Seq::<char>::empty(),
            r.name is None,
            r.status is None,
            r.ip_addr is None,
            r.cpu is None,
            r.ram is None,
            r.rom is None,
            r.os is None,
            r.network_bw is None,
            r.software is None,
    {
        UpdateNodeRequest {
            node_id: String::new(),
            name: None,
            status: None,
            ip_addr: None,
            cpu: None,
            ram: None,
            rom: None,
            os: None,
            network_bw: None,
            software: None,
        }
    }
}

/// The answer to a request of the web interface.
#[derive(Debug)]
pub struct ApiResponse {
    pub success: bool,
    pub message: String,
}

} // verus!
