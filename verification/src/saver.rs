//! Writing a graph as a GraphML or a GEXF document.
use vstd::prelude::*;
use crate::coordinate::{coordinate_text, push_coordinate};
use crate::model::{link_views, node_views, Link, LinkView, Node, NodeView};

verus! {

/// The lines of a GraphML document before its nodes.
pub open spec fn graphml_header() -> Seq<char> {
    "<?xml version=\"1.0\" encoding=\"UTF-8\"?>\n<graphml xmlns=\"http://graphml.graphdrawing.org/xmlns\">\n<key id=\"name\" for=\"node\" attr.name=\"name\" attr.type=\"string\"/>\n<key id=\"pos_x\" for=\"node\" attr.name=\"pos_x\" attr.type=\"integer\"/>\n<key id=\"pos_y\" for=\"node\" attr.name=\"pos_y\" attr.type=\"integer\"/>\n<key id=\"ip_addr\" for=\"node\" attr.name=\"ip_addr\" attr.type=\"string\"/>\n<key id=\"cpu\" for=\"node\" attr.name=\"cpu\" attr.type=\"string\"/>\n<key id=\"ram\" for=\"node\" attr.name=\"ram\" attr.type=\"string\"/>\n<key id=\"rom\" for=\"node\" attr.name=\"rom\" attr.type=\"string\"/>\n<key id=\"os\" for=\"node\" attr.name=\"os\" attr.type=\"string\"/>\n<key id=\"network_bw\" for=\"node\" attr.name=\"network_bw\" attr.type=\"string\"/>\n<key id=\"software\" for=\"node\" attr.name=\"software\" attr.type=\"string\"/>\n<graph id=\"G\" edgedefault=\"undirected\">\n"@
}

/// The lines of one node in a GraphML document.
pub open spec fn graphml_node(n: NodeView) -> Seq<char> {
    "<node id=\""@ + n.id + "\">\n<data key=\"name\">"@ + n.name
        + "</data>\n<data key=\"pos_x\">"@ + coordinate_text(n.x)
        + "</data>\n<data key=\"pos_y\">"@ + coordinate_text(n.y)
        + "</data>\n<data key=\"ip_addr\">"@ + n.ip_addr + "</data>\n<data key=\"cpu\">"@
        + n.cpu + "</data>\n<data key=\"ram\">"@ + n.ram + "</data>\n<data key=\"rom\">"@ + n.rom
        + "</data>\n<data key=\"os\">"@ + n.os + "</data>\n<data key=\"network_bw\">"@
        + n.network_bw + "</data>\n<data key=\"software\">"@ + n.software + "</data>\n</node>\n"@
}

/// The line of one link in a GraphML document.
pub open spec fn graphml_edge(l: LinkView) -> Seq<char> {
    "<edge source=\""@ + l.node1_id + "\" target=\""@ + l.node2_id + "\"/>\n"@
}

/// The lines of a GraphML document after its links.
pub open spec fn graphml_footer() -> Seq<char> {
    "</graph>\n</graphml>\n"@
}

pub open spec fn graphml_nodes(nodes: Seq<NodeView>) -> Seq<char>
    decreases nodes.len(),
{
    if nodes.len() == 0 {
        Seq::empty()
    } else {
        graphml_nodes(nodes.drop_last()) + graphml_node(nodes.last())
    }
}

pub open spec fn graphml_edges(links: Seq<LinkView>) -> Seq<char>
    decreases links.len(),
{
    if links.len() == 0 {
        Seq::empty()
    } else {
        graphml_edges(links.drop_last()) + graphml_edge(links.last())
    }
}

/// The GraphML document of a graph: the header with its keys, each node
/// with its data in order, each link, and the footer.
pub open spec fn graphml_document(nodes: Seq<NodeView>, links: Seq<LinkView>) -> Seq<char> {
    graphml_header() + graphml_nodes(nodes) + graphml_edges(links) + graphml_footer()
}

/// The lines of a GEXF document before its nodes.
pub open spec fn gexf_header() -> Seq<char> {
    "<?xml version=\"1.0\" encoding=\"UTF-8\"?>\n<gexf xmlns=\"http://gexf.net/1.2\" version=\"1.2\">\n<graph mode=\"static\" defaultedgetype=\"undirected\">\n<attributes class=\"node\">\n<attribute id=\"pos_x\" title=\"pos_x\" type=\"integer\"/>\n<attribute id=\"pos_y\" title=\"pos_y\" type=\"integer\"/>\n<attribute id=\"ip_addr\" title=\"ip_addr\" type=\"string\"/>\n<attribute id=\"cpu\" title=\"cpu\" type=\"string\"/>\n<attribute id=\"ram\" title=\"ram\" type=\"string\"/>\n<attribute id=\"rom\" title=\"rom\" type=\"string\"/>\n<attribute id=\"os\" title=\"os\" type=\"string\"/>\n<attribute id=\"network_bw\" title=\"network_bw\" type=\"string\"/>\n<attribute id=\"software\" title=\"software\" type=\"string\"/>\n</attributes>\n<nodes>\n"@
}

/// The lines of one node in a GEXF document.
pub open spec fn gexf_node(n: NodeView) -> Seq<char> {
    gexf_node_position(n) + gexf_node_attributes(n)
}

/// The start of a node in a GEXF document, up to its position.
pub open spec fn gexf_node_position(n: NodeView) -> Seq<char> {
    "<node id=\""@ + n.id + "\" label=\""@ + n.name
        + "\">\n<attvalues>\n<attvalue for=\"pos_x\" value=\""@ + coordinate_text(n.x)
        + "\"/>\n<attvalue for=\"pos_y\" value=\""@ + coordinate_text(n.y)
}

/// The rest of a node in a GEXF document, after its position.
pub open spec fn gexf_node_attributes(n: NodeView) -> Seq<char> {
    "\"/>\n<attvalue for=\"ip_addr\" value=\""@ + n.ip_addr
        + "\"/>\n<attvalue for=\"cpu\" value=\""@ + n.cpu + "\"/>\n<attvalue for=\"ram\" value=\""@
        + n.ram + "\"/>\n<attvalue for=\"rom\" value=\""@ + n.rom
        + "\"/>\n<attvalue for=\"os\" value=\""@ + n.os
        + "\"/>\n<attvalue for=\"network_bw\" value=\""@ + n.network_bw
        + "\"/>\n<attvalue for=\"software\" value=\""@ + n.software
        + "\"/>\n</attvalues>\n</node>\n"@
}

/// The line of one link in a GEXF document; the edge's id is its first
/// node's id.
pub open spec fn gexf_edge(l: LinkView) -> Seq<char> {
    "<edge id=\""@ + l.node1_id + "\" source=\""@ + l.node1_id + "\" target=\""@ + l.node2_id
        + "\"/>\n"@
}

/// The lines between the nodes and the links of a GEXF document.
pub open spec fn gexf_middle() -> Seq<char> {
    "</nodes>\n<edges>\n"@
}

/// The lines of a GEXF document after its links.
pub open spec fn gexf_footer() -> Seq<char> {
    "</edges>\n</graph>\n</gexf>\n"@
}

pub open spec fn gexf_nodes(nodes: Seq<NodeView>) -> Seq<char>
    decreases nodes.len(),
{
    if nodes.len() == 0 {
        Seq::empty()
    } else {
        gexf_nodes(nodes.drop_last()) + gexf_node(nodes.last())
    }
}

pub open spec fn gexf_edges(links: Seq<LinkView>) -> Seq<char>
    decreases links.len(),
{
    if links.len() == 0 {
        Seq::empty()
    } else {
        gexf_edges(links.drop_last()) + gexf_edge(links.last())
    }
}

/// The GEXF document of a graph: the header with its attributes, each node
/// with its attribute values in order, each link, and the footer.
pub open spec fn gexf_document(nodes: Seq<NodeView>, links: Seq<LinkView>) -> Seq<char> {
    gexf_header() + gexf_nodes(nodes) + gexf_middle() + gexf_edges(links) + gexf_footer()
}

fn push_graphml_node(s: &mut String, n: &Node)
    ensures
        final(s)@ == old(s)@ + graphml_node(n@),
{
    let ghost start = s@;
    s.append("<node id=\"");
    s.append(n.id.as_str());
    s.append("\">\n<data key=\"name\">");
    s.append(n.name.as_str());
    s.append("</data>\n<data key=\"pos_x\">");
    push_coordinate(s, n.center.x);
    s.append("</data>\n<data key=\"pos_y\">");
    push_coordinate(s, n.center.y);
    s.append("</data>\n<data key=\"ip_addr\">");
    s.append(n.ip_addr.as_str());
    s.append("</data>\n<data key=\"cpu\">");
    s.append(n.cpu.as_str());
    s.append("</data>\n<data key=\"ram\">");
    s.append(n.ram.as_str());
    s.append("</data>\n<data key=\"rom\">");
    s.append(n.rom.as_str());
    s.append("</data>\n<data key=\"os\">");
    s.append(n.os.as_str());
    s.append("</data>\n<data key=\"network_bw\">");
    s.append(n.network_bw.as_str());
    s.append("</data>\n<data key=\"software\">");
    s.append(n.software.as_str());
    s.append("</data>\n</node>\n");
    assert(s@ =~= start + graphml_node(n@));
}

fn push_gexf_position(s: &mut String, n: &Node)
    ensures
        final(s)@ == old(s)@ + gexf_node_position(n@),
{
    let ghost start = s@;
    s.append("<node id=\"");
    s.append(n.id.as_str());
    s.append("\" label=\"");
    s.append(n.name.as_str());
    s.append("\">\n<attvalues>\n<attvalue for=\"pos_x\" value=\"");
    push_coordinate(s, n.center.x);
    s.append("\"/>\n<attvalue for=\"pos_y\" value=\"");
    push_coordinate(s, n.center.y);
    assert(s@ =~= start + gexf_node_position(n@));
}

fn push_gexf_attributes(s: &mut String, n: &Node)
    ensures
        final(s)@ == old(s)@ + gexf_node_attributes(n@),
{
    let ghost start = s@;
    s.append("\"/>\n<attvalue for=\"ip_addr\" value=\"");
    s.append(n.ip_addr.as_str());
    s.append("\"/>\n<attvalue for=\"cpu\" value=\"");
    s.append(n.cpu.as_str());
    s.append("\"/>\n<attvalue for=\"ram\" value=\"");
    s.append(n.ram.as_str());
    s.append("\"/>\n<attvalue for=\"rom\" value=\"");
    s.append(n.rom.as_str());
    s.append("\"/>\n<attvalue for=\"os\" value=\"");
    s.append(n.os.as_str());
    s.append("\"/>\n<attvalue for=\"network_bw\" value=\"");
    s.append(n.network_bw.as_str());
    s.append("\"/>\n<attvalue for=\"software\" value=\"");
    s.append(n.software.as_str());
    s.append("\"/>\n</attvalues>\n</node>\n");
    assert(s@ =~= start + gexf_node_attributes(n@));
}

fn push_gexf_node(s: &mut String, n: &Node)
    ensures
        final(s)@ == old(s)@ + gexf_node(n@),
{
    let ghost start = s@;
    push_gexf_position(s, n);
    push_gexf_attributes(s, n);
    assert(s@ =~= start + gexf_node(n@));
}

/// The GraphML document of the graph.
pub fn save_to_graphml(nodes: &Vec<Node>, links: &Vec<Link>) -> (document: String)
    ensures
        document@ == graphml_document(node_views(nodes@), link_views(links@)),
{
    let ghost nv = node_views(nodes@);
    let ghost lv = link_views(links@);
    let mut s = String::new();
    s.append("<?xml version=\"1.0\" encoding=\"UTF-8\"?>\n<graphml xmlns=\"http://graphml.graphdrawing.org/xmlns\">\n<key id=\"name\" for=\"node\" attr.name=\"name\" attr.type=\"string\"/>\n<key id=\"pos_x\" for=\"node\" attr.name=\"pos_x\" attr.type=\"integer\"/>\n<key id=\"pos_y\" for=\"node\" attr.name=\"pos_y\" attr.type=\"integer\"/>\n<key id=\"ip_addr\" for=\"node\" attr.name=\"ip_addr\" attr.type=\"string\"/>\n<key id=\"cpu\" for=\"node\" attr.name=\"cpu\" attr.type=\"string\"/>\n<key id=\"ram\" for=\"node\" attr.name=\"ram\" attr.type=\"string\"/>\n<key id=\"rom\" for=\"node\" attr.name=\"rom\" attr.type=\"string\"/>\n<key id=\"os\" for=\"node\" attr.name=\"os\" attr.type=\"string\"/>\n<key id=\"network_bw\" for=\"node\" attr.name=\"network_bw\" attr.type=\"string\"/>\n<key id=\"software\" for=\"node\" attr.name=\"software\" attr.type=\"string\"/>\n<graph id=\"G\" edgedefault=\"undirected\">\n");
    let mut i: usize = 0;
    proof {
        assert(nv.take(0) =~= Seq::<NodeView>::empty());
        assert(s@ =~= graphml_header() + graphml_nodes(nv.take(0)));
    }
    while i < nodes.len()
        invariant
            i <= nodes.len(),
            nv == node_views(nodes@),
            s@ == graphml_header() + graphml_nodes(nv.take(i as int)),
        decreases nodes.len() - i,
    {
        proof {
            assert(nv.take(i + 1).drop_last() =~= nv.take(i as int));
            assert(nv.take(i + 1).last() == nodes@[i as int]@);
        }
        push_graphml_node(&mut s, &nodes[i]);
        i = i + 1;
        assert(s@ =~= graphml_header() + graphml_nodes(nv.take(i as int)));
    }
    proof {
        assert(nv.take(i as int) =~= nv);
    }
    let ghost prefix = s@;
    let mut j: usize = 0;
    proof {
        assert(lv.take(0) =~= Seq::<LinkView>::empty());
        assert(s@ =~= prefix + graphml_edges(lv.take(0)));
    }
    while j < links.len()
        invariant
            j <= links.len(),
            lv == link_views(links@),
            s@ == prefix + graphml_edges(lv.take(j as int)),
        decreases links.len() - j,
    {
        proof {
            assert(lv.take(j + 1).drop_last() =~= lv.take(j as int));
            assert(lv.take(j + 1).last() == links@[j as int]@);
        }
        s.append("<edge source=\"");
        s.append(links[j].node1_id.as_str());
        s.append("\" target=\"");
        s.append(links[j].node2_id.as_str());
        s.append("\"/>\n");
        j = j + 1;
        assert(s@ =~= prefix + graphml_edges(lv.take(j as int)));
    }
    proof {
        assert(lv.take(j as int) =~= lv);
    }
    s.append("</graph>\n</graphml>\n");
    assert(s@ =~= graphml_document(nv, lv));
    s
}

/// The GEXF document of the graph.
pub fn save_to_gexf(nodes: &Vec<Node>, links: &Vec<Link>) -> (document: String)
    ensures
        document@ == gexf_document(node_views(nodes@), link_views(links@)),
{
    let ghost nv = node_views(nodes@);
    let ghost lv = link_views(links@);
    let mut s = String::new();
    s.append("<?xml version=\"1.0\" encoding=\"UTF-8\"?>\n<gexf xmlns=\"http://gexf.net/1.2\" version=\"1.2\">\n<graph mode=\"static\" defaultedgetype=\"undirected\">\n<attributes class=\"node\">\n<attribute id=\"pos_x\" title=\"pos_x\" type=\"integer\"/>\n<attribute id=\"pos_y\" title=\"pos_y\" type=\"integer\"/>\n<attribute id=\"ip_addr\" title=\"ip_addr\" type=\"string\"/>\n<attribute id=\"cpu\" title=\"cpu\" type=\"string\"/>\n<attribute id=\"ram\" title=\"ram\" type=\"string\"/>\n<attribute id=\"rom\" title=\"rom\" type=\"string\"/>\n<attribute id=\"os\" title=\"os\" type=\"string\"/>\n<attribute id=\"network_bw\" title=\"network_bw\" type=\"string\"/>\n<attribute id=\"software\" title=\"software\" type=\"string\"/>\n</attributes>\n<nodes>\n");
    let mut i: usize = 0;
    proof {
        assert(nv.take(0) =~= Seq::<NodeView>::empty());
        assert(s@ =~= gexf_header() + gexf_nodes(nv.take(0)));
    }
    while i < nodes.len()
        invariant
            i <= nodes.len(),
            nv == node_views(nodes@),
            s@ == gexf_header() + gexf_nodes(nv.take(i as int)),
        decreases nodes.len() - i,
    {
        proof {
            assert(nv.take(i + 1).drop_last() =~= nv.take(i as int));
            assert(nv.take(i + 1).last() == nodes@[i as int]@);
        }
        push_gexf_node(&mut s, &nodes[i]);
        i = i + 1;
        assert(s@ =~= gexf_header() + gexf_nodes(nv.take(i as int)));
    }
    proof {
        assert(nv.take(i as int) =~= nv);
    }
    s.append("</nodes>\n<edges>\n");
    let ghost prefix = s@;
    let mut j: usize = 0;
    proof {
        assert(lv.take(0) =~= Seq::<LinkView>::empty());
        assert(s@ =~= prefix + gexf_edges(lv.take(0)));
    }
    while j < links.len()
        invariant
            j <= links.len(),
            lv == link_views(links@),
            s@ == prefix + gexf_edges(lv.take(j as int)),
        decreases links.len() - j,
    {
        proof {
            assert(lv.take(j + 1).drop_last() =~= lv.take(j as int));
            assert(lv.take(j + 1).last() == links@[j as int]@);
        }
        s.append("<edge id=\"");
        s.append(links[j].node1_id.as_str());
        s.append("\" source=\"");
        s.append(links[j].node1_id.as_str());
        s.append("\" target=\"");
        s.append(links[j].node2_id.as_str());
        s.append("\"/>\n");
        j = j + 1;
        assert(s@ =~= prefix + gexf_edges(lv.take(j as int)));
    }
    proof {
        assert(lv.take(j as int) =~= lv);
    }
    s.append("</edges>\n</graph>\n</gexf>\n");
    assert(s@ =~= gexf_document(nv, lv));
    s
}

} // verus!
