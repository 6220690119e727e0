//! What a saved document holds: each node's id and attributes under their
//! own keys, and each link's ends, in GraphML and in GEXF.
use vstd::prelude::*;
use crate::coordinate::coordinate_text;
use crate::model::{LinkView, NodeView};
use crate::saver::{
    gexf_document, gexf_edge, gexf_edges, gexf_node, gexf_node_attributes, gexf_node_position,
    gexf_nodes, graphml_document, graphml_edge, graphml_edges, graphml_node, graphml_nodes,
};

verus! {

/// `piece` occurs in `text` as a run of consecutive characters.
pub open spec fn contains_text(text: Seq<char>, piece: Seq<char>) -> bool {
    exists|k: int|
        0 <= k && k + piece.len() <= text.len() && #[trigger] text.subrange(k, k + piece.len())
            == piece
}

/// A GraphML `data` element: the value under the key.
pub open spec fn data_text(key: Seq<char>, value: Seq<char>) -> Seq<char> {
    "<data key=\""@ + key + "\">"@ + value + "</data>"@
}

/// A GEXF attribute value: the value for the attribute.
pub open spec fn attvalue_text(attribute: Seq<char>, value: Seq<char>) -> Seq<char> {
    "<attvalue for=\""@ + attribute + "\" value=\""@ + value + "\"/>"@
}

proof fn lemma_contains_witness(text: Seq<char>, piece: Seq<char>, k: int)
    requires
        0 <= k && k + piece.len() <= text.len(),
        text.subrange(k, k + piece.len()) =~= piece,
    ensures
        contains_text(text, piece),
{
}

broadcast proof fn lemma_contains_before(a: Seq<char>, b: Seq<char>, piece: Seq<char>)
    requires
        contains_text(a, piece),
    ensures
        #[trigger] contains_text(a + b, piece),
{
    let k = choose|k: int|
        0 <= k && k + piece.len() <= a.len() && #[trigger] a.subrange(k, k + piece.len())
            == piece;
    assert((a + b).subrange(k, k + piece.len()) =~= a.subrange(k, k + piece.len()));
    lemma_contains_witness(a + b, piece, k);
}

broadcast proof fn lemma_contains_after(a: Seq<char>, b: Seq<char>, piece: Seq<char>)
    requires
        contains_text(b, piece),
    ensures
        #[trigger] contains_text(a + b, piece),
{
    let k = choose|k: int|
        0 <= k && k + piece.len() <= b.len() && #[trigger] b.subrange(k, k + piece.len())
            == piece;
    assert((a + b).subrange(a.len() + k, a.len() + k + piece.len()) =~= b.subrange(
        k,
        k + piece.len(),
    ));
    lemma_contains_witness(a + b, piece, a.len() + k);
}

proof fn lemma_contains_within(text: Seq<char>, part: Seq<char>, piece: Seq<char>)
    requires
        contains_text(text, part),
        contains_text(part, piece),
    ensures
        contains_text(text, piece),
{
    let k = choose|k: int|
        0 <= k && k + part.len() <= text.len() && #[trigger] text.subrange(k, k + part.len())
            == part;
    let j = choose|j: int|
        0 <= j && j + piece.len() <= part.len() && #[trigger] part.subrange(j, j + piece.len())
            == piece;
    assert(text.subrange(k + j, k + j + piece.len()) =~= part.subrange(j, j + piece.len()));
    lemma_contains_witness(text, piece, k + j);
}

/// A value between two literals, each split where the piece begins and
/// ends.
proof fn lemma_piece(
    pre: Seq<char>,
    l1a: Seq<char>,
    l1b: Seq<char>,
    v: Seq<char>,
    l2a: Seq<char>,
    l2b: Seq<char>,
)
    ensures
        contains_text(pre + (l1a + l1b) + v + (l2a + l2b), l1b + v + l2a),
{
    let t = pre + (l1a + l1b) + v + (l2a + l2b);
    let p = l1b + v + l2a;
    let k = (pre.len() + l1a.len()) as int;
    assert(t.subrange(k, k + p.len()) =~= p);
    lemma_contains_witness(t, p, k);
}

/// A piece at the start of a text, ended by part of a literal.
proof fn lemma_front_piece(a: Seq<char>, l2a: Seq<char>, l2b: Seq<char>)
    ensures
        contains_text(a + (l2a + l2b), a + l2a),
{
    let t = a + (l2a + l2b);
    let p = a + l2a;
    assert(t.subrange(0, p.len() as int) =~= p);
    lemma_contains_witness(t, p, 0);
}


/// A piece that runs from the end of `a` into the start of `b`, where `b`
/// grows at its end.
broadcast proof fn lemma_contains_across(
    a: Seq<char>,
    b: Seq<char>,
    c: Seq<char>,
    piece: Seq<char>,
)
    requires
        contains_text(a + b, piece),
    ensures
        #[trigger] contains_text(a + (b + c), piece),
{
    assert(a + (b + c) =~= (a + b) + c);
    lemma_contains_before(a + b, c, piece);
}

/// A value between two literals at the start of a text.
proof fn lemma_first_piece(
    l1a: Seq<char>,
    l1b: Seq<char>,
    v: Seq<char>,
    l2a: Seq<char>,
    l2b: Seq<char>,
)
    ensures
        contains_text((l1a + l1b) + v + (l2a + l2b), l1b + v + l2a),
{
    lemma_piece(Seq::empty(), l1a, l1b, v, l2a, l2b);
    assert(Seq::<char>::empty() + (l1a + l1b) =~= l1a + l1b);
}

proof fn lemma_contains_itself(text: Seq<char>)
    ensures
        contains_text(text, text),
{
    lemma_contains_witness(text, text, 0);
}

proof fn lemma_graphml_node_name(n: NodeView)
    ensures
        contains_text(graphml_node(n), data_text("name"@, n.name)),
{
    broadcast use lemma_contains_before, lemma_contains_after, lemma_contains_across;

    reveal_strlit("\">\n<data key=\"name\">");
    reveal_strlit("</data>\n<data key=\"pos_x\">");
    reveal_strlit("\">\n");
    reveal_strlit("<data key=\"name\">");
    reveal_strlit("</data>");
    reveal_strlit("\n<data key=\"pos_x\">");
    reveal_strlit("<data key=\"");
    reveal_strlit("name");
    reveal_strlit("\">");
    assert("\">\n<data key=\"name\">"@ =~= "\">\n"@ + "<data key=\"name\">"@);
    assert("</data>\n<data key=\"pos_x\">"@ =~= "</data>"@ + "\n<data key=\"pos_x\">"@);
    assert(data_text("name"@, n.name) =~= "<data key=\"name\">"@ + n.name + "</data>"@);
    lemma_piece("<node id=\""@ + n.id, "\">\n"@, "<data key=\"name\">"@, n.name, "</data>"@, "\n<data key=\"pos_x\">"@);
}

proof fn lemma_graphml_node_pos_x(n: NodeView)
    ensures
        contains_text(graphml_node(n), data_text("pos_x"@, coordinate_text(n.x))),
{
    broadcast use lemma_contains_before, lemma_contains_after, lemma_contains_across;

    reveal_strlit("</data>\n<data key=\"pos_x\">");
    reveal_strlit("</data>\n<data key=\"pos_y\">");
    reveal_strlit("</data>\n");
    reveal_strlit("<data key=\"pos_x\">");
    reveal_strlit("</data>");
    reveal_strlit("\n<data key=\"pos_y\">");
    reveal_strlit("<data key=\"");
    reveal_strlit("pos_x");
    reveal_strlit("\">");
    assert("</data>\n<data key=\"pos_x\">"@ =~= "</data>\n"@ + "<data key=\"pos_x\">"@);
    assert("</data>\n<data key=\"pos_y\">"@ =~= "</data>"@ + "\n<data key=\"pos_y\">"@);
    assert(data_text("pos_x"@, coordinate_text(n.x)) =~= "<data key=\"pos_x\">"@ + coordinate_text(n.x) + "</data>"@);
    lemma_piece("<node id=\""@ + n.id + "\">\n<data key=\"name\">"@ + n.name, "</data>\n"@, "<data key=\"pos_x\">"@, coordinate_text(n.x), "</data>"@, "\n<data key=\"pos_y\">"@);
}

proof fn lemma_graphml_node_pos_y(n: NodeView)
    ensures
        contains_text(graphml_node(n), data_text("pos_y"@, coordinate_text(n.y))),
{
    broadcast use lemma_contains_before, lemma_contains_after, lemma_contains_across;

    reveal_strlit("</data>\n<data key=\"pos_y\">");
    reveal_strlit("</data>\n<data key=\"ip_addr\">");
    reveal_strlit("</data>\n");
    reveal_strlit("<data key=\"pos_y\">");
    reveal_strlit("</data>");
    reveal_strlit("\n<data key=\"ip_addr\">");
    reveal_strlit("<data key=\"");
    reveal_strlit("pos_y");
    reveal_strlit("\">");
    assert("</data>\n<data key=\"pos_y\">"@ =~= "</data>\n"@ + "<data key=\"pos_y\">"@);
    assert("</data>\n<data key=\"ip_addr\">"@ =~= "</data>"@ + "\n<data key=\"ip_addr\">"@);
    assert(data_text("pos_y"@, coordinate_text(n.y)) =~= "<data key=\"pos_y\">"@ + coordinate_text(n.y) + "</data>"@);
    lemma_piece("<node id=\""@ + n.id + "\">\n<data key=\"name\">"@ + n.name + "</data>\n<data key=\"pos_x\">"@ + coordinate_text(n.x), "</data>\n"@, "<data key=\"pos_y\">"@, coordinate_text(n.y), "</data>"@, "\n<data key=\"ip_addr\">"@);
}

proof fn lemma_graphml_node_ip_addr(n: NodeView)
    ensures
        contains_text(graphml_node(n), data_text("ip_addr"@, n.ip_addr)),
{
    broadcast use lemma_contains_before, lemma_contains_after, lemma_contains_across;

    reveal_strlit("</data>\n<data key=\"ip_addr\">");
    reveal_strlit("</data>\n<data key=\"cpu\">");
    reveal_strlit("</data>\n");
    reveal_strlit("<data key=\"ip_addr\">");
    reveal_strlit("</data>");
    reveal_strlit("\n<data key=\"cpu\">");
    reveal_strlit("<data key=\"");
    reveal_strlit("ip_addr");
    reveal_strlit("\">");
    assert("</data>\n<data key=\"ip_addr\">"@ =~= "</data>\n"@ + "<data key=\"ip_addr\">"@);
    assert("</data>\n<data key=\"cpu\">"@ =~= "</data>"@ + "\n<data key=\"cpu\">"@);
    assert(data_text("ip_addr"@, n.ip_addr) =~= "<data key=\"ip_addr\">"@ + n.ip_addr + "</data>"@);
    lemma_piece("<node id=\""@ + n.id + "\">\n<data key=\"name\">"@ + n.name + "</data>\n<data key=\"pos_x\">"@ + coordinate_text(n.x) + "</data>\n<data key=\"pos_y\">"@ + coordinate_text(n.y), "</data>\n"@, "<data key=\"ip_addr\">"@, n.ip_addr, "</data>"@, "\n<data key=\"cpu\">"@);
}

proof fn lemma_graphml_node_cpu(n: NodeView)
    ensures
        contains_text(graphml_node(n), data_text("cpu"@, n.cpu)),
{
    broadcast use lemma_contains_before, lemma_contains_after, lemma_contains_across;

    reveal_strlit("</data>\n<data key=\"cpu\">");
    reveal_strlit("</data>\n<data key=\"ram\">");
    reveal_strlit("</data>\n");
    reveal_strlit("<data key=\"cpu\">");
    reveal_strlit("</data>");
    reveal_strlit("\n<data key=\"ram\">");
    reveal_strlit("<data key=\"");
    reveal_strlit("cpu");
    reveal_strlit("\">");
    assert("</data>\n<data key=\"cpu\">"@ =~= "</data>\n"@ + "<data key=\"cpu\">"@);
    assert("</data>\n<data key=\"ram\">"@ =~= "</data>"@ + "\n<data key=\"ram\">"@);
    assert(data_text("cpu"@, n.cpu) =~= "<data key=\"cpu\">"@ + n.cpu + "</data>"@);
    lemma_piece("<node id=\""@ + n.id + "\">\n<data key=\"name\">"@ + n.name + "</data>\n<data key=\"pos_x\">"@ + coordinate_text(n.x) + "</data>\n<data key=\"pos_y\">"@ + coordinate_text(n.y) + "</data>\n<data key=\"ip_addr\">"@ + n.ip_addr, "</data>\n"@, "<data key=\"cpu\">"@, n.cpu, "</data>"@, "\n<data key=\"ram\">"@);
}

proof fn lemma_graphml_node_ram(n: NodeView)
    ensures
        contains_text(graphml_node(n), data_text("ram"@, n.ram)),
{
    broadcast use lemma_contains_before, lemma_contains_after, lemma_contains_across;

    reveal_strlit("</data>\n<data key=\"ram\">");
    reveal_strlit("</data>\n<data key=\"rom\">");
    reveal_strlit("</data>\n");
    reveal_strlit("<data key=\"ram\">");
    reveal_strlit("</data>");
    reveal_strlit("\n<data key=\"rom\">");
    reveal_strlit("<data key=\"");
    reveal_strlit("ram");
    reveal_strlit("\">");
    assert("</data>\n<data key=\"ram\">"@ =~= "</data>\n"@ + "<data key=\"ram\">"@);
    assert("</data>\n<data key=\"rom\">"@ =~= "</data>"@ + "\n<data key=\"rom\">"@);
    assert(data_text("ram"@, n.ram) =~= "<data key=\"ram\">"@ + n.ram + "</data>"@);
    lemma_piece("<node id=\""@ + n.id + "\">\n<data key=\"name\">"@ + n.name + "</data>\n<data key=\"pos_x\">"@ + coordinate_text(n.x) + "</data>\n<data key=\"pos_y\">"@ + coordinate_text(n.y) + "</data>\n<data key=\"ip_addr\">"@ + n.ip_addr + "</data>\n<data key=\"cpu\">"@ + n.cpu, "</data>\n"@, "<data key=\"ram\">"@, n.ram, "</data>"@, "\n<data key=\"rom\">"@);
}

proof fn lemma_graphml_node_rom(n: NodeView)
    ensures
        contains_text(graphml_node(n), data_text("rom"@, n.rom)),
{
    broadcast use lemma_contains_before, lemma_contains_after, lemma_contains_across;

    reveal_strlit("</data>\n<data key=\"rom\">");
    reveal_strlit("</data>\n<data key=\"os\">");
    reveal_strlit("</data>\n");
    reveal_strlit("<data key=\"rom\">");
    reveal_strlit("</data>");
    reveal_strlit("\n<data key=\"os\">");
    reveal_strlit("<data key=\"");
    reveal_strlit("rom");
    reveal_strlit("\">");
    assert("</data>\n<data key=\"rom\">"@ =~= "</data>\n"@ + "<data key=\"rom\">"@);
    assert("</data>\n<data key=\"os\">"@ =~= "</data>"@ + "\n<data key=\"os\">"@);
    assert(data_text("rom"@, n.rom) =~= "<data key=\"rom\">"@ + n.rom + "</data>"@);
    lemma_piece("<node id=\""@ + n.id + "\">\n<data key=\"name\">"@ + n.name + "</data>\n<data key=\"pos_x\">"@ + coordinate_text(n.x) + "</data>\n<data key=\"pos_y\">"@ + coordinate_text(n.y) + "</data>\n<data key=\"ip_addr\">"@ + n.ip_addr + "</data>\n<data key=\"cpu\">"@ + n.cpu + "</data>\n<data key=\"ram\">"@ + n.ram, "</data>\n"@, "<data key=\"rom\">"@, n.rom, "</data>"@, "\n<data key=\"os\">"@);
}

proof fn lemma_graphml_node_os(n: NodeView)
    ensures
        contains_text(graphml_node(n), data_text("os"@, n.os)),
{
    broadcast use lemma_contains_before, lemma_contains_after, lemma_contains_across;

    reveal_strlit("</data>\n<data key=\"os\">");
    reveal_strlit("</data>\n<data key=\"network_bw\">");
    reveal_strlit("</data>\n");
    reveal_strlit("<data key=\"os\">");
    reveal_strlit("</data>");
    reveal_strlit("\n<data key=\"network_bw\">");
    reveal_strlit("<data key=\"");
    reveal_strlit("os");
    reveal_strlit("\">");
    assert("</data>\n<data key=\"os\">"@ =~= "</data>\n"@ + "<data key=\"os\">"@);
    assert("</data>\n<data key=\"network_bw\">"@ =~= "</data>"@ + "\n<data key=\"network_bw\">"@);
    assert(data_text("os"@, n.os) =~= "<data key=\"os\">"@ + n.os + "</data>"@);
    lemma_piece("<node id=\""@ + n.id + "\">\n<data key=\"name\">"@ + n.name + "</data>\n<data key=\"pos_x\">"@ + coordinate_text(n.x) + "</data>\n<data key=\"pos_y\">"@ + coordinate_text(n.y) + "</data>\n<data key=\"ip_addr\">"@ + n.ip_addr + "</data>\n<data key=\"cpu\">"@ + n.cpu + "</data>\n<data key=\"ram\">"@ + n.ram + "</data>\n<data key=\"rom\">"@ + n.rom, "</data>\n"@, "<data key=\"os\">"@, n.os, "</data>"@, "\n<data key=\"network_bw\">"@);
}

proof fn lemma_graphml_node_network_bw(n: NodeView)
    ensures
        contains_text(graphml_node(n), data_text("network_bw"@, n.network_bw)),
{
    broadcast use lemma_contains_before, lemma_contains_after, lemma_contains_across;

    reveal_strlit("</data>\n<data key=\"network_bw\">");
    reveal_strlit("</data>\n<data key=\"software\">");
    reveal_strlit("</data>\n");
    reveal_strlit("<data key=\"network_bw\">");
    reveal_strlit("</data>");
    reveal_strlit("\n<data key=\"software\">");
    reveal_strlit("<data key=\"");
    reveal_strlit("network_bw");
    reveal_strlit("\">");
    assert("</data>\n<data key=\"network_bw\">"@ =~= "</data>\n"@ + "<data key=\"network_bw\">"@);
    assert("</data>\n<data key=\"software\">"@ =~= "</data>"@ + "\n<data key=\"software\">"@);
    assert(data_text("network_bw"@, n.network_bw) =~= "<data key=\"network_bw\">"@ + n.network_bw + "</data>"@);
    lemma_piece("<node id=\""@ + n.id + "\">\n<data key=\"name\">"@ + n.name + "</data>\n<data key=\"pos_x\">"@ + coordinate_text(n.x) + "</data>\n<data key=\"pos_y\">"@ + coordinate_text(n.y) + "</data>\n<data key=\"ip_addr\">"@ + n.ip_addr + "</data>\n<data key=\"cpu\">"@ + n.cpu + "</data>\n<data key=\"ram\">"@ + n.ram + "</data>\n<data key=\"rom\">"@ + n.rom + "</data>\n<data key=\"os\">"@ + n.os, "</data>\n"@, "<data key=\"network_bw\">"@, n.network_bw, "</data>"@, "\n<data key=\"software\">"@);
}

proof fn lemma_graphml_node_software(n: NodeView)
    ensures
        contains_text(graphml_node(n), data_text("software"@, n.software)),
{
    broadcast use lemma_contains_before, lemma_contains_after, lemma_contains_across;

    reveal_strlit("</data>\n<data key=\"software\">");
    reveal_strlit("</data>\n</node>\n");
    reveal_strlit("</data>\n");
    reveal_strlit("<data key=\"software\">");
    reveal_strlit("</data>");
    reveal_strlit("\n</node>\n");
    reveal_strlit("<data key=\"");
    reveal_strlit("software");
    reveal_strlit("\">");
    assert("</data>\n<data key=\"software\">"@ =~= "</data>\n"@ + "<data key=\"software\">"@);
    assert("</data>\n</node>\n"@ =~= "</data>"@ + "\n</node>\n"@);
    assert(data_text("software"@, n.software) =~= "<data key=\"software\">"@ + n.software + "</data>"@);
    lemma_piece("<node id=\""@ + n.id + "\">\n<data key=\"name\">"@ + n.name + "</data>\n<data key=\"pos_x\">"@ + coordinate_text(n.x) + "</data>\n<data key=\"pos_y\">"@ + coordinate_text(n.y) + "</data>\n<data key=\"ip_addr\">"@ + n.ip_addr + "</data>\n<data key=\"cpu\">"@ + n.cpu + "</data>\n<data key=\"ram\">"@ + n.ram + "</data>\n<data key=\"rom\">"@ + n.rom + "</data>\n<data key=\"os\">"@ + n.os + "</data>\n<data key=\"network_bw\">"@ + n.network_bw, "</data>\n"@, "<data key=\"software\">"@, n.software, "</data>"@, "\n</node>\n"@);
}

proof fn lemma_graphml_node_tag(n: NodeView)
    ensures
        contains_text(graphml_node(n), "<node id=\""@ + n.id + "\">"@),
{
    broadcast use lemma_contains_before, lemma_contains_after, lemma_contains_across;

    reveal_strlit("\">\n<data key=\"name\">");
    reveal_strlit("\">");
    reveal_strlit("\n<data key=\"name\">");
    assert("\">\n<data key=\"name\">"@ =~= "\">"@ + "\n<data key=\"name\">"@);
    lemma_front_piece("<node id=\""@ + n.id, "\">"@, "\n<data key=\"name\">"@);
}

proof fn lemma_graphml_edge_tag(l: LinkView)
    ensures
        contains_text(graphml_edge(l), "<edge source=\""@ + l.node1_id + "\" target=\""@ + l.node2_id + "\"/>"@),
{
    broadcast use lemma_contains_before, lemma_contains_after, lemma_contains_across;

    reveal_strlit("\"/>\n");
    reveal_strlit("\"/>");
    reveal_strlit("\n");
    assert("\"/>\n"@ =~= "\"/>"@ + "\n"@);
    lemma_front_piece("<edge source=\""@ + l.node1_id + "\" target=\""@ + l.node2_id, "\"/>"@, "\n"@);
}

proof fn lemma_gexf_node_tag(n: NodeView)
    ensures
        contains_text(gexf_node(n), "<node id=\""@ + n.id + "\" label=\""@ + n.name + "\">"@),
{
    broadcast use lemma_contains_before, lemma_contains_after, lemma_contains_across;

    reveal_strlit("\">\n<attvalues>\n<attvalue for=\"pos_x\" value=\"");
    reveal_strlit("\">");
    reveal_strlit("\n<attvalues>\n<attvalue for=\"pos_x\" value=\"");
    assert("\">\n<attvalues>\n<attvalue for=\"pos_x\" value=\""@ =~= "\">"@ + "\n<attvalues>\n<attvalue for=\"pos_x\" value=\""@);
    lemma_front_piece("<node id=\""@ + n.id + "\" label=\""@ + n.name, "\">"@, "\n<attvalues>\n<attvalue for=\"pos_x\" value=\""@);
}

proof fn lemma_gexf_node_pos_x(n: NodeView)
    ensures
        contains_text(gexf_node(n), attvalue_text("pos_x"@, coordinate_text(n.x))),
{
    broadcast use lemma_contains_before, lemma_contains_after, lemma_contains_across;

    reveal_strlit("\">\n<attvalues>\n<attvalue for=\"pos_x\" value=\"");
    reveal_strlit("\"/>\n<attvalue for=\"pos_y\" value=\"");
    reveal_strlit("\">\n<attvalues>\n");
    reveal_strlit("<attvalue for=\"pos_x\" value=\"");
    reveal_strlit("\"/>");
    reveal_strlit("\n<attvalue for=\"pos_y\" value=\"");
    reveal_strlit("<attvalue for=\"");
    reveal_strlit("pos_x");
    reveal_strlit("\" value=\"");
    assert("\">\n<attvalues>\n<attvalue for=\"pos_x\" value=\""@ =~= "\">\n<attvalues>\n"@ + "<attvalue for=\"pos_x\" value=\""@);
    assert("\"/>\n<attvalue for=\"pos_y\" value=\""@ =~= "\"/>"@ + "\n<attvalue for=\"pos_y\" value=\""@);
    assert(attvalue_text("pos_x"@, coordinate_text(n.x)) =~= "<attvalue for=\"pos_x\" value=\""@ + coordinate_text(n.x) + "\"/>"@);
    lemma_piece("<node id=\""@ + n.id + "\" label=\""@ + n.name, "\">\n<attvalues>\n"@, "<attvalue for=\"pos_x\" value=\""@, coordinate_text(n.x), "\"/>"@, "\n<attvalue for=\"pos_y\" value=\""@);
}

proof fn lemma_gexf_node_pos_y(n: NodeView)
    ensures
        contains_text(gexf_node(n), attvalue_text("pos_y"@, coordinate_text(n.y))),
{
    broadcast use lemma_contains_before, lemma_contains_after, lemma_contains_across;

    reveal_strlit("\"/>\n<attvalue for=\"pos_y\" value=\"");
    reveal_strlit("\"/>\n<attvalue for=\"ip_addr\" value=\"");
    reveal_strlit("\"/>\n");
    reveal_strlit("<attvalue for=\"pos_y\" value=\"");
    reveal_strlit("\"/>");
    reveal_strlit("\n<attvalue for=\"ip_addr\" value=\"");
    reveal_strlit("<attvalue for=\"");
    reveal_strlit("pos_y");
    reveal_strlit("\" value=\"");
    assert("\"/>\n<attvalue for=\"pos_y\" value=\""@ =~= "\"/>\n"@ + "<attvalue for=\"pos_y\" value=\""@);
    assert("\"/>\n<attvalue for=\"ip_addr\" value=\""@ =~= "\"/>"@ + "\n<attvalue for=\"ip_addr\" value=\""@);
    assert(attvalue_text("pos_y"@, coordinate_text(n.y)) =~= "<attvalue for=\"pos_y\" value=\""@ + coordinate_text(n.y) + "\"/>"@);
    lemma_piece("<node id=\""@ + n.id + "\" label=\""@ + n.name + "\">\n<attvalues>\n<attvalue for=\"pos_x\" value=\""@ + coordinate_text(n.x), "\"/>\n"@, "<attvalue for=\"pos_y\" value=\""@, coordinate_text(n.y), "\"/>"@, "\n<attvalue for=\"ip_addr\" value=\""@);
}

proof fn lemma_gexf_node_ip_addr(n: NodeView)
    ensures
        contains_text(gexf_node(n), attvalue_text("ip_addr"@, n.ip_addr)),
{
    broadcast use lemma_contains_before, lemma_contains_after, lemma_contains_across;

    reveal_strlit("\"/>\n<attvalue for=\"ip_addr\" value=\"");
    reveal_strlit("\"/>\n<attvalue for=\"cpu\" value=\"");
    reveal_strlit("\"/>\n");
    reveal_strlit("<attvalue for=\"ip_addr\" value=\"");
    reveal_strlit("\"/>");
    reveal_strlit("\n<attvalue for=\"cpu\" value=\"");
    reveal_strlit("<attvalue for=\"");
    reveal_strlit("ip_addr");
    reveal_strlit("\" value=\"");
    assert("\"/>\n<attvalue for=\"ip_addr\" value=\""@ =~= "\"/>\n"@ + "<attvalue for=\"ip_addr\" value=\""@);
    assert("\"/>\n<attvalue for=\"cpu\" value=\""@ =~= "\"/>"@ + "\n<attvalue for=\"cpu\" value=\""@);
    assert(attvalue_text("ip_addr"@, n.ip_addr) =~= "<attvalue for=\"ip_addr\" value=\""@ + n.ip_addr + "\"/>"@);
    lemma_first_piece("\"/>\n"@, "<attvalue for=\"ip_addr\" value=\""@, n.ip_addr, "\"/>"@, "\n<attvalue for=\"cpu\" value=\""@);
}

proof fn lemma_gexf_node_cpu(n: NodeView)
    ensures
        contains_text(gexf_node(n), attvalue_text("cpu"@, n.cpu)),
{
    broadcast use lemma_contains_before, lemma_contains_after, lemma_contains_across;

    reveal_strlit("\"/>\n<attvalue for=\"cpu\" value=\"");
    reveal_strlit("\"/>\n<attvalue for=\"ram\" value=\"");
    reveal_strlit("\"/>\n");
    reveal_strlit("<attvalue for=\"cpu\" value=\"");
    reveal_strlit("\"/>");
    reveal_strlit("\n<attvalue for=\"ram\" value=\"");
    reveal_strlit("<attvalue for=\"");
    reveal_strlit("cpu");
    reveal_strlit("\" value=\"");
    assert("\"/>\n<attvalue for=\"cpu\" value=\""@ =~= "\"/>\n"@ + "<attvalue for=\"cpu\" value=\""@);
    assert("\"/>\n<attvalue for=\"ram\" value=\""@ =~= "\"/>"@ + "\n<attvalue for=\"ram\" value=\""@);
    assert(attvalue_text("cpu"@, n.cpu) =~= "<attvalue for=\"cpu\" value=\""@ + n.cpu + "\"/>"@);
    lemma_piece("\"/>\n<attvalue for=\"ip_addr\" value=\""@ + n.ip_addr, "\"/>\n"@, "<attvalue for=\"cpu\" value=\""@, n.cpu, "\"/>"@, "\n<attvalue for=\"ram\" value=\""@);
}

proof fn lemma_gexf_node_ram(n: NodeView)
    ensures
        contains_text(gexf_node(n), attvalue_text("ram"@, n.ram)),
{
    broadcast use lemma_contains_before, lemma_contains_after, lemma_contains_across;

    reveal_strlit("\"/>\n<attvalue for=\"ram\" value=\"");
    reveal_strlit("\"/>\n<attvalue for=\"rom\" value=\"");
    reveal_strlit("\"/>\n");
    reveal_strlit("<attvalue for=\"ram\" value=\"");
    reveal_strlit("\"/>");
    reveal_strlit("\n<attvalue for=\"rom\" value=\"");
    reveal_strlit("<attvalue for=\"");
    reveal_strlit("ram");
    reveal_strlit("\" value=\"");
    assert("\"/>\n<attvalue for=\"ram\" value=\""@ =~= "\"/>\n"@ + "<attvalue for=\"ram\" value=\""@);
    assert("\"/>\n<attvalue for=\"rom\" value=\""@ =~= "\"/>"@ + "\n<attvalue for=\"rom\" value=\""@);
    assert(attvalue_text("ram"@, n.ram) =~= "<attvalue for=\"ram\" value=\""@ + n.ram + "\"/>"@);
    lemma_piece("\"/>\n<attvalue for=\"ip_addr\" value=\""@ + n.ip_addr + "\"/>\n<attvalue for=\"cpu\" value=\""@ + n.cpu, "\"/>\n"@, "<attvalue for=\"ram\" value=\""@, n.ram, "\"/>"@, "\n<attvalue for=\"rom\" value=\""@);
}

proof fn lemma_gexf_node_rom(n: NodeView)
    ensures
        contains_text(gexf_node(n), attvalue_text("rom"@, n.rom)),
{
    broadcast use lemma_contains_before, lemma_contains_after, lemma_contains_across;

    reveal_strlit("\"/>\n<attvalue for=\"rom\" value=\"");
    reveal_strlit("\"/>\n<attvalue for=\"os\" value=\"");
    reveal_strlit("\"/>\n");
    reveal_strlit("<attvalue for=\"rom\" value=\"");
    reveal_strlit("\"/>");
    reveal_strlit("\n<attvalue for=\"os\" value=\"");
    reveal_strlit("<attvalue for=\"");
    reveal_strlit("rom");
    reveal_strlit("\" value=\"");
    assert("\"/>\n<attvalue for=\"rom\" value=\""@ =~= "\"/>\n"@ + "<attvalue for=\"rom\" value=\""@);
    assert("\"/>\n<attvalue for=\"os\" value=\""@ =~= "\"/>"@ + "\n<attvalue for=\"os\" value=\""@);
    assert(attvalue_text("rom"@, n.rom) =~= "<attvalue for=\"rom\" value=\""@ + n.rom + "\"/>"@);
    lemma_piece("\"/>\n<attvalue for=\"ip_addr\" value=\""@ + n.ip_addr + "\"/>\n<attvalue for=\"cpu\" value=\""@ + n.cpu + "\"/>\n<attvalue for=\"ram\" value=\""@ + n.ram, "\"/>\n"@, "<attvalue for=\"rom\" value=\""@, n.rom, "\"/>"@, "\n<attvalue for=\"os\" value=\""@);
}

proof fn lemma_gexf_node_os(n: NodeView)
    ensures
        contains_text(gexf_node(n), attvalue_text("os"@, n.os)),
{
    broadcast use lemma_contains_before, lemma_contains_after, lemma_contains_across;

    reveal_strlit("\"/>\n<attvalue for=\"os\" value=\"");
    reveal_strlit("\"/>\n<attvalue for=\"network_bw\" value=\"");
    reveal_strlit("\"/>\n");
    reveal_strlit("<attvalue for=\"os\" value=\"");
    reveal_strlit("\"/>");
    reveal_strlit("\n<attvalue for=\"network_bw\" value=\"");
    reveal_strlit("<attvalue for=\"");
    reveal_strlit("os");
    reveal_strlit("\" value=\"");
    assert("\"/>\n<attvalue for=\"os\" value=\""@ =~= "\"/>\n"@ + "<attvalue for=\"os\" value=\""@);
    assert("\"/>\n<attvalue for=\"network_bw\" value=\""@ =~= "\"/>"@ + "\n<attvalue for=\"network_bw\" value=\""@);
    assert(attvalue_text("os"@, n.os) =~= "<attvalue for=\"os\" value=\""@ + n.os + "\"/>"@);
    lemma_piece("\"/>\n<attvalue for=\"ip_addr\" value=\""@ + n.ip_addr + "\"/>\n<attvalue for=\"cpu\" value=\""@ + n.cpu + "\"/>\n<attvalue for=\"ram\" value=\""@ + n.ram + "\"/>\n<attvalue for=\"rom\" value=\""@ + n.rom, "\"/>\n"@, "<attvalue for=\"os\" value=\""@, n.os, "\"/>"@, "\n<attvalue for=\"network_bw\" value=\""@);
}

proof fn lemma_gexf_node_network_bw(n: NodeView)
    ensures
        contains_text(gexf_node(n), attvalue_text("network_bw"@, n.network_bw)),
{
    broadcast use lemma_contains_before, lemma_contains_after, lemma_contains_across;

    reveal_strlit("\"/>\n<attvalue for=\"network_bw\" value=\"");
    reveal_strlit("\"/>\n<attvalue for=\"software\" value=\"");
    reveal_strlit("\"/>\n");
    reveal_strlit("<attvalue for=\"network_bw\" value=\"");
    reveal_strlit("\"/>");
    reveal_strlit("\n<attvalue for=\"software\" value=\"");
    reveal_strlit("<attvalue for=\"");
    reveal_strlit("network_bw");
    reveal_strlit("\" value=\"");
    assert("\"/>\n<attvalue for=\"network_bw\" value=\""@ =~= "\"/>\n"@ + "<attvalue for=\"network_bw\" value=\""@);
    assert("\"/>\n<attvalue for=\"software\" value=\""@ =~= "\"/>"@ + "\n<attvalue for=\"software\" value=\""@);
    assert(attvalue_text("network_bw"@, n.network_bw) =~= "<attvalue for=\"network_bw\" value=\""@ + n.network_bw + "\"/>"@);
    lemma_piece("\"/>\n<attvalue for=\"ip_addr\" value=\""@ + n.ip_addr + "\"/>\n<attvalue for=\"cpu\" value=\""@ + n.cpu + "\"/>\n<attvalue for=\"ram\" value=\""@ + n.ram + "\"/>\n<attvalue for=\"rom\" value=\""@ + n.rom + "\"/>\n<attvalue for=\"os\" value=\""@ + n.os, "\"/>\n"@, "<attvalue for=\"network_bw\" value=\""@, n.network_bw, "\"/>"@, "\n<attvalue for=\"software\" value=\""@);
}

proof fn lemma_gexf_node_software(n: NodeView)
    ensures
        contains_text(gexf_node(n), attvalue_text("software"@, n.software)),
{
    broadcast use lemma_contains_before, lemma_contains_after, lemma_contains_across;

    reveal_strlit("\"/>\n<attvalue for=\"software\" value=\"");
    reveal_strlit("\"/>\n</attvalues>\n</node>\n");
    reveal_strlit("\"/>\n");
    reveal_strlit("<attvalue for=\"software\" value=\"");
    reveal_strlit("\"/>");
    reveal_strlit("\n</attvalues>\n</node>\n");
    reveal_strlit("<attvalue for=\"");
    reveal_strlit("software");
    reveal_strlit("\" value=\"");
    assert("\"/>\n<attvalue for=\"software\" value=\""@ =~= "\"/>\n"@ + "<attvalue for=\"software\" value=\""@);
    assert("\"/>\n</attvalues>\n</node>\n"@ =~= "\"/>"@ + "\n</attvalues>\n</node>\n"@);
    assert(attvalue_text("software"@, n.software) =~= "<attvalue for=\"software\" value=\""@ + n.software + "\"/>"@);
    lemma_piece("\"/>\n<attvalue for=\"ip_addr\" value=\""@ + n.ip_addr + "\"/>\n<attvalue for=\"cpu\" value=\""@ + n.cpu + "\"/>\n<attvalue for=\"ram\" value=\""@ + n.ram + "\"/>\n<attvalue for=\"rom\" value=\""@ + n.rom + "\"/>\n<attvalue for=\"os\" value=\""@ + n.os + "\"/>\n<attvalue for=\"network_bw\" value=\""@ + n.network_bw, "\"/>\n"@, "<attvalue for=\"software\" value=\""@, n.software, "\"/>"@, "\n</attvalues>\n</node>\n"@);
}

proof fn lemma_gexf_edge_tag(l: LinkView)
    ensures
        contains_text(gexf_edge(l), "<edge id=\""@ + l.node1_id + "\" source=\""@ + l.node1_id + "\" target=\""@ + l.node2_id + "\"/>"@),
{
    broadcast use lemma_contains_before, lemma_contains_after, lemma_contains_across;

    reveal_strlit("\"/>\n");
    reveal_strlit("\"/>");
    reveal_strlit("\n");
    assert("\"/>\n"@ =~= "\"/>"@ + "\n"@);
    lemma_front_piece("<edge id=\""@ + l.node1_id + "\" source=\""@ + l.node1_id + "\" target=\""@ + l.node2_id, "\"/>"@, "\n"@);
}


proof fn lemma_graphml_nodes_hold(items: Seq<NodeView>, i: int)
    requires
        0 <= i < items.len(),
    ensures
        contains_text(graphml_nodes(items), graphml_node(items[i])),
    decreases items.len(),
{
    broadcast use lemma_contains_before, lemma_contains_after;

    if i == items.len() - 1 {
        lemma_contains_itself(graphml_node(items.last()));
    } else {
        lemma_graphml_nodes_hold(items.drop_last(), i);
        assert(items.drop_last()[i] == items[i]);
    }
}

proof fn lemma_graphml_edges_hold(items: Seq<LinkView>, i: int)
    requires
        0 <= i < items.len(),
    ensures
        contains_text(graphml_edges(items), graphml_edge(items[i])),
    decreases items.len(),
{
    broadcast use lemma_contains_before, lemma_contains_after;

    if i == items.len() - 1 {
        lemma_contains_itself(graphml_edge(items.last()));
    } else {
        lemma_graphml_edges_hold(items.drop_last(), i);
        assert(items.drop_last()[i] == items[i]);
    }
}

proof fn lemma_gexf_nodes_hold(items: Seq<NodeView>, i: int)
    requires
        0 <= i < items.len(),
    ensures
        contains_text(gexf_nodes(items), gexf_node(items[i])),
    decreases items.len(),
{
    broadcast use lemma_contains_before, lemma_contains_after;

    if i == items.len() - 1 {
        lemma_contains_itself(gexf_node(items.last()));
    } else {
        lemma_gexf_nodes_hold(items.drop_last(), i);
        assert(items.drop_last()[i] == items[i]);
    }
}

proof fn lemma_gexf_edges_hold(items: Seq<LinkView>, i: int)
    requires
        0 <= i < items.len(),
    ensures
        contains_text(gexf_edges(items), gexf_edge(items[i])),
    decreases items.len(),
{
    broadcast use lemma_contains_before, lemma_contains_after;

    if i == items.len() - 1 {
        lemma_contains_itself(gexf_edge(items.last()));
    } else {
        lemma_gexf_edges_hold(items.drop_last(), i);
        assert(items.drop_last()[i] == items[i]);
    }
}

/// Each node of a graph stands in the GraphML document it is saved as: its
/// id in a `node` element, and each of its attributes, its coordinates
/// among them, in a `data` element under that attribute's own key.
pub proof fn lemma_graphml_document_holds_each_node(
    nodes: Seq<NodeView>,
    links: Seq<LinkView>,
    i: int,
)
    requires
        0 <= i < nodes.len(),
    ensures
        contains_text(graphml_document(nodes, links), "<node id=\""@ + nodes[i].id + "\">"@),
        contains_text(graphml_document(nodes, links), data_text("name"@, nodes[i].name)),
        contains_text(graphml_document(nodes, links), data_text("pos_x"@, coordinate_text(nodes[i].x))),
        contains_text(graphml_document(nodes, links), data_text("pos_y"@, coordinate_text(nodes[i].y))),
        contains_text(graphml_document(nodes, links), data_text("ip_addr"@, nodes[i].ip_addr)),
        contains_text(graphml_document(nodes, links), data_text("cpu"@, nodes[i].cpu)),
        contains_text(graphml_document(nodes, links), data_text("ram"@, nodes[i].ram)),
        contains_text(graphml_document(nodes, links), data_text("rom"@, nodes[i].rom)),
        contains_text(graphml_document(nodes, links), data_text("os"@, nodes[i].os)),
        contains_text(graphml_document(nodes, links), data_text("network_bw"@, nodes[i].network_bw)),
        contains_text(graphml_document(nodes, links), data_text("software"@, nodes[i].software)),
{
    broadcast use lemma_contains_before, lemma_contains_after;

    let n = nodes[i];
    let doc = graphml_document(nodes, links);
    lemma_graphml_nodes_hold(nodes, i);
    lemma_graphml_node_tag(n);
    lemma_contains_within(doc, graphml_node(n), "<node id=\""@ + n.id + "\">"@);
    lemma_graphml_node_name(n);
    lemma_contains_within(doc, graphml_node(n), data_text("name"@, n.name));
    lemma_graphml_node_pos_x(n);
    lemma_contains_within(doc, graphml_node(n), data_text("pos_x"@, coordinate_text(n.x)));
    lemma_graphml_node_pos_y(n);
    lemma_contains_within(doc, graphml_node(n), data_text("pos_y"@, coordinate_text(n.y)));
    lemma_graphml_node_ip_addr(n);
    lemma_contains_within(doc, graphml_node(n), data_text("ip_addr"@, n.ip_addr));
    lemma_graphml_node_cpu(n);
    lemma_contains_within(doc, graphml_node(n), data_text("cpu"@, n.cpu));
    lemma_graphml_node_ram(n);
    lemma_contains_within(doc, graphml_node(n), data_text("ram"@, n.ram));
    lemma_graphml_node_rom(n);
    lemma_contains_within(doc, graphml_node(n), data_text("rom"@, n.rom));
    lemma_graphml_node_os(n);
    lemma_contains_within(doc, graphml_node(n), data_text("os"@, n.os));
    lemma_graphml_node_network_bw(n);
    lemma_contains_within(doc, graphml_node(n), data_text("network_bw"@, n.network_bw));
    lemma_graphml_node_software(n);
    lemma_contains_within(doc, graphml_node(n), data_text("software"@, n.software));
}

/// Each link of a graph stands in the GraphML document it is saved as, in
/// an `edge` element whose source is its first end and whose target is its
/// second.
pub proof fn lemma_graphml_document_holds_each_link(
    nodes: Seq<NodeView>,
    links: Seq<LinkView>,
    j: int,
)
    requires
        0 <= j < links.len(),
    ensures
        contains_text(graphml_document(nodes, links), "<edge source=\""@ + links[j].node1_id + "\" target=\""@ + links[j].node2_id + "\"/>"@),
{
    broadcast use lemma_contains_before, lemma_contains_after;

    let l = links[j];
    lemma_graphml_edges_hold(links, j);
    lemma_graphml_edge_tag(l);
    lemma_contains_within(graphml_document(nodes, links), graphml_edge(l), "<edge source=\""@ + l.node1_id + "\" target=\""@ + l.node2_id + "\"/>"@);
}

/// Each node of a graph stands in the GEXF document it is saved as: its id
/// and name in a `node` element, and each of its attributes, its
/// coordinates among them, in an `attvalue` for that attribute.
pub proof fn lemma_gexf_document_holds_each_node(
    nodes: Seq<NodeView>,
    links: Seq<LinkView>,
    i: int,
)
    requires
        0 <= i < nodes.len(),
    ensures
        contains_text(gexf_document(nodes, links), "<node id=\""@ + nodes[i].id + "\" label=\""@ + nodes[i].name + "\">"@),
        contains_text(gexf_document(nodes, links), attvalue_text("pos_x"@, coordinate_text(nodes[i].x))),
        contains_text(gexf_document(nodes, links), attvalue_text("pos_y"@, coordinate_text(nodes[i].y))),
        contains_text(gexf_document(nodes, links), attvalue_text("ip_addr"@, nodes[i].ip_addr)),
        contains_text(gexf_document(nodes, links), attvalue_text("cpu"@, nodes[i].cpu)),
        contains_text(gexf_document(nodes, links), attvalue_text("ram"@, nodes[i].ram)),
        contains_text(gexf_document(nodes, links), attvalue_text("rom"@, nodes[i].rom)),
        contains_text(gexf_document(nodes, links), attvalue_text("os"@, nodes[i].os)),
        contains_text(gexf_document(nodes, links), attvalue_text("network_bw"@, nodes[i].network_bw)),
        contains_text(gexf_document(nodes, links), attvalue_text("software"@, nodes[i].software)),
{
    broadcast use lemma_contains_before, lemma_contains_after;

    let n = nodes[i];
    let doc = gexf_document(nodes, links);
    lemma_gexf_nodes_hold(nodes, i);
    lemma_gexf_node_tag(n);
    lemma_contains_within(doc, gexf_node(n), "<node id=\""@ + n.id + "\" label=\""@ + n.name + "\">"@);
    lemma_gexf_node_pos_x(n);
    lemma_contains_within(doc, gexf_node(n), attvalue_text("pos_x"@, coordinate_text(n.x)));
    lemma_gexf_node_pos_y(n);
    lemma_contains_within(doc, gexf_node(n), attvalue_text("pos_y"@, coordinate_text(n.y)));
    lemma_gexf_node_ip_addr(n);
    lemma_contains_within(doc, gexf_node(n), attvalue_text("ip_addr"@, n.ip_addr));
    lemma_gexf_node_cpu(n);
    lemma_contains_within(doc, gexf_node(n), attvalue_text("cpu"@, n.cpu));
    lemma_gexf_node_ram(n);
    lemma_contains_within(doc, gexf_node(n), attvalue_text("ram"@, n.ram));
    lemma_gexf_node_rom(n);
    lemma_contains_within(doc, gexf_node(n), attvalue_text("rom"@, n.rom));
    lemma_gexf_node_os(n);
    lemma_contains_within(doc, gexf_node(n), attvalue_text("os"@, n.os));
    lemma_gexf_node_network_bw(n);
    lemma_contains_within(doc, gexf_node(n), attvalue_text("network_bw"@, n.network_bw));
    lemma_gexf_node_software(n);
    lemma_contains_within(doc, gexf_node(n), attvalue_text("software"@, n.software));
}

/// Each link of a graph stands in the GEXF document it is saved as, in an
/// `edge` element named after its first end, whose source is its first end
/// and whose target is its second.
pub proof fn lemma_gexf_document_holds_each_link(
    nodes: Seq<NodeView>,
    links: Seq<LinkView>,
    j: int,
)
    requires
        0 <= j < links.len(),
    ensures
        contains_text(gexf_document(nodes, links), "<edge id=\""@ + links[j].node1_id + "\" source=\""@ + links[j].node1_id + "\" target=\""@ + links[j].node2_id + "\"/>"@),
{
    broadcast use lemma_contains_before, lemma_contains_after;

    let l = links[j];
    lemma_gexf_edges_hold(links, j);
    lemma_gexf_edge_tag(l);
    lemma_contains_within(gexf_document(nodes, links), gexf_edge(l), "<edge id=\""@ + l.node1_id + "\" source=\""@ + l.node1_id + "\" target=\""@ + l.node2_id + "\"/>"@);
}

} // verus!
