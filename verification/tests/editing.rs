use p2p_network_visualizer::editing::{
    add_new_node, add_selected_link, apply_node_edit, check_edited_node, check_new_node,
    choose_node_to_delete,
    delete_links_between, delete_node, find_link_between, link_segments, select_link_end,
    shift_past_side_panel, NodeCheck,
};
use p2p_network_visualizer::model::{Link, Node, Point};

fn node(id: &str, name: &str, x: i64) -> Node {
    let mut n = Node::new();
    n.id = id.to_string();
    n.name = name.to_string();
    n.center = Point { x, y: 0 };
    n
}

fn link(a: &str, b: &str) -> Link {
    Link { node1_id: a.to_string(), node2_id: b.to_string() }
}

fn ends(links: &[Link]) -> Vec<(String, String)> {
    links.iter().map(|l| (l.node1_id.clone(), l.node2_id.clone())).collect()
}

fn s(x: &str) -> String {
    x.to_string()
}

#[test]
fn a_link_is_added_only_between_two_chosen_nodes() {
    let mut links = Vec::new();
    assert!(!add_selected_link(&mut links, &Some(node("a", "A", 0)), &None));
    assert!(links.is_empty());
    assert!(add_selected_link(&mut links, &Some(node("a", "A", 0)), &Some(node("b", "B", 0))));
    assert_eq!(ends(&links), vec![(s("a"), s("b"))]);
}

#[test]
fn a_link_is_found_in_either_direction() {
    let links = vec![link("a", "b"), link("c", "a")];
    assert_eq!(find_link_between(&links, &s("b"), &s("a")).unwrap().node1_id, "a");
    assert_eq!(find_link_between(&links, &s("a"), &s("c")).unwrap().node1_id, "c");
    assert!(find_link_between(&links, &s("b"), &s("c")).is_none());
}

#[test]
fn deleting_links_between_two_nodes_keeps_the_others_in_order() {
    let mut links = vec![link("a", "b"), link("c", "d"), link("b", "a"), link("a", "c")];
    delete_links_between(&mut links, &s("a"), &s("b"));
    assert_eq!(ends(&links), vec![(s("c"), s("d")), (s("a"), s("c"))]);
    assert!(find_link_between(&links, &s("a"), &s("b")).is_none());
    delete_links_between(&mut links, &s("a"), &s("b"));
    assert_eq!(links.len(), 2);
}

#[test]
fn adding_then_deleting_a_link_is_deleting_alone() {
    let mut with = vec![link("a", "b"), link("c", "d")];
    let mut without = vec![link("a", "b"), link("c", "d")];
    add_selected_link(&mut with, &Some(node("a", "A", 0)), &Some(node("b", "B", 0)));
    delete_links_between(&mut with, &s("a"), &s("b"));
    delete_links_between(&mut without, &s("a"), &s("b"));
    assert_eq!(ends(&with), ends(&without));
}

#[test]
fn deleting_a_node_deletes_its_links() {
    let mut nodes = vec![node("a", "A", 0), node("b", "B", 0), node("c", "C", 0)];
    let mut links = vec![link("a", "b"), link("b", "c"), link("c", "a")];
    assert!(delete_node(&mut nodes, &mut links, &s("b")));
    assert_eq!(nodes.iter().map(|n| n.id.clone()).collect::<Vec<_>>(), vec![s("a"), s("c")]);
    assert_eq!(ends(&links), vec![(s("c"), s("a"))]);
}

#[test]
fn deleting_an_unknown_node_changes_nothing() {
    let mut nodes = vec![node("a", "A", 0)];
    let mut links = vec![link("a", "x")];
    assert!(!delete_node(&mut nodes, &mut links, &s("x")));
    assert_eq!(nodes.len(), 1);
    assert_eq!(links.len(), 1);
}

#[test]
fn a_new_node_is_checked_against_the_others() {
    let nodes = vec![node("a", "Alpha", 0)];
    assert_eq!(check_new_node(&nodes, &s("a"), &s("Other")), NodeCheck::IdTaken);
    assert_eq!(check_new_node(&nodes, &s("a"), &s("Alpha")), NodeCheck::IdTaken);
    assert_eq!(check_new_node(&nodes, &s("b"), &s("Alpha")), NodeCheck::NameTaken);
    assert_eq!(check_new_node(&nodes, &s("b"), &s("Beta")), NodeCheck::Fine);
}

#[test]
fn a_new_node_needs_an_id_a_name_and_a_free_id() {
    let mut nodes = vec![node("a", "Alpha", 0)];
    assert!(!add_new_node(&mut nodes, node("", "X", 0), Point { x: 1, y: 2 }, 15_000));
    assert!(!add_new_node(&mut nodes, node("x", "", 0), Point { x: 1, y: 2 }, 15_000));
    assert!(!add_new_node(&mut nodes, node("a", "X", 0), Point { x: 1, y: 2 }, 15_000));
    assert_eq!(nodes.len(), 1);
    assert!(add_new_node(&mut nodes, node("b", "Alpha", 0), Point { x: 1, y: 2 }, 15_000));
    assert_eq!(nodes.len(), 2);
    assert_eq!(nodes[1].center, Point { x: 1, y: 2 });
    assert_eq!(nodes[1].radius, 15_000);
}

#[test]
fn an_edited_node_is_checked_against_the_others() {
    let nodes = vec![node("a", "Alpha", 0), node("b", "Beta", 0)];
    assert_eq!(check_edited_node(&nodes, &s("a"), &s("Alpha"), &node("a", "Alpha", 0)), NodeCheck::Fine);
    assert_eq!(check_edited_node(&nodes, &s("a"), &s("Alpha"), &node("b", "Alpha", 0)), NodeCheck::IdTaken);
    assert_eq!(check_edited_node(&nodes, &s("a"), &s("Alpha"), &node("a", "Beta", 0)), NodeCheck::NameTaken);
    assert_eq!(check_edited_node(&nodes, &s("a"), &s("Alpha"), &node("z", "Zeta", 0)), NodeCheck::Fine);
}

#[test]
fn editing_a_node_renames_its_links() {
    let mut nodes = vec![node("a", "Alpha", 0), node("b", "Beta", 0)];
    let mut links = vec![link("a", "b"), link("b", "a"), link("a", "a")];
    let mut edited = node("z", "Zeta", 7);
    edited.cpu = s("arm");
    assert!(apply_node_edit(&mut nodes, &mut links, &s("a"), edited));
    assert_eq!(nodes[0].id, "z");
    assert_eq!(nodes[0].cpu, "arm");
    assert_eq!(nodes[0].center, Point { x: 7, y: 0 });
    assert_eq!(ends(&links), vec![(s("z"), s("b")), (s("b"), s("z")), (s("z"), s("z"))]);
}

#[test]
fn an_edit_to_a_taken_id_changes_nothing() {
    let mut nodes = vec![node("a", "Alpha", 0), node("b", "Beta", 0)];
    let mut links = vec![link("a", "b")];
    assert!(!apply_node_edit(&mut nodes, &mut links, &s("a"), node("b", "New", 0)));
    assert_eq!(nodes[0].name, "Alpha");
    assert_eq!(ends(&links), vec![(s("a"), s("b"))]);
}

#[test]
fn an_edit_keeping_the_id_leaves_the_links() {
    let mut nodes = vec![node("a", "Alpha", 0)];
    let mut links = vec![link("a", "b")];
    assert!(apply_node_edit(&mut nodes, &mut links, &s("a"), node("a", "New", 0)));
    assert_eq!(nodes[0].name, "New");
    assert_eq!(ends(&links), vec![(s("a"), s("b"))]);
}

#[test]
fn links_are_drawn_between_the_first_two_nodes_at_their_ends() {
    let nodes = vec![node("a", "A", 0), node("x", "X", 0), node("b", "B", 0), node("a", "A2", 0)];
    let links = vec![link("a", "b"), link("x", "missing"), link("b", "a"), link("a", "a")];
    assert_eq!(link_segments(&nodes, &links), vec![(0, 2), (0, 2), (0, 3)]);
}

#[test]
fn the_first_chosen_node_is_the_first_end() {
    let mut first = None;
    let mut second = None;
    select_link_end(&mut first, &mut second, node("a", "A", 0));
    assert_eq!(first.as_ref().unwrap().id, "a");
    assert!(second.is_none());
    select_link_end(&mut first, &mut second, node("b", "B", 0));
    assert_eq!(first.as_ref().unwrap().id, "a");
    assert_eq!(second.as_ref().unwrap().id, "b");
}

#[test]
fn nodes_under_the_side_panel_move_everything_right() {
    let mut nodes = vec![node("a", "A", 100_000), node("b", "B", 500_000)];
    assert!(shift_past_side_panel(&mut nodes, 180_000));
    assert_eq!(nodes[0].center.x, 280_000);
    assert_eq!(nodes[1].center.x, 680_000);
    assert!(!shift_past_side_panel(&mut nodes, 180_000));
    assert_eq!(nodes[0].center.x, 280_000);
}

#[test]
fn a_click_chooses_the_node_to_delete_and_a_release_ends_choosing() {
    let node = Node::new();
    let mut click_released = true;
    let mut deleting = true;
    let mut show_dialog = false;
    let mut to_delete: Option<Node> = None;
    let marked = choose_node_to_delete(
        &node, true, false, &mut click_released, &mut deleting, &mut show_dialog, &mut to_delete,
    );
    assert!(marked);
    assert!(!click_released);
    assert!(deleting);
    assert!(show_dialog);
    assert!(to_delete.is_some());
    let marked = choose_node_to_delete(
        &node, false, true, &mut click_released, &mut deleting, &mut show_dialog, &mut to_delete,
    );
    assert!(!marked);
    assert!(click_released);
    assert!(!deleting);
    assert!(show_dialog);
}

#[test]
fn hovering_without_a_click_only_marks() {
    let node = Node::new();
    let mut click_released = true;
    let mut deleting = true;
    let mut show_dialog = false;
    let mut to_delete: Option<Node> = None;
    let marked = choose_node_to_delete(
        &node, false, false, &mut click_released, &mut deleting, &mut show_dialog, &mut to_delete,
    );
    assert!(marked);
    assert!(click_released && deleting && !show_dialog && to_delete.is_none());
}
