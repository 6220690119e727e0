use p2p_network_visualizer::connection::handle_connection_data;
use p2p_network_visualizer::model::Node;

fn nodes(n: usize) -> Vec<Node> {
    (0..n)
        .map(|i| {
            let mut node = Node::new();
            node.id = format!("n{}", i);
            node
        })
        .collect()
}

#[test]
fn a_plain_index_takes_that_node_down() {
    let mut ns = nodes(3);
    assert_eq!(handle_connection_data(&mut ns, "2"), Some(2));
    assert!(ns[0].is_online && ns[1].is_online);
    assert!(!ns[2].is_online);
}

#[test]
fn white_space_around_the_index_is_ignored() {
    let mut ns = nodes(3);
    assert_eq!(handle_connection_data(&mut ns, "  1 \r\n"), Some(1));
    assert!(!ns[1].is_online);
    assert_eq!(handle_connection_data(&mut ns, "\u{3000}0\u{a0}"), Some(0));
    assert!(!ns[0].is_online);
}

#[test]
fn a_plus_sign_is_accepted() {
    let mut ns = nodes(3);
    assert_eq!(handle_connection_data(&mut ns, "+2"), Some(2));
    assert!(!ns[2].is_online);
}

#[test]
fn text_that_is_no_index_changes_nothing() {
    let mut ns = nodes(3);
    for text in ["", " ", "abc", "-1", "1 2", "+", "1.0", "99999999999999999999999"] {
        assert_eq!(handle_connection_data(&mut ns, text), None);
    }
    assert!(ns.iter().all(|n| n.is_online));
}
