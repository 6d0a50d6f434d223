use tictactoe::canonical::simplified_board;
use tictactoe::game_state::GameState;
use tictactoe::player::BoardNode;

#[test]
fn root_node_children() {
    let root = BoardNode::new(None, 0);
    assert_eq!(root.game_state(), GameState::new());
    assert_eq!(root.parent_board(), None);
    let children = root.children();
    assert_eq!(children.len(), 9);
    assert_eq!(children[0].to_string(), "X        ");
    assert_eq!(children[8].to_string(), "        X");
    assert_eq!(root.unique_children().len(), 3);
}

#[test]
fn node_from_parent() {
    let parent = GameState::from_str("X        ").unwrap();
    let node = BoardNode::new(Some(parent.get_raw()), 4);
    assert_eq!(node.game_state().to_string(), "X   O    ");
    assert_eq!(node.parent_board(), Some(parent));
    let uniq = node.unique_children();
    assert_eq!(uniq.len(), 4);
    for u in uniq.iter() {
        assert_eq!(simplified_board(*u), *u);
    }
    assert_eq!(node.children().len(), 7);
}
