use lspgraph::fixture::{leaf, middle, root, with_closure};

#[test]
fn the_fixture_call_chain_computes() {
    assert_eq!(leaf(1), 2);
    assert_eq!(middle(1), 5);
    assert_eq!(root(1), 5);
    assert_eq!(with_closure(&[1, -2, 3]), vec![2, -4, 6]);
}
