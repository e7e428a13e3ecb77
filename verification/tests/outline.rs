use filefish::dissectors::{Block, ByteRange};
use filefish::outline::outline;

#[test]
fn outline_lists_parents_before_children() {
    let tree = vec![
        Block::node(
            "a".to_string(),
            ByteRange::new(0, 10),
            vec![
                Block::leaf("b".to_string(), ByteRange::new(0, 4)),
                Block::node(
                    "c".to_string(),
                    ByteRange::new(4, 10),
                    vec![Block::leaf("d".to_string(), ByteRange::new(4, 6))],
                )
                .expanded(),
            ],
        ),
        Block::leaf("e".to_string(), ByteRange::new(10, 12)),
    ];
    let entries = outline(&tree);
    let labels: Vec<&str> = entries.iter().map(|e| e.label.as_str()).collect();
    assert_eq!(labels, ["a", "b", "c", "d", "e"]);
    let depths: Vec<u64> = entries.iter().map(|e| e.depth).collect();
    assert_eq!(depths, [0, 1, 1, 2, 0]);
    assert!(entries[2].expandable && entries[2].default_expanded);
    assert!(!entries[1].expandable);
    assert_eq!(entries[3].range, ByteRange::new(4, 6));
}

#[test]
fn block_constructors_set_flags() {
    let leaf = Block::leaf("x".to_string(), ByteRange::new(1, 2));
    assert!(!leaf.expandable && !leaf.default_expanded && leaf.children.is_empty());
    let node = Block::node("y".to_string(), ByteRange::new(1, 2), vec![]);
    assert!(node.expandable && !node.default_expanded);
    assert!(node.expanded_if(true).default_expanded);
}
