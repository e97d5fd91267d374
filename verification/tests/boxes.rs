use termail::mailboxes::{dir_tree, DirNode, MailboxNode};

fn dir(name: &str, path: &str, unread: u64, children: Vec<DirNode>) -> DirNode {
    DirNode { name: name.to_string(), path: path.to_string(), unread, children }
}

fn count_nodes(n: &MailboxNode) -> usize {
    1 + n.children.iter().map(count_nodes).sum::<usize>()
}

#[test]
fn dir_tree_labels_unread_counts() {
    // The displayed count of a node covers its own area plus its direct
    // child entries.
    let t = dir(
        "mail",
        "/m",
        0,
        vec![dir("Inbox", "/m/Inbox", 2, vec![]), dir("Archive", "/m/Archive", 0, vec![])],
    );
    let root = dir_tree(&t, 2);
    assert_eq!(root.id, "/m");
    assert_eq!(root.unread, 2);
    assert_eq!(root.label, "mail(2)");
    assert_eq!(root.children.len(), 2);
    assert_eq!(root.children[0].label, "Inbox(2)");
    assert_eq!(root.children[1].label, "Archive");
    assert!(root.children[0].is_leaf());
    assert!(!root.is_leaf());
}

#[test]
fn dir_tree_zero_unread_has_plain_label() {
    let t = dir("Empty", "/m/Empty", 0, vec![]);
    let root = dir_tree(&t, 2);
    assert_eq!(root.label, "Empty");
    assert_eq!(root.unread, 0);
}

#[test]
fn dir_tree_large_count_renders_decimal() {
    let t = dir("Big", "/m/Big", 1234, vec![]);
    let root = dir_tree(&t, 0);
    assert_eq!(root.label, "Big(1234)");
}

#[test]
fn dir_tree_depth_limit_cuts_nodes_not_counts() {
    let inner = dir("deep", "/m/a/deep", 1, vec![]);
    let mid = dir("a", "/m/a", 1, vec![inner]);
    let t = dir("mail", "/m", 0, vec![mid]);

    // Depth 2: the root, "a", and "deep" all get nodes.
    let full = dir_tree(&t, 2);
    assert_eq!(count_nodes(&full), 3);

    // Depth 1: "deep" gets no node, but still counts toward "a"'s label.
    let cut = dir_tree(&t, 1);
    assert_eq!(count_nodes(&cut), 2);
    assert_eq!(cut.children[0].label, "a(2)");
    assert!(cut.children[0].is_leaf());

    // Depth 0: only the root node, its count covering its direct child.
    let root_only = dir_tree(&t, 0);
    assert_eq!(count_nodes(&root_only), 1);
    assert_eq!(root_only.label, "mail(1)");
}

#[test]
fn dir_tree_node_count_matches_entries_within_depth() {
    let t = dir(
        "mail",
        "/m",
        0,
        vec![
            dir("a", "/m/a", 0, vec![dir("x", "/m/a/x", 0, vec![]), dir("y", "/m/a/y", 0, vec![])]),
            dir("b", "/m/b", 0, vec![]),
        ],
    );
    // Within two levels every one of the five entries is reachable.
    assert_eq!(count_nodes(&dir_tree(&t, 2)), 5);
    // Within one level only the root and its two children are.
    assert_eq!(count_nodes(&dir_tree(&t, 1)), 3);
}

#[test]
fn dir_tree_keeps_listing_order() {
    let t = dir(
        "mail",
        "/m",
        0,
        vec![
            dir("zeta", "/m/zeta", 0, vec![]),
            dir("alpha", "/m/alpha", 0, vec![]),
            dir("mid", "/m/mid", 0, vec![]),
        ],
    );
    let root = dir_tree(&t, 1);
    let names: Vec<&str> = root.children.iter().map(|c| c.label.as_str()).collect();
    assert_eq!(names, vec!["zeta", "alpha", "mid"]);
}
