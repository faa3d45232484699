use kopye::preview::build_tree;
use kopye::preview::preview_as_tree;
use kopye::preview::tree_lines;
use kopye::preview::PreviewLine;
use kopye::preview::TreeNode;
use kopye::vfs::VirtualEntry;
use kopye::vfs::VirtualFS;

fn dir(path: &str) -> VirtualEntry {
    VirtualEntry { destination: Some(path.to_string()), content: None, is_file: false }
}

fn file(path: &str) -> VirtualEntry {
    VirtualEntry { destination: Some(path.to_string()), content: Some(String::new()), is_file: true }
}

fn staged() -> VirtualFS {
    VirtualFS {
        entries: vec![
            dir(""),
            dir("src"),
            file("src/main.rs"),
            file("README.md"),
            file("ghost/x.txt"),
            VirtualEntry { destination: None, content: None, is_file: true },
        ],
    }
}

#[test]
fn entries_hang_below_the_parents_staged_before_them() {
    let tree = build_tree(&staged(), "work/out");
    let expected = vec![
        TreeNode { name: "out".to_string(), children: vec![1, 3], is_file: false },
        TreeNode { name: "src".to_string(), children: vec![2], is_file: false },
        TreeNode { name: "main.rs".to_string(), children: vec![], is_file: true },
        TreeNode { name: "README.md".to_string(), children: vec![], is_file: true },
    ];
    assert_eq!(tree.nodes(), &expected);
}

#[test]
fn the_tree_is_drawn_line_by_line() {
    let lines = preview_as_tree(&staged(), "work/out");
    let texts: Vec<String> = lines.iter().map(|line| line.to_string()).collect();
    assert_eq!(
        texts,
        vec!["└── out", "    ├── src", "    │   └── main.rs", "    └── README.md"]
    );
    assert_eq!(
        lines[2],
        PreviewLine {
            prefix: "    │   ".to_string(),
            is_last: true,
            name: "main.rs".to_string(),
            is_file: true,
        }
    );
    assert_eq!(tree_lines(&build_tree(&staged(), "work/out")), lines);
}

#[test]
fn a_destination_without_a_name_is_shown_as_it_is() {
    let tree = build_tree(&VirtualFS::new(), "..");
    assert_eq!(
        tree.nodes(),
        &vec![TreeNode { name: "..".to_string(), children: vec![], is_file: false }]
    );
    let lines = tree_lines(&tree);
    assert_eq!(lines.len(), 1);
    assert_eq!(lines[0].to_string(), "└── ..");
}

#[test]
fn a_path_staged_twice_takes_later_children() {
    let vfs = VirtualFS { entries: vec![dir("a"), file("a/one"), dir("a"), file("a/two")] };
    let tree = build_tree(&vfs, "out");
    let expected = vec![
        TreeNode { name: "out".to_string(), children: vec![1, 3], is_file: false },
        TreeNode { name: "a".to_string(), children: vec![2], is_file: false },
        TreeNode { name: "one".to_string(), children: vec![], is_file: true },
        TreeNode { name: "a".to_string(), children: vec![4], is_file: false },
        TreeNode { name: "two".to_string(), children: vec![], is_file: true },
    ];
    assert_eq!(tree.nodes(), &expected);
    assert_eq!(TreeNode::new("n".to_string(), true).duplicate(), TreeNode::new("n".to_string(), true));
}
