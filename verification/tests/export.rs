use bst::graphviz::render;
use bst::tree::BST;

fn seeded() -> BST<i32> {
    let mut tree: BST<i32> = BST::new();
    for &node in [10, 12, 5, 4, 20, 8, 7, 15, 13].iter() {
        tree.insert(node);
    }
    tree
}

#[test]
fn render_of_no_edges_is_an_empty_graph() {
    assert_eq!(render(&Vec::new()), "graph {\n}");
}

#[test]
fn render_writes_one_tabbed_line_per_edge() {
    let labels = vec![
        ("a".to_string(), "b".to_string()),
        ("a".to_string(), "c".to_string()),
    ];
    assert_eq!(render(&labels), "graph {\n\ta -- b\n\ta -- c\n}");
}

#[test]
fn render_keeps_labels_verbatim() {
    let labels = vec![("".to_string(), "x y\t\"z\"".to_string())];
    assert_eq!(render(&labels), "graph {\n\t -- x y\t\"z\"\n}");
}

#[test]
fn export_of_seeded_tree_has_the_expected_text() {
    let export = seeded().to_graphviz("graph");
    assert_eq!(
        export.text,
        "graph {\n\
         \t10 -- 5\n\
         \t5 -- 4\n\
         \t5 -- 8\n\
         \t8 -- 7\n\
         \t10 -- 12\n\
         \t12 -- 20\n\
         \t20 -- 15\n\
         \t15 -- 13\n\
         }"
    );
}

#[test]
fn export_of_seeded_tree_includes_every_expected_edge() {
    let export = seeded().to_graphviz("graph");
    let lines: Vec<&str> = export.text.lines().collect();
    for edge in [
        "10 -- 5", "10 -- 12", "5 -- 4", "5 -- 8", "8 -- 7", "12 -- 20", "20 -- 15", "15 -- 13",
    ] {
        assert!(lines.contains(&format!("\t{}", edge).as_str()), "missing {}", edge);
    }
    assert_eq!(lines.len(), 10);
    assert_eq!(lines[0], "graph {");
    assert_eq!(lines[9], "}");
    assert!(!export.text.ends_with('\n'));
}

#[test]
fn export_names_the_description_file() {
    let export = seeded().to_graphviz("graph");
    assert_eq!(export.path, "graphviz/graph.dot");
}

#[test]
fn export_launches_dot_for_a_png_beside_the_description() {
    let export = seeded().to_graphviz("family");
    assert_eq!(export.program, "dot");
    assert_eq!(
        export.args,
        vec!["-Tpng", "graphviz/family.dot", "-o", "graphviz/family.png"]
    );
}

#[test]
fn export_of_empty_tree_is_an_empty_graph() {
    let tree: BST<i32> = BST::new();
    let export = tree.to_graphviz("none");
    assert_eq!(export.text, "graph {\n}");
    assert_eq!(export.path, "graphviz/none.dot");
}

#[test]
fn export_of_single_node_has_no_edge_lines() {
    let export = BST::from(1u8).to_graphviz("one");
    assert_eq!(export.text, "graph {\n}");
}

#[test]
fn export_labels_use_debug_formatting() {
    let mut tree: BST<&str> = BST::new();
    for v in ["m", "a", "z"] {
        tree.insert(v);
    }
    let export = tree.to_graphviz("words");
    assert_eq!(export.text, "graph {\n\t\"m\" -- \"a\"\n\t\"m\" -- \"z\"\n}");
}

#[test]
fn export_labels_negative_numbers_and_tuples() {
    let mut tree: BST<(i8, char)> = BST::new();
    for v in [(0, 'b'), (-1, 'a')] {
        tree.insert(v);
    }
    let export = tree.to_graphviz("pairs");
    assert_eq!(export.text, "graph {\n\t(0, 'b') -- (-1, 'a')\n}");
}

#[test]
fn export_repeated_under_one_name_is_identical() {
    let tree = seeded();
    let first = tree.to_graphviz("graph");
    let second = tree.to_graphviz("graph");
    assert_eq!(first.path, second.path);
    assert_eq!(first.text, second.text);
    assert_eq!(first.args, second.args);
}

#[test]
fn export_shows_both_copies_of_a_duplicate() {
    let mut tree: BST<i32> = BST::new();
    tree.insert(5);
    tree.insert(5);
    assert_eq!(tree.to_graphviz("twice").text, "graph {\n\t5 -- 5\n}");
}
