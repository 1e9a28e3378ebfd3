use lib::model::ConfigNode;
use std::collections::HashSet;

fn prop_pairs(node: &ConfigNode) -> Vec<(String, String)> {
    node.props.clone()
}

fn pair(k: &str, v: &str) -> (String, String) {
    (k.to_string(), v.to_string())
}

#[test]
fn wide_tree_has_numbered_children() {
    let root = ConfigNode::generate_wide(3, 2, "ws");
    assert_eq!(root.name, "ws_root");
    assert_eq!(prop_pairs(&root), vec![pair("root_key", "root_val")]);
    assert_eq!(root.children.len(), 3);
    let names: Vec<&str> = root.children.iter().map(|c| c.name.as_str()).collect();
    assert_eq!(names, vec!["ws_child_0", "ws_child_1", "ws_child_2"]);
    assert_eq!(
        prop_pairs(&root.children[2]),
        vec![pair("key_ws_child_2_0", "val_0"), pair("key_ws_child_2_1", "val_1")]
    );
    assert!(root.children.iter().all(|c| c.children.is_empty()));
}

#[test]
fn wide_tree_without_children() {
    let root = ConfigNode::generate_wide(0, 5, "w");
    assert_eq!(root.name, "w_root");
    assert!(root.children.is_empty());
}

#[test]
fn wide_tree_counts_past_nine() {
    let root = ConfigNode::generate_wide(12, 11, "x");
    assert_eq!(root.children[10].name, "x_child_10");
    assert_eq!(root.children[11].props[10], pair("key_x_child_11_10", "val_10"));
}

#[test]
fn lopsided_forest_has_one_heavy_section() {
    let nodes = ConfigNode::generate_lopsided(3, 2, "ld");
    assert_eq!(nodes.len(), 3);
    assert_eq!(nodes[0].name, "ld_heavy");
    assert_eq!(
        prop_pairs(&nodes[0]),
        vec![
            pair("heavy_key_0", "heavy_value"),
            pair("heavy_key_1", "heavy_value"),
            pair("heavy_key_2", "heavy_value"),
        ]
    );
    assert_eq!(nodes[1].name, "ld_empty_0");
    assert_eq!(nodes[2].name, "ld_empty_1");
    assert!(nodes[1].props.is_empty() && nodes[2].props.is_empty());
    assert!(nodes.iter().all(|n| n.children.is_empty()));
}

#[test]
fn lopsided_forest_without_empty_sections() {
    let nodes = ConfigNode::generate_lopsided(0, 0, "p");
    assert_eq!(nodes.len(), 1);
    assert_eq!(nodes[0].name, "p_heavy");
    assert!(nodes[0].props.is_empty());
}

#[test]
fn matrix_forest_names_levels_and_nodes() {
    let nodes = ConfigNode::generate(2, 2, 1, "bn", 0);
    assert_eq!(nodes.len(), 2);
    assert_eq!(nodes[1].name, "bn_L0_N1");
    assert_eq!(
        prop_pairs(&nodes[1]),
        vec![pair("key_bn_L0_N1_0", "value_bn_L0_N1_0_xxxxxxxxxx")]
    );
    assert_eq!(nodes[1].children.len(), 2);
    assert_eq!(nodes[1].children[0].name, "bn_L1_N0");
    assert_eq!(nodes[1].children[1].name, "bn_L1_N1");
    assert!(nodes[1].children[0].children.is_empty());
}

#[test]
fn matrix_forest_of_depth_zero_is_empty() {
    assert!(ConfigNode::generate(0, 5, 3, "fs", 0).is_empty());
    assert!(ConfigNode::generate(4, 0, 3, "fs", 0).is_empty());
}

#[test]
fn matrix_forest_starts_at_given_level() {
    let nodes = ConfigNode::generate(1, 1, 0, "ds", 7);
    assert_eq!(nodes.len(), 1);
    assert_eq!(nodes[0].name, "ds_L7_N0");
    assert!(nodes[0].props.is_empty());
    assert!(nodes[0].children.is_empty());
}

fn depth(node: &ConfigNode) -> usize {
    node.children.iter().map(|c| 1 + depth(c)).max().unwrap_or(0)
}

#[test]
fn deep_matrix_has_requested_depth() {
    let nodes = ConfigNode::generate(8, 1, 2, "ds", 0);
    assert_eq!(nodes.len(), 1);
    assert_eq!(depth(&nodes[0]), 7);
    let bushy = ConfigNode::generate(3, 5, 10, "bn", 0);
    assert_eq!(bushy.len(), 5);
    assert!(bushy.iter().all(|n| depth(n) == 2));
}

fn assert_uniquely_keyed(node: &ConfigNode) {
    let keys: HashSet<&String> = node.props.iter().map(|p| &p.0).collect();
    assert_eq!(keys.len(), node.props.len());
    let names: HashSet<&String> = node.children.iter().map(|c| &c.name).collect();
    assert_eq!(names.len(), node.children.len());
    node.children.iter().for_each(assert_uniquely_keyed);
}

#[test]
fn generated_topologies_are_uniquely_keyed() {
    assert_uniquely_keyed(&ConfigNode::generate_wide(25, 12, "ws"));
    assert_uniquely_keyed(&ConfigNode::generate_exact_scale(40));
    let lopsided = ConfigNode::generate_lopsided(30, 20, "ld");
    let names: HashSet<&String> = lopsided.iter().map(|n| &n.name).collect();
    assert_eq!(names.len(), lopsided.len());
    lopsided.iter().for_each(assert_uniquely_keyed);
    let bushy = ConfigNode::generate(3, 11, 12, "bn", 0);
    let names: HashSet<&String> = bushy.iter().map(|n| &n.name).collect();
    assert_eq!(names.len(), bushy.len());
    bushy.iter().for_each(assert_uniquely_keyed);
}

#[test]
fn scale_section_numbers_its_properties() {
    let node = ConfigNode::generate_exact_scale(3);
    assert_eq!(node.name, "scale_3");
    assert_eq!(
        prop_pairs(&node),
        vec![pair("key_0", "val_0"), pair("key_1", "val_1"), pair("key_2", "val_2")]
    );
    assert!(node.children.is_empty());
    assert_eq!(ConfigNode::generate_exact_scale(100).props.len(), 100);
    assert_eq!(ConfigNode::generate_exact_scale(0).name, "scale_0");
}
