use arson_json::{materialize, parse, JsonValue, TreeNode};

fn tree_of_text(t: &str) -> TreeNode {
    materialize(&parse(t).expect("valid JSON"))
}

#[test]
fn empty_object_gives_one_container_node() {
    let tree = tree_of_text("{}");
    assert_eq!(tree.label, "root");
    assert_eq!(tree.value, "{object}");
    assert!(tree.children.is_empty());
}

#[test]
fn duplicate_keys_stay_as_siblings_in_order() {
    let tree = tree_of_text("{\"a\":1,\"a\":2}");
    assert_eq!(tree.value, "{object}");
    assert_eq!(tree.children.len(), 2);
    assert_eq!(tree.children[0].label, "a");
    assert_eq!(tree.children[0].value, "1");
    assert_eq!(tree.children[1].label, "a");
    assert_eq!(tree.children[1].value, "2");
}

#[test]
fn array_elements_are_labelled_by_index() {
    let tree = tree_of_text("[1,2,3]");
    assert_eq!(tree.value, "[list]");
    let labels: Vec<&str> = tree.children.iter().map(|c| c.label.as_str()).collect();
    let values: Vec<&str> = tree.children.iter().map(|c| c.value.as_str()).collect();
    assert_eq!(labels, vec!["[0]", "[1]", "[2]"]);
    assert_eq!(values, vec!["1", "2", "3"]);
}

#[test]
fn empty_array_keeps_its_node() {
    let tree = tree_of_text("{\"xs\":[]}");
    assert_eq!(tree.children.len(), 1);
    assert_eq!(tree.children[0].label, "xs");
    assert_eq!(tree.children[0].value, "[list]");
    assert!(tree.children[0].children.is_empty());
}

#[test]
fn scalars_show_their_text() {
    let tree = tree_of_text("{\"n\":null,\"t\":true,\"f\":false,\"s\":\"a\\\"b\",\"x\":-1.50e+3}");
    let values: Vec<&str> = tree.children.iter().map(|c| c.value.as_str()).collect();
    assert_eq!(values, vec!["null", "true", "false", "a\"b", "-1.50e+3"]);
}

#[test]
fn nested_values_nest_in_the_tree() {
    let tree = tree_of_text("[{\"k\":[true]}]");
    let obj = &tree.children[0];
    assert_eq!(obj.label, "[0]");
    assert_eq!(obj.value, "{object}");
    let list = &obj.children[0];
    assert_eq!(list.label, "k");
    assert_eq!(list.value, "[list]");
    assert_eq!(list.children[0].label, "[0]");
    assert_eq!(list.children[0].value, "true");
}

#[test]
fn many_elements_get_multi_digit_labels() {
    let text = format!("[{}]", vec!["0"; 12].join(","));
    let tree = tree_of_text(&text);
    assert_eq!(tree.children.len(), 12);
    assert_eq!(tree.children[10].label, "[10]");
    assert_eq!(tree.children[11].label, "[11]");
}

#[test]
fn materializing_twice_gives_the_same_tree() {
    let text = "{\"a\":[1,{\"b\":null}],\"a\":\"x\"}";
    let v = parse(text).unwrap();
    assert_eq!(materialize(&v), materialize(&v));
    assert_eq!(materialize(&parse(text).unwrap()), materialize(&v));
}

#[test]
fn scalar_root_is_a_single_node() {
    let tree = materialize(&JsonValue::Str("hi".to_string()));
    assert_eq!(tree.label, "root");
    assert_eq!(tree.value, "hi");
    assert!(tree.children.is_empty());
}
