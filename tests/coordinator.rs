use arson_json::{materialize, parse, Coordinator, ValidityState};

fn expect_valid(c: &Coordinator) -> &arson_json::TreeNode {
    match c.state() {
        ValidityState::Valid(t) => t,
        other => panic!("expected a valid state, got {:?}", other),
    }
}

#[test]
fn starts_with_the_tree_of_the_initial_text() {
    let c = Coordinator::new("{}");
    assert!(c.is_visible());
    assert_eq!(c.rebuild_count(), 1);
    assert_eq!(expect_valid(&c).value, "{object}");
}

#[test]
fn invalid_text_keeps_the_last_tree() {
    let mut c = Coordinator::new("{\"a\":1}");
    let before = materialize(&parse("{\"a\":1}").unwrap());
    c.on_text_changed("{bad");
    match c.state() {
        ValidityState::Invalid { last_good, message } => {
            assert_eq!(last_good.as_ref(), Some(&before));
            assert!(message.contains("Invalid"));
            assert!(message.starts_with("Invalid JSON\n"));
        },
        other => panic!("unexpected {:?}", other),
    }
    c.on_text_changed("still bad");
    match c.state() {
        ValidityState::Invalid { last_good, .. } => assert_eq!(last_good.as_ref(), Some(&before)),
        other => panic!("unexpected {:?}", other),
    }
    c.on_text_changed("[2]");
    assert_eq!(expect_valid(&c).children[0].value, "2");
}

#[test]
fn invalid_initial_text_has_no_tree() {
    let c = Coordinator::new("");
    match c.state() {
        ValidityState::Invalid { last_good, .. } => assert!(last_good.is_none()),
        other => panic!("unexpected {:?}", other),
    }
}

#[test]
fn hidden_edit_rebuilds_once_when_shown() {
    let mut c = Coordinator::new("{}");
    c.set_visible(false);
    c.on_text_changed("bad json");
    assert_eq!(c.rebuild_count(), 1);
    assert!(matches!(c.state(), ValidityState::Valid(_)));
    c.set_visible(true);
    assert_eq!(c.rebuild_count(), 2);
    assert_eq!(c.buffer(), "bad json");
    assert!(matches!(c.state(), ValidityState::Invalid { .. }));
}

#[test]
fn showing_a_visible_panel_does_not_rebuild() {
    let mut c = Coordinator::new("[]");
    c.set_visible(true);
    assert_eq!(c.rebuild_count(), 1);
    c.toggle_visibility();
    assert!(!c.is_visible());
    c.toggle_visibility();
    assert!(c.is_visible());
    assert_eq!(c.rebuild_count(), 2);
}

#[test]
fn identical_input_gives_identical_state() {
    let mut a = Coordinator::new("{}");
    let mut b = Coordinator::new("{}");
    a.on_text_changed("[1,{\"x\":null}]");
    b.on_text_changed("[1,{\"x\":null}]");
    assert_eq!(a.state(), b.state());
}
