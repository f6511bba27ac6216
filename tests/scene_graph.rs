use gloom::scene::{DrawCall, NodeError, SceneNode, Step};

fn drawable(label: &'static str, handle: u32, count: i32) -> SceneNode<&'static str> {
    SceneNode::create_drawable(label, handle, count).unwrap()
}

/// The labels of the entered nodes, with the handle and count drawn there.
fn entered(steps: &[Step<'_, &'static str>]) -> Vec<(&'static str, Option<(u32, i32)>)> {
    let mut out = Vec::new();
    for s in steps {
        if let Step::Enter { transform, call } = s {
            out.push((**transform, call.map(|c| (c.handle(), c.primitive_count()))));
        }
    }
    out
}

fn submissions(steps: &[Step<'_, &'static str>]) -> Vec<(u32, i32)> {
    entered(steps).into_iter().filter_map(|(_, c)| c).collect()
}

fn helicopter_scene() -> SceneNode<&'static str> {
    let mut root = SceneNode::create_empty("root");
    let terrain = drawable("terrain", 1, 300);
    let mut group = SceneNode::create_empty("group");
    let mut body = drawable("body", 2, 120);
    body.add_child(drawable("door", 3, 12));
    body.add_child(drawable("main rotor", 4, 36));
    body.add_child(drawable("tail rotor", 5, 24));
    group.add_child(body);
    root.add_child(terrain);
    root.add_child(group);
    root
}

#[test]
fn full_scene_draws_five_parts_depth_first() {
    let root = helicopter_scene();
    let steps = root.draw();
    assert_eq!(
        submissions(&steps),
        vec![(1, 300), (2, 120), (3, 12), (4, 36), (5, 24)]
    );
    let order: Vec<&str> = entered(&steps).iter().map(|(l, _)| *l).collect();
    assert_eq!(
        order,
        vec!["root", "terrain", "group", "body", "door", "main rotor", "tail rotor"]
    );
    assert_eq!(entered(&steps)[0].1, None);
    assert_eq!(entered(&steps)[2].1, None);
    assert_eq!(steps.len(), 14);
}

#[test]
fn enter_and_leave_are_nested() {
    let root = helicopter_scene();
    let steps = root.draw();
    let mut depth: i32 = 0;
    let mut depths = Vec::new();
    for s in &steps {
        match s {
            Step::Enter { .. } => {
                depth += 1;
                depths.push(depth);
            }
            Step::Leave => depth -= 1,
        }
        assert!(depth >= 0);
    }
    assert_eq!(depth, 0);
    assert_eq!(depths, vec![1, 2, 2, 3, 4, 4, 4]);
}

#[test]
fn zero_primitives_still_bind() {
    let node = drawable("empty mesh", 9, 0);
    let steps = node.draw();
    assert_eq!(steps.len(), 2);
    assert_eq!(submissions(&steps), vec![(9, 0)]);
    assert_eq!(node.primitive_count(), 0);
    assert_eq!(node.render_handle(), Some(9));
}

#[test]
fn empty_node_draws_nothing() {
    let node: SceneNode<&'static str> = SceneNode::create_empty("group");
    assert_eq!(node.primitive_count(), -1);
    assert_eq!(node.render_handle(), None);
    let steps = node.draw();
    assert_eq!(steps.len(), 2);
    assert!(submissions(&steps).is_empty());
}

#[test]
fn drawable_needs_handle_and_count() {
    assert!(matches!(
        SceneNode::create_drawable("x", 0, 3),
        Err(NodeError::NullHandle)
    ));
    assert!(matches!(
        SceneNode::create_drawable("x", 4, -1),
        Err(NodeError::NegativeCount)
    ));
    assert!(matches!(DrawCall::new(0, -1), Err(NodeError::NullHandle)));
    let c = DrawCall::new(7, 11).unwrap();
    assert_eq!((c.handle(), c.primitive_count()), (7, 11));
}

#[test]
fn detach_and_reattach_keeps_walk() {
    let mut root = helicopter_scene();
    let before = root.draw().len();
    let group = root.detach_child(1).unwrap();
    assert_eq!(group.transform, "group");
    assert_eq!(root.children.len(), 1);
    assert_eq!(root.draw().len(), 4);
    assert!(root.detach_child(5).is_none());
    root.add_child(group);
    let steps = root.draw();
    assert_eq!(steps.len(), before);
    assert_eq!(
        submissions(&steps),
        vec![(1, 300), (2, 120), (3, 12), (4, 36), (5, 24)]
    );
}

#[test]
fn children_keep_insertion_order() {
    let mut root = SceneNode::create_empty("root");
    root.add_child(drawable("b", 2, 1));
    root.add_child(drawable("a", 1, 1));
    root.add_child(SceneNode::create_empty("c"));
    let order: Vec<&str> = entered(&root.draw()).iter().map(|(l, _)| *l).collect();
    assert_eq!(order, vec!["root", "b", "a", "c"]);
}
