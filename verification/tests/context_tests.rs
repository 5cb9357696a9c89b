use jxl_annotate::context::ContextStack;

#[test]
fn test_context_stack() {
    let mut stack = ContextStack::new();
    assert_eq!(stack.path(), "");

    stack.push("ImageHeader", 0);
    assert_eq!(stack.path(), "ImageHeader");

    stack.push("size", 16);
    assert_eq!(stack.path(), "ImageHeader.size");

    stack.pop();
    assert_eq!(stack.path(), "ImageHeader");
}

#[test]
fn context_depth_follows_push_and_pop() {
    let mut stack = ContextStack::new();
    assert_eq!(stack.depth(), 0);
    stack.push("FrameHeader", 100);
    stack.push("passes", 120);
    stack.push("num_passes", 121);
    assert_eq!(stack.depth(), 3);
    assert_eq!(stack.path(), "FrameHeader.passes.num_passes");
    let frame = stack.pop().unwrap();
    assert_eq!(frame.name, "num_passes");
    assert_eq!(frame.start_bit, 121);
    assert_eq!(stack.depth(), 2);
}

#[test]
fn pop_of_empty_stack_gives_nothing() {
    let mut stack = ContextStack::new();
    assert!(stack.pop().is_none());
    assert_eq!(stack.depth(), 0);
    assert_eq!(stack.path(), "");
}

#[test]
fn pop_undoes_push() {
    let mut stack = ContextStack::new();
    stack.push("a", 1);
    stack.push("b", 2);
    let before = stack.path();
    stack.push("c", 3);
    stack.pop();
    assert_eq!(stack.path(), before);
    assert_eq!(stack.depth(), 2);
}

#[test]
fn depth_counts_pushes_and_effective_pops() {
    let mut stack = ContextStack::new();
    assert!(stack.pop().is_none());
    stack.push("a", 0);
    stack.push("b", 1);
    stack.push("c", 2);
    assert!(stack.pop().is_some());
    stack.push("d", 3);
    assert!(stack.pop().is_some());
    assert!(stack.pop().is_some());
    // 4 pushes, 3 pops that removed a context.
    assert_eq!(stack.depth(), 1);
    assert_eq!(stack.path(), "a");
}

#[test]
fn nested_contexts_restore_the_path() {
    let mut stack = ContextStack::new();
    stack.push("FrameHeader", 0);
    stack.push("passes", 10);
    let inner = stack.path();
    stack.push("x", 11);
    stack.push("y", 12);
    stack.pop();
    stack.pop();
    assert_eq!(stack.path(), inner);
    assert_eq!(inner, "FrameHeader.passes");
    stack.pop();
    assert_eq!(stack.path(), "FrameHeader");
}
