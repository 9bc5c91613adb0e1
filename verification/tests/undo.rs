use chalkboard::undo::UndoStack;

fn groups(stack: &UndoStack) -> Vec<Vec<usize>> {
    (0..stack.depth()).map(|i| stack.group(i).unwrap()).collect()
}

#[test]
fn new_stack_has_one_empty_group() {
    let stack = UndoStack::new();
    assert_eq!(stack.depth(), 1);
    assert_eq!(stack.open_len(), 0);
    assert_eq!(groups(&stack), vec![Vec::<usize>::new()]);
    assert_eq!(stack.group(1), None);
}

#[test]
fn append_fills_the_open_group_in_order() {
    let mut stack = UndoStack::new();
    stack.append(4);
    stack.append(2);
    stack.append(9);
    assert_eq!(groups(&stack), vec![vec![4, 2, 9]]);
    assert_eq!(stack.open_len(), 3);
}

#[test]
fn commit_opens_a_group_only_after_marks() {
    let mut stack = UndoStack::new();
    stack.commit();
    assert_eq!(stack.depth(), 1);
    stack.append(1);
    stack.commit();
    assert_eq!(groups(&stack), vec![vec![1], vec![]]);
    stack.commit();
    assert_eq!(stack.depth(), 2);
}

#[test]
fn undo_of_an_open_stroke_empties_the_group_and_keeps_it() {
    let mut stack = UndoStack::new();
    stack.append(1);
    stack.commit();
    stack.append(2);
    stack.append(3);
    assert_eq!(stack.undo(), vec![3, 2]);
    assert_eq!(groups(&stack), vec![vec![1], vec![]]);
}

#[test]
fn undo_after_release_removes_exactly_that_stroke() {
    let mut stack = UndoStack::new();
    stack.append(10);
    stack.append(11);
    stack.commit();
    stack.append(12);
    stack.append(13);
    stack.append(14);
    stack.commit();
    assert_eq!(stack.depth(), 3);
    assert_eq!(stack.undo(), vec![14, 13, 12]);
    assert_eq!(groups(&stack), vec![vec![10, 11], vec![]]);
    assert_eq!(stack.undo(), vec![11, 10]);
    assert_eq!(groups(&stack), vec![Vec::<usize>::new()]);
}

#[test]
fn repeated_undo_on_a_blank_stack_does_nothing() {
    let mut stack = UndoStack::new();
    for _ in 0..5 {
        assert_eq!(stack.undo(), Vec::<usize>::new());
        assert_eq!(stack.depth(), 1);
        assert_eq!(stack.open_len(), 0);
    }
}

#[test]
fn undo_never_leaves_the_stack_without_a_group() {
    let mut stack = UndoStack::new();
    for id in 0..4 {
        stack.append(id);
        stack.commit();
    }
    assert_eq!(stack.depth(), 5);
    for left in (1..5).rev() {
        stack.undo();
        assert_eq!(stack.depth(), left);
    }
    stack.undo();
    assert_eq!(stack.depth(), 1);
}

#[test]
fn clear_all_returns_every_mark_newest_first() {
    let mut stack = UndoStack::new();
    stack.append(1);
    stack.append(2);
    stack.commit();
    stack.append(3);
    stack.commit();
    stack.append(4);
    stack.append(5);
    assert_eq!(stack.clear_all(), vec![5, 4, 3, 2, 1]);
    assert_eq!(groups(&stack), vec![Vec::<usize>::new()]);
}

#[test]
fn clear_all_of_a_blank_stack_leaves_it_blank() {
    let mut stack = UndoStack::new();
    assert_eq!(stack.clear_all(), Vec::<usize>::new());
    assert_eq!(stack.depth(), 1);
    assert_eq!(stack.open_len(), 0);
}

#[test]
fn clear_all_works_at_any_depth() {
    for depth in [1usize, 2, 7, 50] {
        let mut stack = UndoStack::new();
        for id in 0..depth {
            stack.append(id);
            stack.commit();
        }
        let removed = stack.clear_all();
        assert_eq!(removed.len(), depth);
        assert_eq!(stack.depth(), 1);
        assert_eq!(stack.open_len(), 0);
    }
}
