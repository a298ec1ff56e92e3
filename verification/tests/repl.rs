use akuma_vm::repl::{next_step, Step};

#[test]
fn open_brackets_ask_for_more() {
    assert_eq!(next_step("(+ 1\n"), Step::More);
    assert_eq!(next_step("((a) (b\n"), Step::More);
    assert_eq!(next_step("(+ 1\n 2)\n"), Step::Evaluate);
    assert_eq!(next_step(")(\n"), Step::Evaluate);
    assert_eq!(next_step("())(\n"), Step::Evaluate);
    assert_eq!(next_step("(λ (\n"), Step::More);
}

#[test]
fn the_line_exit_leaves() {
    assert_eq!(next_step("exit\n"), Step::Exit);
    assert_eq!(next_step("exit"), Step::Evaluate);
    assert_eq!(next_step(" exit\n"), Step::Evaluate);
    assert_eq!(next_step("exit\n\n"), Step::Evaluate);
    assert_eq!(next_step("Exit\n"), Step::Evaluate);
    assert_eq!(next_step(""), Step::Evaluate);
    assert_eq!(next_step("(exit\n"), Step::More);
}
