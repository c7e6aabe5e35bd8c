use sysfs_block::scheduler::BlockScheduler;

#[test]
fn bracketed_entry_marks_active() {
    let s = BlockScheduler::parse("noop deadline [cfq]");
    let names: Vec<&str> = s.schedulers().iter().map(|n| n.as_str()).collect();
    assert_eq!(names, vec!["noop", "deadline", "cfq"]);
    assert_eq!(s.active_index(), 2);
    assert_eq!(s.active(), "cfq");
}

#[test]
fn no_bracket_defaults_to_first() {
    let s = BlockScheduler::parse("noop deadline");
    let names: Vec<&str> = s.schedulers().iter().map(|n| n.as_str()).collect();
    assert_eq!(names, vec!["noop", "deadline"]);
    assert_eq!(s.active_index(), 0);
    assert_eq!(s.active(), "noop");
}

#[test]
fn bracket_in_first_position() {
    let s = BlockScheduler::parse("[mq-deadline] kyber bfq none\n");
    let names: Vec<&str> = s.schedulers().iter().map(|n| n.as_str()).collect();
    assert_eq!(names, vec!["mq-deadline", "kyber", "bfq", "none"]);
    assert_eq!(s.active_index(), 0);
    assert_eq!(s.active(), "mq-deadline");
}

#[test]
fn tokens_split_on_any_whitespace() {
    let s = BlockScheduler::parse("  noop\t[deadline]\ncfq  ");
    let names: Vec<&str> = s.schedulers().iter().map(|n| n.as_str()).collect();
    assert_eq!(names, vec!["noop", "deadline", "cfq"]);
    assert_eq!(s.active_index(), 1);
    assert_eq!(s.active(), "deadline");
}

#[test]
fn empty_text_yields_no_schedulers() {
    let s = BlockScheduler::parse("\n");
    assert!(s.schedulers().is_empty());
    assert_eq!(s.active_index(), 0);
}

#[test]
fn empty_brackets_yield_empty_name() {
    let s = BlockScheduler::parse("noop []");
    let names: Vec<&str> = s.schedulers().iter().map(|n| n.as_str()).collect();
    assert_eq!(names, vec!["noop", ""]);
    assert_eq!(s.active_index(), 1);
    assert_eq!(s.active(), "");
}
