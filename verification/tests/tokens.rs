use tracky::repl::{format_task, parse_line, Command};
use tracky::text::tokenize;
use tracky::tracker::{Project, TaskItem};

#[test]
fn tokenize_splits_on_whitespace() {
    assert_eq!(vec!["a".to_string(), "bb".to_string(), "c".to_string()], tokenize("  a \t bb c "));
    assert!(tokenize("").is_empty());
    assert!(tokenize(" \t\r\n").is_empty());
    assert_eq!(vec!["one".to_string()], tokenize("one"));
}

#[test]
fn parse_line_keeps_token_text() {
    match parse_line("add task Alpha deep-work").unwrap() {
        Command::AddTask(p, a) => {
            assert_eq!("Alpha", p);
            assert_eq!("deep-work", a);
        }
        _ => panic!("the line must parse as adding a task"),
    }
    match parse_line("finish Alpha").unwrap() {
        Command::FinishLast(p) => assert_eq!("Alpha", p),
        _ => panic!("the line must parse as finishing the latest task"),
    }
}

#[test]
fn format_task_shows_state_and_duration() {
    let mut p = Project::new("P");
    p.start_task("walk", 5);
    p.start_task("run", 5);
    p.finish_task("run", 17);
    let items = p.all_tasks();
    assert_eq!("walk (running)", format_task(&items[0]));
    assert_eq!("run (done) took 12s", format_task(&items[1]));
    assert!(matches!(&items[1], TaskItem::Finished(_)));
}
