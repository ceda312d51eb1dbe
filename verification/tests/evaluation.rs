use std::cell::Cell;
use std::rc::Rc;

use remote_email_filtering::actions::{make_flags_action, Action, LogicAction};
use remote_email_filtering::cache::Scope;
use remote_email_filtering::disposition::Disposition;
use remote_email_filtering::filters::process_message;
use remote_email_filtering::types::{Context, Flags, Folder, Message};

/// Logic that answers as told and counts how often it was asked.
struct Scripted {
    answer: Answer,
    asked: Rc<Cell<u32>>,
}

#[derive(Clone)]
enum Answer {
    Nothing,
    Stop,
    MoveTo(&'static str),
    SetThenAsk(&'static str, Box<Answer>),
    Twice(Box<Answer>, Box<Answer>),
    Itself,
    MoveById,
    MoveToOwnFolder,
}

impl Scripted {
    fn new(answer: Answer) -> Scripted {
        Scripted { answer, asked: Rc::new(Cell::new(0)) }
    }

    fn counted(answer: Answer, asked: &Rc<Cell<u32>>) -> Scripted {
        Scripted { answer, asked: asked.clone() }
    }
}

impl LogicAction for Scripted {
    fn process_msg(&self, msg: &Message, folder: &Folder) -> Vec<Action<Scripted>> {
        self.asked.set(self.asked.get() + 1);
        match &self.answer {
            Answer::Nothing => vec![],
            Answer::Stop => vec![Action::Stop],
            Answer::MoveTo(name) => vec![Action::Move(folder_at(&[name]))],
            Answer::SetThenAsk(name, next) => vec![
                set(&[name], &[]),
                Action::Logic(Scripted::counted((**next).clone(), &self.asked)),
            ],
            Answer::Twice(first, second) => vec![
                Action::Logic(Scripted::counted((**first).clone(), &self.asked)),
                Action::Logic(Scripted::counted((**second).clone(), &self.asked)),
            ],
            Answer::Itself => vec![Action::Logic(Scripted::counted(Answer::Itself, &self.asked))],
            Answer::MoveById => {
                if msg.id % 2 == 0 {
                    vec![Action::Move(folder_at(&["even"]))]
                } else {
                    vec![Action::Move(folder_at(&["odd"]))]
                }
            }
            Answer::MoveToOwnFolder => {
                let mut path = folder.path.clone();
                path.push("done".to_string());
                vec![Action::Move(Folder { path })]
            }
        }
    }
}

fn folder_at(path: &[&str]) -> Folder {
    Folder { path: path.iter().map(|segment| segment.to_string()).collect() }
}

fn flags(names: &[&str]) -> Flags {
    let mut set = Flags::new();
    for name in names {
        set.insert(name.to_string());
    }
    set
}

fn set(set: &[&str], clear: &[&str]) -> Action<Scripted> {
    match make_flags_action(Context {}, flags(set), flags(clear)) {
        Ok(action) => action,
        Err(_) => panic!("the sets must not share a name"),
    }
}

fn run(rule: &Vec<Action<Scripted>>) -> Disposition {
    run_with(rule, 16).expect("the rule should run to its end")
}

fn run_with(rule: &Vec<Action<Scripted>>, limit: usize) -> Option<Disposition> {
    process_message(&Message { id: 1 }, &folder_at(&["INBOX"]), rule, limit)
}

fn path_of(disposition: &Disposition) -> Option<Vec<String>> {
    disposition.destination.as_ref().map(|folder| folder.path.clone())
}

#[test]
fn logic_without_answer_lets_the_move_through() {
    let rule = vec![
        Action::Logic(Scripted::new(Answer::Nothing)),
        Action::Move(folder_at(&["Archive"])),
    ];
    let end = run(&rule);
    assert_eq!(path_of(&end), Some(vec!["Archive".to_string()]));
    assert!(end.flags.is_none());
    assert!(end.cache.is_none());
    assert!(end.invalidated.is_empty());
}

#[test]
fn an_answered_stop_comes_before_the_move() {
    let rule = vec![
        Action::Logic(Scripted::new(Answer::Stop)),
        Action::Move(folder_at(&["Archive"])),
    ];
    let end = run(&rule);
    assert!(end.is_noop());
    assert!(end.destination.is_none());
}

#[test]
fn stop_shadows_what_follows() {
    let asked = Rc::new(Cell::new(0));
    let rule = vec![
        Action::Stop,
        Action::Move(folder_at(&["Archive"])),
        Action::Logic(Scripted::counted(Answer::Nothing, &asked)),
    ];
    let end = run(&rule);
    assert!(end.is_noop());
    assert_eq!(asked.get(), 0);
}

#[test]
fn an_empty_rule_does_nothing() {
    let rule: Vec<Action<Scripted>> = vec![];
    assert!(run(&rule).is_noop());
    assert!(run_with(&rule, 0).expect("no logic is asked").is_noop());
}

#[test]
fn flag_changes_add_up_until_the_stop() {
    let rule = vec![set(&["seen"], &[]), set(&[], &["flagged"]), Action::Stop];
    let end = run(&rule);
    assert!(end.flags.set().same_as(&flags(&["seen"])));
    assert!(end.flags.clear().same_as(&flags(&["flagged"])));
    assert!(end.destination.is_none());
    assert!(end.cache.is_none());
    assert!(!end.is_noop());
}

#[test]
fn flag_changes_add_up_until_the_end_of_the_rule() {
    let rule = vec![set(&["seen"], &[]), set(&["answered"], &["flagged"])];
    let end = run(&rule);
    assert!(end.flags.set().same_as(&flags(&["seen", "answered"])));
    assert!(end.flags.clear().same_as(&flags(&["flagged"])));
}

#[test]
fn a_later_flag_change_decides() {
    let rule = vec![set(&["seen"], &["flagged"]), set(&["flagged"], &["seen"]), Action::Stop];
    let end = run(&rule);
    assert!(end.flags.set().same_as(&flags(&["flagged"])));
    assert!(end.flags.clear().same_as(&flags(&["seen"])));
}

#[test]
fn flags_gathered_before_a_move_are_kept() {
    let rule = vec![
        set(&["seen"], &[]),
        Action::Move(folder_at(&["Lists", "rust"])),
        set(&["flagged"], &[]),
    ];
    let end = run(&rule);
    assert_eq!(path_of(&end), Some(vec!["Lists".to_string(), "rust".to_string()]));
    assert!(end.flags.set().same_as(&flags(&["seen"])));
    assert!(end.flags.clear().is_empty());
}

#[test]
fn the_first_move_wins() {
    let rule = vec![Action::Move(folder_at(&["A"])), Action::Move(folder_at(&["B"]))];
    assert_eq!(path_of(&run(&rule)), Some(vec!["A".to_string()]));
}

#[test]
fn a_rule_is_evaluated_the_same_way_twice() {
    let rule = vec![
        set(&["seen"], &[]),
        Action::Logic(Scripted::new(Answer::SetThenAsk("answered", Box::new(Answer::Nothing)))),
        Action::InvalidateCache("k".to_string()),
        Action::Move(folder_at(&["Archive"])),
    ];
    let first = run(&rule);
    let second = run(&rule);
    assert_eq!(path_of(&first), path_of(&second));
    assert!(first.flags.set().same_as(second.flags.set()));
    assert!(first.flags.clear().same_as(second.flags.clear()));
    assert_eq!(first.invalidated, second.invalidated);
    assert!(first.cache.is_none() && second.cache.is_none());
    assert_eq!(path_of(&first), Some(vec!["Archive".to_string()]));
    assert!(first.flags.set().same_as(&flags(&["seen", "answered"])));
    assert_eq!(first.invalidated, vec!["k".to_string()]);
}

#[test]
fn answers_run_before_what_followed_the_logic() {
    let rule = vec![
        Action::Logic(Scripted::new(Answer::MoveTo("Inner"))),
        Action::Move(folder_at(&["Outer"])),
    ];
    assert_eq!(path_of(&run(&rule)), Some(vec!["Inner".to_string()]));
}

#[test]
fn answers_of_answers_run_depth_first() {
    let asked = Rc::new(Cell::new(0));
    let rule = vec![
        Action::Logic(Scripted::counted(
            Answer::Twice(
                Box::new(Answer::SetThenAsk("first", Box::new(Answer::Nothing))),
                Box::new(Answer::MoveTo("Second")),
            ),
            &asked,
        )),
        Action::Move(folder_at(&["Outer"])),
    ];
    let end = run(&rule);
    assert_eq!(path_of(&end), Some(vec!["Second".to_string()]));
    assert!(end.flags.set().same_as(&flags(&["first"])));
    assert_eq!(asked.get(), 4);
}

#[test]
fn logic_sees_the_message_and_the_folder() {
    let by_id = vec![Action::Logic(Scripted::new(Answer::MoveById))];
    let even = process_message(&Message { id: 4 }, &folder_at(&["INBOX"]), &by_id, 4);
    assert_eq!(path_of(&even.expect("a move")), Some(vec!["even".to_string()]));
    let odd = process_message(&Message { id: 5 }, &folder_at(&["INBOX"]), &by_id, 4);
    assert_eq!(path_of(&odd.expect("a move")), Some(vec!["odd".to_string()]));

    let by_folder = vec![Action::Logic(Scripted::new(Answer::MoveToOwnFolder))];
    let end = process_message(&Message { id: 4 }, &folder_at(&["Work", "tasks"]), &by_folder, 4);
    assert_eq!(
        path_of(&end.expect("a move")),
        Some(vec!["Work".to_string(), "tasks".to_string(), "done".to_string()])
    );
}

#[test]
fn the_rule_can_be_used_again() {
    let asked = Rc::new(Cell::new(0));
    let rule = vec![
        Action::Logic(Scripted::counted(Answer::Nothing, &asked)),
        Action::Move(folder_at(&["Archive"])),
    ];
    for id in 0..5 {
        let end = process_message(&Message { id }, &folder_at(&["INBOX"]), &rule, 4);
        assert_eq!(path_of(&end.expect("a move")), Some(vec!["Archive".to_string()]));
    }
    assert_eq!(asked.get(), 5);
    assert_eq!(rule.len(), 2);
}

#[test]
fn logic_that_answers_with_itself_is_cut_off() {
    let asked = Rc::new(Cell::new(0));
    let rule = vec![Action::Logic(Scripted::counted(Answer::Itself, &asked))];
    assert!(run_with(&rule, 10).is_none());
    assert_eq!(asked.get(), 10);
}

#[test]
fn no_logic_may_be_asked_with_a_limit_of_zero() {
    let asked = Rc::new(Cell::new(0));
    let rule = vec![
        set(&["seen"], &[]),
        Action::Logic(Scripted::counted(Answer::Nothing, &asked)),
        Action::Stop,
    ];
    assert!(run_with(&rule, 0).is_none());
    assert_eq!(asked.get(), 0);
}

#[test]
fn the_limit_counts_each_time_logic_is_asked() {
    let rule = vec![
        Action::Logic(Scripted::new(Answer::Nothing)),
        Action::Logic(Scripted::new(Answer::Nothing)),
        Action::Logic(Scripted::new(Answer::Nothing)),
        Action::Move(folder_at(&["Archive"])),
    ];
    assert!(run_with(&rule, 2).is_none());
    let end = run_with(&rule, 3).expect("three may be asked");
    assert_eq!(path_of(&end), Some(vec!["Archive".to_string()]));
}

#[test]
fn a_terminal_action_before_the_limit_is_reached_ends_the_run() {
    let rule = vec![
        Action::Logic(Scripted::new(Answer::Nothing)),
        Action::Stop,
        Action::Logic(Scripted::new(Answer::Itself)),
    ];
    assert!(run_with(&rule, 1).expect("one is asked").is_noop());
}

#[test]
fn cache_without_key_marks_the_folder() {
    let rule: Vec<Action<Scripted>> = vec![Action::Cache(None), Action::Move(folder_at(&["A"]))];
    let end = process_message(&Message { id: 1 }, &folder_at(&["INBOX", "Work"]), &rule, 4)
        .expect("no logic is asked");
    match &end.cache {
        Some(Scope::Folder(path)) => {
            assert_eq!(path, &vec!["INBOX".to_string(), "Work".to_string()])
        }
        _ => panic!("a mark on the folder was due"),
    }
    assert!(end.destination.is_none());
}

#[test]
fn cache_with_key_marks_under_the_key() {
    let rule: Vec<Action<Scripted>> =
        vec![set(&["seen"], &[]), Action::Cache(Some("k".to_string())), Action::Stop];
    let end = run(&rule);
    match &end.cache {
        Some(Scope::Key(key)) => assert_eq!(key, "k"),
        _ => panic!("a mark under the key was due"),
    }
    assert!(end.flags.set().same_as(&flags(&["seen"])));
    assert!(end.destination.is_none());
}

#[test]
fn a_move_leaves_no_cache_mark() {
    let rule: Vec<Action<Scripted>> =
        vec![Action::Move(folder_at(&["A"])), Action::Cache(Some("k".to_string()))];
    let end = run(&rule);
    assert!(end.cache.is_none());
    assert_eq!(path_of(&end), Some(vec!["A".to_string()]));
}

#[test]
fn invalidation_does_not_end_the_run() {
    let rule: Vec<Action<Scripted>> = vec![
        Action::InvalidateCache("a".to_string()),
        Action::InvalidateCache("b".to_string()),
        Action::InvalidateCache("a".to_string()),
        Action::Move(folder_at(&["Archive"])),
    ];
    let end = run(&rule);
    assert_eq!(end.invalidated, vec!["a".to_string(), "b".to_string(), "a".to_string()]);
    assert_eq!(path_of(&end), Some(vec!["Archive".to_string()]));
    assert!(!end.is_noop());
}

#[test]
fn process_forwards_to_process_msg() {
    let logic = Scripted::new(Answer::Stop);
    let out = logic.process(&mut Context {}, &folder_at(&["INBOX"]), &Message { id: 1 });
    assert_eq!(out.len(), 1);
    assert!(matches!(out[0], Action::Stop));
    assert_eq!(logic.asked.get(), 1);
}

#[test]
fn a_new_disposition_does_nothing() {
    let idle = Disposition::new();
    assert!(idle.is_noop());
    assert!(idle.destination.is_none());
    assert!(idle.cache.is_none());
    assert!(idle.invalidated.is_empty());
    assert!(idle.flags.is_none());
}

#[test]
fn folders_compare_by_path() {
    assert!(folder_at(&["INBOX", "Work"]).same_as(&folder_at(&["INBOX", "Work"])));
    assert!(!folder_at(&["INBOX", "Work"]).same_as(&folder_at(&["INBOX"])));
    assert!(!folder_at(&["INBOX", "Work"]).same_as(&folder_at(&["INBOX", "Home"])));
    assert!(folder_at(&[]).same_as(&folder_at(&[])));
    let copy = folder_at(&["INBOX", "Work"]).clone();
    assert_eq!(copy.path, vec!["INBOX".to_string(), "Work".to_string()]);
}
