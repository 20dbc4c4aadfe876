use xagrs::batch::chunk_lines;
use xagrs::dispatch::{Action, Dispatcher, Event};
use xagrs::error::{exit_code, ErrorKind};
use xagrs::options::Opt;

fn strings(items: &[&str]) -> Vec<String> {
    items.iter().map(|s| s.to_string()).collect()
}

fn options(limit: usize, command: &[&str]) -> Opt {
    let mut opt = Opt::default();
    opt.limit = limit;
    opt.command_with_args = strings(command);
    opt
}

fn line(text: &str) -> Event {
    Event::Line(String::from(text))
}

fn run_of(action: Action) -> (String, Vec<String>, Option<String>) {
    match action {
        Action::Run(invocation) => (invocation.program, invocation.args, invocation.echo),
        other => panic!("expected a command to run, got {:?}", other),
    }
}

/// Runs the dispatcher as a caller would: lines are reported one by one, then
/// the end of the input; the command number `k` exits as `exits(k)` tells, and
/// cannot be started where `exits(k)` is `None`.
fn drive(
    opt: Opt,
    lines: &[String],
    exits: &dyn Fn(usize) -> Option<bool>,
) -> (Vec<(String, Vec<String>, Option<String>)>, Option<ErrorKind>) {
    let mut d = Dispatcher::new(opt).unwrap();
    let mut input = lines.iter();
    let mut ran = Vec::new();
    let mut action = Action::Read;
    loop {
        let event = match action {
            Action::Read => match input.next() {
                Some(text) => Event::Line(text.clone()),
                None => Event::EndOfInput,
            },
            Action::Run(invocation) => {
                let number = ran.len();
                ran.push((invocation.program, invocation.args, invocation.echo));
                match exits(number) {
                    Some(success) => Event::ChildExited(success),
                    None => Event::SpawnFailed,
                }
            }
            Action::Stop(outcome) => return (ran, outcome),
        };
        action = d.step(event);
    }
}

#[test]
fn three_lines_in_batches_of_two_run_echo_one_two_then_echo_three() {
    let mut opt = options(2, &["echo"]);
    opt.verbose = true;
    let (ran, outcome) = drive(opt, &strings(&["one", "two", "three"]), &|_| Some(true));
    assert_eq!(outcome, None);
    assert_eq!(ran.len(), 2);
    assert_eq!(ran[0].0, "echo");
    assert_eq!(ran[0].1, ["one", "two"]);
    assert_eq!(ran[0].2, Some(String::from("echo one two")));
    assert_eq!(ran[1].0, "echo");
    assert_eq!(ran[1].1, ["three"]);
    assert_eq!(ran[1].2, Some(String::from("echo three")));
}

#[test]
fn a_run_makes_one_invocation_for_each_batch_in_order() {
    for limit in 1..=5usize {
        for n in 0..=13usize {
            let lines: Vec<String> = (0..n).map(|i| format!("w{} x{}", i, i)).collect();
            let plan = options(limit, &["cmd", "-f"]);
            let expected: Vec<(String, Vec<String>, Option<String>)> =
                chunk_lines(limit, lines.clone())
                    .unwrap()
                    .iter()
                    .map(|batch| {
                        let invocation = plan.invocation(batch);
                        (invocation.program, invocation.args, invocation.echo)
                    })
                    .collect();
            let (ran, outcome) = drive(options(limit, &["cmd", "-f"]), &lines, &|_| Some(true));
            assert_eq!(ran, expected);
            assert_eq!(ran.len(), (n + limit - 1) / limit);
            assert_eq!(outcome, None);
        }
    }
}

#[test]
fn a_run_ends_with_a_child_failure_exactly_where_a_command_failed() {
    let lines = strings(&["a", "b", "c", "d", "e"]);
    for failing in 0..3usize {
        let (ran, outcome) =
            drive(options(2, &["cmd"]), &lines, &|k| Some(k != failing));
        assert_eq!(ran.len(), 3);
        assert_eq!(outcome, Some(ErrorKind::ChildExit));
    }
    let (ran, outcome) = drive(options(2, &["cmd"]), &lines, &|k| Some(k != 3));
    assert_eq!(ran.len(), 3);
    assert_eq!(outcome, None);
}

#[test]
fn a_command_that_cannot_be_started_is_the_last_one_tried() {
    let lines = strings(&["a", "b", "c"]);
    let (ran, outcome) =
        drive(options(1, &["cmd"]), &lines, &|k| if k == 1 { None } else { Some(true) });
    assert_eq!(ran.len(), 2);
    assert_eq!(ran[1].1, ["b"]);
    assert_eq!(outcome, Some(ErrorKind::Spawn));
}

#[test]
fn a_limit_of_zero_is_rejected_before_any_event() {
    assert!(matches!(Dispatcher::new(options(0, &["echo"])), Err(ErrorKind::Configuration)));
    assert!(Dispatcher::new(options(1, &["echo"])).is_ok());
}

#[test]
fn append_mode_runs_one_command_per_batch() {
    let mut d = Dispatcher::new(options(2, &["echo"])).unwrap();
    assert!(matches!(d.step(line("one")), Action::Read));
    let (program, args, echo) = run_of(d.step(line("two")));
    assert_eq!(program, "echo");
    assert_eq!(args, ["one", "two"]);
    assert_eq!(echo, None);
    assert!(matches!(d.step(Event::ChildExited(true)), Action::Read));
    assert!(matches!(d.step(line("three")), Action::Read));
    let (program, args, _) = run_of(d.step(Event::EndOfInput));
    assert_eq!(program, "echo");
    assert_eq!(args, ["three"]);
    assert!(matches!(d.step(Event::ChildExited(true)), Action::Stop(None)));
    assert_eq!(d.outcome(), None);
}

#[test]
fn verbose_run_carries_its_line_once_per_batch() {
    let mut opt = options(2, &["echo", "-n"]);
    opt.verbose = true;
    let mut d = Dispatcher::new(opt).unwrap();
    assert!(matches!(d.step(line("one")), Action::Read));
    let (_, _, echo) = run_of(d.step(line("two words")));
    assert_eq!(echo, Some(String::from("echo -n one two words")));
    assert!(matches!(d.step(Event::ChildExited(true)), Action::Read));
    assert!(matches!(d.step(line("three")), Action::Read));
    let (_, _, echo) = run_of(d.step(Event::EndOfInput));
    assert_eq!(echo, Some(String::from("echo -n three")));
}

#[test]
fn empty_input_runs_nothing() {
    let mut d = Dispatcher::new(options(3, &["echo"])).unwrap();
    assert!(matches!(d.step(Event::EndOfInput), Action::Stop(None)));
    assert!(matches!(d.step(Event::EndOfInput), Action::Stop(None)));
}

#[test]
fn exact_multiple_leaves_nothing_for_the_end() {
    let mut d = Dispatcher::new(options(1, &["echo"])).unwrap();
    let (_, args, _) = run_of(d.step(line("a")));
    assert_eq!(args, ["a"]);
    assert!(matches!(d.step(Event::ChildExited(true)), Action::Read));
    assert!(matches!(d.step(Event::EndOfInput), Action::Stop(None)));
}

#[test]
fn spawn_failure_on_the_second_of_three_batches_stops_the_run() {
    let mut d = Dispatcher::new(options(1, &["missing"])).unwrap();
    run_of(d.step(line("one")));
    assert!(matches!(d.step(Event::ChildExited(true)), Action::Read));
    run_of(d.step(line("two")));
    assert!(matches!(d.step(Event::SpawnFailed), Action::Stop(Some(ErrorKind::Spawn))));
    assert!(matches!(d.step(line("three")), Action::Stop(Some(ErrorKind::Spawn))));
    assert!(matches!(d.step(Event::EndOfInput), Action::Stop(Some(ErrorKind::Spawn))));
    assert!(matches!(d.step(Event::ChildExited(true)), Action::Stop(Some(ErrorKind::Spawn))));
    assert_eq!(d.outcome(), Some(ErrorKind::Spawn));
}

#[test]
fn spawn_failure_is_not_hidden_by_an_earlier_child_failure() {
    let mut d = Dispatcher::new(options(1, &["cmd"])).unwrap();
    run_of(d.step(line("one")));
    assert!(matches!(d.step(Event::ChildExited(false)), Action::Read));
    run_of(d.step(line("two")));
    assert!(matches!(d.step(Event::SpawnFailed), Action::Stop(Some(ErrorKind::Spawn))));
    assert_eq!(d.outcome(), Some(ErrorKind::Spawn));
}

#[test]
fn read_failure_stops_the_run_and_drops_the_pending_lines() {
    let mut d = Dispatcher::new(options(3, &["echo"])).unwrap();
    assert!(matches!(d.step(line("one")), Action::Read));
    assert!(matches!(d.step(Event::ReadFailed), Action::Stop(Some(ErrorKind::InputRead))));
    assert!(matches!(d.step(Event::EndOfInput), Action::Stop(Some(ErrorKind::InputRead))));
    assert!(matches!(d.step(line("two")), Action::Stop(Some(ErrorKind::InputRead))));
    assert_eq!(d.outcome(), Some(ErrorKind::InputRead));
}

#[test]
fn child_failure_does_not_stop_the_run_but_is_reported_at_the_end() {
    let mut d = Dispatcher::new(options(1, &["false"])).unwrap();
    run_of(d.step(line("one")));
    assert!(matches!(d.step(Event::ChildExited(false)), Action::Read));
    assert_eq!(d.outcome(), Some(ErrorKind::ChildExit));
    let (_, args, _) = run_of(d.step(line("two")));
    assert_eq!(args, ["two"]);
    assert!(matches!(d.step(Event::ChildExited(true)), Action::Read));
    assert!(matches!(d.step(Event::EndOfInput), Action::Stop(Some(ErrorKind::ChildExit))));
}

#[test]
fn child_failure_of_the_last_batch_is_reported() {
    let mut d = Dispatcher::new(options(2, &["false"])).unwrap();
    assert!(matches!(d.step(line("one")), Action::Read));
    run_of(d.step(Event::EndOfInput));
    assert!(matches!(d.step(Event::ChildExited(false)), Action::Stop(Some(ErrorKind::ChildExit))));
}

#[test]
fn lines_after_the_end_of_input_are_not_run() {
    let mut d = Dispatcher::new(options(1, &["echo"])).unwrap();
    assert!(matches!(d.step(Event::EndOfInput), Action::Stop(None)));
    assert!(matches!(d.step(line("late")), Action::Stop(None)));
    assert!(matches!(d.step(Event::EndOfInput), Action::Stop(None)));
}

#[test]
fn substitution_mode_runs_the_fixed_arguments_with_the_batch_put_in() {
    let mut opt = options(2, &["program", "PP", "abcPPghi", "jklm"]);
    opt.replace = Some(String::from("PP"));
    let mut d = Dispatcher::new(opt).unwrap();
    assert!(matches!(d.step(line("d")), Action::Read));
    let (program, args, _) = run_of(d.step(line("ef")));
    assert_eq!(program, "program");
    assert_eq!(args, ["d ef", "abcd efghi", "jklm"]);
}

#[test]
fn only_a_run_without_error_exits_with_zero() {
    assert_eq!(exit_code(None), 0);
    assert_eq!(exit_code(Some(ErrorKind::Configuration)), 1);
    assert_eq!(exit_code(Some(ErrorKind::InputRead)), 1);
    assert_eq!(exit_code(Some(ErrorKind::Spawn)), 1);
    assert_eq!(exit_code(Some(ErrorKind::ChildExit)), 1);
}

#[test]
fn only_a_child_failure_lets_the_run_go_on() {
    assert!(ErrorKind::Configuration.is_fatal());
    assert!(ErrorKind::InputRead.is_fatal());
    assert!(ErrorKind::Spawn.is_fatal());
    assert!(!ErrorKind::ChildExit.is_fatal());
}

#[test]
fn every_kind_of_error_has_its_own_description() {
    assert_eq!(ErrorKind::Configuration.describe(), "the batch size must be at least 1");
    assert_eq!(ErrorKind::InputRead.describe(), "a line of input could not be read");
    assert_eq!(ErrorKind::Spawn.describe(), "a command could not be started");
    assert_eq!(ErrorKind::ChildExit.describe(), "a command exited with a failure");
}
