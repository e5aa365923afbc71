use colosseum::command::{Callback, Command, CommandExecutorInner};
use colosseum::number::Number;
use colosseum::parser::{parse_line, reversed, Invocation};

/// What the callbacks of these tests leave in the world: who was called, and with what.
type Log = Vec<(String, Vec<f32>)>;

struct Recorder {
    label: String,
    reply: Option<Vec<f32>>,
    calls: usize,
}

impl Recorder {
    fn new(label: &str, reply: Option<Vec<f32>>) -> Command<Recorder> {
        Command::new(Recorder { label: label.to_string(), reply, calls: 0 })
    }
}

fn values(numbers: &Vec<Number>) -> Vec<f32> {
    numbers.iter().map(|n| n.as_str().parse::<f32>().unwrap()).collect()
}

fn numbers(values: &Vec<f32>) -> Vec<Number> {
    values.iter().map(|v| Number::parse(&format!("{}", v)).unwrap()).collect()
}

impl Callback for Recorder {
    type World = Log;

    fn call(&mut self, world: &mut Log, args: Vec<Number>) -> Option<Vec<Number>> {
        self.calls += 1;
        world.push((self.label.clone(), values(&args)));
        self.reply.as_ref().map(numbers)
    }
}

fn plan(line: &str) -> Vec<(String, Vec<f32>)> {
    parse_line(line).into_iter().map(|i: Invocation| (i.name, values(&i.args))).collect()
}

fn call(name: &str, args: &[f32]) -> (String, Vec<f32>) {
    (name.to_string(), args.to_vec())
}

fn run(executor: &mut CommandExecutorInner<Recorder>, log: &mut Log, line: &str) -> Option<Vec<f32>> {
    executor.execute_command(log, line).map(|r| values(&r))
}

#[test]
fn a_name_receives_the_numbers_that_follow_it_in_order() {
    assert_eq!(plan("ADD 1.0 2.0 3.0"), vec![call("ADD", &[1.0, 2.0, 3.0])]);
    assert_eq!(plan("ADD 3 2 1"), vec![call("ADD", &[3.0, 2.0, 1.0])]);
    assert_eq!(plan("ADD"), vec![call("ADD", &[])]);
}

#[test]
fn a_name_at_the_end_receives_nothing() {
    assert_eq!(plan("1.0 2.0 3.0 ADD_FORCE_TO_BALL"), vec![call("ADD_FORCE_TO_BALL", &[])]);
    assert_eq!(plan("NAME"), vec![call("NAME", &[])]);
}

#[test]
fn names_fire_from_right_to_left() {
    assert_eq!(
        plan("A 1 B 2 3 C"),
        vec![call("C", &[]), call("B", &[2.0, 3.0]), call("A", &[1.0])]
    );
}

#[test]
fn adjacent_names_both_fire_and_the_left_one_has_no_arguments() {
    assert_eq!(plan("A B"), vec![call("B", &[]), call("A", &[])]);
    assert_eq!(plan("A B 4 5"), vec![call("B", &[4.0, 5.0]), call("A", &[])]);
    assert_eq!(plan("7 A B"), vec![call("B", &[]), call("A", &[])]);
}

#[test]
fn numbers_without_a_name_before_them_are_dropped() {
    assert!(plan("1 2 3").is_empty());
    assert!(plan("").is_empty());
    assert_eq!(plan("9 8 GO 1"), vec![call("GO", &[1.0])]);
}

#[test]
fn reversed_turns_a_vector_round() {
    assert_eq!(reversed(vec![1, 2, 3]), vec![3, 2, 1]);
    assert_eq!(reversed(Vec::<u8>::new()), Vec::<u8>::new());
}

#[test]
fn an_empty_line_gives_no_reply_and_calls_nothing() {
    let mut executor = CommandExecutorInner::new();
    executor.add_command("GO".to_string(), Recorder::new("go", Some(vec![1.0])));
    let mut log = Log::new();
    assert_eq!(run(&mut executor, &mut log, ""), None);
    assert_eq!(run(&mut executor, &mut log, "  \t "), None);
    assert!(log.is_empty());
}

#[test]
fn the_callback_sees_the_arguments_and_its_reply_comes_back() {
    let mut executor = CommandExecutorInner::new();
    executor.add_command("SUM".to_string(), Recorder::new("sum", Some(vec![6.0, 0.5])));
    let mut log = Log::new();
    assert_eq!(run(&mut executor, &mut log, "SUM 1.0 2.0 3.0"), Some(vec![6.0, 0.5]));
    assert_eq!(log, vec![call("sum", &[1.0, 2.0, 3.0])]);
}

#[test]
fn the_reply_is_that_of_the_last_invocation() {
    let mut executor = CommandExecutorInner::new();
    executor.add_command("A".to_string(), Recorder::new("a", None));
    executor.add_command("B".to_string(), Recorder::new("b", Some(vec![2.0])));
    let mut log = Log::new();
    assert_eq!(run(&mut executor, &mut log, "A 1 B 2"), None);
    assert_eq!(log, vec![call("b", &[2.0]), call("a", &[1.0])]);
    log.clear();
    assert_eq!(run(&mut executor, &mut log, "B 1 A 2"), Some(vec![2.0]));
    assert_eq!(log, vec![call("a", &[2.0]), call("b", &[1.0])]);
}

#[test]
fn an_unknown_name_after_a_known_one_clears_the_reply() {
    let mut executor = CommandExecutorInner::new();
    executor.add_command("B".to_string(), Recorder::new("b", Some(vec![2.0])));
    let mut log = Log::new();
    assert_eq!(run(&mut executor, &mut log, "NOBODY B 1"), None);
    assert_eq!(log, vec![call("b", &[1.0])]);
}

#[test]
fn registering_under_a_name_again_replaces_the_command() {
    let mut executor = CommandExecutorInner::new();
    executor.add_command("GO".to_string(), Recorder::new("old", Some(vec![1.0])));
    executor.add_command("GO".to_string(), Recorder::new("new", Some(vec![2.0])));
    let mut log = Log::new();
    assert_eq!(run(&mut executor, &mut log, "GO 5"), Some(vec![2.0]));
    assert_eq!(run(&mut executor, &mut log, "GO"), Some(vec![2.0]));
    assert_eq!(log, vec![call("new", &[5.0]), call("new", &[])]);
}

#[test]
fn an_unregistered_name_changes_nothing() {
    let mut executor = CommandExecutorInner::new();
    executor.add_command("GO".to_string(), Recorder::new("go", Some(vec![1.0])));
    let mut log: Log = vec![call("before", &[1.0])];
    let reply = executor.execute_command_from_parts(&mut log, "STOP".to_string(), numbers(&vec![1.0]));
    assert!(reply.is_none());
    assert_eq!(log, vec![call("before", &[1.0])]);
    assert_eq!(run(&mut executor, &mut log, "STOP 1 2 HALT"), None);
    assert_eq!(log, vec![call("before", &[1.0])]);
}

#[test]
fn execute_command_from_parts_calls_the_named_command() {
    let mut executor = CommandExecutorInner::new();
    executor.add_command("A".to_string(), Recorder::new("a", Some(vec![])));
    executor.add_command("B".to_string(), Recorder::new("b", None));
    let mut log = Log::new();
    let reply = executor.execute_command_from_parts(&mut log, "A".to_string(), numbers(&vec![4.0, 2.0]));
    assert_eq!(reply.map(|r| values(&r)), Some(vec![]));
    assert_eq!(log, vec![call("a", &[4.0, 2.0])]);
}

#[test]
fn execute_plan_runs_the_invocations_in_order() {
    let mut executor = CommandExecutorInner::new();
    executor.add_command("A".to_string(), Recorder::new("a", Some(vec![1.0])));
    executor.add_command("B".to_string(), Recorder::new("b", Some(vec![2.0])));
    let mut log = Log::new();
    let reply = executor.execute_plan(&mut log, parse_line("A 1 B 2"));
    assert_eq!(reply.map(|r| values(&r)), Some(vec![1.0]));
    assert_eq!(log, vec![call("b", &[2.0]), call("a", &[1.0])]);
}

#[test]
fn special_numbers_reach_the_callback() {
    let mut executor = CommandExecutorInner::new();
    executor.add_command("SET".to_string(), Recorder::new("set", None));
    let mut log = Log::new();
    assert_eq!(run(&mut executor, &mut log, "SET -inf 1e3 +.5"), None);
    assert_eq!(log, vec![call("set", &[f32::NEG_INFINITY, 1000.0, 0.5])]);
}
