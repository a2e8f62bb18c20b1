use rpn_calc::parser::{evaluate_line, take_reply};
use rpn_calc::rpn::{Error, Item, Stack};

fn drain(stack: &mut Stack) -> Vec<Item> {
    let mut top_first = Vec::new();
    while !stack.empty() {
        top_first.push(stack.pop().unwrap());
    }
    top_first.reverse();
    top_first
}

fn reply(line: &str) -> Result<Item, Error> {
    let mut stack = Stack::new();
    evaluate_line(&mut stack, line)?;
    take_reply(&mut stack)
}

#[test]
fn three_four_plus_is_seven() {
    let mut stack = Stack::new();
    assert!(matches!(evaluate_line(&mut stack, "3 4 +"), Ok(())));
    assert!(matches!(take_reply(&mut stack), Ok(Item::Int(7))));
    assert!(stack.empty());
}

#[test]
fn three_four_leaves_an_extra_operand() {
    let mut stack = Stack::new();
    assert!(matches!(evaluate_line(&mut stack, "3 4"), Ok(())));
    assert!(matches!(take_reply(&mut stack), Err(Error::Extra)));
    assert_eq!(drain(&mut stack), vec![Item::Int(3)]);
}

#[test]
fn quit_ends_before_the_stack_is_touched() {
    let mut stack = Stack::new();
    assert!(matches!(evaluate_line(&mut stack, "quit"), Err(Error::Quit)));
    assert!(stack.empty());

    let mut stack = Stack::new();
    stack.push(Item::Int(1)).unwrap();
    assert!(matches!(evaluate_line(&mut stack, "quit 2 3"), Err(Error::Quit)));
    assert_eq!(drain(&mut stack), vec![Item::Int(1)]);
}

#[test]
fn quit_in_the_middle_keeps_what_came_before() {
    let mut stack = Stack::new();
    assert!(matches!(evaluate_line(&mut stack, "1 2 + quit 5"), Err(Error::Quit)));
    assert_eq!(drain(&mut stack), vec![Item::Int(3)]);
}

#[test]
fn an_unknown_word_is_a_syntax_error() {
    let mut stack = Stack::new();
    assert!(matches!(evaluate_line(&mut stack, "3 foo 4"), Err(Error::Syntax)));
    assert_eq!(drain(&mut stack), vec![Item::Int(3)]);
    assert!(matches!(reply("2147483648"), Err(Error::Syntax)));
    assert!(matches!(reply("-"), Err(Error::Syntax)));
    assert!(matches!(reply("1 2 *"), Err(Error::Syntax)));
}

#[test]
fn a_blank_line_leaves_nothing_to_reply() {
    let mut stack = Stack::new();
    assert!(matches!(evaluate_line(&mut stack, " \t\n"), Ok(())));
    assert!(stack.empty());
    assert!(matches!(take_reply(&mut stack), Err(Error::Empty)));
    assert!(stack.empty());
    assert!(matches!(reply(""), Err(Error::Empty)));
}

#[test]
fn lines_go_on_from_the_stack_they_find() {
    let mut stack = Stack::new();
    assert!(evaluate_line(&mut stack, "10 20").is_ok());
    assert!(evaluate_line(&mut stack, "+ 12 =").is_ok());
    assert_eq!(drain(&mut stack), vec![Item::Bool(false)]);
}

#[test]
fn replies_of_whole_lines() {
    assert!(matches!(reply("2 3 +\n"), Ok(Item::Int(5))));
    assert!(matches!(reply("4 4 ="), Ok(Item::Bool(true))));
    assert!(matches!(reply("true false ="), Ok(Item::Bool(false))));
    assert!(matches!(reply("true !"), Ok(Item::Bool(false))));
    assert!(matches!(reply("true 10 20 ?"), Ok(Item::Int(10))));
    assert!(matches!(reply("false 10 20 ?"), Ok(Item::Int(20))));
    assert!(matches!(reply("1 2 <-> 0 ="), Err(Error::Extra)));
    assert!(matches!(reply("1 2 <-> false <-> ?"), Err(Error::Type)));
    assert!(matches!(reply("true 1 2 <-> ?"), Ok(Item::Int(2))));
    assert!(matches!(reply("-5 +5 +"), Ok(Item::Int(0))));
    assert!(matches!(reply("2147483647 1 +"), Ok(Item::Int(i32::MIN))));
}

#[test]
fn errors_of_operators_come_through() {
    assert!(matches!(reply("+"), Err(Error::Empty)));
    assert!(matches!(reply("1 +"), Err(Error::Empty)));
    assert!(matches!(reply("1 true +"), Err(Error::Type)));
    assert!(matches!(reply("1 !"), Err(Error::Type)));
    assert!(matches!(reply("1 10 20 ?"), Err(Error::Type)));
    assert!(matches!(reply("0 #"), Err(Error::Type)));
    assert!(matches!(reply("true #"), Err(Error::Type)));
    assert!(matches!(reply("#"), Err(Error::Empty)));
}

#[test]
fn a_failing_operator_stops_the_line() {
    let mut stack = Stack::new();
    assert!(matches!(evaluate_line(&mut stack, "7 1 true + 8 9"), Err(Error::Type)));
    assert_eq!(drain(&mut stack), vec![Item::Int(7)]);
}

#[test]
fn drawn_numbers_stay_below_their_bound() {
    for _ in 0..500 {
        match reply("5 #") {
            Ok(Item::Int(v)) => assert!(0 <= v && v < 5),
            other => panic!("{:?}", other),
        }
    }
    for _ in 0..100 {
        assert!(matches!(reply("1 #"), Ok(Item::Int(0))));
        assert!(matches!(reply("1 # 1 # +"), Ok(Item::Int(0))));
    }
}

#[test]
fn take_reply_by_the_number_of_values() {
    let mut stack = Stack::new();
    assert!(matches!(take_reply(&mut stack), Err(Error::Empty)));

    stack.push(Item::Bool(true)).unwrap();
    assert!(matches!(take_reply(&mut stack), Ok(Item::Bool(true))));
    assert!(stack.empty());

    stack.push(Item::Int(1)).unwrap();
    stack.push(Item::Int(2)).unwrap();
    stack.push(Item::Int(3)).unwrap();
    assert!(matches!(take_reply(&mut stack), Err(Error::Extra)));
    assert_eq!(drain(&mut stack), vec![Item::Int(1), Item::Int(2)]);
}
