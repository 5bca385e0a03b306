use catlang::command::CatCommand;
use catlang::error::ExecError;
use catlang::grammar::ParseError;
use catlang::interpreter::Interpreter;
use catlang::parser::Parser;
use catlang::value::CatValue;

fn run(code: &str) -> (Interpreter, Result<(), ExecError>) {
    let mut parser = Parser::new();
    parser.parse(code).expect("parse");
    let mut interpreter = Interpreter::new(false);
    let r = interpreter.execute(&parser.commands);
    (interpreter, r)
}

fn top(code: &str) -> String {
    let (mut interpreter, r) = run(code);
    assert!(r.is_ok(), "execution failed: {:?}", r);
    interpreter.pop().expect("a value on the stack").stringify()
}

#[test]
fn hello_world_is_written() {
    let (interpreter, r) = run("\"Hello, world!\"W");
    assert!(r.is_ok());
    assert_eq!(interpreter.output, vec!["Hello, world!\n".to_string()]);
    assert!(interpreter.main_stack.is_empty());
}

#[test]
fn integers_add() {
    assert_eq!(top("12 3 +"), "15");
}

#[test]
fn addition_commutes_on_integers() {
    assert_eq!(top("7 35+"), top("35 7+"));
    assert_eq!(top("7 35+"), "42");
}

#[test]
fn integer_and_text_concatenate_in_order() {
    assert_eq!(top("5\" \"+"), "5 ");
    assert_eq!(top("\" \"5+"), " 5");
    assert_eq!(top("\"ab\"\"cd\"+"), "abcd");
}

#[test]
fn stacks_concatenate() {
    assert_eq!(top("(1 2)(3)+"), "[1 2 3]");
}

#[test]
fn map_doubles() {
    assert_eq!(top("(1 2 3)M2*"), "[2 4 6]");
}

#[test]
fn map_unwraps_single_results() {
    assert_eq!(top("(1 2 3)M1+"), "[2 3 4]");
}

#[test]
fn map_keeps_several_results_wrapped() {
    assert_eq!(top("(1 2)M:"), "[[1 1] [2 2]]");
}

#[test]
fn map_over_text_visits_characters() {
    assert_eq!(top("\"ab\"M\"!\"+"), "[a! b!]");
}

#[test]
fn split_by_separator() {
    assert_eq!(top("\"a,b,c\"\",\"S"), "[a b c]");
}

#[test]
fn split_with_empty_separator() {
    assert_eq!(top("\"ab\"\"\"S"), "[ a b ]");
}

#[test]
fn join_by_separator() {
    assert_eq!(top("(1 2 3)\"-\"J"), "1-2-3");
}

#[test]
fn text_to_integer_then_multiply() {
    assert_eq!(top("5\"3\"I*"), "15");
}

#[test]
fn to_integer_rejects_non_numbers() {
    let (_, r) = run("\"x\"I");
    assert_eq!(r, Err(ExecError::TextNotInteger));
}

#[test]
fn to_integer_accepts_signs() {
    assert_eq!(top("\"-12\"I"), "-12");
    assert_eq!(top("\"+7\"I"), "7");
}

#[test]
fn range_counts_from_one() {
    assert_eq!(top("4r"), "[1 2 3 4]");
    assert_eq!(top("0r"), "[]");
}

#[test]
fn range_broadcasts() {
    assert_eq!(top("(2 3)r"), "[[1 2] [1 2 3]]");
}

#[test]
fn multiply_broadcasts_over_a_stack() {
    assert_eq!(top("(1 2 3)10*"), "[10 20 30]");
}

#[test]
fn add_broadcasts_at_every_depth() {
    assert_eq!(top("((1 2)3)1+"), "[[2 3] 4]");
}

#[test]
fn broadcast_stops_at_first_failure() {
    let (_, r) = run("(1\"a\"2)3*");
    assert_eq!(r, Err(ExecError::NotMultiplicative));
}

#[test]
fn unmatched_close_is_an_execution_error() {
    let mut parser = Parser::new();
    assert!(parser.parse("]").is_ok());
    let mut interpreter = Interpreter::new(false);
    let r = interpreter.execute(&parser.commands);
    assert_eq!(r, Err(ExecError::ClosingOutsideBlock));
    assert_eq!(r.unwrap_err().message(), "Closing outside a block");
}

#[test]
fn nested_close_stays_in_capture() {
    let mut interpreter = Interpreter::new(false);
    let cmds = vec![
        CatCommand::StartBlock,
        CatCommand::StartBlock,
        CatCommand::CloseBlock,
    ];
    assert!(interpreter.execute(&cmds).is_ok());
    assert!(interpreter.main_stack.is_empty());
    assert!(interpreter.execute(&vec![CatCommand::CloseBlock]).is_ok());
    assert_eq!(interpreter.main_stack.len(), 1);
    assert_eq!(
        interpreter.main_stack[0].stringify(),
        "[StartBlock CloseBlock]"
    );
}

#[test]
fn pop_from_empty_stack_fails() {
    let (_, r) = run("+");
    assert_eq!(r, Err(ExecError::EmptyStack));
}

#[test]
fn scoped_execution_collects_only_new_values() {
    let (interpreter, r) = run("9(1 2)");
    assert!(r.is_ok());
    assert_eq!(interpreter.main_stack.len(), 2);
    assert_eq!(interpreter.main_stack[0].stringify(), "9");
    assert_eq!(interpreter.main_stack[1].stringify(), "[1 2]");
}

#[test]
fn scoped_pop_below_floor_lowers_it() {
    let (interpreter, r) = run("9 8(_1)");
    assert!(r.is_ok());
    assert_eq!(interpreter.main_stack.len(), 2);
    assert_eq!(interpreter.main_stack[0].stringify(), "9");
    assert_eq!(interpreter.main_stack[1].stringify(), "[1]");
}

#[test]
fn duplicate_and_drop() {
    assert_eq!(top("4:+"), "8");
    assert_eq!(top("1 2_"), "1");
}

#[test]
fn duplicate_second_keeps_top() {
    let (interpreter, r) = run("1 2;");
    assert!(r.is_ok());
    let shown: Vec<String> = interpreter.main_stack.iter().map(|v| v.stringify()).collect();
    assert_eq!(shown, vec!["1", "1", "2"]);
}

#[test]
fn rotations() {
    let (interpreter, r) = run("1 2 3X");
    assert!(r.is_ok());
    let shown: Vec<String> = interpreter.main_stack.iter().map(|v| v.stringify()).collect();
    assert_eq!(shown, vec!["2", "3", "1"]);
    let (interpreter, r) = run("1 2x");
    assert!(r.is_ok());
    let shown: Vec<String> = interpreter.main_stack.iter().map(|v| v.stringify()).collect();
    assert_eq!(shown, vec!["2", "1"]);
}

#[test]
fn rotation_needs_enough_values() {
    let (_, r) = run("1X");
    assert_eq!(r, Err(ExecError::EmptyStack));
}

#[test]
fn side_stack_round_trip() {
    assert_eq!(top("1p2p~"), "[1 2]");
    let (interpreter, r) = run("5pP");
    assert!(r.is_ok());
    assert_eq!(interpreter.main_stack.len(), 2);
}

#[test]
fn side_stack_pop_when_empty_fails() {
    let (_, r) = run("P");
    assert_eq!(r, Err(ExecError::EmptySideStack));
}

#[test]
fn repeat_runs_count_times() {
    assert_eq!(top("1 3#2*"), "8");
    assert_eq!(top("1\"2\"#3*"), "9");
}

#[test]
fn repeat_rejects_non_numeric_text() {
    let (_, r) = run("1\"z\"#2*");
    assert_eq!(r, Err(ExecError::CountNotNumber));
}

#[test]
fn for_each_leaves_results() {
    let (interpreter, r) = run("(1 2)F3*");
    assert!(r.is_ok());
    let shown: Vec<String> = interpreter.main_stack.iter().map(|v| v.stringify()).collect();
    assert_eq!(shown, vec!["3", "6"]);
}

#[test]
fn quoted_operator_executes() {
    assert_eq!(top("2 3`+!"), "5");
}

#[test]
fn executing_a_number_fails() {
    let (_, r) = run("3!");
    assert_eq!(r, Err(ExecError::NotExecutable));
}

#[test]
fn variables_bind_and_read() {
    assert_eq!(top("5>aaa+"), "10");
    let (_, r) = run("5>a<a<a");
    assert_eq!(r, Err(ExecError::UnboundVariable));
}

#[test]
fn self_application_hits_nesting_limit() {
    let (_, r) = run("[:!]:!");
    assert_eq!(r, Err(ExecError::NestingTooDeep));
}

#[test]
fn integer_overflow_is_reported() {
    let (_, r) = run("9223372036854775807 1+");
    assert_eq!(r, Err(ExecError::Overflow));
}

#[test]
fn read_line_takes_fed_input() {
    let mut parser = Parser::new();
    parser.parse("RR").unwrap();
    let mut interpreter = Interpreter::new(false);
    interpreter.feed_line("abc".to_string());
    assert!(interpreter.execute(&parser.commands).is_ok());
    let shown: Vec<String> = interpreter.main_stack.iter().map(|v| v.stringify()).collect();
    assert_eq!(shown, vec!["abc", ""]);
}

#[test]
fn write_without_newline() {
    let (mut interpreter, r) = run("1w2W");
    assert!(r.is_ok());
    assert_eq!(interpreter.take_output(), vec!["1".to_string(), "2\n".to_string()]);
    assert!(interpreter.output.is_empty());
}

#[test]
fn parse_integers_and_separators() {
    let mut parser = Parser::new();
    parser.parse("12 3").unwrap();
    let names: Vec<String> = parser.commands.iter().map(|c| c.name()).collect();
    assert_eq!(names, vec!["CreateInteger(12)", "CreateInteger(3)"]);
}

#[test]
fn parse_whitespace_is_text() {
    let mut parser = Parser::new();
    parser.parse("\"a\" ").unwrap();
    let names: Vec<String> = parser.commands.iter().map(|c| c.name()).collect();
    assert_eq!(names, vec!["CreateString(\"a\")", "CreateString(\" \")"]);
}

#[test]
fn parse_escapes_and_char_literals() {
    let mut parser = Parser::new();
    parser.parse("\"a\\\"b\"'\"").unwrap();
    let names: Vec<String> = parser.commands.iter().map(|c| c.name()).collect();
    assert_eq!(names, vec!["CreateString(\"a\"b\")", "CreateString(\"\"\")"]);
}

#[test]
fn parse_paren_adds_scoped_execution() {
    let mut parser = Parser::new();
    parser.parse("(1)").unwrap();
    let names: Vec<String> = parser.commands.iter().map(|c| c.name()).collect();
    assert_eq!(
        names,
        vec!["StartBlock", "CreateInteger(1)", "CloseBlock", "ExecuteScoped"]
    );
}

#[test]
fn parse_quote_wraps_next_operator() {
    let mut parser = Parser::new();
    parser.parse("`+").unwrap();
    let names: Vec<String> = parser.commands.iter().map(|c| c.name()).collect();
    assert_eq!(names, vec!["CreateCommand(Add)"]);
    let mut parser = Parser::new();
    parser.parse("`").unwrap();
    assert!(parser.commands.is_empty());
}

#[test]
fn parse_named_block_binds() {
    let mut parser = Parser::new();
    parser.parse("{1}a").unwrap();
    let names: Vec<String> = parser.commands.iter().map(|c| c.name()).collect();
    assert_eq!(
        names,
        vec!["StartBlock", "CreateInteger(1)", "CloseBlock", "PushVariable('a')"]
    );
    assert_eq!(parser.known_variables, vec!['a']);
}

#[test]
fn parse_pre_named_blocks_move_to_front() {
    let mut parser = Parser::new();
    parser.parse("1a2$b3$").unwrap();
    let names: Vec<String> = parser.commands.iter().map(|c| c.name()).collect();
    assert_eq!(
        names,
        vec![
            "StartBlock",
            "CreateInteger(3)",
            "CloseBlock",
            "PushVariable('b')",
            "StartBlock",
            "CreateInteger(2)",
            "CloseBlock",
            "PushVariable('a')",
            "CreateInteger(1)",
            "PopVariable('a', true)",
            "PopVariable('b', true)",
        ]
    );
}

#[test]
fn parse_map_shorthand_with_terminator() {
    let mut parser = Parser::new();
    parser.parse("M2$").unwrap();
    let names: Vec<String> = parser.commands.iter().map(|c| c.name()).collect();
    assert_eq!(names, vec!["StartBlock", "CreateInteger(2)", "CloseBlock", "Map"]);
}

#[test]
fn parse_reports_unexpected_character() {
    let mut parser = Parser::new();
    assert_eq!(parser.parse("$"), Err(ParseError::UnexpectedChar('$')));
    assert_eq!(
        ParseError::UnexpectedChar('$').message(),
        "Unexpected character: $"
    );
}

#[test]
fn parse_reports_end_of_input() {
    let mut parser = Parser::new();
    assert_eq!(parser.parse(">"), Err(ParseError::UnexpectedEof));
    assert_eq!(ParseError::UnexpectedEof.message(), "Unexpected EOF");
}

#[test]
fn large_literal_is_held_at_maximum() {
    assert_eq!(top("99999999999999999999"), "9223372036854775807");
}

#[test]
fn display_forms() {
    let v = CatValue::VStack(vec![
        CatValue::VInteger(-3),
        CatValue::VString("a\nb".to_string()),
        CatValue::VCommand(CatCommand::Rotate(2)),
    ]);
    assert_eq!(v.stringify(), "[-3 a\nb Rotate(2)]");
    assert_eq!(v.debug_stringify(), "[-3 \"a\\nb\" Rotate(2)]");
}

#[test]
fn round_trip_of_literals() {
    for v in [CatValue::VInteger(0), CatValue::VInteger(1234567)] {
        let shown = v.stringify();
        assert_eq!(top(&shown), shown);
    }
    let t = CatValue::VString("hi there".to_string());
    assert_eq!(top(&t.debug_stringify()), "hi there");
}

#[test]
fn trace_records_nested_frames() {
    let mut parser = Parser::new();
    parser.parse("(1)").unwrap();
    let mut interpreter = Interpreter::new(true);
    assert!(interpreter.execute(&parser.commands).is_ok());
    assert_eq!(interpreter.exec_frames.len(), 4);
    let last = &interpreter.exec_frames[3];
    assert_eq!(last.command.name(), "ExecuteScoped");
    assert_eq!(last.inner_frames.len(), 1);
    assert_eq!(last.inner_frames[0].command.name(), "CreateInteger(1)");
    assert_eq!(last.stack_after.len(), 1);
    assert!(interpreter.exec_frames[1].reading);
}

#[test]
fn auto_map_helpers() {
    let v = CatValue::VStack(vec![CatValue::VInteger(1), CatValue::VInteger(2)]);
    let doubled = v
        .auto_map_ref(|x: &CatValue| match x {
            CatValue::VInteger(i) => Ok::<CatValue, ()>(CatValue::VInteger(i * 2)),
            _ => Err(()),
        })
        .unwrap();
    assert_eq!(doubled.stringify(), "[2 4]");
    let tripled = v
        .auto_map(|x: CatValue| match x {
            CatValue::VInteger(i) => Ok::<CatValue, ()>(CatValue::VInteger(i * 3)),
            _ => Err(()),
        })
        .unwrap();
    assert_eq!(tripled.stringify(), "[3 6]");
    let s = CatValue::VString("x".to_string());
    assert!(s
        .auto_do(|x: &CatValue| match x {
            CatValue::VInteger(_) => Ok(()),
            _ => Err(()),
        })
        .is_err());
}

#[test]
fn trace_lines_are_indented_and_clipped() {
    let mut parser = Parser::new();
    parser
        .parse("\"aaaaaaaaaaaaaaaaaaaaaaaaaaaaaaaaaaaaaaaa\"(1)")
        .unwrap();
    let mut interpreter = Interpreter::new(true);
    assert!(interpreter.execute(&parser.commands).is_ok());
    let frame = &interpreter.exec_frames[4];
    let lines = catlang::trace::render_frame(frame, 0);
    assert_eq!(lines.len(), 2);
    let name = format!("{: <40}", "ExecuteScoped");
    let before = "...aaaaaaaaaaaaaaaa\" [CreateInteger(1)]]";
    assert_eq!(
        lines[0],
        format!(
            ">  {} {} | Stack before: {: <40} | Stack after: {}",
            name,
            "      ",
            before,
            "[\"aaaaaaaaaaaaaaaaaaaaaaaaaaaaaaaaaaaaaaaa\" [1]]"
        )
    );
    assert!(lines[1].starts_with(">    CreateInteger(1)"));
}

#[test]
fn rotation_brings_third_to_top() {
    let (interpreter, r) = run("7 1 2 3X");
    assert!(r.is_ok());
    let shown: Vec<String> = interpreter.main_stack.iter().map(|v| v.stringify()).collect();
    assert_eq!(shown, vec!["7", "2", "3", "1"]);
}

#[test]
fn nested_scope_popping_below_outer_floor() {
    let (interpreter, r) = run("1 2((__))");
    assert!(r.is_ok());
    assert_eq!(interpreter.main_stack.len(), 1);
    assert_eq!(interpreter.main_stack[0].stringify(), "[[]]");
}

#[test]
fn failed_split_keeps_separator() {
    let (interpreter, r) = run("1\",\"S");
    assert_eq!(r, Err(ExecError::SplitNeedsText));
    let shown: Vec<String> = interpreter.main_stack.iter().map(|v| v.stringify()).collect();
    assert_eq!(shown, vec!["1", ","]);
}

#[test]
fn failed_join_keeps_separator() {
    let (interpreter, r) = run("1\"-\"J");
    assert_eq!(r, Err(ExecError::JoinNeedsStack));
    assert_eq!(interpreter.main_stack.len(), 2);
}

#[test]
fn escaped_text_literal_round_trip() {
    assert_eq!(top("\"a\\\"b\\\\c\nd\""), "a\"b\\c\nd");
}

#[test]
fn accessors_show_state() {
    let mut parser = Parser::new();
    parser.parse("5>a1p").unwrap();
    assert_eq!(parser.commands().len(), 4);
    assert_eq!(parser.known_variables(), &vec!['a']);
    let mut interpreter = Interpreter::new(true);
    assert!(interpreter.execute(parser.commands()).is_ok());
    assert_eq!(interpreter.main_stack().len(), 1);
    assert_eq!(interpreter.side_stack().len(), 1);
    assert_eq!(interpreter.exec_frames().len(), 4);
    assert!(interpreter.output().is_empty());
}
