use h4::h4::{Bridge, EngineError, H4};
use h4::scopes::Scopes;

/// A scripting bridge over a fixed table: every evaluation yields handle
/// 1, which is a sequence of two elements whose display texts are `a`
/// and `b`; handle 9 stands for a scalar shown as `two`.
struct TableBridge {
    scalar: bool,
}

impl Bridge for TableBridge {
    fn evaluate(&mut self, _expr: &Vec<char>, _env: &Scopes) -> u64 {
        if self.scalar {
            9
        } else {
            1
        }
    }
    fn stringify(&mut self, handle: u64) -> Vec<char> {
        match handle {
            9 => "two".chars().collect(),
            10 => "a".chars().collect(),
            11 => "b".chars().collect(),
            _ => "?".chars().collect(),
        }
    }
    fn is_callable(&mut self, _handle: u64) -> bool {
        false
    }
    fn is_sequence(&mut self, handle: u64) -> bool {
        handle == 1
    }
    fn sequence_elements(&mut self, handle: u64) -> Vec<u64> {
        if handle == 1 {
            vec![10, 11]
        } else {
            Vec::new()
        }
    }
    fn read_file(&mut self, path: &Vec<char>) -> Result<Vec<char>, Vec<char>> {
        let name: String = path.iter().collect();
        if name == "f" {
            Ok("word".chars().collect())
        } else {
            Err("denied".chars().collect())
        }
    }
    fn run_shell(&mut self, command: &Vec<char>) -> Result<Vec<char>, Vec<char>> {
        let cmd: String = command.iter().collect();
        if cmd == "ls" {
            Ok("a\nb\n".chars().collect())
        } else {
            Err("bad".chars().collect())
        }
    }
}

fn run_with<B: Bridge>(bridge: &mut B, input: &str) -> String {
    let mut engine = H4::new(input.chars().collect());
    let done = engine.consume(bridge, 1_000_000).expect("engine error");
    assert!(done);
    engine
        .output_text(&"stdout".chars().collect())
        .into_iter()
        .collect()
}

fn run_scalar(input: &str) -> String {
    run_with(&mut TableBridge { scalar: true }, input)
}

fn run_list(input: &str) -> String {
    run_with(&mut TableBridge { scalar: false }, input)
}

fn run_err(input: &str) -> EngineError {
    let mut bridge = TableBridge { scalar: false };
    let mut engine = H4::new(input.chars().collect());
    engine
        .consume(&mut bridge, 1_000_000)
        .expect_err("expected a fatal engine error")
}

#[test]
fn jseval_writes_display_text_literally() {
    assert_eq!(run_scalar("@jsEval(`1+1')"), "two");
}

#[test]
fn get_is_jseval() {
    assert_eq!(run_scalar("@get(`1+1')"), "two");
}

#[test]
fn let_binds_script_value_shown_on_reference() {
    assert_eq!(run_scalar("@let(`v', `1+1')\nv"), "two");
}

#[test]
fn script_display_text_is_not_rescanned() {
    // handle 10 displays as `a`; quotes in a display text would survive
    // into the output because script text is final, so a text equal to a
    // bound name must also stay literal
    assert_eq!(run_scalar("@define(`two', `X')\n@let(`v', `e')\nv"), "two");
}

#[test]
fn set_mutates_existing_binding() {
    // had @set shadowed instead of mutated, or done nothing, the outer
    // binding would still display as the literal body `P`
    let input = "@define(`v', `P')\n@pushScope\n@set(`v', `2')\n@popScope\nv";
    assert_eq!(run_scalar(input), "two");
}

#[test]
fn set_on_unbound_name_is_silent() {
    assert_eq!(run_scalar("@set(`nope', `1')\nx"), "x");
}

#[test]
fn skip_consumes_characters() {
    assert_eq!(run_scalar("`ab'@skip(3)cdefg"), "abfg");
}

#[test]
fn bare_skip_consumes_one_character() {
    assert_eq!(run_scalar("`ab'@skip cd"), "abcd");
}

#[test]
fn skip_with_unparsable_count_skips_nothing() {
    assert_eq!(run_scalar("`x'@skip(zz)y"), "xy");
}

#[test]
fn skip_with_negative_count_skips_nothing() {
    assert_eq!(run_scalar("`x'@skip(-2)y"), "xy");
}

#[test]
fn skip_with_overflowing_count_skips_nothing() {
    assert_eq!(run_scalar("`x'@skip(99999999999)y"), "xy");
}

#[test]
fn skip_past_end_of_input() {
    assert_eq!(run_scalar("`x'@skip(50)yz"), "x");
}

#[test]
fn import_splices_file_contents_for_rescanning() {
    // the imported text is rescanned, so a macro name in it expands; the
    // character after the call is consumed by the builtin
    assert_eq!(run_list("@define(`word', `W')\n@import(`f')x"), "W");
}

#[test]
fn import_failure_becomes_quoted_placeholder() {
    // the placeholder is spliced for rescanning, so its quotes strip
    assert_eq!(run_list("@import(`g')x"), "Could not read file denied");
}

#[test]
fn import_without_file_reports_it() {
    assert_eq!(run_list("@import"), "No file provided");
}

#[test]
fn shell_output_is_trimmed_literal_text() {
    assert_eq!(run_list("@shell(`ls')"), "a\nb");
}

#[test]
fn shell_failure_is_marked_in_output() {
    assert_eq!(run_list("@shell(`rm')"), "`Program exited with error: bad'");
}

#[test]
fn bare_shell_reports_missing_command() {
    assert_eq!(run_list("@shell"), "`Command not found'");
}

#[test]
fn for_iterates_sequence_with_scoped_binding() {
    let input = "@let(`xs', `[]')\n@for(`x', `xs', `<x>')";
    assert_eq!(run_list(input), "<a><b>");
}

#[test]
fn for_over_empty_sequence_terminates() {
    struct EmptyBridge;
    impl Bridge for EmptyBridge {
        fn evaluate(&mut self, _e: &Vec<char>, _s: &Scopes) -> u64 {
            2
        }
        fn stringify(&mut self, _h: u64) -> Vec<char> {
            Vec::new()
        }
        fn is_callable(&mut self, _h: u64) -> bool {
            false
        }
        fn is_sequence(&mut self, h: u64) -> bool {
            h == 2
        }
        fn sequence_elements(&mut self, _h: u64) -> Vec<u64> {
            Vec::new()
        }
        fn read_file(&mut self, _p: &Vec<char>) -> Result<Vec<char>, Vec<char>> {
            Err(Vec::new())
        }
        fn run_shell(&mut self, _c: &Vec<char>) -> Result<Vec<char>, Vec<char>> {
            Err(Vec::new())
        }
    }
    // a macro whose body re-invokes itself only through the iteration
    // bottoms out on the empty sequence and terminates
    let input = "@let(`xs', `[]')\n@define(`rec', `R`'@for(`y', `xs', `rec')')\nrec";
    assert_eq!(run_with(&mut EmptyBridge, input), "R");
}

#[test]
fn for_over_string_is_fatal() {
    let err = run_err("@define(`s', `t')\n@for(`x', `s', `b')");
    assert_eq!(err, EngineError::BadIterationTarget);
}

#[test]
fn for_over_unbound_name_is_fatal() {
    assert_eq!(run_err("@for(`x', `nope', `b')"), EngineError::UnboundIterationName);
}

#[test]
fn pop_of_global_scope_is_fatal() {
    assert_eq!(run_err("@popScope"), EngineError::ScopeUnderflow);
}

#[test]
fn unterminated_call_is_fatal() {
    assert_eq!(run_err("@define(`x', `y'"), EngineError::UnterminatedCall);
}

#[test]
fn unterminated_quote_is_fatal() {
    assert_eq!(run_err("`abc"), EngineError::UnterminatedQuote);
}

#[test]
fn calling_a_callable_script_value_is_fatal() {
    struct CallableBridge;
    impl Bridge for CallableBridge {
        fn evaluate(&mut self, _e: &Vec<char>, _s: &Scopes) -> u64 {
            3
        }
        fn stringify(&mut self, _h: u64) -> Vec<char> {
            "<fn>".chars().collect()
        }
        fn is_callable(&mut self, h: u64) -> bool {
            h == 3
        }
        fn is_sequence(&mut self, _h: u64) -> bool {
            false
        }
        fn sequence_elements(&mut self, _h: u64) -> Vec<u64> {
            Vec::new()
        }
        fn read_file(&mut self, _p: &Vec<char>) -> Result<Vec<char>, Vec<char>> {
            Err(Vec::new())
        }
        fn run_shell(&mut self, _c: &Vec<char>) -> Result<Vec<char>, Vec<char>> {
            Err(Vec::new())
        }
    }
    let mut bridge = CallableBridge;
    let mut engine = H4::new("@let(`f', `fn')\nf(`1')".chars().collect());
    let err = engine
        .consume(&mut bridge, 1_000_000)
        .expect_err("expected a fatal engine error");
    assert_eq!(err, EngineError::ScriptCallUnsupported);
}

#[test]
fn dump_prints_the_global_frame() {
    let expected = "Stack 0:\n\
        @define: <Builtin>\n\
        @dump: <Builtin>\n\
        @pushScope: <Builtin>\n\
        @popScope: <Builtin>\n\
        @skip: <Builtin>\n\
        @jsEval: <Builtin>\n\
        @let: <Builtin>\n\
        @set: <Builtin>\n\
        @get: <Builtin>\n\
        @shell: <Builtin>\n\
        @import: <Builtin>\n\
        @for: <Builtin>\n\
        @newline: \n\n";
    assert_eq!(run_list("@dump"), expected);
}
