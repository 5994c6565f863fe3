use h4::h4::{Bridge, H4};
use h4::scopes::Scopes;

struct NullBridge;

impl Bridge for NullBridge {
    fn evaluate(&mut self, _expr: &Vec<char>, _env: &Scopes) -> u64 {
        0
    }
    fn stringify(&mut self, _handle: u64) -> Vec<char> {
        Vec::new()
    }
    fn is_callable(&mut self, _handle: u64) -> bool {
        false
    }
    fn is_sequence(&mut self, _handle: u64) -> bool {
        false
    }
    fn sequence_elements(&mut self, _handle: u64) -> Vec<u64> {
        Vec::new()
    }
    fn read_file(&mut self, _path: &Vec<char>) -> Result<Vec<char>, Vec<char>> {
        Err("no files here".chars().collect())
    }
    fn run_shell(&mut self, _command: &Vec<char>) -> Result<Vec<char>, Vec<char>> {
        Err("no shell here".chars().collect())
    }
}

fn run(input: &str) -> String {
    let mut bridge = NullBridge;
    let mut engine = H4::new(input.chars().collect());
    let done = engine.consume(&mut bridge, 1_000_000).expect("engine error");
    assert!(done);
    engine
        .output_text(&"stdout".chars().collect())
        .into_iter()
        .collect()
}

#[test]
fn literal_text_passes_through() {
    assert_eq!(run("hello, world 123"), "hello, world 123");
}

#[test]
fn unbound_name_passes_through() {
    assert_eq!(run("nothing bound"), "nothing bound");
}

#[test]
fn quote_round_trip() {
    assert_eq!(run("`text'"), "text");
}

#[test]
fn nested_quotes_keep_inner_pair() {
    assert_eq!(run("`a `b' c'"), "a `b' c");
}

#[test]
fn quoted_macro_name_is_not_expanded() {
    assert_eq!(run("@define(`w', `X')\n`w'"), "w");
}

#[test]
fn bare_macro_expands_body() {
    assert_eq!(run("@define(`word', `AMAZING')\nword"), "AMAZING");
}

#[test]
fn bare_and_empty_call_expand_alike() {
    // bare reference and call with no arguments differ only in the
    // @arg0 binding, which this body does not use
    assert_eq!(run("@define(`inner', `X')\n@define(`m', `inner')\nm"), "X");
    assert_eq!(run("@define(`inner', `X')\n@define(`m', `inner')\nm()"), "X");
}

#[test]
fn body_is_rescanned() {
    assert_eq!(
        run("@define(`a', `b c')\n@define(`b', `B')\n@define(`c', `C')\na"),
        "B C"
    );
}

#[test]
fn shadowing_and_popping_scopes() {
    let input = "@define(`word', `AMAZING')\nword\n@pushScope\n@define(`word', `COOL')\nword\n@popScope\nword";
    assert_eq!(run(input), "AMAZING\nCOOL\nAMAZING");
}

#[test]
fn call_arguments_are_substituted() {
    let input = "@define(`greet', `@arg0 and @arg1')\ngreet(`Al', `Bo')";
    assert_eq!(run(input), "Al and Bo");
}

#[test]
fn argument_separator_skips_one_character() {
    // the comma and exactly one following character are consumed
    let input = "@define(`greet', `@arg0 and @arg1')\ngreet(`Al',X`Bo')";
    assert_eq!(run(input), "Al and Bo");
}

#[test]
fn arguments_are_pre_expanded() {
    // the callee sees the expanded text of its argument, not the token
    let input = "@define(`n', `N')\n@define(`show', `[@arg0]')\nshow(n)";
    assert_eq!(run(input), "[N]");
}

#[test]
fn newline_macro() {
    assert_eq!(run("`a'@newline()b"), "a\nb");
}

#[test]
fn recursion_bottoms_out_when_body_stops_referencing_itself() {
    // the body references `rec` only under a quote, so the reference is
    // re-made literal text each time it is not rescanned
    assert_eq!(run("@define(`rec', `R`rec'')\nrec"), "Rrec");
}

#[test]
fn nested_calls_one_level() {
    let input = "@define(`wrap', `[@arg0]')\nwrap(wrap(`x'))";
    assert_eq!(run(input), "[[x]]");
}

#[test]
fn nested_calls_two_levels() {
    let input = "@define(`wrap', `[@arg0]')\nwrap(wrap(wrap(`x')))";
    assert_eq!(run(input), "[[[x]]]");
}

#[test]
fn nested_call_inside_second_argument() {
    let input = "@define(`wrap', `[@arg0]')\n@define(`pair', `@arg0+@arg1')\npair(`a', wrap(`b'))";
    assert_eq!(run(input), "a+[b]");
}

#[test]
fn remaining_input_reports_unconsumed_text() {
    let engine = H4::new("abc".chars().collect());
    let rest: String = engine.remaining_input().iter().collect();
    assert_eq!(rest, "abc");
}
