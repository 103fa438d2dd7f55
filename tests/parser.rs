use aurora::ast::AstValue;
use aurora::lexer::{identifier, string_literal};
use aurora::parser::{beam_block, beamfile, bool_literal, number_literal, parse_value, string_array, variable_block};
use aurora::{parse_beamfile, parse_str, AuroraError};

fn span(s: &str) -> Vec<char> {
    s.chars().collect()
}

#[test]
fn test_identifier() {
    let (result, _) = identifier(&span("hello_world"), 0).unwrap();
    assert_eq!(result, "hello_world");
}

#[test]
fn test_string_literal() {
    let (result, _) = string_literal(&span(r#""hello world""#), 0).unwrap();
    assert_eq!(result, "hello world");
}

#[test]
fn test_string_literal_escaped() {
    let (result, _) = string_literal(&span(r#""hello\nworld""#), 0).unwrap();
    assert_eq!(result, "hello\nworld");
}

#[test]
fn test_number_literal() {
    let (result, _) = number_literal(&span("42"), 0).unwrap();
    assert_eq!(result, 42);

    let (result, _) = number_literal(&span("-10"), 0).unwrap();
    assert_eq!(result, -10);
}

#[test]
fn test_bool_literal() {
    let (result, _) = bool_literal(&span("true"), 0).unwrap();
    assert!(result);

    let (result, _) = bool_literal(&span("false"), 0).unwrap();
    assert!(!result);
}

#[test]
fn test_string_array() {
    let (result, _) = string_array(&span(r#"["a", "b", "c"]"#), 0).unwrap();
    assert_eq!(result, vec!["a", "b", "c"]);
}

#[test]
fn test_variable_block() {
    let input = r#"variable "build_mode" {
        default = "release"
        description = "Build mode"
    }"#;
    let (result, _) = variable_block(&span(input), 0).unwrap();
    assert_eq!(result.name, "build_mode");
}

#[test]
fn test_beam_block() {
    let input = r#"beam "build" {
        description = "Build the project"
        depends_on = ["clean"]
        run {
            commands = ["cargo build"]
        }
    }"#;
    let (result, _) = beam_block(&span(input), 0).unwrap();
    assert_eq!(result.name, "build");
    assert_eq!(result.body.len(), 3);
}

#[test]
fn test_beamfile() {
    let input = r#"
        # This is a comment
        variable "mode" {
            default = "debug"
        }

        beam "build" {
            run {
                commands = ["cargo build"]
            }
        }

        default = "build"
    "#;
    let result = beamfile(&span(input)).unwrap();
    assert_eq!(result.items.len(), 3);
}

#[test]
fn test_parse_simple_beamfile() {
    let content = r#"
        beam "build" {
            description = "Build the project"
            run {
                commands = ["cargo build"]
            }
        }
    "#;

    let result = parse_beamfile(content, "Beamfile").unwrap();
    assert_eq!(result.beams.len(), 1);

    let beam = result.get_beam("build").unwrap();
    assert_eq!(beam.description.as_deref(), Some("Build the project"));
}

#[test]
fn test_parse_complete_beamfile() {
    let content = r#"
        variable "mode" {
            default = "release"
            description = "Build mode"
        }

        beam "clean" {
            run {
                commands = ["cargo clean"]
            }
        }

        beam "build" {
            description = "Build the project"
            depends_on = ["clean"]

            condition {
                file_exists = "Cargo.toml"
            }

            env {
                RUST_BACKTRACE = "1"
            }

            pre_hook {
                commands = ["echo Starting..."]
            }

            run {
                commands = [
                    "cargo build --release"
                ]
                shell = "bash"
                fail_fast = true
            }

            post_hook {
                commands = ["echo Done!"]
            }

            outputs = ["target/release/aurora"]
        }

        default = "build"
    "#;

    let result = parse_beamfile(content, "Beamfile").unwrap();

    assert_eq!(result.variables.len(), 1);
    assert_eq!(result.beams.len(), 2);
    assert_eq!(result.default_beam.as_deref(), Some("build"));

    let var = result.get_variable("mode").unwrap();
    assert_eq!(var.default.as_deref(), Some("release"));

    let beam = result.get_beam("build").unwrap();
    assert_eq!(beam.depends_on, vec!["clean"]);
    assert!(beam.condition.is_some());
    assert_eq!(beam.pre_hooks.len(), 1);
    assert_eq!(beam.post_hooks.len(), 1);
    assert_eq!(beam.env.get("RUST_BACKTRACE").unwrap(), "1");
    let run = beam.run.as_ref().unwrap();
    assert_eq!(run.shell.as_deref(), Some("bash"));
    assert!(run.fail_fast);
    assert_eq!(run.commands[0].command, "cargo build --release");
    assert_eq!(beam.outputs, vec!["target/release/aurora"]);
}

fn escape(s: &str) -> String {
    let mut out = String::new();
    for c in s.chars() {
        match c {
            '\\' => out.push_str("\\\\"),
            '"' => out.push_str("\\\""),
            '\n' => out.push_str("\\n"),
            '\r' => out.push_str("\\r"),
            '\t' => out.push_str("\\t"),
            c => out.push(c),
        }
    }
    out
}

#[test]
fn escaped_strings_read_back() {
    for s in ["", "plain", "a\\b", "quote\"d", "line\nbreak\r\ttab", "ünïcödé ✓"] {
        let literal = format!("\"{}\"", escape(s));
        let (value, end) = string_literal(&span(&literal), 0).unwrap();
        assert_eq!(value, s);
        assert_eq!(end, literal.chars().count());
    }
}

#[test]
fn bad_escape_and_open_string_fail() {
    assert!(string_literal(&span(r#""a\qb""#), 0).is_err());
    assert!(string_literal(&span(r#""open"#), 0).is_err());
}

#[test]
fn unknown_run_keys_are_ignored() {
    let with = parse_str(r#"beam "b" { run { commands = ["x", "", "y"] bogus = 42 } }"#).unwrap();
    let without = parse_str(r#"beam "b" { run { commands = ["x", "", "y"] } }"#).unwrap();
    let a = with.get_beam("b").unwrap().run.as_ref().unwrap();
    let b = without.get_beam("b").unwrap().run.as_ref().unwrap();
    let la: Vec<&str> = a.commands.iter().map(|c| c.command.as_str()).collect();
    let lb: Vec<&str> = b.commands.iter().map(|c| c.command.as_str()).collect();
    assert_eq!(la, vec!["x", "", "y"]);
    assert_eq!(la, lb);
    assert_eq!(a.shell, b.shell);
    assert_eq!(a.working_dir, b.working_dir);
    assert_eq!(a.fail_fast, b.fail_fast);
}

#[test]
fn hook_fail_on_error_defaults_to_true() {
    let bf = parse_str(r#"beam "b" { pre_hook { commands = ["a"] } post_hook { commands = ["b"] fail_on_error = false } }"#).unwrap();
    let beam = bf.get_beam("b").unwrap();
    assert!(beam.pre_hooks[0].fail_on_error);
    assert!(!beam.post_hooks[0].fail_on_error);
}

#[test]
fn arrays_allow_trailing_commas_and_nesting() {
    let (v, _) = parse_value(&span(r#"[1, "two", [true], { k = -3 },]"#), 0).unwrap();
    match v {
        AstValue::Array(items) => assert_eq!(items.len(), 4),
        _ => panic!("expected an array"),
    }
    let (a, _) = string_array(&span(r#"["a",]"#), 0).unwrap();
    assert_eq!(a, vec!["a"]);
    assert!(string_array(&span(r#"["a" "b"]"#), 0).is_err());
}

#[test]
fn numbers_out_of_range_fail() {
    assert_eq!(number_literal(&span("9223372036854775807"), 0).unwrap().0, i64::MAX);
    assert_eq!(number_literal(&span("-9223372036854775808"), 0).unwrap().0, i64::MIN);
    assert!(number_literal(&span("9223372036854775808"), 0).is_err());
    assert!(number_literal(&span("-"), 0).is_err());
}

#[test]
fn syntax_errors_are_parse_errors() {
    assert!(matches!(parse_str("beam \"x\" {"), Err(AuroraError::Parse { .. })));
    assert!(matches!(parse_str("bogus = 1"), Err(AuroraError::Parse { .. })));
    assert!(matches!(parse_str(r#"beam "x" { colour = "red" }"#), Err(AuroraError::Parse { .. })));
}

#[test]
fn conditions_parse() {
    let bf = parse_str(
        r#"beam "a" { condition { env_equals { name = "MODE" value = "ci" } } }
           beam "b" { condition { env_set = "HOME" } }"#,
    )
    .unwrap();
    match bf.get_beam("a").unwrap().condition.as_ref().unwrap() {
        aurora::Condition::EnvEquals { name, value } => {
            assert_eq!(name, "MODE");
            assert_eq!(value, "ci");
        }
        _ => panic!("expected env_equals"),
    }
    assert!(matches!(bf.get_beam("b").unwrap().condition, Some(aurora::Condition::EnvSet(_))));
}

#[test]
fn empty_text_is_an_empty_beamfile() {
    let bf = parse_str("  # only a comment\n").unwrap();
    assert!(bf.beams.is_empty());
    assert!(bf.default_beam.is_none());
    assert_eq!(bf.path, "<string>");
}

#[test]
fn parse_errors_locate_the_failure() {
    match parse_str("beam \"x\" {\n  colour = 1\n}") {
        Err(AuroraError::Parse { span: Some(span), .. }) => {
            assert_eq!(span.start, 13);
            assert_eq!(span.end, 14);
            assert_eq!(span.line, 2);
            assert_eq!(span.column, 3);
        }
        other => panic!("expected a parse error, got {:?}", other),
    }
    match parse_str("beam \"é\" {") {
        Err(AuroraError::Parse { message, span: Some(span) }) => {
            assert_eq!(message, "Unexpected end of file");
            assert_eq!(span.start, 11);
            assert_eq!(span.line, 1);
        }
        other => panic!("expected a parse error, got {:?}", other),
    }
}

#[test]
fn eof_error_points_at_the_last_byte() {
    let e = aurora::ParseError::eof("ab\u{e9}");
    assert_eq!(e.message, "Unexpected end of file");
    assert_eq!(e.span, Some((3, 1)));
    assert_eq!(aurora::ParseError::eof("").span, Some((0, 0)));
}
