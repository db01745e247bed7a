use inline_c::{collect_environment_variables, Variables};
use regex::Regex;

fn variables_of(pairs: &[(&str, &str)]) -> Variables {
    let mut variables = Variables::new();
    for (name, value) in pairs {
        variables.insert(name.to_string(), value.to_string());
    }
    variables
}

fn sorted(variables: &Variables) -> Vec<(String, String)> {
    let mut entries = Vec::new();
    for i in 0..variables.len() {
        entries.push(variables.entry(i).clone());
    }
    entries.sort();
    entries
}

fn extract(program: &str) -> (String, Vec<(String, String)>) {
    let (text, variables) = collect_environment_variables(program, &Variables::new());
    (text, sorted(&variables))
}

fn pairs(entries: &[(&str, &str)]) -> Vec<(String, String)> {
    entries.iter().map(|(name, value)| (name.to_string(), value.to_string())).collect()
}

/// What the pattern of the directive gives, with the last value of each name.
fn by_pattern(program: &str) -> (String, Vec<(String, String)>) {
    let pattern = Regex::new(
        r#"#inline_c_rs (?P<variable_name>[^:]+):\s*"(?P<variable_value>[^"]+)"\r?\n"#,
    )
    .unwrap();
    let mut variables = Variables::new();
    for captures in pattern.captures_iter(program) {
        variables.insert(
            captures["variable_name"].trim().to_string(),
            captures["variable_value"].to_string(),
        );
    }
    (pattern.replace_all(program, "").into_owned(), sorted(&variables))
}

#[test]
fn text_without_directive_is_unchanged() {
    let program = "int main() {\n    return 0;\n}\n";
    assert_eq!(extract(program), (program.to_string(), vec![]));
}

#[test]
fn empty_text() {
    assert_eq!(extract(""), (String::new(), vec![]));
}

#[test]
fn one_directive_is_taken_out() {
    assert_eq!(
        extract("#inline_c_rs FOO: \"bar baz qux\"\nint x;\n"),
        ("int x;\n".to_string(), pairs(&[("FOO", "bar baz qux")]))
    );
}

#[test]
fn directive_between_other_lines() {
    assert_eq!(
        extract("int a;\n#inline_c_rs A: \"1\"\nint b;\n"),
        ("int a;\nint b;\n".to_string(), pairs(&[("A", "1")]))
    );
}

#[test]
fn directive_as_the_tokens_give_it() {
    assert_eq!(
        extract("\n#inline_c_rs FOO : \"bar baz qux\"\n#inline_c_rs HELLO : \"World!\"\n#include <stdio.h>\n"),
        (
            "\n#include <stdio.h>\n".to_string(),
            pairs(&[("FOO", "bar baz qux"), ("HELLO", "World!")])
        )
    );
}

#[test]
fn directive_with_carriage_return() {
    assert_eq!(
        extract("a\r\n#inline_c_rs X: \"y\"\r\nb\r\n"),
        ("a\r\nb\r\n".to_string(), pairs(&[("X", "y")]))
    );
}

#[test]
fn directive_at_the_end_needs_no_line_feed() {
    assert_eq!(extract("#inline_c_rs FOO: \"bar\""), (String::new(), pairs(&[("FOO", "bar")])));
    assert_eq!(
        extract("int x;\n#inline_c_rs FOO: \"bar\""),
        ("int x;\n".to_string(), pairs(&[("FOO", "bar")]))
    );
    assert_eq!(
        extract("\n#inline_c_rs FOO : \"bar\""),
        ("\n".to_string(), pairs(&[("FOO", "bar")]))
    );
}

#[test]
fn name_is_trimmed_and_value_is_not() {
    assert_eq!(
        extract("#inline_c_rs \t MY NAME \u{a0}:\t \"  spaced  \"\n"),
        (String::new(), pairs(&[("MY NAME", "  spaced  ")]))
    );
}

#[test]
fn no_white_space_is_needed_behind_the_colon() {
    assert_eq!(extract("#inline_c_rs A:\"b\"\n"), (String::new(), pairs(&[("A", "b")])));
}

#[test]
fn value_is_not_unescaped() {
    assert_eq!(
        extract("#inline_c_rs A: \"x\\ny\\\\\"\n"),
        (String::new(), pairs(&[("A", "x\\ny\\\\")]))
    );
}

#[test]
fn the_last_directive_of_a_name_wins() {
    assert_eq!(
        extract("#inline_c_rs A: \"first\"\n#inline_c_rs B: \"b\"\n#inline_c_rs A: \"last\"\n"),
        (String::new(), pairs(&[("A", "last"), ("B", "b")]))
    );
}

#[test]
fn directive_without_value_stays() {
    let program = "#inline_c_rs A: \"\"\n";
    assert_eq!(extract(program), (program.to_string(), vec![]));
}

#[test]
fn directive_without_name_stays() {
    let program = "#inline_c_rs : \"b\"\nrest";
    assert_eq!(extract(program), (program.to_string(), vec![]));
    let program = "#inline_c_rs: \"b\"\n";
    assert_eq!(extract(program), (program.to_string(), vec![]));
}

#[test]
fn name_of_white_space_is_the_empty_name() {
    assert_eq!(extract("#inline_c_rs  : \"b\"\nrest"), ("rest".to_string(), pairs(&[("", "b")])));
}

#[test]
fn directive_without_quotes_stays() {
    let program = "#inline_c_rs A: b\n";
    assert_eq!(extract(program), (program.to_string(), vec![]));
}

#[test]
fn text_behind_the_value_keeps_the_line() {
    for program in [
        "#inline_c_rs A: \"b\" // why\n",
        "#inline_c_rs A: \"b\" \n",
        "#inline_c_rs A: \"b\"int x;\n",
        "#inline_c_rs A: \"b\"\"\n",
    ] {
        assert_eq!(extract(program), (program.to_string(), vec![]));
    }
}

#[test]
fn carriage_return_alone_ends_no_directive() {
    for program in [
        "#inline_c_rs A: \"b\"\rnext\n",
        "#inline_c_rs A: \"b\"\r",
        "#inline_c_rs A: \"b\"\r\r\n",
    ] {
        assert_eq!(extract(program), (program.to_string(), vec![]));
    }
}

#[test]
fn keyword_needs_its_space() {
    let program = "#inline_c_rsA: \"b\"\n";
    assert_eq!(extract(program), (program.to_string(), vec![]));
}

#[test]
fn directive_starts_its_line() {
    for program in [
        "int x; #inline_c_rs FOO: \"bar\"\nint y;\n",
        "    #inline_c_rs A: \"b\"\nint x;",
        "\t#inline_c_rs A: \"b\"\n",
        "x#inline_c_rs A: \"b\"\ny#inline_c_rs B: \"c\"\nz",
        "a\r#inline_c_rs A: \"b\"\n",
    ] {
        assert_eq!(extract(program), (program.to_string(), vec![]));
    }
}

#[test]
fn name_and_value_stay_on_the_line() {
    for program in [
        "#inline_c_rs A\nB: \"1\"\n",
        "#inline_c_rs A\nB:\n\"c\nd\"\nrest",
        "#inline_c_rs A:\n\"b\"\n",
        "#inline_c_rs A: \"b\nc\"\n",
        "#inline_c_rs A: \"b\rc\"\n",
        "#inline_c_rs A\rB: \"c\"\n",
        "#inline_c_rs A:\r\"c\"\n",
    ] {
        assert_eq!(extract(program), (program.to_string(), vec![]));
    }
}

#[test]
fn a_directive_inside_a_value_is_none() {
    let program = "#inline_c_rs X: \"#inline_c_rs Y: \"z\"\n\"\n";
    assert_eq!(extract(program), (program.to_string(), vec![]));
}

#[test]
fn what_stays_holds_no_directive() {
    let programs = [
        "#inline_c_#inline_c_rs X: \"y\"\nrs FOO: \"v\"\n",
        "#inline_c_rs A: \"b\"\n#inline_c_rs C: \"d\"",
        "x\n#inline_c_rs A: \"b\"\r\n\n#inline_c_rs C: \"d\"\nint y;",
        "  #inline_c_rs A: \"b\"\n#inline_c_rs C: \"d\"\n#inline_c_rs E: \"f\" \n",
        "#inline_c_rs A: \"b\"\n\r#inline_c_rs C: \"d\"\n",
    ];
    for program in programs {
        let (once, _) = extract(program);
        assert_eq!(extract(&once), (once.clone(), vec![]), "for {:?}", program);
    }
}

#[test]
fn exactly_the_directive_lines_are_gone() {
    let kept = ["int a;\n", "", "\n    int b; // #inline_c_rs NO: \"no\"\n", "int c;"];
    let lines = ["#inline_c_rs A: \"1\"\n", "#inline_c_rs B: \"2\"\r\n", "#inline_c_rs C: \"3\"\n"];
    let program = format!("{}{}{}{}{}{}{}", kept[0], lines[0], kept[1], lines[1], kept[2], lines[2], kept[3]);
    assert_eq!(extract(&program), (kept.concat(), pairs(&[("A", "1"), ("B", "2"), ("C", "3")])));
}

#[test]
fn characters_outside_ascii() {
    assert_eq!(
        extract("é\n#inline_c_rs NAMÉ: \"välue ✓\"\nü"),
        ("é\nü".to_string(), pairs(&[("NAMÉ", "välue ✓")]))
    );
}

#[test]
fn variables_of_the_process_with_the_prefix_are_taken() {
    let environment = variables_of(&[
        ("INLINE_C_RS_FOO", "bar baz qux"),
        ("PATH", "/usr/bin"),
        ("INLINE_C_RS_HELLO", "World!"),
        ("inline_c_rs_lower", "no"),
        ("XINLINE_C_RS_X", "no"),
    ]);
    let (text, variables) = collect_environment_variables("int x;", &environment);
    assert_eq!(text, "int x;");
    assert_eq!(sorted(&variables), pairs(&[("FOO", "bar baz qux"), ("HELLO", "World!")]));
}

#[test]
fn prefix_alone_names_the_empty_name() {
    let environment = variables_of(&[("INLINE_C_RS_", "v")]);
    let (_, variables) = collect_environment_variables("", &environment);
    assert_eq!(sorted(&variables), pairs(&[("", "v")]));
}

#[test]
fn directive_wins_over_the_process() {
    let environment = variables_of(&[("INLINE_C_RS_FOO", "process"), ("INLINE_C_RS_BAR", "kept")]);
    let (text, variables) =
        collect_environment_variables("#inline_c_rs FOO: \"source\"\nint x;", &environment);
    assert_eq!(text, "int x;");
    assert_eq!(sorted(&variables), pairs(&[("BAR", "kept"), ("FOO", "source")]));
    assert_eq!(variables.get("FOO"), Some(&"source".to_string()));
    assert_eq!(variables.get("BAR"), Some(&"kept".to_string()));
    assert_eq!(variables.get("INLINE_C_RS_FOO"), None);
}

#[test]
fn whole_lines_are_read_as_the_pattern_reads_them() {
    let programs = [
        "",
        "int main() { return 0; }",
        "#inline_c_rs FOO: \"bar baz qux\"\n#inline_c_rs HELLO: \"World!\"\n\n#include <stdio.h>\n",
        "\n#inline_c_rs FOO : \"bar baz qux\"\n#inline_c_rs HELLO : \"World!\"\n#include <stdio.h>\n",
        "#inline_c_rs A: \"b\"\r\n#inline_c_rs A: \"c\"\n",
        "#inline_c_rs A: \"b\"\r\r\n",
        "#inline_c_rs A: \"b\"\rx\n",
        "#inline_c_rs : \"b\"\n",
        "#inline_c_rs: \"b\"\n",
        "#inline_c_rs A:\"b\"\n",
        "#inline_c_rs A: \"\"\n",
        "#inline_c_rs A: \"\"\"\n",
        "#inline_c_rs A: b\n",
        "#inline_c_rs A \"b\"\n",
        "#inline_c_rs A: \"b\" \n",
        "#inline_c_rs  A  :  \t\u{a0}\u{2003}\u{3000}\"b\"\n",
        "#inline_c_rs \u{2003}A\u{85}: \"b\"\n",
        "#inline_c_rs A\u{b}: \u{b}\u{c}\"b\"\n",
        "#inline_c_rs A\u{200b}: \u{200b}\"b\"\n",
        "#inline_c_rs A: B: \"c\"\n",
        "#inline_c_rs A\": \"c\"\n",
        "#inline_c_rs #inline_c_rs X: \"y\"\n",
        "#INLINE_C_RS A: \"b\"\n",
        "#inline_c_rs",
        "#inline_c_rs ",
        "#inline_c_rs A",
        "#inline_c_rs A:",
        "#inline_c_rs A: ",
        "#inline_c_rs A: \"",
        "#inline_c_rs A: \"b",
        "#inline_c_rs A: \"b\"\r",
        ":\"\n#",
    ];
    for program in programs {
        assert_eq!(extract(program), by_pattern(program), "for {:?}", program);
    }
}
