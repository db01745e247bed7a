use inline_c::{
    assert_c, assert_cxx, run, Assert, BuildPlan, Delimiter, ExecutionResult, Language, Spacing,
    Token, Tool, Variables,
};
use proc_macro2::{TokenStream, TokenTree};
use std::io::Write;
use std::path::Path;

fn tokens_of(stream: TokenStream) -> Vec<Token> {
    stream
        .into_iter()
        .map(|tree| {
            let line = tree.span().start().line;
            match tree {
                TokenTree::Punct(punct) => Token::Punct {
                    ch: punct.as_char(),
                    spacing: match punct.spacing() {
                        proc_macro2::Spacing::Alone => Spacing::Alone,
                        proc_macro2::Spacing::Joint => Spacing::Joint,
                    },
                    line,
                },
                TokenTree::Ident(ident) => Token::Ident { name: ident.to_string(), line },
                TokenTree::Literal(literal) => Token::Literal { text: literal.to_string(), line },
                TokenTree::Group(group) => Token::Group {
                    delimiter: match group.delimiter() {
                        proc_macro2::Delimiter::Parenthesis => Delimiter::Parenthesis,
                        proc_macro2::Delimiter::Brace => Delimiter::Brace,
                        proc_macro2::Delimiter::Bracket => Delimiter::Bracket,
                        proc_macro2::Delimiter::None => Delimiter::Invisible,
                    },
                    tokens: tokens_of(group.stream()),
                    text: group.to_string(),
                    line,
                },
            }
        })
        .collect()
}

fn tokens(source: &str) -> Vec<Token> {
    tokens_of(source.parse().unwrap())
}

fn variables_of(pairs: &[(&str, &str)]) -> Variables {
    let mut variables = Variables::new();
    for (name, value) in pairs {
        variables.insert(name.to_string(), value.to_string());
    }
    variables
}

fn text<S: AsRef<Path>>(value: S) -> String {
    value.as_ref().to_str().unwrap().to_string()
}

fn temp_path(prefix: &str, suffix: &str, contents: &str) -> String {
    let mut file = tempfile::Builder::new().prefix(prefix).suffix(suffix).tempfile().unwrap();
    file.write_all(contents.as_bytes()).unwrap();
    let (_, path) = file.keep().unwrap();
    path.to_str().unwrap().to_string()
}

fn start(command: &inline_c::Command) -> ExecutionResult {
    let mut process = assert_cmd::Command::new(&command.program);
    process.args(&command.args);
    for name in &command.unset {
        process.env_remove(name);
    }
    for i in 0..command.envs.len() {
        let entry = command.envs.entry(i);
        process.env(&entry.0, &entry.1);
    }
    let output = process.output().unwrap();
    ExecutionResult { code: output.status.code(), stdout: output.stdout, stderr: output.stderr }
}

/// Does what the plan asks for, and gives what the process that is looked at
/// came to, with the temporary files of the run.
fn execute(plan: BuildPlan, environment: &Variables) -> (Assert, Vec<String>) {
    let input = temp_path(&plan.source_file.prefix, &plan.source_file.suffix, &plan.program);
    let output = temp_path(&plan.output_file.prefix, &plan.output_file.suffix, "");
    let tool = cc::Build::new()
        .cargo_metadata(plan.settings.cargo_metadata)
        .warnings(plan.settings.warnings)
        .extra_warnings(plan.settings.extra_warnings)
        .warnings_into_errors(plan.settings.warnings_into_errors)
        .debug(plan.settings.debug)
        .host(&plan.settings.host)
        .target(&plan.settings.target)
        .opt_level(plan.settings.opt_level)
        .cpp(plan.settings.cpp)
        .try_get_compiler()
        .unwrap();
    let started = tool.to_command();
    let mut command = inline_c::Command::new(text(started.get_program()));
    for arg in started.get_args() {
        command.arg(text(arg));
    }
    for (name, value) in started.get_envs() {
        match value {
            Some(value) => command.envs.insert(text(name), text(value)),
            None => command.unset.push(text(name)),
        }
    }
    let compiler = plan.compiler(Tool {
        path: text(tool.path()),
        args: tool.args().iter().map(text).collect(),
        command,
        clang: tool.is_like_clang(),
    });
    let compilation = plan.compilation(&compiler, &input, &output, environment);
    assert_eq!(compilation.files_to_remove, vec![input.clone(), output.clone()]);
    let compiled = start(&compilation.command).code == Some(0);
    let object_written = match &compilation.object_file {
        Some(path) => Path::new(path).exists(),
        None => false,
    };
    let execution = compilation.finish(compiled, object_written);
    let result = start(&execution.command);
    let files = execution.files_to_remove.unwrap();
    for file in &files {
        tempfile::TempPath::from_path(file).close().unwrap();
    }
    (Assert::new(result), files)
}

fn run_c(program: &str) -> Assert {
    let environment = Variables::new();
    execute(run(Language::C, program, &environment), &environment).0
}

fn c(source: &str, environment: &Variables) -> Assert {
    execute(assert_c(&tokens(source), true, environment).unwrap(), environment).0
}

#[test]
fn test_c_macro() {
    c(
        "
            int main() {
                int x = 1;
                int y = 2;

                return x + y;
            }
        ",
        &Variables::new(),
    )
    .failure()
    .unwrap()
    .code(3)
    .unwrap();
}

#[test]
fn test_c_macro_with_include() {
    c(
        r#"
            #include <stdio.h>

            int main() {
                printf("Hello, World!\n");

                return 0;
            }
        "#,
        &Variables::new(),
    )
    .success()
    .unwrap()
    .stdout_normalized(b"Hello, World!\n")
    .unwrap();
}

#[test]
fn test_c_macro_with_env_vars_inlined() {
    c(
        r#"
            // Those are env variables.
            #inline_c_rs FOO: "bar baz qux"
            #inline_c_rs HELLO: "World!"

            #include <stdio.h>
            #include <stdlib.h>

            int main() {
                const char* foo = getenv("FOO");
                const char* hello = getenv("HELLO");

                if (NULL == foo || NULL == hello) {
                    return 1;
                }

                printf("FOO is set to `%s`\n", foo);
                printf("HELLO is set to `%s`\n", hello);

                return 0;
            }
        "#,
        &variables_of(&[("INLINE_C_RS_CFLAGS", "-D_CRT_SECURE_NO_WARNINGS")]),
    )
    .success()
    .unwrap()
    .stdout_normalized(
        b"FOO is set to `bar baz qux`\n\
                HELLO is set to `World!`\n",
    )
    .unwrap();
}

#[test]
fn test_c_macro_with_env_vars_from_env_vars() {
    c(
        r#"
            #include <stdio.h>
            #include <stdlib.h>

            int main() {
                const char* foo = getenv("FOO");
                const char* hello = getenv("HELLO");

                if (NULL == foo || NULL == hello) {
                    return 1;
                }

                printf("FOO is set to `%s`\n", foo);
                printf("HELLO is set to `%s`\n", hello);

                return 0;
            }
        "#,
        &variables_of(&[
            ("INLINE_C_RS_FOO", "bar baz qux"),
            ("INLINE_C_RS_HELLO", "World!"),
            ("INLINE_C_RS_CFLAGS", "-D_CRT_SECURE_NO_WARNINGS"),
        ]),
    )
    .success()
    .unwrap()
    .stdout_normalized(
        b"FOO is set to `bar baz qux`\n\
                HELLO is set to `World!`\n",
    )
    .unwrap();
}

#[test]
fn test_c_macro_with_define() {
    c(
        "
            #define sum(a, b) ((a) + (b))

            int main() {
                return !(sum(1, 2) == 3);
            }
        ",
        &Variables::new(),
    )
    .success()
    .unwrap();
}

#[test]
fn test_run_c() {
    run_c(
        r#"
                #include <stdio.h>

                int main() {
                    printf("Hello, World!\n");

                    return 0;
                }
            "#,
    )
    .success()
    .unwrap()
    .stdout_normalized(b"Hello, World!\n")
    .unwrap();
}

#[test]
fn test_run_cxx() {
    let environment = Variables::new();
    let plan = run(
        Language::Cxx,
        r#"
                #include <stdio.h>

                int main() {
                    printf("Hello, World!\n");

                    return 0;
                }
            "#,
        &environment,
    );
    execute(plan, &environment)
        .0
        .success()
        .unwrap()
        .stdout_normalized(b"Hello, World!\n")
        .unwrap();
}

#[test]
fn snippet_in_cxx() {
    let environment = Variables::new();
    let source = r#"
        #include <iostream>

        int main() {
            std::cout << "Hello, World!";

            return 0;
        }
    "#;
    execute(assert_cxx(&tokens(source), false, &environment).unwrap(), &environment)
        .0
        .success()
        .unwrap()
        .stdout(b"Hello, World!")
        .unwrap();
}

#[test]
fn hello_world_succeeds_and_writes_no_error() {
    c(
        r#"
            #include <stdio.h>

            int main() {
                printf("Hello, World!");

                return 0;
            }
        "#,
        &Variables::new(),
    )
    .success()
    .unwrap()
    .stdout(b"Hello, World!")
    .unwrap()
    .no_stderr()
    .unwrap();
}

#[test]
fn sum_is_the_exit_code() {
    c("int main() { return 1 + 2; }", &Variables::new()).failure().unwrap().code(3).unwrap();
}

#[test]
fn variable_of_a_directive_reaches_the_process() {
    c(
        r#"
            #inline_c_rs FOO: "bar baz qux"

            #include <stdio.h>
            #include <stdlib.h>

            int main() {
                const char* foo = getenv("FOO");

                if (NULL == foo) {
                    return 1;
                }

                printf("FOO is set to `%s`", foo);

                return 0;
            }
        "#,
        &Variables::new(),
    )
    .success()
    .unwrap()
    .stdout(b"FOO is set to `bar baz qux`")
    .unwrap();
}

#[test]
fn directive_wins_over_the_process_in_the_process() {
    c(
        r#"
            #inline_c_rs FOO: "source"

            #include <stdio.h>
            #include <stdlib.h>

            int main() {
                printf("%s", getenv("FOO"));

                return 0;
            }
        "#,
        &variables_of(&[("INLINE_C_RS_FOO", "process")]),
    )
    .success()
    .unwrap()
    .stdout(b"source")
    .unwrap();
}

#[test]
fn flags_of_a_directive_reach_the_compiler() {
    c(
        r#"
            #inline_c_rs CFLAGS: "-DANSWER=42 -DUNUSED"
            #include <stdlib.h>

            int main() {
                return ANSWER;
            }
        "#,
        &Variables::new(),
    )
    .code(42)
    .unwrap();
}

#[test]
fn flags_of_the_process_reach_the_compiler() {
    let environment = variables_of(&[("CPPFLAGS", "-DANSWER=7")]);
    execute(run(Language::C, "int main() { return ANSWER; }", &environment), &environment)
        .0
        .code(7)
        .unwrap();
}

#[test]
fn failed_compilation_is_a_failure_with_the_compiler_messages() {
    let looked_at = run_c("int main() { return missing; }");
    let looked_at = looked_at.failure().unwrap();
    assert!(!looked_at.get_output().stderr.is_empty());
    assert!(looked_at.no_stderr().is_err());
}

#[test]
fn warning_fails_the_compilation() {
    run_c("int main() { int unused; return 0; }").failure().unwrap();
}

#[test]
fn temporary_files_are_gone_after_a_run() {
    let environment = Variables::new();
    let (looked_at, files) =
        execute(run(Language::C, "int main() { return 0; }", &environment), &environment);
    looked_at.success().unwrap();
    assert_eq!(files.len(), 2);
    for file in files {
        assert!(!Path::new(&file).exists());
    }
}

#[test]
fn temporary_files_are_gone_after_a_failed_compilation() {
    let environment = Variables::new();
    let (looked_at, files) = execute(run(Language::C, "int main(", &environment), &environment);
    looked_at.failure().unwrap();
    assert_eq!(files.len(), 2);
    for file in files {
        assert!(!Path::new(&file).exists());
    }
}

#[test]
fn temporary_files_are_named_as_planned() {
    let environment = Variables::new();
    let (_, files) =
        execute(run(Language::Cxx, "int main() { return 0; }", &environment), &environment);
    let name = |file: &String| Path::new(file).file_name().unwrap().to_str().unwrap().to_string();
    assert!(name(&files[0]).starts_with("inline-c-rs-"));
    assert!(name(&files[0]).ends_with(".cpp"));
    assert!(name(&files[1]).starts_with("inline-c-rs-"));
    assert_ne!(files[0], files[1]);
}

#[test]
fn tokens_of_a_snippet_give_its_source_text() {
    let source = r#"
        #include <stdio.h>

        int main() {
            printf("Hello, World!\n");

            return 0;
        }
    "#;
    assert_eq!(
        inline_c::reconstruct(&tokens(source), false).unwrap(),
        "\n#include <stdio.h>\nint main (){\nprintf (\"Hello, World!\\n\");\nreturn 0;\n\n}"
    );
}

#[test]
fn directive_at_the_end_of_a_snippet_is_taken_out() {
    let source = "int main() { return 0; }\n#inline_c_rs FOO: \"bar\"";
    let plan = assert_c(&tokens(source), false, &Variables::new()).unwrap();
    assert_eq!(plan.program, "int main (){\nreturn 0;\n\n}\n");
    assert_eq!(plan.variables.get("FOO"), Some(&"bar".to_string()));
    assert_eq!(plan.variables.len(), 1);
}

#[test]
fn directive_ends_its_line() {
    let source = "#inline_c_rs A: \"b\"\nint x;";
    assert_eq!(
        inline_c::reconstruct(&tokens(source), false).unwrap(),
        "\n#inline_c_rs A : \"b\"int x ;\n"
    );
    let plan = assert_c(&tokens(source), false, &Variables::new()).unwrap();
    assert_eq!(plan.program, "\n#inline_c_rs A : \"b\"int x ;\n");
    assert_eq!(plan.variables.len(), 0);
}

#[test]
fn tokens_of_a_refused_snippet_give_no_plan() {
    assert!(assert_c(&tokens("#include 42"), false, &Variables::new()).is_err());
    assert!(assert_cxx(&tokens("#define A 1"), false, &Variables::new()).is_err());
    assert!(assert_c(&tokens("#define A 1"), true, &Variables::new()).is_ok());
}
