use inline_c::assertion::normalize;
use inline_c::{Assert, AssertionError, ExecutionResult};
use predicates::prelude::{predicate, Predicate, PredicateStrExt};

fn result(code: Option<i32>, stdout: &str, stderr: &str) -> ExecutionResult {
    ExecutionResult { code, stdout: stdout.as_bytes().to_vec(), stderr: stderr.as_bytes().to_vec() }
}

fn looked_at(code: Option<i32>, stdout: &str, stderr: &str) -> Assert {
    Assert::new(result(code, stdout, stderr))
}

#[test]
fn success_is_the_exit_code_zero() {
    assert!(looked_at(Some(0), "", "").success().is_ok());
    assert!(matches!(
        looked_at(Some(3), "", "").success(),
        Err(AssertionError::Unsuccessful { code: Some(3) })
    ));
    assert!(matches!(
        looked_at(None, "", "").success(),
        Err(AssertionError::Unsuccessful { code: None })
    ));
}

#[test]
fn failure_is_anything_else() {
    assert!(looked_at(Some(3), "", "").failure().is_ok());
    assert!(looked_at(Some(-1), "", "").failure().is_ok());
    assert!(looked_at(None, "", "").failure().is_ok());
    assert!(matches!(looked_at(Some(0), "", "").failure(), Err(AssertionError::Successful)));
}

#[test]
fn interrupted_is_no_exit_code() {
    assert!(looked_at(None, "", "").interrupted().is_ok());
    assert!(matches!(
        looked_at(Some(1), "", "").interrupted(),
        Err(AssertionError::NotInterrupted { code: 1 })
    ));
    assert!(matches!(
        looked_at(Some(0), "", "").interrupted(),
        Err(AssertionError::NotInterrupted { code: 0 })
    ));
}

#[test]
fn exit_code_is_compared_exactly() {
    assert!(looked_at(Some(3), "", "").code(3).is_ok());
    assert!(looked_at(Some(0), "", "").code(0).is_ok());
    assert!(matches!(
        looked_at(Some(3), "", "").code(4),
        Err(AssertionError::Code { expected: 4, actual: Some(3) })
    ));
    assert!(matches!(
        looked_at(None, "", "").code(1),
        Err(AssertionError::Code { expected: 1, actual: None })
    ));
}

#[test]
fn placeholder_stands_for_no_exit_code_only_on_request() {
    assert_eq!(result(None, "", "").code_or_placeholder(), 1);
    assert_eq!(result(Some(0), "", "").code_or_placeholder(), 0);
    assert_eq!(result(Some(42), "", "").code_or_placeholder(), 42);
    assert_eq!(result(Some(1), "", "").code_or_placeholder(), 1);
    assert!(looked_at(Some(1), "", "").interrupted().is_err());
}

#[test]
fn standard_output_is_compared_exactly() {
    assert!(looked_at(Some(0), "Hello, World!", "").stdout(b"Hello, World!").is_ok());
    match looked_at(Some(0), "Hello, World!\r\n", "").stdout(b"Hello, World!\n") {
        Err(AssertionError::Stdout { expected, actual }) => {
            assert_eq!(expected, b"Hello, World!\n");
            assert_eq!(actual, b"Hello, World!\r\n");
        }
        other => panic!("{:?}", other),
    }
    assert!(looked_at(Some(0), "a", "b").stdout(b"b").is_err());
    assert!(looked_at(Some(0), "ab", "").stdout(b"a").is_err());
    assert!(looked_at(Some(0), "a", "").stdout(b"ab").is_err());
}

#[test]
fn standard_error_is_compared_exactly() {
    assert!(looked_at(Some(1), "", "oops").stderr(b"oops").is_ok());
    match looked_at(Some(1), "out", "oops").stderr(b"out") {
        Err(AssertionError::Stderr { expected, actual }) => {
            assert_eq!(expected, b"out");
            assert_eq!(actual, b"oops");
        }
        other => panic!("{:?}", other),
    }
}

#[test]
fn line_endings_do_not_count_where_asked() {
    assert!(looked_at(Some(0), "a\r\nb\r\n", "").stdout_normalized(b"a\nb\n").is_ok());
    assert!(looked_at(Some(0), "a\nb\n", "").stdout_normalized(b"a\nb\n").is_ok());
    assert!(looked_at(Some(0), "", "a\r\nb\r").stderr_normalized(b"a\nb\n").is_ok());
    match looked_at(Some(0), "a\r\nb", "").stdout_normalized(b"a\r\nb") {
        Err(AssertionError::Stdout { expected, actual }) => {
            assert_eq!(expected, b"a\r\nb");
            assert_eq!(actual, b"a\nb");
        }
        other => panic!("{:?}", other),
    }
    match looked_at(Some(0), "", "x\r").stderr_normalized(b"y") {
        Err(AssertionError::Stderr { expected, actual }) => {
            assert_eq!(expected, b"y");
            assert_eq!(actual, b"x\n");
        }
        other => panic!("{:?}", other),
    }
}

#[test]
fn nothing_written() {
    assert!(looked_at(Some(0), "", "").no_stdout().is_ok());
    assert!(looked_at(Some(0), "", "").no_stderr().is_ok());
    assert!(looked_at(Some(0), "", "e").no_stdout().is_ok());
    match looked_at(Some(0), "o", "").no_stdout() {
        Err(AssertionError::Stdout { expected, actual }) => {
            assert_eq!(expected, b"");
            assert_eq!(actual, b"o");
        }
        other => panic!("{:?}", other),
    }
    match looked_at(Some(0), "", "e").no_stderr() {
        Err(AssertionError::Stderr { expected, actual }) => {
            assert_eq!(expected, b"");
            assert_eq!(actual, b"e");
        }
        other => panic!("{:?}", other),
    }
}

#[test]
fn checks_follow_one_another() {
    let checked = looked_at(Some(0), "Hello, World!\n", "")
        .success()
        .unwrap()
        .code(0)
        .unwrap()
        .stdout(b"Hello, World!\n")
        .unwrap()
        .stdout_normalized(b"Hello, World!\n")
        .unwrap()
        .no_stderr()
        .unwrap();
    assert_eq!(checked.get_output().code, Some(0));
    assert_eq!(checked.get_output().stdout, b"Hello, World!\n");
    assert!(checked.get_output().stderr.is_empty());
}

#[test]
fn line_endings_become_line_feeds() {
    assert_eq!(normalize(b""), b"");
    assert_eq!(normalize(b"abc"), b"abc");
    assert_eq!(normalize(b"a\nb"), b"a\nb");
    assert_eq!(normalize(b"a\r\nb"), b"a\nb");
    assert_eq!(normalize(b"a\rb"), b"a\nb");
    assert_eq!(normalize(b"\r"), b"\n");
    assert_eq!(normalize(b"\r\r\n\n\r"), b"\n\n\n\n");
    assert_eq!(normalize(b"\n\r"), b"\n\n");
    assert_eq!(
        normalize(b"This is a string \n with \r some \n\r\n random newlines\r\r\n\n"),
        b"This is a string \n with \n some \n\n random newlines\n\n\n"
    );
}

#[test]
fn line_endings_as_the_predicates_see_them() {
    let texts = [
        "",
        "Hello, World!\n",
        "Hello, World!\r\n",
        "a\rb\r\nc\n\rd\r\r\n\n",
        "\r\n\r\n",
        "\r\r\r",
        "é\r\nü\r",
    ];
    for actual in texts {
        let ours = String::from_utf8(normalize(actual.as_bytes())).unwrap();
        for expected in texts {
            let wanted = predicate::eq(expected).normalize().eval(actual);
            assert_eq!(ours == expected, wanted, "for {:?} and {:?}", actual, expected);
            assert_eq!(
                looked_at(Some(0), actual, "").stdout_normalized(expected.as_bytes()).is_ok(),
                wanted
            );
        }
    }
}

#[test]
fn predicate_on_the_standard_output() {
    let starts = |text: &Vec<u8>| text.starts_with(b"Hello");
    assert!(looked_at(Some(0), "Hello, World!\n", "").stdout_satisfies(starts, false).is_ok());
    match looked_at(Some(0), "Bye\r\n", "Hello").stdout_satisfies(starts, true) {
        Err(AssertionError::StdoutRefused { actual }) => assert_eq!(actual, b"Bye\n"),
        other => panic!("{:?}", other),
    }
    match looked_at(Some(0), "Bye\r\n", "Hello").stdout_satisfies(starts, false) {
        Err(AssertionError::StdoutRefused { actual }) => assert_eq!(actual, b"Bye\r\n"),
        other => panic!("{:?}", other),
    }
}

#[test]
fn predicate_on_the_standard_error() {
    let two_lines = |text: &Vec<u8>| text == b"a\nb\n";
    assert!(looked_at(Some(1), "", "a\r\nb\r\n").stderr_satisfies(two_lines, true).is_ok());
    assert!(looked_at(Some(1), "", "a\nb\n").stderr_satisfies(two_lines, false).is_ok());
    match looked_at(Some(1), "a\nb\n", "a\r\nb\r\n").stderr_satisfies(two_lines, false) {
        Err(AssertionError::StderrRefused { actual }) => assert_eq!(actual, b"a\r\nb\r\n"),
        other => panic!("{:?}", other),
    }
}

#[test]
fn predicate_as_the_predicates_see_it() {
    let wanted = predicate::str::contains("World").normalize();
    let ours = |text: &Vec<u8>| {
        predicate::str::contains("World").eval(std::str::from_utf8(text).unwrap())
    };
    for actual in ["Hello, World!\r\n", "World", "Hello", "Wor\r\nld", ""] {
        assert_eq!(
            looked_at(Some(0), actual, "").stdout_satisfies(ours, true).is_ok(),
            wanted.eval(actual)
        );
    }
}

#[test]
fn a_compiler_that_did_not_start_is_a_failure() {
    let result = ExecutionResult::not_started(b"cc: not found".to_vec());
    assert_eq!(result.code, Some(1));
    assert!(result.stdout.is_empty());
    assert_eq!(result.stderr, b"cc: not found");
    Assert::new(result).failure().unwrap().code(1).unwrap().stderr(b"cc: not found").unwrap();
}
