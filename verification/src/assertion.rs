use crate::text::left;
use vstd::prelude::*;

verus! {

/// How a process ended and what it wrote.
#[derive(Debug)]
pub struct ExecutionResult {
    /// The exit code, or nothing where the process gave none: a signal ended
    /// it.
    pub code: Option<i32>,
    /// What it wrote to its standard output.
    pub stdout: Vec<u8>,
    /// What it wrote to its standard error.
    pub stderr: Vec<u8>,
}

impl ExecutionResult {
    /// The process ended by itself and reported success.
    pub open spec fn succeeded(self) -> bool {
        self.code == Some(0i32)
    }

    /// The process gave no exit code.
    pub open spec fn was_interrupted(self) -> bool {
        self.code is None
    }

    /// The result that stands for a compiler that could not be found or
    /// started: a failure with the exit code 1, no standard output, and the
    /// reason as its standard error.
    pub fn not_started(reason: Vec<u8>) -> (result: ExecutionResult)
        ensures
            result.code == Some(1i32),
            result.stdout@.len() == 0,
            result.stderr == reason,
            !result.succeeded(),
    {
        ExecutionResult { code: Some(1), stdout: Vec::new(), stderr: reason }
    }

    /// Gives the exit code, and 1 in its place where the process gave none.
    pub fn code_or_placeholder(&self) -> (code: i32)
        ensures
            code == match self.code {
                Some(code) => code,
                None => 1i32,
            },
    {
        match self.code {
            Some(code) => code,
            None => 1,
        }
    }
}

/// What a result was expected to be and was not. Where texts are compared,
/// both are here as they were compared.
#[derive(Debug)]
#[allow(inconsistent_fields)]
pub enum AssertionError {
    /// Success was expected.
    Unsuccessful { code: Option<i32> },
    /// Failure was expected.
    Successful,
    /// No exit code was expected.
    NotInterrupted { code: i32 },
    /// Another exit code was expected.
    Code { expected: i32, actual: Option<i32> },
    /// Another standard output was expected.
    Stdout { expected: Vec<u8>, actual: Vec<u8> },
    /// Another standard error was expected.
    Stderr { expected: Vec<u8>, actual: Vec<u8> },
    /// The standard output is not as the predicate wants it.
    StdoutRefused { actual: Vec<u8> },
    /// The standard error is not as the predicate wants it.
    StderrRefused { actual: Vec<u8> },
}

/// `bytes` from `pos` on with each line ending as a line feed: a carriage
/// return becomes one, together with the line feed behind it if there is one.
pub open spec fn normalized_from(bytes: Seq<u8>, pos: int) -> Seq<u8>
    decreases left(bytes, pos),
{
    if pos < 0 || pos >= bytes.len() {
        Seq::empty()
    } else if bytes[pos] != 13 {
        seq![bytes[pos]] + normalized_from(bytes, pos + 1)
    } else if pos + 1 < bytes.len() && bytes[pos + 1] == 10 {
        seq![10u8] + normalized_from(bytes, pos + 2)
    } else {
        seq![10u8] + normalized_from(bytes, pos + 1)
    }
}

/// `bytes` with each line ending as a line feed.
pub open spec fn normalized(bytes: Seq<u8>) -> Seq<u8> {
    normalized_from(bytes, 0)
}

/// `bytes` as a check looks at them: with each line ending as a line feed
/// where `normalize` is set, and else as they are.
pub open spec fn looked_at(bytes: Seq<u8>, normalize: bool) -> Seq<u8> {
    if normalize {
        normalized(bytes)
    } else {
        bytes
    }
}

/// No carriage return is left where each line ending is a line feed.
pub proof fn lemma_normalized_has_no_carriage_return(bytes: Seq<u8>, pos: int)
    requires
        0 <= pos,
    ensures
        forall|i: int|
            0 <= i < normalized_from(bytes, pos).len() ==> (#[trigger] normalized_from(
                bytes,
                pos,
            )[i]) != 13,
    decreases left(bytes, pos),
{
    if pos < bytes.len() {
        let next = if bytes[pos] == 13 && pos + 1 < bytes.len() && bytes[pos + 1] == 10 {
            pos + 2
        } else {
            pos + 1
        };
        lemma_normalized_has_no_carriage_return(bytes, next);
        let rest = normalized_from(bytes, next);
        assert forall|i: int| 0 <= i < normalized_from(bytes, pos).len() implies (
        #[trigger] normalized_from(bytes, pos)[i]) != 13 by {
            if i > 0 {
                assert(normalized_from(bytes, pos)[i] == rest[i - 1]);
            }
        }
    }
}

/// A text that ends its lines with a carriage return and a line feed and the
/// same text with line feeds alone are the same text once each line ending
/// is a line feed: what stands behind such a line ending is read alike.
pub proof fn lemma_line_endings_do_not_count(bytes: Seq<u8>, pos: int)
    requires
        0 <= pos,
        pos + 1 < bytes.len(),
        bytes[pos] == 13,
        bytes[pos + 1] == 10,
    ensures
        normalized_from(bytes, pos) == normalized_from(bytes, pos + 1),
{
    assert(normalized_from(bytes, pos + 1) == seq![10u8] + normalized_from(bytes, pos + 2));
}

/// Writes each line ending of `bytes` as a line feed.
pub fn normalize(bytes: &[u8]) -> (out: Vec<u8>)
    ensures
        out@ == normalized(bytes@),
{
    let mut out: Vec<u8> = Vec::new();
    let mut pos: usize = 0;
    assert(out@ + normalized_from(bytes@, 0) =~= normalized(bytes@));
    while pos < bytes.len()
        invariant
            pos <= bytes.len(),
            out@ + normalized_from(bytes@, pos as int) == normalized(bytes@),
        decreases bytes.len() - pos,
    {
        let ghost before = out@;
        if bytes[pos] != 13 {
            out.push(bytes[pos]);
            assert(out@ + normalized_from(bytes@, pos + 1) =~= before + (seq![bytes@[pos as int]]
                + normalized_from(bytes@, pos + 1)));
            pos += 1;
        } else if pos + 1 < bytes.len() && bytes[pos + 1] == 10 {
            out.push(10);
            assert(out@ + normalized_from(bytes@, pos + 2) =~= before + (seq![10u8]
                + normalized_from(bytes@, pos + 2)));
            pos += 2;
        } else {
            out.push(10);
            assert(out@ + normalized_from(bytes@, pos + 1) =~= before + (seq![10u8]
                + normalized_from(bytes@, pos + 1)));
            pos += 1;
        }
    }
    assert(out@ + normalized_from(bytes@, pos as int) =~= out@);
    out
}

/// Writes each line ending of `bytes` as a line feed.
fn normalize_bytes(bytes: &[u8]) -> (out: Vec<u8>)
    ensures
        out@ == normalized(bytes@),
{
    normalize(bytes)
}

/// Tells whether two texts hold the same bytes.
fn same_bytes(a: &[u8], b: &[u8]) -> (same: bool)
    ensures
        same == (a@ == b@),
{
    if a.len() != b.len() {
        return false;
    }
    let mut i: usize = 0;
    while i < a.len()
        invariant
            i <= a.len(),
            a.len() == b.len(),
            a@.take(i as int) == b@.take(i as int),
        decreases a.len() - i,
    {
        if a[i] != b[i] {
            return false;
        }
        assert(a@.take(i + 1) =~= a@.take(i as int).push(a@[i as int]));
        assert(b@.take(i + 1) =~= b@.take(i as int).push(b@[i as int]));
        i += 1;
    }
    assert(a@.take(i as int) =~= a@);
    assert(b@.take(i as int) =~= b@);
    true
}

/// Gives a copy of the given bytes.
fn copy_bytes(bytes: &[u8]) -> (copy: Vec<u8>)
    ensures
        copy@ == bytes@,
{
    let mut copy: Vec<u8> = Vec::new();
    let mut i: usize = 0;
    while i < bytes.len()
        invariant
            i <= bytes.len(),
            copy@ == bytes@.take(i as int),
        decreases bytes.len() - i,
    {
        copy.push(bytes[i]);
        assert(bytes@.take(i + 1) =~= bytes@.take(i as int).push(bytes@[i as int]));
        i += 1;
    }
    assert(bytes@.take(i as int) =~= bytes@);
    copy
}

/// The result of a process, to be held against what is expected of it.
///
/// Each check gives the same value back where the result is as expected, so
/// that the next check can follow, and else says what was expected.
#[derive(Debug)]
pub struct Assert {
    result: ExecutionResult,
}

impl View for Assert {
    type V = ExecutionResult;

    /// The result that is looked at.
    closed spec fn view(&self) -> ExecutionResult {
        self.result
    }
}

impl Assert {
    /// Takes the result of a process to look at it.
    pub fn new(result: ExecutionResult) -> (looked_at: Assert)
        ensures
            looked_at@ == result,
    {
        Assert { result }
    }

    /// Gives the result that is looked at.
    pub fn get_output(&self) -> (result: &ExecutionResult)
        ensures
            *result == self@,
    {
        &self.result
    }

    /// Expects that the process reported success.
    pub fn success(self) -> (checked: Result<Assert, AssertionError>)
        ensures
            match checked {
                Ok(same) => self@.succeeded() && same == self,
                Err(e) => !self@.succeeded() && e == (AssertionError::Unsuccessful {
                    code: self@.code,
                }),
            },
    {
        match self.result.code {
            Some(0) => Ok(self),
            code => Err(AssertionError::Unsuccessful { code }),
        }
    }

    /// Expects that the process did not report success: it gave another exit
    /// code than 0, or none.
    pub fn failure(self) -> (checked: Result<Assert, AssertionError>)
        ensures
            match checked {
                Ok(same) => !self@.succeeded() && same == self,
                Err(e) => self@.succeeded() && e == AssertionError::Successful,
            },
    {
        match self.result.code {
            Some(0) => Err(AssertionError::Successful),
            _ => Ok(self),
        }
    }

    /// Expects that the process gave no exit code.
    pub fn interrupted(self) -> (checked: Result<Assert, AssertionError>)
        ensures
            match checked {
                Ok(same) => self@.was_interrupted() && same == self,
                Err(e) => self@.code matches Some(code) && e == (AssertionError::NotInterrupted {
                    code,
                }),
            },
    {
        match self.result.code {
            None => Ok(self),
            Some(code) => Err(AssertionError::NotInterrupted { code }),
        }
    }

    /// Expects that the process gave the exit code `expected`.
    pub fn code(self, expected: i32) -> (checked: Result<Assert, AssertionError>)
        ensures
            match checked {
                Ok(same) => self@.code == Some(expected) && same == self,
                Err(e) => self@.code != Some(expected) && e == (AssertionError::Code {
                    expected,
                    actual: self@.code,
                }),
            },
    {
        match self.result.code {
            Some(code) if code == expected => Ok(self),
            actual => Err(AssertionError::Code { expected, actual }),
        }
    }

    /// Expects that the process wrote exactly `expected` to its standard
    /// output.
    pub fn stdout(self, expected: &[u8]) -> (checked: Result<Assert, AssertionError>)
        ensures
            match checked {
                Ok(same) => self@.stdout@ == expected@ && same == self,
                Err(AssertionError::Stdout { expected: e, actual: a }) => self@.stdout@
                    != expected@ && e@ == expected@ && a@ == self@.stdout@,
                Err(_) => false,
            },
    {
        if same_bytes(self.result.stdout.as_slice(), expected) {
            Ok(self)
        } else {
            Err(AssertionError::Stdout { expected: copy_bytes(expected), actual: self.result.stdout })
        }
    }

    /// Expects that the process wrote `expected` to its standard output, but
    /// for the way in which it ended its lines: what it wrote is compared
    /// with each line ending as a line feed.
    pub fn stdout_normalized(self, expected: &[u8]) -> (checked: Result<Assert, AssertionError>)
        ensures
            match checked {
                Ok(same) => normalized(self@.stdout@) == expected@ && same == self,
                Err(AssertionError::Stdout { expected: e, actual: a }) => normalized(
                    self@.stdout@,
                ) != expected@ && e@ == expected@ && a@ == normalized(self@.stdout@),
                Err(_) => false,
            },
    {
        let actual = normalize(self.result.stdout.as_slice());
        if same_bytes(actual.as_slice(), expected) {
            Ok(self)
        } else {
            Err(AssertionError::Stdout { expected: copy_bytes(expected), actual })
        }
    }

    /// Expects that the process wrote exactly `expected` to its standard
    /// error.
    pub fn stderr(self, expected: &[u8]) -> (checked: Result<Assert, AssertionError>)
        ensures
            match checked {
                Ok(same) => self@.stderr@ == expected@ && same == self,
                Err(AssertionError::Stderr { expected: e, actual: a }) => self@.stderr@
                    != expected@ && e@ == expected@ && a@ == self@.stderr@,
                Err(_) => false,
            },
    {
        if same_bytes(self.result.stderr.as_slice(), expected) {
            Ok(self)
        } else {
            Err(AssertionError::Stderr { expected: copy_bytes(expected), actual: self.result.stderr })
        }
    }

    /// Expects that the process wrote `expected` to its standard error, but
    /// for the way in which it ended its lines.
    pub fn stderr_normalized(self, expected: &[u8]) -> (checked: Result<Assert, AssertionError>)
        ensures
            match checked {
                Ok(same) => normalized(self@.stderr@) == expected@ && same == self,
                Err(AssertionError::Stderr { expected: e, actual: a }) => normalized(
                    self@.stderr@,
                ) != expected@ && e@ == expected@ && a@ == normalized(self@.stderr@),
                Err(_) => false,
            },
    {
        let actual = normalize(self.result.stderr.as_slice());
        if same_bytes(actual.as_slice(), expected) {
            Ok(self)
        } else {
            Err(AssertionError::Stderr { expected: copy_bytes(expected), actual })
        }
    }

    /// Expects that `predicate` holds of what the process wrote to its
    /// standard output. Where `normalize` is set, the predicate gets it with
    /// each line ending as a line feed.
    pub fn stdout_satisfies<F: Fn(&Vec<u8>) -> bool>(self, predicate: F, normalize: bool) -> (checked:
        Result<Assert, AssertionError>)
        requires
            forall|text: &Vec<u8>| call_requires(predicate, (text,)),
        ensures
            match checked {
                Ok(same) => same == self && exists|text: Vec<u8>|
                    text@ == looked_at(self@.stdout@, normalize) && call_ensures(
                        predicate,
                        (&text,),
                        true,
                    ),
                Err(AssertionError::StdoutRefused { actual }) => actual@ == looked_at(
                    self@.stdout@,
                    normalize,
                ) && call_ensures(predicate, (&actual,), false),
                Err(_) => false,
            },
    {
        if normalize {
            let actual = normalize_bytes(self.result.stdout.as_slice());
            if predicate(&actual) {
                Ok(self)
            } else {
                Err(AssertionError::StdoutRefused { actual })
            }
        } else if predicate(&self.result.stdout) {
            Ok(self)
        } else {
            Err(AssertionError::StdoutRefused { actual: self.result.stdout })
        }
    }

    /// Expects that `predicate` holds of what the process wrote to its
    /// standard error. Where `normalize` is set, the predicate gets it with
    /// each line ending as a line feed.
    pub fn stderr_satisfies<F: Fn(&Vec<u8>) -> bool>(self, predicate: F, normalize: bool) -> (checked:
        Result<Assert, AssertionError>)
        requires
            forall|text: &Vec<u8>| call_requires(predicate, (text,)),
        ensures
            match checked {
                Ok(same) => same == self && exists|text: Vec<u8>|
                    text@ == looked_at(self@.stderr@, normalize) && call_ensures(
                        predicate,
                        (&text,),
                        true,
                    ),
                Err(AssertionError::StderrRefused { actual }) => actual@ == looked_at(
                    self@.stderr@,
                    normalize,
                ) && call_ensures(predicate, (&actual,), false),
                Err(_) => false,
            },
    {
        if normalize {
            let actual = normalize_bytes(self.result.stderr.as_slice());
            if predicate(&actual) {
                Ok(self)
            } else {
                Err(AssertionError::StderrRefused { actual })
            }
        } else if predicate(&self.result.stderr) {
            Ok(self)
        } else {
            Err(AssertionError::StderrRefused { actual: self.result.stderr })
        }
    }

    /// Expects that the process wrote nothing to its standard output.
    pub fn no_stdout(self) -> (checked: Result<Assert, AssertionError>)
        ensures
            match checked {
                Ok(same) => self@.stdout@.len() == 0 && same == self,
                Err(AssertionError::Stdout { expected: e, actual: a }) => self@.stdout@.len() != 0
                    && e@.len() == 0 && a@ == self@.stdout@,
                Err(_) => false,
            },
    {
        if self.result.stdout.len() == 0 {
            Ok(self)
        } else {
            Err(AssertionError::Stdout { expected: Vec::new(), actual: self.result.stdout })
        }
    }

    /// Expects that the process wrote nothing to its standard error.
    pub fn no_stderr(self) -> (checked: Result<Assert, AssertionError>)
        ensures
            match checked {
                Ok(same) => self@.stderr@.len() == 0 && same == self,
                Err(AssertionError::Stderr { expected: e, actual: a }) => self@.stderr@.len() != 0
                    && e@.len() == 0 && a@ == self@.stderr@,
                Err(_) => false,
            },
    {
        if self.result.stderr.len() == 0 {
            Ok(self)
        } else {
            Err(AssertionError::Stderr { expected: Vec::new(), actual: self.result.stderr })
        }
    }
}

} // verus!
