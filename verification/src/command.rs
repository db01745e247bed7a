use crate::text::{
    ascii_whitespace, chars_of, is_ascii_whitespace, left, lemma_texts_push, stands_at, substring,
    texts, word_at,
};
use crate::variables::Variables;
use vstd::prelude::*;
use vstd::string::StringExecFns;

verus! {

/// A process to start.
#[derive(Debug)]
pub struct Command {
    /// The program.
    pub program: String,
    /// Its arguments, in order.
    pub args: Vec<String>,
    /// The variables to set for it, over those that it inherits.
    pub envs: Variables,
    /// The variables to take away from those that it inherits, unless `envs`
    /// sets them.
    pub unset: Vec<String>,
}

impl Command {
    /// A command that starts `program` with no arguments and sets no variable.
    pub fn new(program: String) -> (command: Command)
        ensures
            command.program == program,
            command.args@.len() == 0,
            command.envs.wf(),
            command.envs@ == Map::<Seq<char>, Seq<char>>::empty(),
            command.unset@.len() == 0,
    {
        Command { program, args: Vec::new(), envs: Variables::new(), unset: Vec::new() }
    }

    /// Adds one argument behind those that are there.
    pub fn arg(&mut self, arg: String)
        ensures
            final(self).program == old(self).program,
            final(self).envs == old(self).envs,
            final(self).unset == old(self).unset,
            final(self).args@ == old(self).args@.push(arg),
    {
        self.args.push(arg);
    }
}

/// How many characters from `from` on are no white space in ASCII, one after
/// the other.
pub open spec fn word_len(text: Seq<char>, from: int) -> nat
    decreases text.len() - from,
{
    if 0 <= from < text.len() && !is_ascii_whitespace(text[from]) {
        1 + word_len(text, from + 1)
    } else {
        0
    }
}

/// The words of `text` from `pos` on: the longest runs of characters that are
/// no white space in ASCII, in their order.
pub open spec fn words_from(text: Seq<char>, pos: int) -> Seq<Seq<char>>
    decreases left(text, pos),
{
    if pos < 0 || pos >= text.len() {
        Seq::empty()
    } else if is_ascii_whitespace(text[pos]) {
        words_from(text, pos + 1)
    } else {
        let end = pos + 1 + word_len(text, pos + 1);
        seq![text.subrange(pos, end)] + words_from(text, end)
    }
}

/// The words of `text`.
pub open spec fn words(text: Seq<char>) -> Seq<Seq<char>> {
    words_from(text, 0)
}

/// The run of characters that are no white space reaches no further than the
/// text does, and no character in it is white space.
proof fn lemma_word_len(text: Seq<char>, from: int)
    requires
        0 <= from <= text.len(),
    ensures
        from + word_len(text, from) <= text.len(),
        forall|i: int|
            from <= i < from + word_len(text, from) ==> !is_ascii_whitespace(#[trigger] text[i]),
    decreases text.len() - from,
{
    if from < text.len() && !is_ascii_whitespace(text[from]) {
        lemma_word_len(text, from + 1);
    }
}

/// Whether `word` holds a character, and none that is white space in ASCII.
pub open spec fn is_word(word: Seq<char>) -> bool {
    word.len() > 0 && forall|j: int| 0 <= j < word.len() ==> !is_ascii_whitespace(#[trigger] word[j])
}

/// Every word of a text holds a character, and none that is white space in
/// ASCII.
pub proof fn lemma_words_are_words(text: Seq<char>, pos: int)
    requires
        0 <= pos,
    ensures
        forall|i: int|
            0 <= i < words_from(text, pos).len() ==> is_word(#[trigger] words_from(text, pos)[i]),
    decreases left(text, pos),
{
    if pos < text.len() {
        if is_ascii_whitespace(text[pos]) {
            lemma_words_are_words(text, pos + 1);
            assert(words_from(text, pos) == words_from(text, pos + 1));
        } else {
            let end = pos + 1 + word_len(text, pos + 1);
            lemma_word_len(text, pos + 1);
            lemma_words_are_words(text, end);
            let first = text.subrange(pos, end);
            let rest = words_from(text, end);
            assert(words_from(text, pos) == seq![first] + rest);
            assert(is_word(first)) by {
                assert forall|j: int| 0 <= j < first.len() implies !is_ascii_whitespace(
                    #[trigger] first[j],
                ) by {
                    assert(first[j] == text[pos + j]);
                }
            }
            assert forall|i: int| 0 <= i < words_from(text, pos).len() implies is_word(
                #[trigger] words_from(text, pos)[i],
            ) by {
                if i > 0 {
                    assert(words_from(text, pos)[i] == rest[i - 1]);
                }
            }
        }
    } else {
        assert(words_from(text, pos).len() == 0);
    }
}

/// Splits `text` into its words.
pub fn split_ascii_whitespace(text: &str) -> (found: Vec<String>)
    ensures
        texts(found@) == words(text@),
{
    let chars = chars_of(text);
    let mut found: Vec<String> = Vec::new();
    let mut pos: usize = 0;
    assert(texts(found@) + words_from(chars@, 0) =~= words(text@));
    while pos < chars.len()
        invariant
            pos <= chars.len(),
            chars@ == text@,
            texts(found@) + words_from(chars@, pos as int) == words(text@),
        decreases chars.len() - pos,
    {
        if ascii_whitespace(chars[pos]) {
            pos += 1;
        } else {
            let mut end = pos + 1;
            while end < chars.len() && !ascii_whitespace(chars[end])
                invariant
                    pos < end <= chars.len(),
                    word_len(chars@, pos + 1) == (end - pos - 1) + word_len(chars@, end as int),
                decreases chars.len() - end,
            {
                end += 1;
            }
            let word = substring(&chars, pos, end);
            proof {
                lemma_texts_push(found@, word);
                let rest = words_from(chars@, end as int);
                assert(texts(found@).push(word@) + rest =~= texts(found@) + (seq![word@] + rest));
            }
            found.push(word);
            pos = end;
        }
    }
    assert(texts(found@) + words_from(chars@, pos as int) =~= texts(found@));
    found
}

/// The value from which flags are taken under `name`: that of the snippet's
/// variables, else that of the process, else nothing.
pub open spec fn flag_value(
    name: Seq<char>,
    variables: Map<Seq<char>, Seq<char>>,
    environment: Map<Seq<char>, Seq<char>>,
) -> Seq<char> {
    if variables.contains_key(name) {
        variables[name]
    } else if environment.contains_key(name) {
        environment[name]
    } else {
        Seq::empty()
    }
}

/// The words of the value from which flags are taken under `name`.
pub open spec fn flags(
    name: Seq<char>,
    variables: Map<Seq<char>, Seq<char>>,
    environment: Map<Seq<char>, Seq<char>>,
) -> Seq<Seq<char>> {
    words(flag_value(name, variables, environment))
}

/// Each of `flags` as the compiler hands it on to the linker.
pub open spec fn for_linker(flags: Seq<Seq<char>>) -> Seq<Seq<char>> {
    flags.map_values(|flag: Seq<char>| "-Wl,"@ + flag)
}

/// The flags that the variables ask for, in the order in which the compiler
/// gets them: those of `CFLAGS`, of `CPPFLAGS` and of `CXXFLAGS`, and then
/// those of `LDFLAGS`, each handed on to the linker.
pub open spec fn compiler_flags(
    variables: Map<Seq<char>, Seq<char>>,
    environment: Map<Seq<char>, Seq<char>>,
) -> Seq<Seq<char>> {
    flags("CFLAGS"@, variables, environment) + flags("CPPFLAGS"@, variables, environment) + flags(
        "CXXFLAGS"@,
        variables,
        environment,
    ) + for_linker(flags("LDFLAGS"@, variables, environment))
}

/// Gives the words of the value from which flags are taken under `name`.
fn flags_of(name: &str, variables: &Variables, environment: &Variables) -> (found: Vec<String>)
    requires
        variables.wf(),
        environment.wf(),
    ensures
        texts(found@) == flags(name@, variables@, environment@),
{
    match variables.get(name) {
        Some(value) => split_ascii_whitespace(value.as_str()),
        None => match environment.get(name) {
            Some(value) => split_ascii_whitespace(value.as_str()),
            None => {
                assert(words(Seq::<char>::empty()) =~= Seq::<Seq<char>>::empty());
                Vec::new()
            },
        },
    }
}

/// Adds each of `flags` to the arguments, behind `prefix` where one is given.
fn add_arguments(command: &mut Command, flags: Vec<String>, prefix: Option<&str>)
    ensures
        final(command).program == old(command).program,
        final(command).envs == old(command).envs,
        final(command).unset == old(command).unset,
        texts(final(command).args@) == texts(old(command).args@) + (match prefix {
            Some(prefix) => texts(flags@).map_values(|flag: Seq<char>| prefix@ + flag),
            None => texts(flags@),
        }),
{
    let ghost added = match prefix {
        Some(prefix) => texts(flags@).map_values(|flag: Seq<char>| prefix@ + flag),
        None => texts(flags@),
    };
    let mut i: usize = 0;
    assert(texts(command.args@) + added.take(0) =~= texts(command.args@));
    while i < flags.len()
        invariant
            i <= flags.len(),
            command.program == old(command).program,
            command.envs == old(command).envs,
            command.unset == old(command).unset,
            added == (match prefix {
                Some(prefix) => texts(flags@).map_values(|flag: Seq<char>| prefix@ + flag),
                None => texts(flags@),
            }),
            texts(command.args@) == texts(old(command).args@) + added.take(i as int),
        decreases flags.len() - i,
    {
        let argument = match prefix {
            Some(prefix) => String::from_str(prefix).concat(flags[i].as_str()),
            None => flags[i].clone(),
        };
        proof {
            lemma_texts_push(command.args@, argument);
            assert(argument@ == added[i as int]);
            assert(added.take(i + 1) =~= added.take(i as int).push(added[i as int]));
            assert((texts(old(command).args@) + added.take(i as int)).push(argument@) =~= texts(
                old(command).args@,
            ) + added.take(i + 1));
        }
        command.args.push(argument);
        i += 1;
    }
    assert(added.take(i as int) =~= added);
}

/// Adds the flags that the variables ask for to the arguments of `command`.
///
/// The flags come from `CFLAGS`, `CPPFLAGS`, `CXXFLAGS` and `LDFLAGS`, in
/// this order. Each is looked up in `variables`, the snippet's own, then in
/// `environment`, the variables of the whole process, and counts as empty
/// where neither has it. Its value is split at white space; a flag of
/// `LDFLAGS` is written behind `-Wl,`, the others as they are.
pub fn command_add_compiler_flags(
    command: &mut Command,
    variables: &Variables,
    environment: &Variables,
)
    requires
        variables.wf(),
        environment.wf(),
    ensures
        final(command).program == old(command).program,
        final(command).envs == old(command).envs,
        final(command).unset == old(command).unset,
        texts(final(command).args@) == texts(old(command).args@) + compiler_flags(
            variables@,
            environment@,
        ),
{
    let ghost start = texts(command.args@);
    let c = flags_of("CFLAGS", variables, environment);
    add_arguments(command, c, None);
    let cpp = flags_of("CPPFLAGS", variables, environment);
    add_arguments(command, cpp, None);
    let cxx = flags_of("CXXFLAGS", variables, environment);
    add_arguments(command, cxx, None);
    let ld = flags_of("LDFLAGS", variables, environment);
    add_arguments(command, ld, Some("-Wl,"));
    assert(texts(command.args@) =~= start + compiler_flags(variables@, environment@));
}

/// How a compiler is told where to write what it makes.
#[derive(Clone, Copy, Debug, PartialEq, Eq, Structural)]
pub enum OutputConvention {
    /// One argument pair, `-o` and the path of the executable.
    Single,
    /// Two arguments, `-Fo` with the path of the object file and `-Fe` with
    /// that of the executable, as the compiler of MSVC takes them.
    Separate,
}

impl OutputConvention {
    /// The convention of a compiler for a target of MSVC or not, that is like
    /// clang or not: only the compiler of MSVC itself has the separate one.
    pub open spec fn of(msvc: bool, clang: bool) -> OutputConvention {
        if msvc && !clang {
            OutputConvention::Separate
        } else {
            OutputConvention::Single
        }
    }

    /// Selects the convention of a compiler.
    pub fn select(msvc: bool, clang: bool) -> (convention: OutputConvention)
        ensures
            convention == OutputConvention::of(msvc, clang),
    {
        if msvc && !clang {
            OutputConvention::Separate
        } else {
            OutputConvention::Single
        }
    }
}

/// The arguments that tell a compiler to write the executable to
/// `output_path` and, where it names one, the object file to
/// `intermediate_path`.
pub open spec fn output_arguments(
    output_path: Seq<char>,
    intermediate_path: Seq<char>,
    convention: OutputConvention,
) -> Seq<Seq<char>> {
    match convention {
        OutputConvention::Separate => seq!["-Fo"@ + intermediate_path, "-Fe"@ + output_path],
        OutputConvention::Single => seq!["-o"@, output_path],
    }
}

/// Adds the arguments that name the output to the arguments of `command`.
///
/// `intermediate_path` is where the object file goes; only the compiler of
/// MSVC itself is told.
pub fn command_add_output_file(
    command: &mut Command,
    output_path: &str,
    intermediate_path: &str,
    msvc: bool,
    clang: bool,
)
    ensures
        final(command).program == old(command).program,
        final(command).envs == old(command).envs,
        final(command).unset == old(command).unset,
        texts(final(command).args@) == texts(old(command).args@) + output_arguments(
            output_path@,
            intermediate_path@,
            OutputConvention::of(msvc, clang),
        ),
{
    let ghost start = command.args@;
    match OutputConvention::select(msvc, clang) {
        OutputConvention::Separate => {
            let fo = String::from_str("-Fo").concat(intermediate_path);
            let fe = String::from_str("-Fe").concat(output_path);
            proof {
                lemma_texts_push(start, fo);
                lemma_texts_push(start.push(fo), fe);
            }
            command.args.push(fo);
            command.args.push(fe);
        },
        OutputConvention::Single => {
            let o = String::from_str("-o");
            let path = String::from_str(output_path);
            proof {
                lemma_texts_push(start, o);
                lemma_texts_push(start.push(o), path);
            }
            command.args.push(o);
            command.args.push(path);
        },
    }
    assert(texts(command.args@) =~= texts(start) + output_arguments(
        output_path@,
        intermediate_path@,
        OutputConvention::of(msvc, clang),
    ));
}

/// Whether `word` stands somewhere in `text`.
pub open spec fn contains_word(text: Seq<char>, word: Seq<char>) -> bool {
    exists|at: int| stands_at(text, at, word)
}

/// Tells whether `word` stands somewhere in `text`.
pub fn contains(text: &str, word: &str) -> (yes: bool)
    ensures
        yes == contains_word(text@, word@),
{
    let chars = chars_of(text);
    let sought = chars_of(word);
    let mut at: usize = 0;
    while at < chars.len()
        invariant
            at <= chars.len(),
            chars@ == text@,
            sought@ == word@,
            forall|before: int| 0 <= before < at ==> !stands_at(text@, before, word@),
        decreases chars.len() - at,
    {
        if word_at(&chars, at, &sought) {
            return true;
        }
        at += 1;
    }
    word_at(&chars, at, &sought)
}

} // verus!
