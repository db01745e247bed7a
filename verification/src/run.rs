use crate::command::{
    command_add_compiler_flags, command_add_output_file, compiler_flags, contains, contains_word,
    output_arguments, Command, OutputConvention,
};
use crate::directive::{collect_environment_variables, snippet_variables, strip};
use crate::text::{lemma_texts_push, texts};
use crate::variables::Variables;
use vstd::prelude::*;
use vstd::string::StringExecFns;

verus! {

/// The language a snippet is written in.
#[derive(Clone, Copy, Debug, PartialEq, Eq, Structural)]
pub enum Language {
    C,
    Cxx,
}

impl Language {
    /// The file extension of a source file in this language, without the dot.
    pub open spec fn extension(self) -> Seq<char> {
        match self {
            Language::C => "c"@,
            Language::Cxx => "cpp"@,
        }
    }

    /// Gives the file extension of a source file in this language.
    pub fn to_string(&self) -> (extension: String)
        ensures
            extension@ == self.extension(),
    {
        match self {
            Language::C => String::from_str("c"),
            Language::Cxx => String::from_str("cpp"),
        }
    }
}

/// A temporary file to create: its name starts with `prefix`, ends with
/// `suffix`, and is that of no other file.
#[derive(Debug)]
pub struct TempFile {
    pub prefix: String,
    pub suffix: String,
}

/// How the compiler is to be looked for and set up.
#[derive(Debug)]
pub struct BuildSettings {
    /// Whether the search may print instructions for a build system.
    pub cargo_metadata: bool,
    /// Whether the compiler warns.
    pub warnings: bool,
    /// Whether it warns about more than it does by itself.
    pub extra_warnings: bool,
    /// Whether a warning fails the compilation.
    pub warnings_into_errors: bool,
    /// Whether it writes debug information.
    pub debug: bool,
    /// The machine that compiles.
    pub host: String,
    /// The machine that it compiles for.
    pub target: String,
    /// How hard it optimizes.
    pub opt_level: u32,
    /// Whether it is a compiler of C++.
    pub cpp: bool,
}

/// What compiling a snippet takes, before anything is on disk.
#[derive(Debug)]
pub struct BuildPlan {
    /// The source text to compile: the snippet without its directives.
    pub program: String,
    /// The variables to set for the compiler and for the snippet's process.
    pub variables: Variables,
    /// The file to write the source text to.
    pub source_file: TempFile,
    /// The file that the compiler writes the executable to.
    pub output_file: TempFile,
    /// How the compiler is to be looked for and set up.
    pub settings: BuildSettings,
    /// Whether the target is one of MSVC.
    pub msvc: bool,
}

/// What the search for a compiler found.
#[derive(Debug)]
pub struct Tool {
    /// The path of the compiler.
    pub path: String,
    /// The arguments that it needs whatever it compiles.
    pub args: Vec<String>,
    /// The process that the search would start for it: the program, which may
    /// be a wrapper around the compiler, its arguments, and the variables
    /// that it wants set or taken away.
    pub command: Command,
    /// Whether it takes the arguments that clang takes.
    pub clang: bool,
}

/// A compiler as it is started.
#[derive(Debug)]
pub struct Compiler {
    /// The program to start.
    pub program: String,
    /// The arguments that it needs whatever it compiles.
    pub args: Vec<String>,
    /// The variables that it needs set.
    pub envs: Variables,
    /// The variables that it needs taken away.
    pub unset: Vec<String>,
    /// Whether it takes the arguments that clang takes.
    pub clang: bool,
}

/// A compilation that is laid out and not yet run.
#[derive(Debug)]
pub struct Compilation {
    /// The compiler's process.
    pub command: Command,
    /// The temporary files that are there before the compiler runs: the
    /// source file and the executable. They are to be removed when the run is
    /// over, however it ends.
    pub files_to_remove: Vec<String>,
    /// The object file that the compiler may write beside the executable, for
    /// a target of MSVC. It is to be removed too if it was written.
    pub object_file: Option<String>,
    /// The path of the executable.
    pub artifact: String,
    /// The variables to set for the snippet's process.
    pub variables: Variables,
}

/// The process whose outcome is looked at, and the temporary files to remove
/// once it has been.
#[derive(Debug)]
pub struct Execution {
    pub command: Command,
    pub files_to_remove: Option<Vec<String>>,
}

/// How the name of every temporary file starts.
pub open spec fn temp_prefix() -> Seq<char> {
    "inline-c-rs-"@
}

/// Whether `plan` is the plan for `program` in `language`, with the variables
/// of the process in `environment`, on a machine that compiles for `target`.
pub open spec fn plans(
    plan: BuildPlan,
    language: Language,
    program: Seq<char>,
    environment: Map<Seq<char>, Seq<char>>,
    target: Seq<char>,
) -> bool {
    &&& plan.program@ == strip(program)
    &&& plan.variables.wf()
    &&& plan.variables@ == snippet_variables(program, environment)
    &&& plan.source_file.prefix@ == temp_prefix()
    &&& plan.source_file.suffix@ == seq!['.'] + language.extension()
    &&& plan.output_file.prefix@ == temp_prefix()
    &&& plan.output_file.suffix@ == if plan.msvc {
        ".exe"@
    } else {
        Seq::<char>::empty()
    }
    &&& plan.msvc == contains_word(target, "msvc"@)
    &&& !plan.settings.cargo_metadata
    &&& plan.settings.warnings
    &&& plan.settings.extra_warnings
    &&& plan.settings.warnings_into_errors
    &&& !plan.settings.debug
    &&& plan.settings.host@ == target
    &&& plan.settings.target@ == target
    &&& plan.settings.opt_level == 1
    &&& plan.settings.cpp == (language == Language::Cxx)
}

/// `target_lexicon::HOST`, written out: the machine that this library was
/// compiled for. Nothing is claimed of it.
#[verifier::external_body]
fn host_triple() -> (triple: String) {
    target_lexicon::HOST.to_string()
}

/// `Path::with_extension` of std. It does not return where the extension
/// holds a path separator; nothing is claimed of the path that it gives.
#[verifier::external_body]
fn with_extension(path: &str, extension: &str) -> (changed: String)
    requires
        forall|i: int|
            0 <= i < extension@.len() ==> extension@[i] != '/' && extension@[i] != '\\',
{
    std::path::Path::new(path).with_extension(extension).to_string_lossy().into_owned()
}

/// Lays out the compilation of `program`, a snippet in `language`, on a
/// machine that compiles for `target`. `environment` holds the variables of
/// the whole process.
pub fn prepare(language: Language, program: &str, environment: &Variables, target: &str) -> (plan:
    BuildPlan)
    requires
        environment.wf(),
    ensures
        plans(plan, language, program@, environment@, target@),
{
    let (source, variables) = collect_environment_variables(program, environment);
    let msvc = contains(target, "msvc");
    let mut suffix = String::new();
    suffix.push('.');
    let suffix = suffix.concat(language.to_string().as_str());
    let output_suffix = if msvc {
        String::from_str(".exe")
    } else {
        String::new()
    };
    let cpp = match language {
        Language::C => false,
        Language::Cxx => true,
    };
    assert(suffix@ =~= seq!['.'] + language.extension());
    BuildPlan {
        program: source,
        variables,
        source_file: TempFile { prefix: String::from_str("inline-c-rs-"), suffix },
        output_file: TempFile { prefix: String::from_str("inline-c-rs-"), suffix: output_suffix },
        settings: BuildSettings {
            cargo_metadata: false,
            warnings: true,
            extra_warnings: true,
            warnings_into_errors: true,
            debug: false,
            host: String::from_str(target),
            target: String::from_str(target),
            opt_level: 1,
            cpp,
        },
        msvc,
    }
}

/// Lays out the compilation of `program`, a snippet in `language`, on this
/// machine, for this machine. `environment` holds the variables of the whole
/// process.
///
/// The plan names the target that it was made for, and is the plan for it.
pub fn run(language: Language, program: &str, environment: &Variables) -> (plan: BuildPlan)
    requires
        environment.wf(),
    ensures
        plans(plan, language, program@, environment@, plan.settings.target@),
{
    let target = host_triple();
    prepare(language, program, environment, target.as_str())
}

/// The arguments of the compiler's process: its own, the flags that the
/// variables ask for, and those that name the output. The source file comes
/// first, but last for a target of MSVC.
pub open spec fn compile_arguments(
    msvc: bool,
    clang: bool,
    compiler_args: Seq<Seq<char>>,
    input_path: Seq<char>,
    output_path: Seq<char>,
    intermediate_path: Seq<char>,
    variables: Map<Seq<char>, Seq<char>>,
    environment: Map<Seq<char>, Seq<char>>,
) -> Seq<Seq<char>> {
    let tail = compiler_flags(variables, environment) + output_arguments(
        output_path,
        intermediate_path,
        OutputConvention::of(msvc, clang),
    );
    if msvc {
        compiler_args + tail + seq![input_path]
    } else {
        seq![input_path] + compiler_args + tail
    }
}

/// The temporary files that are there before the compiler runs: the source
/// file and the executable.
pub open spec fn temporary_files(input_path: Seq<char>, output_path: Seq<char>) -> Seq<
    Seq<char>,
> {
    seq![input_path, output_path]
}

/// The temporary files to remove when a run is over: those that were there
/// before the compiler ran, and the object file if the compiler wrote one.
pub open spec fn files_to_remove(
    files: Seq<String>,
    object_file: Option<String>,
    object_written: bool,
) -> Seq<String> {
    match object_file {
        Some(path) => if object_written {
            files.push(path)
        } else {
            files
        },
        None => files,
    }
}

/// Whether `compilation` is the compilation that `plan` lays out for the
/// given compiler and paths.
pub open spec fn compiles(
    compilation: Compilation,
    plan: BuildPlan,
    compiler: Compiler,
    input_path: Seq<char>,
    output_path: Seq<char>,
    intermediate_path: Seq<char>,
    environment: Map<Seq<char>, Seq<char>>,
) -> bool {
    &&& compilation.command.program@ == compiler.program@
    &&& texts(compilation.command.args@) == compile_arguments(
        plan.msvc,
        compiler.clang,
        texts(compiler.args@),
        input_path,
        output_path,
        intermediate_path,
        plan.variables@,
        environment,
    )
    &&& compilation.command.envs.wf()
    &&& compilation.command.envs@ == compiler.envs@.union_prefer_right(plan.variables@)
    &&& compilation.command.unset@ == compiler.unset@
    &&& texts(compilation.files_to_remove@) == temporary_files(input_path, output_path)
    &&& match compilation.object_file {
        Some(path) => plan.msvc && path@ == intermediate_path,
        None => !plan.msvc,
    }
    &&& compilation.artifact@ == output_path
    &&& compilation.variables.wf()
    &&& compilation.variables@ == plan.variables@
}

/// Gives a copy of the given strings.
fn copy_strings(strings: &Vec<String>) -> (copy: Vec<String>)
    ensures
        copy@ == strings@,
{
    let mut copy: Vec<String> = Vec::new();
    let mut i: usize = 0;
    while i < strings.len()
        invariant
            i <= strings.len(),
            copy@ == strings@.take(i as int),
        decreases strings.len() - i,
    {
        copy.push(strings[i].clone());
        assert(strings@.take(i + 1) =~= strings@.take(i as int).push(strings@[i as int]));
        i += 1;
    }
    assert(strings@.take(i as int) =~= strings@);
    copy
}

impl BuildPlan {
    /// Says how the compiler that was found is started. For a target of MSVC
    /// it is the process that the search would start, with its variables;
    /// else it is the compiler by its path, with its arguments and no
    /// variable of its own.
    pub fn compiler(&self, tool: Tool) -> (compiler: Compiler)
        requires
            tool.command.envs.wf(),
        ensures
            compiler.clang == tool.clang,
            compiler.envs.wf(),
            self.msvc ==> {
                &&& compiler.program == tool.command.program
                &&& compiler.args == tool.command.args
                &&& compiler.envs == tool.command.envs
                &&& compiler.unset == tool.command.unset
            },
            !self.msvc ==> {
                &&& compiler.program == tool.path
                &&& compiler.args == tool.args
                &&& compiler.envs@ == Map::<Seq<char>, Seq<char>>::empty()
                &&& compiler.unset@.len() == 0
            },
    {
        if self.msvc {
            Compiler {
                program: tool.command.program,
                args: tool.command.args,
                envs: tool.command.envs,
                unset: tool.command.unset,
                clang: tool.clang,
            }
        } else {
            Compiler {
                program: tool.path,
                args: tool.args,
                envs: Variables::new(),
                unset: Vec::new(),
                clang: tool.clang,
            }
        }
    }

    /// Lays out the compiler's process, once the two temporary files are
    /// there and the compiler is found. The source text is in `input_path`,
    /// the executable goes to `output_path`, and the object file, where the
    /// compiler makes one of its own, to `intermediate_path`.
    pub fn compilation_with(
        &self,
        compiler: &Compiler,
        input_path: &str,
        output_path: &str,
        intermediate_path: &str,
        environment: &Variables,
    ) -> (compilation: Compilation)
        requires
            self.variables.wf(),
            compiler.envs.wf(),
            environment.wf(),
        ensures
            compiles(
                compilation,
                *self,
                *compiler,
                input_path@,
                output_path@,
                intermediate_path@,
                environment@,
            ),
    {
        let input = String::from_str(input_path);
        let mut command = Command::new(compiler.program.clone());
        let ghost none = Seq::<Seq<char>>::empty();
        assert(texts(command.args@) =~= none);
        if self.msvc {
            command.args = copy_strings(&compiler.args);
            command_add_compiler_flags(&mut command, &self.variables, environment);
            command_add_output_file(
                &mut command,
                output_path,
                intermediate_path,
                self.msvc,
                compiler.clang,
            );
            proof {
                lemma_texts_push(command.args@, input);
            }
            command.args.push(input.clone());
        } else {
            proof {
                lemma_texts_push(command.args@, input);
            }
            command.args.push(input.clone());
            let mut i: usize = 0;
            let ghost first = command.args@;
            assert(texts(first) =~= seq![input_path@]);
            assert(texts(compiler.args@).take(0) =~= none);
            while i < compiler.args.len()
                invariant
                    i <= compiler.args.len(),
                    command.program@ == compiler.program@,
                    command.envs.wf(),
                    texts(command.args@) == seq![input_path@] + texts(compiler.args@).take(
                        i as int,
                    ),
                decreases compiler.args.len() - i,
            {
                let arg = compiler.args[i].clone();
                proof {
                    lemma_texts_push(command.args@, arg);
                    assert(texts(compiler.args@).take(i + 1) =~= texts(compiler.args@).take(
                        i as int,
                    ).push(arg@));
                    assert((seq![input_path@] + texts(compiler.args@).take(i as int)).push(arg@)
                        =~= seq![input_path@] + texts(compiler.args@).take(i + 1));
                }
                command.args.push(arg);
                i += 1;
            }
            assert(texts(compiler.args@).take(i as int) =~= texts(compiler.args@));
            command_add_compiler_flags(&mut command, &self.variables, environment);
            command_add_output_file(
                &mut command,
                output_path,
                intermediate_path,
                self.msvc,
                compiler.clang,
            );
        }
        command.envs = compiler.envs.copy();
        command.envs.extend(&self.variables);
        command.unset = copy_strings(&compiler.unset);
        let mut files_to_remove: Vec<String> = Vec::new();
        let output = String::from_str(output_path);
        proof {
            lemma_texts_push(files_to_remove@, input);
            lemma_texts_push(files_to_remove@.push(input), output);
        }
        files_to_remove.push(input);
        files_to_remove.push(output);
        let object_file = if self.msvc {
            Some(String::from_str(intermediate_path))
        } else {
            None
        };
        assert(texts(files_to_remove@) =~= temporary_files(input_path@, output_path@));
        assert(texts(command.args@) =~= compile_arguments(
            self.msvc,
            compiler.clang,
            texts(compiler.args@),
            input_path@,
            output_path@,
            intermediate_path@,
            self.variables@,
            environment@,
        ));
        Compilation {
            command,
            files_to_remove,
            object_file,
            artifact: String::from_str(output_path),
            variables: self.variables.copy(),
        }
    }

    /// Lays out the compiler's process as `compilation_with` does, with the
    /// path of the object file made from that of the executable: the same
    /// path with the extension `obj`.
    pub fn compilation(
        &self,
        compiler: &Compiler,
        input_path: &str,
        output_path: &str,
        environment: &Variables,
    ) -> (compilation: Compilation)
        requires
            self.variables.wf(),
            compiler.envs.wf(),
            environment.wf(),
        ensures
            exists|intermediate_path: Seq<char>|
                compiles(
                    compilation,
                    *self,
                    *compiler,
                    input_path@,
                    output_path@,
                    intermediate_path,
                    environment@,
                ),
    {
        proof {
            reveal_strlit("obj");
        }
        let intermediate_path = with_extension(output_path, "obj");
        self.compilation_with(
            compiler,
            input_path,
            output_path,
            intermediate_path.as_str(),
            environment,
        )
    }
}

impl Compilation {
    /// Says which process is to be looked at, now that the compiler has run,
    /// and which temporary files are to be removed afterwards.
    ///
    /// Where the compiler failed, it is the compiler's own process again,
    /// whose failure and messages are then there to look at. Where it
    /// succeeded, it is the executable, with the snippet's variables set and
    /// no argument. Either way the files that were there before the compiler
    /// ran are to be removed, and with them the object file if
    /// `object_written` says that the compiler wrote it.
    pub fn finish(self, compiled: bool, object_written: bool) -> (execution: Execution)
        ensures
            execution.files_to_remove matches Some(files) && files@ == files_to_remove(
                self.files_to_remove@,
                self.object_file,
                object_written,
            ),
            !compiled ==> execution.command == self.command,
            compiled ==> {
                &&& execution.command.program == self.artifact
                &&& execution.command.args@.len() == 0
                &&& execution.command.envs == self.variables
                &&& execution.command.unset@.len() == 0
            },
    {
        let mut files = self.files_to_remove;
        if let Some(path) = self.object_file {
            if object_written {
                files.push(path);
            }
        }
        if compiled {
            Execution {
                command: Command {
                    program: self.artifact,
                    args: Vec::new(),
                    envs: self.variables,
                    unset: Vec::new(),
                },
                files_to_remove: Some(files),
            }
        } else {
            Execution { command: self.command, files_to_remove: Some(files) }
        }
    }
}

} // verus!
