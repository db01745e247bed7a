use crate::reconstruct::{reconstruct, render, Malformed, ReconstructError};
use crate::run::{plans, run, BuildPlan, Language};
use crate::token::Token;
use crate::variables::Variables;
use vstd::prelude::*;

verus! {

/// Whether `result` is what a snippet in `language` with the tokens `input`
/// comes to: the plan for its source text, made for the target that the plan
/// names, or the reason why the tokens give no source text.
pub open spec fn snippet_result(
    result: Result<BuildPlan, ReconstructError>,
    language: Language,
    input: Seq<Token>,
    define: bool,
    environment: Map<Seq<char>, Seq<char>>,
) -> bool {
    match result {
        Ok(plan) => render(input, define) matches Ok(text) && plans(
            plan,
            language,
            text,
            environment,
            plan.settings.target@,
        ),
        Err(e) => render(input, define) == Err::<Seq<char>, Malformed>(e@),
    }
}

/// Puts the tokens of a snippet back into source text and lays out its
/// compilation on this machine.
fn snippet(language: Language, input: &Vec<Token>, define: bool, environment: &Variables) -> (result:
    Result<BuildPlan, ReconstructError>)
    requires
        environment.wf(),
    ensures
        snippet_result(result, language, input@, define, environment@),
{
    match reconstruct(input, define) {
        Ok(program) => Ok(run(language, program.as_str(), environment)),
        Err(e) => Err(e),
    }
}

/// Takes the tokens of a snippet in C and lays out its compilation.
///
/// `define` says whether `#define` is accepted, `environment` holds the
/// variables of the whole process.
pub fn assert_c(input: &Vec<Token>, define: bool, environment: &Variables) -> (result: Result<
    BuildPlan,
    ReconstructError,
>)
    requires
        environment.wf(),
    ensures
        snippet_result(result, Language::C, input@, define, environment@),
{
    snippet(Language::C, input, define, environment)
}

/// Takes the tokens of a snippet in C++ and lays out its compilation.
///
/// `define` says whether `#define` is accepted, `environment` holds the
/// variables of the whole process.
pub fn assert_cxx(input: &Vec<Token>, define: bool, environment: &Variables) -> (result: Result<
    BuildPlan,
    ReconstructError,
>)
    requires
        environment.wf(),
    ensures
        snippet_result(result, Language::Cxx, input@, define, environment@),
{
    snippet(Language::Cxx, input, define, environment)
}

} // verus!
