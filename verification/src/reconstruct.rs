use crate::token::{concat_text, Delimiter, Spacing, Token};
use vstd::prelude::*;
use vstd::string::StringExecFns;

verus! {

/// Why a token sequence cannot be put back into source text.
#[derive(Debug)]
pub enum ReconstructError {
    /// The tokens end right after `#include`.
    MissingIncludeOpening,
    /// After `#include` stands `token`, which is neither `<` nor a string
    /// literal.
    InvalidIncludeOpening { token: String },
    /// Between `<` and `>` stands `token`, which is neither punctuation nor
    /// an identifier.
    InvalidIncludeValue { token: String },
    /// The tokens end before the `>` that closes `#include <`.
    UnterminatedInclude,
    /// `#define` stands in a snippet for which it is not accepted.
    UnsupportedDefine,
}

/// What a `ReconstructError` says, with the offending token as a sequence of
/// characters.
pub enum Malformed {
    MissingIncludeOpening,
    InvalidIncludeOpening { token: Seq<char> },
    InvalidIncludeValue { token: Seq<char> },
    UnterminatedInclude,
    UnsupportedDefine,
}

impl View for ReconstructError {
    type V = Malformed;

    open spec fn view(&self) -> Malformed {
        match self {
            ReconstructError::MissingIncludeOpening => Malformed::MissingIncludeOpening,
            ReconstructError::InvalidIncludeOpening { token } => Malformed::InvalidIncludeOpening {
                token: token@,
            },
            ReconstructError::InvalidIncludeValue { token } => Malformed::InvalidIncludeValue {
                token: token@,
            },
            ReconstructError::UnterminatedInclude => Malformed::UnterminatedInclude,
            ReconstructError::UnsupportedDefine => Malformed::UnsupportedDefine,
        }
    }
}

impl Malformed {
    /// What is wrong, in words that name the offending token.
    pub open spec fn message(self) -> Seq<char> {
        match self {
            Malformed::MissingIncludeOpening => "`#include` must be followed by `<` or `\"`."@,
            Malformed::InvalidIncludeOpening { token } => {
                "Invalid opening token after `#include`, received `"@ + token + "`."@
            },
            Malformed::InvalidIncludeValue { token } => {
                "Invalid token in `#include` value, with `"@ + token + "`."@
            },
            Malformed::UnterminatedInclude => "`#include <` must be closed by `>`."@,
            Malformed::UnsupportedDefine => "`#define` is not supported here."@,
        }
    }
}

impl ReconstructError {
    /// Says what is wrong, in words that name the offending token.
    pub fn message(&self) -> (message: String)
        ensures
            message@ == self@.message(),
    {
        match self {
            ReconstructError::MissingIncludeOpening => {
                String::from_str("`#include` must be followed by `<` or `\"`.")
            },
            ReconstructError::InvalidIncludeOpening { token } => {
                String::from_str("Invalid opening token after `#include`, received `").concat(
                    token.as_str(),
                ).concat("`.")
            },
            ReconstructError::InvalidIncludeValue { token } => {
                String::from_str("Invalid token in `#include` value, with `").concat(
                    token.as_str(),
                ).concat("`.")
            },
            ReconstructError::UnterminatedInclude => {
                String::from_str("`#include <` must be closed by `>`.")
            },
            ReconstructError::UnsupportedDefine => {
                String::from_str("`#define` is not supported here.")
            },
        }
    }
}

/// Source text, or the reason why there is none.
pub type Rendered = Result<Seq<char>, Malformed>;

/// `rest` with `prefix` put in front of its text.
pub open spec fn prepend(prefix: Seq<char>, rest: Rendered) -> Rendered {
    match rest {
        Ok(text) => Ok(prefix + text),
        Err(e) => Err(e),
    }
}

/// Whether `token` may stand between the angle brackets of `#include <...>`:
/// an identifier, or punctuation other than the closing `>`.
pub open spec fn name_piece(token: Token) -> bool {
    match token {
        Token::Punct { ch, .. } => ch != '>',
        Token::Ident { .. } => true,
        _ => false,
    }
}

/// How many tokens from `pos` on may stand between angle brackets.
pub open spec fn name_len(tokens: Seq<Token>, pos: int) -> nat
    decreases tokens.len() - pos,
{
    if 0 <= pos < tokens.len() && name_piece(tokens[pos]) {
        1 + name_len(tokens, pos + 1)
    } else {
        0
    }
}

/// How many tokens from `pos` on start on source line `line`.
pub open spec fn line_len(tokens: Seq<Token>, pos: int, line: usize) -> nat
    decreases tokens.len() - pos,
{
    if 0 <= pos < tokens.len() && tokens[pos].line() == line {
        1 + line_len(tokens, pos + 1, line)
    } else {
        0
    }
}

/// Whether `text` is a string literal: it starts and ends with a double
/// quote, which are two characters.
pub open spec fn is_string_literal(text: Seq<char>) -> bool {
    text.len() >= 2 && text.first() == '"' && text.last() == '"'
}

/// Whether the token at `pos` is the identifier `name`.
pub open spec fn ident_at(tokens: Seq<Token>, pos: int, name: Seq<char>) -> bool {
    0 <= pos < tokens.len() && tokens[pos].is_ident(name)
}

/// The text of `#include` and what follows it, where `#` stands at `pos` and
/// `include` behind it.
pub open spec fn inclusion_text(tokens: Seq<Token>, pos: int) -> Rendered {
    if pos + 2 >= tokens.len() {
        Err(Malformed::MissingIncludeOpening)
    } else {
        match tokens[pos + 2] {
            Token::Punct { ch, .. } => {
                let close = pos + 3 + name_len(tokens, pos + 3);
                if ch != '<' {
                    Err(Malformed::InvalidIncludeOpening { token: tokens[pos + 2].text() })
                } else if close >= tokens.len() {
                    Err(Malformed::UnterminatedInclude)
                } else if !tokens[close].is_punct('>') {
                    Err(Malformed::InvalidIncludeValue { token: tokens[close].text() })
                } else {
                    Ok(
                        seq!['\n', '#'] + "include <"@ + concat_text(
                            tokens.subrange(pos + 3, close),
                        ) + seq!['>', '\n'],
                    )
                }
            },
            Token::Literal { text, .. } => {
                if is_string_literal(text@) {
                    Ok(seq!['\n', '#'] + "include "@ + text@ + seq!['\n'])
                } else {
                    Err(Malformed::InvalidIncludeOpening { token: text@ })
                }
            },
            other => Err(Malformed::InvalidIncludeOpening { token: other.text() }),
        }
    }
}

/// The text of `#define` and its line, where `#` stands at `pos` and `define`
/// behind it: the tokens that start on the line of `define` follow the word as
/// they stand in the source, with nothing put between them.
pub open spec fn definition_text(tokens: Seq<Token>, pos: int) -> Seq<char> {
    let end = pos + 2 + line_len(tokens, pos + 2, tokens[pos + 1].line());
    seq!['\n', '#'] + "define "@ + concat_text(tokens.subrange(pos + 2, end)) + seq!['\n']
}

/// The text for the `#` at `pos` and for the directive that it opens, if any.
pub open spec fn directive_text(tokens: Seq<Token>, pos: int, define: bool) -> Rendered {
    if ident_at(tokens, pos + 1, "include"@) {
        inclusion_text(tokens, pos)
    } else if ident_at(tokens, pos + 1, "define"@) {
        if define {
            Ok(definition_text(tokens, pos))
        } else {
            Err(Malformed::UnsupportedDefine)
        }
    } else {
        Ok(seq!['\n', '#'])
    }
}

/// How many tokens behind the `#` at `pos` belong to its directive.
pub open spec fn directive_len(tokens: Seq<Token>, pos: int) -> nat {
    if ident_at(tokens, pos + 1, "include"@) {
        if pos + 2 < tokens.len() && tokens[pos + 2].is_punct('<') {
            3 + name_len(tokens, pos + 3)
        } else {
            2
        }
    } else if ident_at(tokens, pos + 1, "define"@) {
        1 + line_len(tokens, pos + 2, tokens[pos + 1].line())
    } else {
        0
    }
}

/// The text of a token that is neither `#` nor a group.
pub open spec fn plain_text(token: Token) -> Seq<char> {
    match token {
        Token::Punct { ch, spacing, .. } => {
            if ch == ';' {
                seq![';', '\n']
            } else if spacing == Spacing::Alone {
                seq![ch, ' ']
            } else {
                seq![ch]
            }
        },
        Token::Ident { name, .. } => name@.push(' '),
        _ => token.text(),
    }
}

/// The text of a group whose tokens gave `inner`.
pub open spec fn enclose(delimiter: Delimiter, inner: Seq<char>) -> Seq<char> {
    match delimiter {
        Delimiter::Parenthesis => seq!['('] + inner + seq![')'],
        Delimiter::Brace => seq!['{', '\n'] + inner + seq!['\n', '}'],
        Delimiter::Bracket => seq!['['] + inner + seq![']'],
        Delimiter::Invisible => inner,
    }
}

/// How many tokens the step at `pos` takes.
pub open spec fn step_len(tokens: Seq<Token>, pos: int) -> nat {
    if tokens[pos].is_punct('#') {
        1 + directive_len(tokens, pos)
    } else {
        1
    }
}

/// How many tokens stand at `pos` and behind it.
pub open spec fn remaining(tokens: Seq<Token>, pos: int) -> nat {
    if pos < tokens.len() {
        (tokens.len() - pos) as nat
    } else {
        0
    }
}

/// The text of the step at `pos`: of the token there and, where it is `#`, of
/// the directive that it opens.
pub open spec fn piece(tokens: Seq<Token>, pos: int, define: bool) -> Rendered
    decreases tokens, remaining(tokens, pos), 0nat,
{
    if pos < 0 || pos >= tokens.len() {
        Ok(Seq::empty())
    } else {
        match tokens[pos] {
            Token::Group { delimiter, tokens: inner, .. } => {
                match render_from(inner@, 0, define) {
                    Ok(text) => Ok(enclose(delimiter, text)),
                    Err(e) => Err(e),
                }
            },
            Token::Punct { ch, .. } => {
                if ch == '#' {
                    directive_text(tokens, pos, define)
                } else {
                    Ok(plain_text(tokens[pos]))
                }
            },
            _ => Ok(plain_text(tokens[pos])),
        }
    }
}

/// The source text of the tokens from `pos` on: the text of the step at
/// `pos`, and then the source text of what stands behind the step. The first
/// step that gives no text ends it.
pub open spec fn render_from(tokens: Seq<Token>, pos: int, define: bool) -> Rendered
    decreases tokens, remaining(tokens, pos), 1nat,
{
    if pos < 0 || pos >= tokens.len() {
        Ok(Seq::empty())
    } else {
        match piece(tokens, pos, define) {
            Ok(text) => prepend(text, render_from(tokens, pos + step_len(tokens, pos), define)),
            Err(e) => Err(e),
        }
    }
}

/// The source text of a token sequence. `define` says whether `#define` is
/// accepted.
pub open spec fn render(tokens: Seq<Token>, define: bool) -> Rendered {
    render_from(tokens, 0, define)
}

/// The source text from `pos` on is the text of the step at `pos`, and then
/// the source text of what stands behind the step.
pub proof fn lemma_render_step(tokens: Seq<Token>, pos: int, define: bool)
    requires
        0 <= pos < tokens.len(),
    ensures
        render_from(tokens, pos, define) == match piece(tokens, pos, define) {
            Ok(text) => prepend(text, render_from(tokens, pos + step_len(tokens, pos), define)),
            Err(e) => Err(e),
        },
{
}

/// `name_len` counts on from any token that may stand between angle brackets.
proof fn lemma_name_len_step(tokens: Seq<Token>, start: int, k: int)
    requires
        0 <= start <= k < tokens.len(),
        name_len(tokens, start) == (k - start) + name_len(tokens, k),
        name_piece(tokens[k]),
    ensures
        name_len(tokens, start) == (k + 1 - start) + name_len(tokens, k + 1),
{
}

/// The source texts of `tokens[start..k + 1]` are those of `tokens[start..k]`
/// and then that of `tokens[k]`.
proof fn lemma_concat_text_step(tokens: Seq<Token>, start: int, k: int)
    requires
        0 <= start <= k < tokens.len(),
    ensures
        concat_text(tokens.subrange(start, k + 1)) == concat_text(tokens.subrange(start, k))
            + tokens[k].text(),
{
    let longer = tokens.subrange(start, k + 1);
    assert(longer.drop_last() =~= tokens.subrange(start, k));
    assert(longer.last() == tokens[k]);
}

/// Tells whether `name` is the word `word`.
fn is_keyword(name: &String, word: &str) -> (same: bool)
    ensures
        same == (name@ == word@),
{
    let word = String::from_str(word);
    *name == word
}

/// Tells whether `text` is a string literal.
fn string_literal(text: &String) -> (yes: bool)
    ensures
        yes == is_string_literal(text@),
{
    let text = text.as_str();
    let n = text.unicode_len();
    n >= 2 && text.get_char(0) == '"' && text.get_char(n - 1) == '"'
}

/// Writes `#include` and what follows it, where `#` stands at `pos` and
/// `include` behind it, and gives the position behind the directive.
#[verifier::loop_isolation(false)]
fn emit_inclusion(tokens: &Vec<Token>, pos: usize, out: &mut String) -> (result: Result<
    usize,
    ReconstructError,
>)
    requires
        pos + 1 < tokens.len(),
        tokens[pos as int].is_punct('#'),
        ident_at(tokens@, pos + 1, "include"@),
    ensures
        match result {
            Ok(next) => {
                &&& prepend(old(out)@, inclusion_text(tokens@, pos as int)) == Ok::<
                    Seq<char>,
                    Malformed,
                >(final(out)@)
                &&& next == pos + step_len(tokens@, pos as int)
                &&& next <= tokens.len()
            },
            Err(e) => inclusion_text(tokens@, pos as int) == Err::<Seq<char>, Malformed>(e@),
        },
{
    if pos + 2 >= tokens.len() {
        return Err(ReconstructError::MissingIncludeOpening);
    }
    let ghost before = out@;
    match &tokens[pos + 2] {
        Token::Punct { ch, .. } => {
            if *ch != '<' {
                return Err(
                    ReconstructError::InvalidIncludeOpening { token: tokens[pos + 2].source_text() },
                );
            }
            out.push('\n');
            out.push('#');
            out.append("include <");
            let ghost opened = out@;
            let start = pos + 3;
            let mut k = start;
            while k < tokens.len()
                invariant
                    start == pos + 3,
                    start <= k <= tokens.len(),
                    name_len(tokens@, start as int) == (k - start) + name_len(tokens@, k as int),
                    out@ == opened + concat_text(tokens@.subrange(start as int, k as int)),
                decreases tokens.len() - k,
            {
                match &tokens[k] {
                    Token::Punct { ch, .. } => {
                        if *ch == '>' {
                            out.push('>');
                            out.push('\n');
                            proof {
                                assert(out@ =~= before + (seq!['\n', '#'] + "include <"@
                                    + concat_text(tokens@.subrange(start as int, k as int))
                                    + seq!['>', '\n']));
                            }
                            return Ok(k + 1);
                        }
                        proof {
                            lemma_name_len_step(tokens@, start as int, k as int);
                            lemma_concat_text_step(tokens@, start as int, k as int);
                        }
                        out.push(*ch);
                    },
                    Token::Ident { name, .. } => {
                        proof {
                            lemma_name_len_step(tokens@, start as int, k as int);
                            lemma_concat_text_step(tokens@, start as int, k as int);
                        }
                        out.append(name.as_str());
                    },
                    _ => {
                        return Err(
                            ReconstructError::InvalidIncludeValue {
                                token: tokens[k].source_text(),
                            },
                        );
                    },
                }
                k += 1;
            }
            Err(ReconstructError::UnterminatedInclude)
        },
        Token::Literal { text, .. } => {
            if !string_literal(text) {
                return Err(ReconstructError::InvalidIncludeOpening { token: text.clone() });
            }
            out.push('\n');
            out.push('#');
            out.append("include ");
            out.append(text.as_str());
            out.push('\n');
            proof {
                let piece = seq!['\n', '#'] + "include "@ + text@ + seq!['\n'];
                assert(out@ =~= before + piece);
            }
            Ok(pos + 3)
        },
        _ => Err(ReconstructError::InvalidIncludeOpening { token: tokens[pos + 2].source_text() }),
    }
}

/// `line_len` counts on from any token that starts on the line.
proof fn lemma_line_len_step(tokens: Seq<Token>, start: int, k: int, line: usize)
    requires
        0 <= start <= k < tokens.len(),
        line_len(tokens, start, line) == (k - start) + line_len(tokens, k, line),
        tokens[k].line() == line,
    ensures
        line_len(tokens, start, line) == (k + 1 - start) + line_len(tokens, k + 1, line),
{
}

/// Writes `#define` and its line, where `#` stands at `pos` and `define`
/// behind it, and gives the position behind the line.
#[verifier::loop_isolation(false)]
fn emit_definition(tokens: &Vec<Token>, pos: usize, out: &mut String) -> (next: usize)
    requires
        pos + 1 < tokens.len(),
        tokens[pos as int].is_punct('#'),
        !ident_at(tokens@, pos + 1, "include"@),
        ident_at(tokens@, pos + 1, "define"@),
    ensures
        final(out)@ == old(out)@ + definition_text(tokens@, pos as int),
        next == pos + step_len(tokens@, pos as int),
        next <= tokens.len(),
{
    let ghost before = out@;
    let line = tokens[pos + 1].start_line();
    out.push('\n');
    out.push('#');
    out.append("define ");
    let ghost opened = out@;
    let start = pos + 2;
    let mut k = start;
    while k < tokens.len() && tokens[k].start_line() == line
        invariant
            start <= k <= tokens.len(),
            line_len(tokens@, start as int, line) == (k - start) + line_len(
                tokens@,
                k as int,
                line,
            ),
            out@ == opened + concat_text(tokens@.subrange(start as int, k as int)),
        decreases tokens.len() - k,
    {
        proof {
            lemma_line_len_step(tokens@, start as int, k as int, line);
            lemma_concat_text_step(tokens@, start as int, k as int);
        }
        let text = tokens[k].source_text();
        out.append(text.as_str());
        k += 1;
    }
    out.push('\n');
    assert(out@ =~= before + definition_text(tokens@, pos as int));
    k
}

/// Writes the `#` at `pos` and the directive that it opens, if any, and gives
/// the position behind them.
fn emit_directive(tokens: &Vec<Token>, pos: usize, define: bool, out: &mut String) -> (result:
    Result<usize, ReconstructError>)
    requires
        pos < tokens.len(),
        tokens[pos as int].is_punct('#'),
    ensures
        match result {
            Ok(next) => {
                &&& prepend(old(out)@, directive_text(tokens@, pos as int, define)) == Ok::<
                    Seq<char>,
                    Malformed,
                >(final(out)@)
                &&& next == pos + step_len(tokens@, pos as int)
                &&& pos < next <= tokens.len()
            },
            Err(e) => directive_text(tokens@, pos as int, define) == Err::<Seq<char>, Malformed>(
                e@,
            ),
        },
{
    if pos + 1 < tokens.len() {
        if let Token::Ident { name, .. } = &tokens[pos + 1] {
            if is_keyword(name, "include") {
                return emit_inclusion(tokens, pos, out);
            }
            if is_keyword(name, "define") {
                if !define {
                    return Err(ReconstructError::UnsupportedDefine);
                }
                return Ok(emit_definition(tokens, pos, out));
            }
        }
    }
    out.push('\n');
    out.push('#');
    assert(out@ =~= old(out)@ + seq!['\n', '#']);
    Ok(pos + 1)
}

/// Writes a token that is neither `#` nor a group.
fn emit_plain(token: &Token, out: &mut String)
    requires
        !(token is Group),
        !token.is_punct('#'),
    ensures
        final(out)@ == old(out)@ + plain_text(*token),
{
    match token {
        Token::Punct { ch, spacing, .. } => {
            out.push(*ch);
            if *ch == ';' {
                out.push('\n');
            } else if let Spacing::Alone = spacing {
                out.push(' ');
            }
        },
        Token::Ident { name, .. } => {
            out.append(name.as_str());
            out.push(' ');
        },
        Token::Literal { text, .. } => {
            out.append(text.as_str());
        },
        Token::Other { text, .. } => {
            out.append(text.as_str());
        },
        Token::Group { .. } => {},
    }
    assert(out@ =~= old(out)@ + plain_text(*token));
}

/// Writes a group whose tokens gave `inner`.
fn emit_group(delimiter: Delimiter, inner: &String, out: &mut String)
    ensures
        final(out)@ == old(out)@ + enclose(delimiter, inner@),
{
    match delimiter {
        Delimiter::Parenthesis => {
            out.push('(');
            out.append(inner.as_str());
            out.push(')');
        },
        Delimiter::Brace => {
            out.push('{');
            out.push('\n');
            out.append(inner.as_str());
            out.push('\n');
            out.push('}');
        },
        Delimiter::Bracket => {
            out.push('[');
            out.append(inner.as_str());
            out.push(']');
        },
        Delimiter::Invisible => {
            out.append(inner.as_str());
        },
    }
    assert(out@ =~= old(out)@ + enclose(delimiter, inner@));
}

/// Text put in front twice is the two texts put in front at once.
proof fn lemma_prepend_twice(first: Seq<char>, second: Seq<char>, rest: Rendered)
    ensures
        prepend(first, prepend(second, rest)) == prepend(first + second, rest),
{
    if let Ok(text) = rest {
        assert(first + (second + text) =~= (first + second) + text);
    }
}

/// Puts a token sequence back into source text.
///
/// A punctuation character is written as it is, with a space behind it unless
/// it is glued to the next token; `;` ends its line. An identifier is written
/// with a space behind it, a literal as it stands. A group is written between
/// its brackets, braces on lines of their own. `#` starts a line; behind it
/// `include` must open one of the two forms `<...>` and `"..."`, and `define`
/// is accepted only where `define` is set, and then takes the tokens of its
/// source line as they stand.
///
/// A macro whose body runs over several lines cannot be written: the tokens
/// do not tell where a line was continued, so the body ends with the line of
/// `define`.
pub fn reconstruct(tokens: &Vec<Token>, define: bool) -> (result: Result<String, ReconstructError>)
    ensures
        match result {
            Ok(text) => render(tokens@, define) == Ok::<Seq<char>, Malformed>(text@),
            Err(e) => render(tokens@, define) == Err::<Seq<char>, Malformed>(e@),
        },
    decreases tokens@,
{
    let mut out = String::new();
    let mut pos: usize = 0;
    assert(prepend(out@, render_from(tokens@, 0, define)) == render_from(tokens@, 0, define)) by {
        if let Ok(text) = render_from(tokens@, 0, define) {
            assert(out@ + text =~= text);
        }
    }
    while pos < tokens.len()
        invariant
            pos <= tokens.len(),
            render_from(tokens@, 0, define) == prepend(
                out@,
                render_from(tokens@, pos as int, define),
            ),
        decreases tokens.len() - pos,
    {
        let ghost before = out@;
        let ghost rest = render_from(tokens@, pos + step_len(tokens@, pos as int), define);
        proof {
            lemma_render_step(tokens@, pos as int, define);
        }
        match &tokens[pos] {
            Token::Group { delimiter, tokens: inner, .. } => {
                match reconstruct(inner, define) {
                    Ok(text) => {
                        emit_group(*delimiter, &text, &mut out);
                        proof {
                            lemma_prepend_twice(before, enclose(*delimiter, text@), rest);
                        }
                        pos += 1;
                    },
                    Err(e) => {
                        return Err(e);
                    },
                }
            },
            Token::Punct { ch, .. } => {
                if *ch == '#' {
                    match emit_directive(tokens, pos, define, &mut out) {
                        Ok(next) => {
                            proof {
                                lemma_prepend_twice(
                                    before,
                                    directive_text(tokens@, pos as int, define)->Ok_0,
                                    rest,
                                );
                            }
                            pos = next;
                        },
                        Err(e) => {
                            return Err(e);
                        },
                    }
                } else {
                    emit_plain(&tokens[pos], &mut out);
                    proof {
                        lemma_prepend_twice(before, plain_text(tokens@[pos as int]), rest);
                    }
                    pos += 1;
                }
            },
            _ => {
                emit_plain(&tokens[pos], &mut out);
                proof {
                    lemma_prepend_twice(before, plain_text(tokens@[pos as int]), rest);
                }
                pos += 1;
            },
        }
    }
    Ok(out)
}

/// Whether the steps that start at `from` come to stand at `pos`: each of
/// them gives text, and none of them passes over `pos`.
pub open spec fn arrives(tokens: Seq<Token>, from: int, pos: int, define: bool) -> bool
    decreases remaining(tokens, from),
{
    if from >= pos {
        from == pos
    } else if from < 0 || from >= tokens.len() {
        false
    } else {
        piece(tokens, from, define) is Ok && arrives(
            tokens,
            from + step_len(tokens, from),
            pos,
            define,
        )
    }
}

/// The text of the steps from `from` up to `pos`, where they come to stand
/// there.
pub open spec fn rendered_between(tokens: Seq<Token>, from: int, pos: int, define: bool) -> Seq<
    char,
>
    decreases remaining(tokens, from),
{
    if from >= pos || from < 0 || from >= tokens.len() {
        Seq::empty()
    } else {
        piece(tokens, from, define)->Ok_0 + rendered_between(
            tokens,
            from + step_len(tokens, from),
            pos,
            define,
        )
    }
}

/// Where the steps from `from` come to stand at `pos`, the source text from
/// `from` on is the text of these steps and then the source text from `pos`
/// on.
pub proof fn lemma_render_split(tokens: Seq<Token>, from: int, pos: int, define: bool)
    requires
        0 <= from,
        arrives(tokens, from, pos, define),
    ensures
        render_from(tokens, from, define) == prepend(
            rendered_between(tokens, from, pos, define),
            render_from(tokens, pos, define),
        ),
    decreases remaining(tokens, from),
{
    let rest = render_from(tokens, pos, define);
    if from >= pos {
        if let Ok(text) = rest {
            assert(Seq::<char>::empty() + text =~= text);
        }
    } else {
        let next = from + step_len(tokens, from);
        lemma_render_step(tokens, from, define);
        lemma_render_split(tokens, next, pos, define);
        lemma_prepend_twice(
            piece(tokens, from, define)->Ok_0,
            rendered_between(tokens, next, pos, define),
            rest,
        );
    }
}

/// Tokens that may all stand between angle brackets, up to one that may not,
/// are counted in full.
proof fn lemma_name_len_run(tokens: Seq<Token>, from: int, close: int)
    requires
        0 <= from <= close < tokens.len(),
        forall|k: int| from <= k < close ==> name_piece(#[trigger] tokens[k]),
        !name_piece(tokens[close]),
    ensures
        name_len(tokens, from) == close - from,
    decreases close - from,
{
    if from < close {
        assert(name_piece(tokens[from]));
        lemma_name_len_run(tokens, from + 1, close);
    }
}

/// `#include <X>` is written as it stands, on a line of its own, and no
/// character of `X` is lost.
///
/// Where `#` stands at `pos`, `include` and `<` behind it, then up to `close`
/// only identifiers and punctuation other than `>`, and `>` at `close`, the
/// source text from `pos` on is a line feed, `#include <`, the texts of the
/// tokens between the brackets one after the other, `>`, a line feed, and
/// then the source text of what stands behind `close`.
pub proof fn lemma_inclusion_in_angle_brackets(
    tokens: Seq<Token>,
    pos: int,
    close: int,
    define: bool,
)
    requires
        0 <= pos,
        pos + 3 <= close < tokens.len(),
        tokens[pos].is_punct('#'),
        tokens[pos + 1].is_ident("include"@),
        tokens[pos + 2].is_punct('<'),
        forall|k: int| pos + 3 <= k < close ==> name_piece(#[trigger] tokens[k]),
        tokens[close].is_punct('>'),
    ensures
        render_from(tokens, pos, define) == prepend(
            seq!['\n', '#'] + "include <"@ + concat_text(tokens.subrange(pos + 3, close))
                + seq!['>', '\n'],
            render_from(tokens, close + 1, define),
        ),
{
    lemma_name_len_run(tokens, pos + 3, close);
    lemma_render_step(tokens, pos, define);
}

/// `#include "X"` is written as it stands, on a line of its own.
///
/// Where `#` stands at `pos`, `include` behind it and then a string literal,
/// the source text from `pos` on is a line feed, `#include`, a space, the
/// literal as it stands in the source, a line feed, and then the source text
/// of what stands behind the literal.
pub proof fn lemma_inclusion_in_quotes(tokens: Seq<Token>, pos: int, define: bool)
    requires
        0 <= pos,
        pos + 2 < tokens.len(),
        tokens[pos].is_punct('#'),
        tokens[pos + 1].is_ident("include"@),
        tokens[pos + 2] is Literal,
        is_string_literal(tokens[pos + 2].text()),
    ensures
        render_from(tokens, pos, define) == prepend(
            seq!['\n', '#'] + "include "@ + tokens[pos + 2].text() + seq!['\n'],
            render_from(tokens, pos + 3, define),
        ),
{
    lemma_render_step(tokens, pos, define);
}

/// A well-formed `#include` to which the steps come is found in the source
/// text of the whole sequence as it stands, between the text of what stands
/// before it and the source text of what stands behind it.
pub proof fn lemma_inclusion_in_context(tokens: Seq<Token>, pos: int, close: int, define: bool)
    requires
        arrives(tokens, 0, pos, define),
        pos + 3 <= close < tokens.len(),
        tokens[pos].is_punct('#'),
        tokens[pos + 1].is_ident("include"@),
        tokens[pos + 2].is_punct('<'),
        forall|k: int| pos + 3 <= k < close ==> name_piece(#[trigger] tokens[k]),
        tokens[close].is_punct('>'),
    ensures
        render(tokens, define) == prepend(
            rendered_between(tokens, 0, pos, define) + (seq!['\n', '#'] + "include <"@
                + concat_text(tokens.subrange(pos + 3, close)) + seq!['>', '\n']),
            render_from(tokens, close + 1, define),
        ),
{
    lemma_render_split(tokens, 0, pos, define);
    lemma_inclusion_in_angle_brackets(tokens, pos, close, define);
    lemma_prepend_twice(
        rendered_between(tokens, 0, pos, define),
        seq!['\n', '#'] + "include <"@ + concat_text(tokens.subrange(pos + 3, close)) + seq![
            '>',
            '\n',
        ],
        render_from(tokens, close + 1, define),
    );
}

/// A well-formed `#include "X"` to which the steps come is found in the
/// source text of the whole sequence as it stands, between the text of what
/// stands before it and the source text of what stands behind it.
pub proof fn lemma_quoted_inclusion_in_context(tokens: Seq<Token>, pos: int, define: bool)
    requires
        arrives(tokens, 0, pos, define),
        pos + 2 < tokens.len(),
        tokens[pos].is_punct('#'),
        tokens[pos + 1].is_ident("include"@),
        tokens[pos + 2] is Literal,
        is_string_literal(tokens[pos + 2].text()),
    ensures
        render(tokens, define) == prepend(
            rendered_between(tokens, 0, pos, define) + (seq!['\n', '#'] + "include "@
                + tokens[pos + 2].text() + seq!['\n']),
            render_from(tokens, pos + 3, define),
        ),
{
    lemma_render_split(tokens, 0, pos, define);
    lemma_inclusion_in_quotes(tokens, pos, define);
    lemma_prepend_twice(
        rendered_between(tokens, 0, pos, define),
        seq!['\n', '#'] + "include "@ + tokens[pos + 2].text() + seq!['\n'],
        render_from(tokens, pos + 3, define),
    );
}

/// Every `#` starts a line: the text of its step starts with a line feed and
/// the `#`.
pub proof fn lemma_hash_starts_line(tokens: Seq<Token>, pos: int, define: bool)
    requires
        0 <= pos < tokens.len(),
        tokens[pos].is_punct('#'),
        piece(tokens, pos, define) is Ok,
    ensures
        piece(tokens, pos, define)->Ok_0.len() >= 2,
        piece(tokens, pos, define)->Ok_0[0] == '\n',
        piece(tokens, pos, define)->Ok_0[1] == '#',
{
}

/// A token `;` is written with a line feed right behind it, whatever stands
/// around it.
pub proof fn lemma_semicolon_token(tokens: Seq<Token>, pos: int, define: bool)
    requires
        0 <= pos < tokens.len(),
        tokens[pos].is_punct(';'),
    ensures
        render_from(tokens, pos, define) == prepend(
            seq![';', '\n'],
            render_from(tokens, pos + 1, define),
        ),
{
    lemma_render_step(tokens, pos, define);
}

/// Whether a line feed stands in `text` right behind the place `i`.
pub open spec fn line_ends_behind(text: Seq<char>, i: int) -> bool {
    i + 1 < text.len() && text[i + 1] == '\n'
}

/// Whether every `;` of `text` has a line feed right behind it.
pub open spec fn semicolons_end_lines(text: Seq<char>) -> bool {
    forall|i: int|
        0 <= i < text.len() && text[i] == ';' ==> #[trigger] line_ends_behind(text, i)
}

/// Whether `text` holds no `;`.
pub open spec fn semicolon_free(text: Seq<char>) -> bool {
    forall|i: int| 0 <= i < text.len() ==> text[i] != ';'
}

/// Whether no `;` comes into the source text of the tokens from `pos` on but
/// from a token `;` that is written by itself: no identifier, literal or
/// other token holds one in its text, and none stands among the tokens of a
/// directive.
pub open spec fn semicolons_stand_alone(tokens: Seq<Token>, pos: int) -> bool
    decreases tokens, remaining(tokens, pos),
{
    if pos < 0 || pos >= tokens.len() {
        true
    } else {
        &&& match tokens[pos] {
            Token::Group { tokens: inner, .. } => semicolons_stand_alone(inner@, 0),
            Token::Punct { ch, .. } => ch == '#' ==> semicolon_free(
                concat_text(tokens.subrange(pos + 1, pos + step_len(tokens, pos))),
            ),
            _ => semicolon_free(tokens[pos].text()),
        }
        &&& semicolons_stand_alone(tokens, pos + step_len(tokens, pos))
    }
}

/// Texts in which every `;` ends its line, one behind the other, make a text
/// in which every `;` ends its line.
proof fn lemma_semicolons_concat(first: Seq<char>, second: Seq<char>)
    requires
        semicolons_end_lines(first),
        semicolons_end_lines(second),
    ensures
        semicolons_end_lines(first + second),
{
    let both = first + second;
    assert forall|i: int| 0 <= i < both.len() && both[i] == ';' implies #[trigger] line_ends_behind(
        both,
        i,
    ) by {
        if i < first.len() {
            assert(first[i] == ';');
            assert(line_ends_behind(first, i));
            assert(both[i + 1] == first[i + 1]);
        } else {
            assert(second[i - first.len()] == ';');
            assert(line_ends_behind(second, i - first.len()));
            assert(both[i + 1] == second[i + 1 - first.len()]);
        }
    }
}

/// A part of the source texts of some tokens holds no `;` where the whole
/// holds none.
proof fn lemma_semicolon_free_part(tokens: Seq<Token>, from: int, to: int, lo: int, hi: int)
    requires
        0 <= from <= lo <= hi <= to <= tokens.len(),
        semicolon_free(concat_text(tokens.subrange(from, to))),
    ensures
        semicolon_free(concat_text(tokens.subrange(lo, hi))),
    decreases to - from,
{
    if from < lo {
        lemma_concat_text_first(tokens, from, to);
        let whole = concat_text(tokens.subrange(from, to));
        let rest = concat_text(tokens.subrange(from + 1, to));
        let head = tokens[from].text();
        assert forall|i: int| 0 <= i < rest.len() implies rest[i] != ';' by {
            assert(whole[head.len() + i] == rest[i]);
        }
        lemma_semicolon_free_part(tokens, from + 1, to, lo, hi);
    } else if hi < to {
        lemma_concat_text_step(tokens, from, to - 1);
        let whole = concat_text(tokens.subrange(from, to));
        let rest = concat_text(tokens.subrange(from, to - 1));
        assert forall|i: int| 0 <= i < rest.len() implies rest[i] != ';' by {
            assert(whole[i] == rest[i]);
        }
        lemma_semicolon_free_part(tokens, from, to - 1, lo, hi);
    }
}

/// The source texts of `tokens[from..to]` are that of `tokens[from]` and then
/// those of `tokens[from + 1..to]`.
proof fn lemma_concat_text_first(tokens: Seq<Token>, from: int, to: int)
    requires
        0 <= from < to <= tokens.len(),
    ensures
        concat_text(tokens.subrange(from, to)) == tokens[from].text() + concat_text(
            tokens.subrange(from + 1, to),
        ),
    decreases to - from,
{
    if to == from + 1 {
        lemma_concat_text_step(tokens, from, from);
        assert(tokens.subrange(from, from).len() == 0);
        assert(tokens.subrange(from + 1, to).len() == 0);
        assert(Seq::<char>::empty() + tokens[from].text() =~= tokens[from].text()
            + Seq::<char>::empty());
    } else {
        lemma_concat_text_first(tokens, from, to - 1);
        lemma_concat_text_step(tokens, from, to - 1);
        lemma_concat_text_step(tokens, from + 1, to - 1);
        assert((tokens[from].text() + concat_text(tokens.subrange(from + 1, to - 1))) + tokens[to
            - 1].text() =~= tokens[from].text() + (concat_text(tokens.subrange(from + 1, to - 1))
            + tokens[to - 1].text()));
    }
}

/// The tokens of a directive reach no further than the tokens do, where the
/// directive gives text.
proof fn lemma_directive_within(tokens: Seq<Token>, pos: int, define: bool)
    requires
        0 <= pos < tokens.len(),
        tokens[pos].is_punct('#'),
        directive_text(tokens, pos, define) is Ok,
    ensures
        pos + step_len(tokens, pos) <= tokens.len(),
{
    if ident_at(tokens, pos + 1, "include"@) {
    } else if ident_at(tokens, pos + 1, "define"@) {
        lemma_line_len_within(tokens, pos + 2, tokens[pos + 1].line());
    }
}

/// The tokens that start on a line reach no further than the tokens do.
proof fn lemma_line_len_within(tokens: Seq<Token>, pos: int, line: usize)
    requires
        0 <= pos <= tokens.len(),
    ensures
        pos + line_len(tokens, pos, line) <= tokens.len(),
    decreases tokens.len() - pos,
{
    if pos < tokens.len() && tokens[pos].line() == line {
        lemma_line_len_within(tokens, pos + 1, line);
    }
}

/// In the text of a directive every `;` ends its line, where none stands
/// among the directive's tokens.
proof fn lemma_directive_semicolons(tokens: Seq<Token>, pos: int, define: bool)
    requires
        0 <= pos < tokens.len(),
        tokens[pos].is_punct('#'),
        directive_text(tokens, pos, define) is Ok,
        semicolon_free(concat_text(tokens.subrange(pos + 1, pos + step_len(tokens, pos)))),
    ensures
        semicolons_end_lines(directive_text(tokens, pos, define)->Ok_0),
{
    reveal_strlit("include <");
    reveal_strlit("include ");
    reveal_strlit("define ");
    lemma_directive_within(tokens, pos, define);
    let end = pos + step_len(tokens, pos);
    let text = directive_text(tokens, pos, define)->Ok_0;
    if ident_at(tokens, pos + 1, "include"@) {
        if tokens[pos + 2].is_punct('<') {
            let close = pos + 3 + name_len(tokens, pos + 3);
            lemma_semicolon_free_part(tokens, pos + 1, end, pos + 3, close);
            let name = concat_text(tokens.subrange(pos + 3, close));
            assert(text == seq!['\n', '#'] + "include <"@ + name + seq!['>', '\n']);
            assert forall|i: int| 0 <= i < text.len() implies text[i] != ';' by {
                if i >= 11 && i < 11 + name.len() {
                    assert(text[i] == name[i - 11]);
                }
            }
        } else {
            lemma_semicolon_free_part(tokens, pos + 1, end, pos + 2, pos + 3);
            lemma_concat_text_step(tokens, pos + 2, pos + 2);
            assert(tokens.subrange(pos + 2, pos + 2).len() == 0);
            let literal = tokens[pos + 2].text();
            assert(concat_text(tokens.subrange(pos + 2, pos + 3)) =~= literal);
            assert(text == seq!['\n', '#'] + "include "@ + literal + seq!['\n']);
            assert forall|i: int| 0 <= i < text.len() implies text[i] != ';' by {
                if i >= 10 && i < 10 + literal.len() {
                    assert(text[i] == literal[i - 10]);
                }
            }
        }
    } else if ident_at(tokens, pos + 1, "define"@) {
        lemma_semicolon_free_part(tokens, pos + 1, end, pos + 2, end);
        let body = concat_text(tokens.subrange(pos + 2, end));
        assert(text == seq!['\n', '#'] + "define "@ + body + seq!['\n']);
        assert forall|i: int| 0 <= i < text.len() implies text[i] != ';' by {
            if i >= 9 && i < 9 + body.len() {
                assert(text[i] == body[i - 9]);
            }
        }
    }
}

/// Every `;` of the source text has a line feed right behind it, where no
/// `;` comes into the text but from a token `;` that is written by itself.
///
/// The condition leaves out what brings a `;` of its own: the literal
/// `"a;b"` is written as it stands, and its `;` has a `b` behind it.
pub proof fn lemma_semicolons_end_lines(tokens: Seq<Token>, pos: int, define: bool)
    requires
        0 <= pos,
        semicolons_stand_alone(tokens, pos),
        render_from(tokens, pos, define) is Ok,
    ensures
        semicolons_end_lines(render_from(tokens, pos, define)->Ok_0),
    decreases tokens, remaining(tokens, pos),
{
    if pos < tokens.len() {
        let next = pos + step_len(tokens, pos);
        lemma_render_step(tokens, pos, define);
        let text = piece(tokens, pos, define)->Ok_0;
        lemma_semicolons_end_lines(tokens, next, define);
        match tokens[pos] {
            Token::Group { delimiter, tokens: inner, .. } => {
                lemma_semicolons_end_lines(inner@, 0, define);
                let inside = render_from(inner@, 0, define)->Ok_0;
                match delimiter {
                    Delimiter::Parenthesis => {
                        lemma_semicolons_concat(seq!['('], inside);
                        lemma_semicolons_concat(seq!['('] + inside, seq![')']);
                    },
                    Delimiter::Brace => {
                        lemma_semicolons_concat(seq!['{', '\n'], inside);
                        lemma_semicolons_concat(seq!['{', '\n'] + inside, seq!['\n', '}']);
                    },
                    Delimiter::Bracket => {
                        lemma_semicolons_concat(seq!['['], inside);
                        lemma_semicolons_concat(seq!['['] + inside, seq![']']);
                    },
                    Delimiter::Invisible => {},
                }
            },
            Token::Punct { ch, .. } => {
                if ch == '#' {
                    lemma_directive_semicolons(tokens, pos, define);
                }
            },
            Token::Ident { name, .. } => {
                assert forall|i: int| 0 <= i < text.len() implies text[i] != ';' by {
                    if i < name@.len() {
                        assert(text[i] == name@[i]);
                    }
                }
            },
            _ => {},
        }
        lemma_semicolons_concat(text, render_from(tokens, next, define)->Ok_0);
    }
}

} // verus!
