use crate::text::{chars_of, is_whitespace, left, stands_at, substring, whitespace, word_at};
use crate::variables::{
    assign, lemma_assign_first, lemma_assign_keeps, lemma_assign_last_wins, lemma_assign_push,
    lemma_pairs_push, pairs_of, Variables,
};
use vstd::prelude::*;

verus! {

/// The word that opens an environment directive, with the space behind it.
pub open spec fn keyword() -> Seq<char> {
    "#inline_c_rs "@
}

/// How many characters from `from` on stand before the first `stop`, or
/// before the end of `text` where there is none.
pub open spec fn until(text: Seq<char>, from: int, stop: char) -> nat
    decreases text.len() - from,
{
    if 0 <= from < text.len() && text[from] != stop {
        1 + until(text, from + 1, stop)
    } else {
        0
    }
}

/// How many characters from `from` on are white space, one after the other.
pub open spec fn blank(text: Seq<char>, from: int) -> nat
    decreases text.len() - from,
{
    if 0 <= from < text.len() && is_whitespace(text[from]) {
        1 + blank(text, from + 1)
    } else {
        0
    }
}

/// `text` without the white space at its start.
pub open spec fn trim_start(text: Seq<char>) -> Seq<char> {
    text.skip(blank(text, 0) as int)
}

/// How many characters at the end of `text` are white space.
pub open spec fn blank_end(text: Seq<char>) -> nat
    decreases text.len(),
{
    if text.len() > 0 && is_whitespace(text.last()) {
        1 + blank_end(text.drop_last())
    } else {
        0
    }
}

/// `text` without the white space at its start and at its end.
pub open spec fn trim(text: Seq<char>) -> Seq<char> {
    let rest = trim_start(text);
    rest.take(rest.len() - blank_end(rest))
}

/// Whether `ch` is a line feed or a carriage return.
pub open spec fn is_line_break(ch: char) -> bool {
    ch == '\n' || ch == '\r'
}

/// Whether `text` holds neither a line feed nor a carriage return.
pub open spec fn one_line(text: Seq<char>) -> bool {
    forall|i: int| 0 <= i < text.len() ==> !is_line_break(#[trigger] text[i])
}

/// An environment directive: a variable's name and its value.
pub struct Directive {
    /// The variable's name: what stands before the colon, trimmed.
    pub name: Seq<char>,
    /// The variable's value: what stands between the quotes, as it is.
    pub value: Seq<char>,
}

/// The directive that `line` is, if it is one. A directive is a line without
/// its terminator that reads: the keyword, one or more characters other than
/// a colon, a colon, white space or none, a double quote, one or more
/// characters other than a double quote, and a double quote, with nothing
/// before the keyword and nothing behind the last quote. It holds neither a
/// line feed nor a carriage return.
pub open spec fn directive_of(line: Seq<char>) -> Option<Directive> {
    let name_start = keyword().len() as int;
    let colon = name_start + until(line, name_start, ':');
    let quote = colon + 1 + blank(line, colon + 1);
    let value_start = quote + 1;
    let close = value_start + until(line, value_start, '"');
    if one_line(line) && stands_at(line, 0, keyword()) && name_start < colon < line.len() && quote
        < line.len() && line[quote] == '"' && value_start < close && close + 1 == line.len()
        && line[close] == '"' {
        Some(
            Directive {
                name: trim(line.subrange(name_start, colon)),
                value: line.subrange(value_start, close),
            },
        )
    } else {
        None
    }
}

/// Whether a line starts at `at`: at the start of the text, or right behind a
/// line feed.
pub open spec fn starts_line(text: Seq<char>, at: int) -> bool {
    at == 0 || (0 < at <= text.len() && text[at - 1] == '\n')
}

/// The position of the line feed that ends the line that starts at `start`,
/// or the length of the text where none does.
pub open spec fn line_feed(text: Seq<char>, start: int) -> int {
    start + until(text, start, '\n')
}

/// The position behind the line that starts at `start`, without its
/// terminator. The terminator is a line feed, a carriage return and a line
/// feed, or the end of the text.
pub open spec fn line_end(text: Seq<char>, start: int) -> int {
    let feed = line_feed(text, start);
    if start < feed < text.len() && text[feed - 1] == '\r' {
        feed - 1
    } else {
        feed
    }
}

/// The position behind the line that starts at `start` and its terminator:
/// where the next line starts, or the end of the text.
pub open spec fn next_line(text: Seq<char>, start: int) -> int {
    if start + until(text, start, '\n') < text.len() {
        start + until(text, start, '\n') + 1
    } else {
        text.len() as int
    }
}

/// The line that starts at `start`, without its terminator.
pub open spec fn line(text: Seq<char>, start: int) -> Seq<char> {
    text.subrange(start, line_end(text, start))
}

/// The directive that stands at `at`, if one does: a line starts at `at`, and
/// the line is a directive.
pub open spec fn directive_at(text: Seq<char>, at: int) -> Option<Directive> {
    if 0 <= at < text.len() && starts_line(text, at) {
        directive_of(line(text, at))
    } else {
        None
    }
}

/// `text` from the line that starts at `pos` on, without its directives: a
/// line that is a directive is left out with its terminator, and any other
/// line stays with its terminator.
pub open spec fn strip_from(text: Seq<char>, pos: int) -> Seq<char>
    decreases left(text, pos),
{
    if pos < 0 || pos >= text.len() {
        Seq::empty()
    } else {
        match directive_at(text, pos) {
            Some(_) => strip_from(text, next_line(text, pos)),
            None => text.subrange(pos, next_line(text, pos)) + strip_from(
                text,
                next_line(text, pos),
            ),
        }
    }
}

/// The directives of `text` from the line that starts at `pos` on, each as a
/// name and a value, in the order in which they stand.
pub open spec fn directives_from(text: Seq<char>, pos: int) -> Seq<(Seq<char>, Seq<char>)>
    decreases left(text, pos),
{
    if pos < 0 || pos >= text.len() {
        Seq::empty()
    } else {
        match directive_at(text, pos) {
            Some(directive) => seq![(directive.name, directive.value)] + directives_from(
                text,
                next_line(text, pos),
            ),
            None => directives_from(text, next_line(text, pos)),
        }
    }
}

/// `text` without its directives.
pub open spec fn strip(text: Seq<char>) -> Seq<char> {
    strip_from(text, 0)
}

/// The directives of `text`.
pub open spec fn directives(text: Seq<char>) -> Seq<(Seq<char>, Seq<char>)> {
    directives_from(text, 0)
}

/// The prefix by which a variable of the whole process is marked as meant for
/// the snippets.
pub open spec fn meta_prefix() -> Seq<char> {
    "INLINE_C_RS_"@
}

/// The variables that `environment` sets for the snippets: each name that
/// carries the prefix stands here without it, with its value.
pub open spec fn meta_variables(environment: Map<Seq<char>, Seq<char>>) -> Map<
    Seq<char>,
    Seq<char>,
> {
    Map::new(
        |name: Seq<char>| environment.contains_key(meta_prefix() + name),
        |name: Seq<char>| environment[meta_prefix() + name],
    )
}

/// The variables of a snippet: those that `environment` sets for the
/// snippets, and over them the directives of `program` in their order.
pub open spec fn snippet_variables(
    program: Seq<char>,
    environment: Map<Seq<char>, Seq<char>>,
) -> Map<Seq<char>, Seq<char>> {
    assign(meta_variables(environment), directives(program))
}

/// One more variable of the process sets one more variable for the snippets
/// where its name carries the prefix, and none where it does not.
proof fn lemma_meta_insert(environment: Map<Seq<char>, Seq<char>>, key: Seq<char>, value: Seq<char>)
    ensures
        meta_variables(environment.insert(key, value)) == if stands_at(key, 0, meta_prefix()) {
            meta_variables(environment).insert(key.skip(meta_prefix().len() as int), value)
        } else {
            meta_variables(environment)
        },
{
    let prefix = meta_prefix();
    let grown = meta_variables(environment.insert(key, value));
    if stands_at(key, 0, prefix) {
        let short = key.skip(prefix.len() as int);
        assert(prefix + short =~= key);
        let expected = meta_variables(environment).insert(short, value);
        assert forall|name: Seq<char>| grown.contains_key(name) <==> expected.contains_key(
            name,
        ) by {
            if prefix + name == key {
                assert((prefix + name).skip(prefix.len() as int) =~= name);
            }
        }
        assert forall|name: Seq<char>| grown.contains_key(name) implies grown[name]
            == expected[name] by {
            if prefix + name == key {
                assert((prefix + name).skip(prefix.len() as int) =~= name);
            }
        }
        assert(grown =~= expected);
    } else {
        assert forall|name: Seq<char>| prefix + name != key by {
            assert((prefix + name).subrange(0, prefix.len() as int) =~= prefix);
        }
        assert(grown =~= meta_variables(environment));
    }
}

/// Gives the position of the first `stop` at or behind `from`, or the length
/// of `text` where there is none.
fn scan_until(text: &Vec<char>, from: usize, stop: char) -> (to: usize)
    requires
        from <= text.len(),
    ensures
        to == from + until(text@, from as int, stop),
        from <= to <= text.len(),
        to < text.len() ==> text[to as int] == stop,
{
    let mut to = from;
    while to < text.len() && text[to] != stop
        invariant
            from <= to <= text.len(),
            until(text@, from as int, stop) == (to - from) + until(text@, to as int, stop),
        decreases text.len() - to,
    {
        to += 1;
    }
    to
}

/// Gives the position of the first character at or behind `from` that is no
/// white space, or the length of `text` where there is none.
fn scan_blank(text: &Vec<char>, from: usize) -> (to: usize)
    requires
        from <= text.len(),
    ensures
        to == from + blank(text@, from as int),
        from <= to <= text.len(),
{
    let mut to = from;
    while to < text.len() && whitespace(text[to])
        invariant
            from <= to <= text.len(),
            blank(text@, from as int) == (to - from) + blank(text@, to as int),
        decreases text.len() - to,
    {
        to += 1;
    }
    to
}

/// Gives the characters of `text` from `from` up to `to`, trimmed.
fn trimmed(text: &Vec<char>, from: usize, to: usize) -> (s: String)
    requires
        from <= to <= text.len(),
    ensures
        s@ == trim(text@.subrange(from as int, to as int)),
{
    let ghost whole = text@.subrange(from as int, to as int);
    let mut lo = from;
    while lo < to && whitespace(text[lo])
        invariant
            from <= lo <= to <= text.len(),
            whole == text@.subrange(from as int, to as int),
            blank(whole, 0) == (lo - from) + blank(whole, lo - from),
        decreases to - lo,
    {
        assert(whole[lo - from] == text@[lo as int]);
        lo += 1;
    }
    assert(blank(whole, 0) == lo - from) by {
        if lo < to {
            assert(whole[lo - from] == text@[lo as int]);
        }
    }
    let ghost rest = text@.subrange(lo as int, to as int);
    assert(trim_start(whole) =~= rest);
    let mut hi = to;
    while hi > lo && whitespace(text[hi - 1])
        invariant
            lo <= hi <= to <= text.len(),
            rest == text@.subrange(lo as int, to as int),
            blank_end(rest) == (to - hi) + blank_end(text@.subrange(lo as int, hi as int)),
        decreases hi - lo,
    {
        assert(text@.subrange(lo as int, hi as int).drop_last() =~= text@.subrange(
            lo as int,
            hi - 1,
        ));
        hi -= 1;
    }
    assert(blank_end(rest) == to - hi);
    assert(rest.take(rest.len() - blank_end(rest)) =~= text@.subrange(lo as int, hi as int));
    substring(text, lo, hi)
}

/// Gives the characters of `text` from `from` up to `to`.
fn copy_range(text: &Vec<char>, from: usize, to: usize) -> (copy: Vec<char>)
    requires
        from <= to <= text.len(),
    ensures
        copy@ == text@.subrange(from as int, to as int),
{
    let mut copy: Vec<char> = Vec::new();
    let mut i = from;
    while i < to
        invariant
            from <= i <= to <= text.len(),
            copy@ == text@.subrange(from as int, i as int),
        decreases to - i,
    {
        copy.push(text[i]);
        assert(text@.subrange(from as int, i + 1) =~= text@.subrange(from as int, i as int).push(
            text@[i as int],
        ));
        i += 1;
    }
    copy
}

/// Tells whether `text` holds neither a line feed nor a carriage return.
fn is_one_line(text: &Vec<char>) -> (yes: bool)
    ensures
        yes == one_line(text@),
{
    let mut i: usize = 0;
    while i < text.len()
        invariant
            i <= text.len(),
            forall|j: int| 0 <= j < i ==> !is_line_break(#[trigger] text@[j]),
        decreases text.len() - i,
    {
        if text[i] == '\n' || text[i] == '\r' {
            return false;
        }
        i += 1;
    }
    true
}

/// Reads the directive that `line` is, if it is one.
fn read_directive(line: &Vec<char>, opening: &Vec<char>) -> (found: Option<(String, String)>)
    requires
        opening@ == keyword(),
    ensures
        match found {
            Some((name, value)) => directive_of(line@) == Some(
                Directive { name: name@, value: value@ },
            ),
            None => directive_of(line@) is None,
        },
{
    if !is_one_line(line) || !word_at(line, 0, opening) {
        return None;
    }
    let name_start = opening.len();
    let colon = scan_until(line, name_start, ':');
    if colon <= name_start || colon >= line.len() {
        return None;
    }
    let quote = scan_blank(line, colon + 1);
    if quote >= line.len() || line[quote] != '"' {
        return None;
    }
    let value_start = quote + 1;
    let close = scan_until(line, value_start, '"');
    if close <= value_start || close >= line.len() || close + 1 != line.len() {
        return None;
    }
    let name = trimmed(line, name_start, colon);
    let value = substring(line, value_start, close);
    Some((name, value))
}

/// Takes the environment directives out of `program`.
///
/// A directive is a line `#inline_c_rs <name>: "<value>"`: the `#` starts the
/// line, and behind the closing quote the line ends, with a line feed, with a
/// carriage return and a line feed, or with the program. The result is the
/// program without these lines, and the variables of the snippet: those that
/// `environment`, the variables of the whole process, sets under the prefix
/// `INLINE_C_RS_`, and over them the directives in their order, so that a
/// directive wins over the process, and a later directive over an earlier one.
pub fn collect_environment_variables(program: &str, environment: &Variables) -> (result: (
    String,
    Variables,
))
    requires
        environment.wf(),
    ensures
        result.0@ == strip(program@),
        holds_no_directive(result.0@),
        result.1.wf(),
        result.1@ == snippet_variables(program@, environment@),
{
    proof {
        lemma_no_directive_is_left(program@);
    }
    let mut variables = Variables::new();
    let prefix = chars_of("INLINE_C_RS_");
    let mut i: usize = 0;
    proof {
        environment.lemma_entries();
        assert(environment.entries().take(0) =~= Seq::<(String, String)>::empty());
        assert(pairs_of(environment.entries().take(0)) =~= Seq::<(Seq<char>, Seq<char>)>::empty());
        assert(meta_variables(Map::empty()) =~= Map::<Seq<char>, Seq<char>>::empty());
    }
    while i < environment.len()
        invariant
            i <= environment.entries().len(),
            prefix@ == meta_prefix(),
            variables.wf(),
            variables@ == meta_variables(
                assign(Map::empty(), pairs_of(environment.entries().take(i as int))),
            ),
        decreases environment.entries().len() - i,
    {
        let entry = environment.entry(i);
        let name = chars_of(entry.0.as_str());
        proof {
            let seen = environment.entries().take(i as int);
            assert(environment.entries().take(i + 1) =~= seen.push(*entry));
            lemma_pairs_push(seen, *entry);
            lemma_assign_push(Map::empty(), pairs_of(seen), entry.0@, entry.1@);
            lemma_meta_insert(assign(Map::empty(), pairs_of(seen)), entry.0@, entry.1@);
        }
        if word_at(&name, 0, &prefix) {
            let short = substring(&name, prefix.len(), name.len());
            assert(short@ =~= entry.0@.skip(meta_prefix().len() as int));
            variables.insert(short, entry.1.clone());
        }
        i += 1;
    }
    proof {
        assert(environment.entries().take(i as int) =~= environment.entries());
    }
    let text = chars_of(program);
    let opening = chars_of("#inline_c_rs ");
    let mut out = String::new();
    let mut pos: usize = 0;
    assert(out@ + strip_from(text@, 0) =~= strip(program@));
    while pos < text.len()
        invariant
            pos <= text.len(),
            text@ == program@,
            opening@ == keyword(),
            variables.wf(),
            pos < text.len() ==> starts_line(text@, pos as int),
            out@ + strip_from(text@, pos as int) == strip(program@),
            assign(variables@, directives_from(text@, pos as int)) == snippet_variables(
                program@,
                environment@,
            ),
        decreases text.len() - pos,
    {
        let feed = scan_until(&text, pos, '\n');
        let end = if pos < feed && feed < text.len() && text[feed - 1] == '\r' {
            feed - 1
        } else {
            feed
        };
        let next = if feed < text.len() {
            feed + 1
        } else {
            feed
        };
        let line = copy_range(&text, pos, end);
        match read_directive(&line, &opening) {
            Some((name, value)) => {
                proof {
                    lemma_assign_first(
                        variables@,
                        name@,
                        value@,
                        directives_from(text@, next as int),
                    );
                }
                variables.insert(name, value);
            },
            None => {
                let ghost before = out@;
                let mut k = pos;
                while k < next
                    invariant
                        pos <= k <= next <= text.len(),
                        out@ == before + text@.subrange(pos as int, k as int),
                    decreases next - k,
                {
                    out.push(text[k]);
                    assert(text@.subrange(pos as int, k + 1) =~= text@.subrange(
                        pos as int,
                        k as int,
                    ).push(text@[k as int]));
                    assert(before + text@.subrange(pos as int, k as int).push(text@[k as int])
                        =~= (before + text@.subrange(pos as int, k as int)).push(text@[k as int]));
                    k += 1;
                }
                assert(out@ + strip_from(text@, next as int) =~= before + (text@.subrange(
                    pos as int,
                    next as int,
                ) + strip_from(text@, next as int)));
            },
        }
        pos = next;
    }
    assert(out@ =~= out@ + strip_from(text@, pos as int));
    (out, variables)
}

/// A directive wins over the process: the last directive of a name gives the
/// name its value, whatever `environment` sets under the prefix.
pub proof fn lemma_directive_wins(
    program: Seq<char>,
    environment: Map<Seq<char>, Seq<char>>,
    at: int,
)
    requires
        0 <= at < directives(program).len(),
        forall|j: int|
            at < j < directives(program).len() ==> (#[trigger] directives(program)[j]).0
                != directives(program)[at].0,
    ensures
        snippet_variables(program, environment).contains_key(directives(program)[at].0),
        snippet_variables(program, environment)[directives(program)[at].0] == directives(
            program,
        )[at].1,
{
    lemma_assign_last_wins(meta_variables(environment), directives(program), at);
}

/// A name for which the program has no directive has the value that
/// `environment` sets for it under the prefix, and none where it sets none.
pub proof fn lemma_meta_variable_shows(
    program: Seq<char>,
    environment: Map<Seq<char>, Seq<char>>,
    name: Seq<char>,
)
    requires
        forall|j: int|
            0 <= j < directives(program).len() ==> (#[trigger] directives(program)[j]).0 != name,
    ensures
        snippet_variables(program, environment).contains_key(name) == environment.contains_key(
            meta_prefix() + name,
        ),
        environment.contains_key(meta_prefix() + name) ==> snippet_variables(
            program,
            environment,
        )[name] == environment[meta_prefix() + name],
{
    lemma_assign_keeps(meta_variables(environment), directives(program), name);
}

/// The characters before the first `stop` are within the text, none of them
/// is `stop`, and `stop` stands behind them unless the text ends there.
proof fn lemma_until(text: Seq<char>, from: int, stop: char)
    requires
        0 <= from <= text.len(),
    ensures
        from + until(text, from, stop) <= text.len(),
        forall|i: int| from <= i < from + until(text, from, stop) ==> #[trigger] text[i] != stop,
        from + until(text, from, stop) < text.len() ==> text[from + until(text, from, stop)]
            == stop,
    decreases text.len() - from,
{
    if from < text.len() && text[from] != stop {
        lemma_until(text, from + 1, stop);
    }
}

/// Where no `stop` stands from `from` up to `at`, and `stop` stands at `at`
/// or the text ends there, it is that far to the first `stop`.
proof fn lemma_until_first(text: Seq<char>, from: int, at: int, stop: char)
    requires
        0 <= from <= at <= text.len(),
        forall|i: int| from <= i < at ==> #[trigger] text[i] != stop,
        at < text.len() ==> text[at] == stop,
    ensures
        until(text, from, stop) == at - from,
    decreases at - from,
{
    if from < at {
        lemma_until_first(text, from + 1, at, stop);
    }
}

/// Characters before a text do not change how far it is to a character.
proof fn lemma_until_shift(before: Seq<char>, text: Seq<char>, from: int, stop: char)
    requires
        0 <= from,
    ensures
        until(before + text, before.len() + from, stop) == until(text, from, stop),
    decreases text.len() - from,
{
    if from < text.len() {
        assert((before + text)[before.len() + from] == text[from]);
        if text[from] != stop {
            lemma_until_shift(before, text, from + 1, stop);
        }
    }
}

/// Characters behind a text do not change how far it is to a character that
/// the text holds.
proof fn lemma_until_extend(text: Seq<char>, after: Seq<char>, from: int, stop: char)
    requires
        0 <= from,
        from + until(text, from, stop) < text.len(),
    ensures
        until(text + after, from, stop) == until(text, from, stop),
    decreases text.len() - from,
{
    if from < text.len() {
        assert((text + after)[from] == text[from]);
        if text[from] != stop {
            lemma_until_extend(text, after, from + 1, stop);
        }
    }
}

/// A line is what it is wherever it stands: whole lines before it only shift
/// it.
pub proof fn lemma_line_shift(before: Seq<char>, text: Seq<char>, at: int)
    requires
        0 <= at <= text.len(),
        before.len() == 0 || before.last() == '\n',
    ensures
        next_line(before + text, before.len() + at) == before.len() + next_line(text, at),
        line(before + text, before.len() + at) == line(text, at),
        starts_line(before + text, before.len() + at) == starts_line(text, at),
        directive_at(before + text, before.len() + at) == directive_at(text, at),
{
    let whole = before + text;
    let shift = before.len() as int;
    lemma_until_shift(before, text, at, '\n');
    lemma_until(text, at, '\n');
    let feed = line_feed(text, at);
    assert(line_feed(whole, shift + at) == shift + feed);
    if at < feed {
        assert(whole[shift + feed - 1] == text[feed - 1]);
    }
    assert(line_end(whole, shift + at) == shift + line_end(text, at));
    assert(whole.subrange(shift + at, shift + line_end(text, at)) =~= text.subrange(
        at,
        line_end(text, at),
    ));
    if at > 0 {
        assert(whole[shift + at - 1] == text[at - 1]);
    } else if shift > 0 {
        assert(whole[shift - 1] == before.last());
    }
}

/// A line that ends within a text stays what it is when characters are put
/// behind the text.
pub proof fn lemma_line_extend(text: Seq<char>, after: Seq<char>, at: int)
    requires
        0 <= at < text.len(),
        line_feed(text, at) < text.len() || after.len() == 0,
    ensures
        next_line(text + after, at) == next_line(text, at),
        line(text + after, at) == line(text, at),
        directive_at(text + after, at) == directive_at(text, at),
{
    let whole = text + after;
    if after.len() == 0 {
        assert(whole =~= text);
    } else {
        lemma_until_extend(text, after, at, '\n');
        lemma_until(text, at, '\n');
        let feed = line_feed(text, at);
        if at < feed {
            assert(whole[feed - 1] == text[feed - 1]);
        }
        assert(whole.subrange(at, line_end(text, at)) =~= text.subrange(at, line_end(text, at)));
        if at > 0 {
            assert(whole[at - 1] == text[at - 1]);
        }
    }
}

/// What stands behind whole lines is read as if they were not there.
pub proof fn lemma_strip_shift(before: Seq<char>, text: Seq<char>, pos: int)
    requires
        0 <= pos,
        before.len() == 0 || before.last() == '\n',
    ensures
        strip_from(before + text, before.len() + pos) == strip_from(text, pos),
        directives_from(before + text, before.len() + pos) == directives_from(text, pos),
    decreases left(text, pos),
{
    if pos < text.len() {
        let next = next_line(text, pos);
        lemma_line_shift(before, text, pos);
        lemma_until(text, pos, '\n');
        lemma_strip_shift(before, text, next);
        assert((before + text).subrange(before.len() + pos, before.len() + next)
            =~= text.subrange(pos, next));
    }
}

/// Where no directive stands from `pos` up to `end`, every character between
/// them stays. Lines start at `pos` and at `end`, or the text ends at `end`.
pub proof fn lemma_strip_keeps(text: Seq<char>, pos: int, end: int)
    requires
        0 <= pos <= end <= text.len(),
        end == text.len() || pos == end || text[end - 1] == '\n',
        forall|i: int| pos <= i < end ==> (#[trigger] directive_at(text, i)) is None,
    ensures
        strip_from(text, pos) == text.subrange(pos, end) + strip_from(text, end),
        directives_from(text, pos) == directives_from(text, end),
    decreases end - pos,
{
    if pos < end {
        let next = next_line(text, pos);
        lemma_until(text, pos, '\n');
        assert(next <= end) by {
            if end < text.len() && next > end {
                assert(text[end - 1] != '\n');
            }
        }
        assert(directive_at(text, pos) is None);
        lemma_strip_keeps(text, next, end);
        assert(text.subrange(pos, next) + (text.subrange(next, end) + strip_from(text, end))
            =~= text.subrange(pos, end) + strip_from(text, end));
    } else {
        assert(text.subrange(pos, end) + strip_from(text, end) =~= strip_from(text, end));
    }
}

/// A text in which no directive stands stays as it is, and gives no
/// variable.
pub proof fn lemma_strip_without_directive(text: Seq<char>)
    requires
        forall|i: int| 0 <= i < text.len() ==> (#[trigger] directive_at(text, i)) is None,
    ensures
        strip(text) == text,
        directives(text).len() == 0,
{
    lemma_strip_keeps(text, 0, text.len() as int);
    assert(text.subrange(0, text.len() as int) + strip_from(text, text.len() as int) =~= text);
}

/// Whether `line` is one directive with its terminator and nothing else.
pub open spec fn is_directive_line(line: Seq<char>) -> bool {
    directive_at(line, 0) is Some && next_line(line, 0) == line.len()
}

/// Exactly the directive is taken out. Where `before` is whole lines of which
/// none is a directive, and `line` is a directive with its terminator, the
/// lines before the directive stay as they are, the directive gives its
/// variable, and what stands behind it is read as if it stood alone. Only the
/// last line of a text can do without a line feed.
pub proof fn lemma_strip_takes_directive(before: Seq<char>, line: Seq<char>, after: Seq<char>)
    requires
        before.len() == 0 || before.last() == '\n',
        forall|i: int| 0 <= i < before.len() ==> (#[trigger] directive_at(before, i)) is None,
        is_directive_line(line),
        line.last() == '\n' || after.len() == 0,
    ensures
        strip(before + line + after) == before + strip(after),
        directives(before + line + after) == seq![
            (directive_at(line, 0)->Some_0.name, directive_at(line, 0)->Some_0.value),
        ] + directives(after),
{
    let text = before + line + after;
    let rest = line + after;
    let start = before.len() as int;
    assert(text =~= before + rest);
    assert forall|i: int| 0 <= i < start implies (#[trigger] directive_at(text, i)) is None by {
        lemma_until(before, i, '\n');
        if line_feed(before, i) >= before.len() {
            assert(before[start - 1] != '\n');
        }
        lemma_line_extend(before, rest, i);
        assert(directive_at(before, i) is None);
    }
    lemma_strip_keeps(text, 0, start);
    assert(text.subrange(0, start) =~= before);
    lemma_until(line, 0, '\n');
    if line_feed(line, 0) >= line.len() {
        assert(after.len() == 0) by {
            if line.last() == '\n' {
                assert(line[line.len() - 1] != '\n');
            }
        }
    }
    lemma_line_extend(line, after, 0);
    lemma_line_shift(before, rest, 0);
    assert(directive_at(text, start) == directive_at(line, 0));
    assert(next_line(text, start) == start + line.len());
    if line.last() == '\n' {
        assert(text =~= (before + line) + after);
        assert((before + line).last() == '\n');
        lemma_strip_shift(before + line, after, 0);
    } else {
        assert(strip_from(text, start + line.len()) =~= strip(after));
        assert(directives_from(text, start + line.len()) =~= directives(after));
    }
}

/// No directive is left in what stays of the lines from `pos` on.
proof fn lemma_strip_leaves_none(text: Seq<char>, pos: int)
    requires
        0 <= pos,
        pos < text.len() ==> starts_line(text, pos),
    ensures
        forall|at: int| (#[trigger] directive_at(strip_from(text, pos), at)) is None,
    decreases left(text, pos),
{
    let left_over = strip_from(text, pos);
    if pos < text.len() {
        let next = next_line(text, pos);
        let feed = line_feed(text, pos);
        lemma_until(text, pos, '\n');
        lemma_strip_leaves_none(text, next);
        if directive_at(text, pos) is None {
            let kept = text.subrange(pos, next);
            let rest = strip_from(text, next);
            assert(left_over == kept + rest);
            assert forall|at: int| (#[trigger] directive_at(left_over, at)) is None by {
                if at == 0 && left_over.len() > 0 {
                    assert forall|i: int| 0 <= i < feed - pos implies #[trigger] left_over[i]
                        != '\n' by {
                        assert(left_over[i] == text[pos + i]);
                    }
                    if feed < text.len() {
                        assert(left_over[feed - pos] == text[feed]);
                    } else {
                        assert(rest.len() == 0);
                    }
                    lemma_until_first(left_over, 0, feed - pos, '\n');
                    if pos < feed {
                        assert(left_over[feed - pos - 1] == text[feed - 1]);
                    }
                    assert(line(left_over, 0) =~= line(text, pos));
                } else if 0 < at < kept.len() {
                    assert(left_over[at - 1] == text[pos + at - 1]);
                } else if kept.len() <= at < left_over.len() {
                    assert(kept.last() == text[feed]);
                    lemma_line_shift(kept, rest, at - kept.len());
                    assert(directive_at(rest, at - kept.len()) is None);
                }
            }
        }
    }
}

/// No directive is left in a text once its directives are taken out: no line
/// of what stays is a directive.
pub proof fn lemma_no_directive_is_left(text: Seq<char>)
    ensures
        forall|at: int| (#[trigger] directive_at(strip(text), at)) is None,
{
    lemma_strip_leaves_none(text, 0);
}

/// Whether no directive stands in `text`.
pub open spec fn holds_no_directive(text: Seq<char>) -> bool {
    forall|i: int| 0 <= i < text.len() ==> (#[trigger] directive_at(text, i)) is None
}

/// The text that starts with `kept[0]`, goes on with `lines[0]`, `kept[1]`,
/// `lines[1]` and so on, and ends with the last of `kept`.
pub open spec fn interleaved(kept: Seq<Seq<char>>, lines: Seq<Seq<char>>) -> Seq<char>
    decreases lines.len(),
{
    if kept.len() == 0 {
        Seq::empty()
    } else if lines.len() == 0 {
        kept[0]
    } else {
        kept[0] + lines[0] + interleaved(kept.skip(1), lines.skip(1))
    }
}

/// The given texts, one behind the other.
pub open spec fn joined(kept: Seq<Seq<char>>) -> Seq<char>
    decreases kept.len(),
{
    if kept.len() == 0 {
        Seq::empty()
    } else {
        kept[0] + joined(kept.skip(1))
    }
}

/// The names and values of the given directive lines, in their order.
pub open spec fn named(lines: Seq<Seq<char>>) -> Seq<(Seq<char>, Seq<char>)>
    decreases lines.len(),
{
    if lines.len() == 0 {
        Seq::empty()
    } else {
        seq![(directive_at(lines[0], 0)->Some_0.name, directive_at(lines[0], 0)->Some_0.value)]
            + named(lines.skip(1))
    }
}

/// Exactly the directive lines are taken out, and every other character
/// stays, in order. Where a text is made of whole lines `kept[0]`, a
/// directive line `lines[0]`, whole lines `kept[1]`, a directive line
/// `lines[1]` and so on up to the last of `kept`, and no directive stands in
/// any of `kept`, what stays is `kept[0]`, `kept[1]` and so on, and the
/// variables are those of the directive lines. Without a directive line the
/// text stays as it is. Only the last line of the text can do without a line
/// feed.
pub proof fn lemma_strip_takes_the_directive_lines(kept: Seq<Seq<char>>, lines: Seq<Seq<char>>)
    requires
        kept.len() == lines.len() + 1,
        forall|j: int| 0 <= j < kept.len() ==> holds_no_directive(#[trigger] kept[j]),
        forall|j: int|
            0 <= j < lines.len() ==> (#[trigger] kept[j]).len() == 0 || kept[j].last() == '\n',
        forall|j: int| 0 <= j < lines.len() ==> is_directive_line(#[trigger] lines[j]),
        forall|j: int|
            0 <= j < lines.len() ==> (#[trigger] lines[j]).last() == '\n' || (j == lines.len() - 1
                && kept[j + 1].len() == 0),
    ensures
        strip(interleaved(kept, lines)) == joined(kept),
        directives(interleaved(kept, lines)) == named(lines),
    decreases lines.len(),
{
    if lines.len() == 0 {
        assert(holds_no_directive(kept[0]));
        lemma_strip_without_directive(kept[0]);
        assert(joined(kept.skip(1)) =~= Seq::<char>::empty());
        assert(joined(kept) =~= kept[0]);
        assert(directives(kept[0]) =~= named(lines));
    } else {
        let later_kept = kept.skip(1);
        let later_lines = lines.skip(1);
        let tail = interleaved(later_kept, later_lines);
        assert forall|j: int| 0 <= j < later_kept.len() implies holds_no_directive(
            #[trigger] later_kept[j],
        ) by {
            assert(later_kept[j] == kept[j + 1]);
        }
        assert forall|j: int| 0 <= j < later_lines.len() implies (#[trigger] later_kept[j]).len()
            == 0 || later_kept[j].last() == '\n' by {
            assert(later_kept[j] == kept[j + 1]);
        }
        assert forall|j: int| 0 <= j < later_lines.len() implies is_directive_line(
            #[trigger] later_lines[j],
        ) by {
            assert(later_lines[j] == lines[j + 1]);
        }
        assert forall|j: int| 0 <= j < later_lines.len() implies (#[trigger] later_lines[j]).last()
            == '\n' || (j == later_lines.len() - 1 && later_kept[j + 1].len() == 0) by {
            assert(later_lines[j] == lines[j + 1]);
            assert(later_kept[j + 1] == kept[j + 2]);
        }
        lemma_strip_takes_the_directive_lines(later_kept, later_lines);
        assert(holds_no_directive(kept[0]));
        assert(is_directive_line(lines[0]));
        if lines[0].last() != '\n' {
            assert(lines.len() == 1 && kept[1].len() == 0);
            assert(later_kept[0] == kept[1]);
            assert(tail.len() == 0);
        }
        lemma_strip_takes_directive(kept[0], lines[0], tail);
    }
}

} // verus!
