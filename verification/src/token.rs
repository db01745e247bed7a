use vstd::prelude::*;

verus! {

/// Whether a punctuation character is glued to the token that follows it.
#[derive(Clone, Copy, Debug, PartialEq, Eq, Structural)]
pub enum Spacing {
    /// White space follows, or a token that is not punctuation.
    Alone,
    /// Punctuation follows at once, as the `=` of `+=`.
    Joint,
}

/// The brackets around a group of tokens.
#[derive(Clone, Copy, Debug, PartialEq, Eq, Structural)]
pub enum Delimiter {
    /// `( ... )`
    Parenthesis,
    /// `{ ... }`
    Brace,
    /// `[ ... ]`
    Bracket,
    /// No brackets: the group only keeps its tokens together.
    Invisible,
}

/// One token of a snippet, as the host's tokenizer hands it over.
///
/// `line` is the source line on which the token starts. A group also carries
/// its source text, brackets included, because the tokens inside it do not
/// tell how they were spaced.
#[derive(Debug)]
pub enum Token {
    /// A single punctuation character.
    Punct { ch: char, spacing: Spacing, line: usize },
    /// An identifier or a keyword.
    Ident { name: String, line: usize },
    /// A literal, written as in the source: a string literal keeps its quotes.
    Literal { text: String, line: usize },
    /// A bracketed sequence of tokens.
    Group { delimiter: Delimiter, tokens: Vec<Token>, text: String, line: usize },
    /// Anything else, written as in the source.
    Other { text: String, line: usize },
}

impl Token {
    /// The token as it stands in the source.
    pub open spec fn text(self) -> Seq<char> {
        match self {
            Token::Punct { ch, .. } => seq![ch],
            Token::Ident { name, .. } => name@,
            Token::Literal { text, .. } => text@,
            Token::Group { text, .. } => text@,
            Token::Other { text, .. } => text@,
        }
    }

    /// The source line on which the token starts.
    pub open spec fn line(self) -> usize {
        match self {
            Token::Punct { line, .. } => line,
            Token::Ident { line, .. } => line,
            Token::Literal { line, .. } => line,
            Token::Group { line, .. } => line,
            Token::Other { line, .. } => line,
        }
    }

    /// Whether the token is the punctuation character `ch`.
    pub open spec fn is_punct(self, ch: char) -> bool {
        self matches Token::Punct { ch: c, .. } && c == ch
    }

    /// Whether the token is the identifier `name`.
    pub open spec fn is_ident(self, name: Seq<char>) -> bool {
        self matches Token::Ident { name: n, .. } && n@ == name
    }

    /// Gives the source line on which the token starts.
    pub fn start_line(&self) -> (line: usize)
        ensures
            line == self.line(),
    {
        match self {
            Token::Punct { line, .. } => *line,
            Token::Ident { line, .. } => *line,
            Token::Literal { line, .. } => *line,
            Token::Group { line, .. } => *line,
            Token::Other { line, .. } => *line,
        }
    }

    /// Gives the token as it stands in the source.
    pub fn source_text(&self) -> (text: String)
        ensures
            text@ == self.text(),
    {
        match self {
            Token::Punct { ch, .. } => {
                let mut text = String::new();
                text.push(*ch);
                text
            },
            Token::Ident { name, .. } => name.clone(),
            Token::Literal { text, .. } => text.clone(),
            Token::Group { text, .. } => text.clone(),
            Token::Other { text, .. } => text.clone(),
        }
    }
}

/// The source texts of the given tokens, one after the other with nothing
/// between them.
pub open spec fn concat_text(tokens: Seq<Token>) -> Seq<char>
    decreases tokens.len(),
{
    if tokens.len() == 0 {
        Seq::empty()
    } else {
        concat_text(tokens.drop_last()) + tokens.last().text()
    }
}

} // verus!
