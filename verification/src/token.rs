//! The token tree that every other module works on.

use vstd::prelude::*;
use vstd::string::StringExecFns;

verus! {

/// The bracket that encloses a group.
#[derive(Clone, Copy, Debug, PartialEq, Eq, Structural)]
pub enum Delimiter {
    /// `( ... )`
    Parenthesis,
    /// `[ ... ]`
    Bracket,
    /// `{ ... }`
    Brace,
    /// No written bracket: the group only scopes its content.
    Implicit,
}

/// One node of a token tree.
#[derive(Debug, PartialEq, Eq)]
pub enum Token {
    /// An atomic constant, kept as its text.
    Literal(String),
    /// A name; two identifiers are the same when their names are.
    Identifier(String),
    /// A single symbol. `joint` tells that the next token follows without a
    /// gap, so that both can form one operator such as `..`.
    Punctuation { symbol: char, joint: bool },
    /// A delimited run of tokens, in order.
    Group { delimiter: Delimiter, content: Vec<Token> },
}

/// The mathematical value of a [`Token`].
pub enum TokenModel {
    Literal(Seq<char>),
    Identifier(Seq<char>),
    Punctuation(char, bool),
    Group(Delimiter, Seq<TokenModel>),
}

/// The models of the tokens of `tokens`, in order.
pub open spec fn models(tokens: Seq<Token>) -> Seq<TokenModel>
    decreases tokens, 0int,
{
    Seq::new(
        tokens.len(),
        |i: int|
            if 0 <= i < tokens.len() {
                tokens[i].view()
            } else {
                arbitrary()
            },
    )
}

impl View for Token {
    type V = TokenModel;

    open spec fn view(&self) -> TokenModel
        decreases self, 1int,
    {
        match self {
            Token::Literal(text) => TokenModel::Literal(text@),
            Token::Identifier(name) => TokenModel::Identifier(name@),
            Token::Punctuation { symbol, joint } => TokenModel::Punctuation(*symbol, *joint),
            Token::Group { delimiter, content } => TokenModel::Group(*delimiter, models(content@)),
        }
    }
}

impl Clone for Token {
    /// A copy of the whole tree below this token.
    fn clone(&self) -> (copy: Token)
        ensures
            copy@ == self@,
        decreases self,
    {
        match self {
            Token::Literal(text) => Token::Literal(text.clone()),
            Token::Identifier(name) => Token::Identifier(name.clone()),
            Token::Punctuation { symbol, joint } => Token::Punctuation {
                symbol: *symbol,
                joint: *joint,
            },
            Token::Group { delimiter, content } => Token::Group {
                delimiter: *delimiter,
                content: clone_tokens(content),
            },
        }
    }
}

/// A copy of every token of `tokens`, in order.
pub fn clone_tokens(tokens: &Vec<Token>) -> (copy: Vec<Token>)
    ensures
        models(copy@) == models(tokens@),
    decreases tokens,
{
    let mut copy: Vec<Token> = Vec::new();
    let mut i: usize = 0;
    while i < tokens.len()
        invariant
            i <= tokens.len(),
            copy.len() == i,
            forall|k: int| 0 <= k < i ==> copy@[k]@ == tokens@[k]@,
        decreases tokens.len() - i,
    {
        let token = tokens[i].clone();
        copy.push(token);
        i += 1;
    }
    assert(models(copy@) =~= models(tokens@));
    copy
}

impl Delimiter {
    /// The text that opens a group of this kind.
    pub open spec fn opening(self) -> Seq<char> {
        match self {
            Delimiter::Parenthesis => seq!['('],
            Delimiter::Bracket => seq!['['],
            Delimiter::Brace => seq!['{'],
            Delimiter::Implicit => Seq::empty(),
        }
    }

    /// The text that closes a group of this kind.
    pub open spec fn closing(self) -> Seq<char> {
        match self {
            Delimiter::Parenthesis => seq![')'],
            Delimiter::Bracket => seq![']'],
            Delimiter::Brace => seq!['}'],
            Delimiter::Implicit => Seq::empty(),
        }
    }
}

impl TokenModel {
    /// The content of a group; nothing for any other token.
    pub open spec fn content(self) -> Seq<TokenModel> {
        match self {
            TokenModel::Group(_, content) => content,
            _ => Seq::empty(),
        }
    }

    /// The textual form of a token: the text of a literal, the name of an
    /// identifier, the symbol of a punctuation, and for a group its
    /// delimiters around the textual forms of its content.
    pub open spec fn text(self) -> Seq<char>
        decreases self, 1int,
    {
        match self {
            TokenModel::Literal(text) => text,
            TokenModel::Identifier(name) => name,
            TokenModel::Punctuation(symbol, _) => seq![symbol],
            TokenModel::Group(delimiter, content) => delimiter.opening() + texts(content, 0)
                + delimiter.closing(),
        }
    }
}

/// The textual forms of `tokens[from..]`, one after the other.
pub open spec fn texts(tokens: Seq<TokenModel>, from: int) -> Seq<char>
    decreases tokens, 0int, tokens.len() - from,
{
    if 0 <= from < tokens.len() {
        tokens[from].text() + texts(tokens, from + 1)
    } else {
        Seq::empty()
    }
}

/// The models of a sequence follow its tokens one by one.
pub proof fn lemma_models_push(tokens: Seq<Token>, token: Token)
    ensures
        models(tokens.push(token)) == models(tokens).push(token@),
{
    assert(models(tokens.push(token)) =~= models(tokens).push(token@));
}

/// The models of a concatenation are the concatenation of the models.
pub proof fn lemma_models_concat(left: Seq<Token>, right: Seq<Token>)
    ensures
        models(left + right) == models(left) + models(right),
{
    assert(models(left + right) =~= models(left) + models(right));
}

impl Token {
    /// The identifier named `name`.
    pub fn ident(name: &str) -> (token: Token)
        ensures
            token@ == TokenModel::Identifier(name@),
    {
        Token::Identifier(name.to_owned())
    }

    /// The literal written as `text`.
    pub fn literal(text: &str) -> (token: Token)
        ensures
            token@ == TokenModel::Literal(text@),
    {
        Token::Literal(text.to_owned())
    }

    /// The punctuation `symbol`, with a gap after it.
    pub fn punct(symbol: char) -> (token: Token)
        ensures
            token@ == TokenModel::Punctuation(symbol, false),
    {
        Token::Punctuation { symbol, joint: false }
    }

    /// The punctuation `symbol`, joined to the token after it.
    pub fn joint(symbol: char) -> (token: Token)
        ensures
            token@ == TokenModel::Punctuation(symbol, true),
    {
        Token::Punctuation { symbol, joint: true }
    }

    /// The group of `content` in `delimiter`.
    pub fn group(delimiter: Delimiter, content: Vec<Token>) -> (token: Token)
        ensures
            token@ == TokenModel::Group(delimiter, models(content@)),
    {
        Token::Group { delimiter, content }
    }

    /// The textual form of this token.
    pub fn text(&self) -> (text: String)
        ensures
            text@ == self@.text(),
        decreases self,
    {
        match self {
            Token::Literal(text) => text.clone(),
            Token::Identifier(name) => name.clone(),
            Token::Punctuation { symbol, joint: _ } => {
                let mut text = String::new();
                text.push(*symbol);
                text
            },
            Token::Group { delimiter, content } => {
                let mut text = String::new();
                match delimiter {
                    Delimiter::Parenthesis => text.push('('),
                    Delimiter::Bracket => text.push('['),
                    Delimiter::Brace => text.push('{'),
                    Delimiter::Implicit => {},
                }
                let inner = text_of_all(content);
                text.append(inner.as_str());
                match delimiter {
                    Delimiter::Parenthesis => text.push(')'),
                    Delimiter::Bracket => text.push(']'),
                    Delimiter::Brace => text.push('}'),
                    Delimiter::Implicit => {},
                }
                assert(text@ =~= delimiter.opening() + texts(models(content@), 0)
                    + delimiter.closing());
                text
            },
        }
    }
}

/// The textual forms of `tokens`, one after the other.
pub fn text_of_all(tokens: &Vec<Token>) -> (text: String)
    ensures
        text@ == texts(models(tokens@), 0),
    decreases tokens,
{
    let mut text = String::new();
    let ghost model = models(tokens@);
    let mut i: usize = 0;
    while i < tokens.len()
        invariant
            i <= tokens.len(),
            model == models(tokens@),
            text@ + texts(model, i as int) == texts(model, 0),
        decreases tokens.len() - i,
    {
        let part = tokens[i].text();
        assert(text@ + texts(model, i as int) =~= text@ + part@ + texts(model, i + 1));
        text.append(part.as_str());
        i += 1;
    }
    assert(text@ =~= texts(model, 0));
    text
}

} // verus!
