//! The invocation `binder in low..high { body }` and its parser.

use vstd::prelude::*;
use vstd::string::StringExecFns;
use crate::classify::{AmbiguousMarkerError, classification, classify};
use crate::expand::{Expansion, expand, expanded, expansion_errors};
use crate::lexeme::{binds, bound_of, literal_value, read_binder};
use crate::substitute::{FusionErrorModel, error_models};
use crate::token::{Delimiter, Token, TokenModel, models, clone_tokens};

verus! {

/// A template and the range to expand it over.
///
/// The range is half open: it holds `low`, and ends before `high`. It is
/// empty when `high` does not exceed `low`.
#[derive(Debug, PartialEq, Eq)]
pub struct Invocation {
    /// The name that stands for the value inside the body.
    pub binder: String,
    pub low: i32,
    pub high: i32,
    /// The content of the braces, as written.
    pub body: Vec<Token>,
}

/// The mathematical value of an [`Invocation`].
pub struct InvocationModel {
    pub binder: Seq<char>,
    pub low: int,
    pub high: int,
    pub body: Seq<TokenModel>,
}

impl View for Invocation {
    type V = InvocationModel;

    open spec fn view(&self) -> InvocationModel {
        InvocationModel {
            binder: self.binder@,
            low: self.low as int,
            high: self.high as int,
            body: models(self.body@),
        }
    }
}

impl InvocationModel {
    /// The output of the invocation and the malformed fusions met on the
    /// way, or `None` where the marker of the body is ambiguous.
    pub open spec fn expansion(self) -> Option<(Seq<TokenModel>, Seq<FusionErrorModel>)> {
        match classification(self.body) {
            Some(class) => Some(
                (
                    expanded(class, self.binder, self.low, self.high),
                    expansion_errors(class, self.binder, self.low, self.high),
                ),
            ),
            None => None,
        }
    }
}

/// Why a token sequence is no invocation. The parts are checked in the order
/// in which they are written, and the first that fails is named.
#[derive(Clone, Copy, Debug, PartialEq, Eq, Structural)]
pub enum SyntaxError {
    /// The first token is not an identifier that can bind.
    MissingBinder,
    /// The word `in` does not follow the binder.
    MissingIn,
    /// No well-formed integer in base 10 that fits 32 bits stands where the
    /// lower bound belongs.
    BadLowerBound,
    /// The `..` does not follow the lower bound.
    MissingRangeSeparator,
    /// No well-formed integer in base 10 that fits 32 bits stands where the
    /// upper bound belongs.
    BadUpperBound,
    /// No group in braces follows the upper bound.
    MissingBody,
    /// Something follows the body.
    TrailingTokens,
}

/// Whether `token` is the punctuation `-`.
pub open spec fn is_minus(token: TokenModel) -> bool {
    token matches TokenModel::Punctuation(symbol, _) && symbol == '-'
}

/// How many tokens a bound written at `at` takes: a literal, or a `-` and a
/// literal.
pub open spec fn bound_len(tokens: Seq<TokenModel>, at: int) -> int {
    if 0 <= at < tokens.len() && is_minus(tokens[at]) {
        2
    } else {
        1
    }
}

/// The text of the bound written at `at`, if a literal stands there, with
/// its sign.
pub open spec fn bound_text(tokens: Seq<TokenModel>, at: int) -> Option<Seq<char>> {
    if 0 <= at < tokens.len() && is_minus(tokens[at]) {
        if at + 1 < tokens.len() && tokens[at + 1] is Literal {
            Some(seq!['-'] + tokens[at + 1]->Literal_0)
        } else {
            None
        }
    } else if 0 <= at < tokens.len() && tokens[at] is Literal {
        Some(tokens[at]->Literal_0)
    } else {
        None
    }
}

/// Whether `..` is written at `at`: two dots, the first joined to the second.
pub open spec fn is_range_separator(tokens: Seq<TokenModel>, at: int) -> bool {
    &&& 0 <= at
    &&& at + 1 < tokens.len()
    &&& tokens[at] == TokenModel::Punctuation('.', true)
    &&& tokens[at + 1] matches TokenModel::Punctuation(symbol, _) && symbol == '.'
}

/// Whether `token` is a group in braces.
pub open spec fn is_braced(token: TokenModel) -> bool {
    token is Group && token->Group_0 == Delimiter::Brace
}

/// Where the `..` of an invocation belongs.
pub open spec fn separator_place(tokens: Seq<TokenModel>) -> int {
    2 + bound_len(tokens, 2)
}

/// Where the upper bound of an invocation belongs.
pub open spec fn upper_place(tokens: Seq<TokenModel>) -> int {
    separator_place(tokens) + 2
}

/// Where the body of an invocation belongs.
pub open spec fn body_place(tokens: Seq<TokenModel>) -> int {
    upper_place(tokens) + bound_len(tokens, upper_place(tokens))
}

/// What the bound written at `at` is worth, if it is a well-formed integer in
/// base 10 that fits 32 bits.
pub open spec fn bound_value(tokens: Seq<TokenModel>, at: int) -> Option<i32> {
    match bound_text(tokens, at) {
        Some(text) => bound_of(text),
        None => None,
    }
}

/// The invocation that `tokens` spell, given whether the name of the first
/// token can bind.
pub open spec fn assembled(tokens: Seq<TokenModel>, binder_accepted: bool) -> Result<
    InvocationModel,
    SyntaxError,
> {
    let at = body_place(tokens);
    let low = bound_value(tokens, 2);
    let high = bound_value(tokens, upper_place(tokens));
    if !(tokens.len() > 0 && tokens[0] is Identifier && binder_accepted) {
        Err(SyntaxError::MissingBinder)
    } else if !(tokens.len() > 1 && tokens[1] == TokenModel::Identifier("in"@)) {
        Err(SyntaxError::MissingIn)
    } else if low is None {
        Err(SyntaxError::BadLowerBound)
    } else if !is_range_separator(tokens, separator_place(tokens)) {
        Err(SyntaxError::MissingRangeSeparator)
    } else if high is None {
        Err(SyntaxError::BadUpperBound)
    } else if !(at < tokens.len() && is_braced(tokens[at])) {
        Err(SyntaxError::MissingBody)
    } else if at + 1 != tokens.len() {
        Err(SyntaxError::TrailingTokens)
    } else {
        Ok(
            InvocationModel {
                binder: tokens[0]->Identifier_0,
                low: low->0 as int,
                high: high->0 as int,
                body: tokens[at]->Group_1,
            },
        )
    }
}

/// Whether the first token of `tokens` is an identifier whose name can bind.
pub open spec fn first_binds(tokens: Seq<TokenModel>) -> bool {
    tokens.len() > 0 && tokens[0] is Identifier && binds(tokens[0]->Identifier_0)
}

/// The invocation that `tokens` spell:
/// an identifier, `in`, an integer, `..`, an integer, and a group in braces,
/// with nothing before, between or after them.
pub open spec fn parsed(tokens: Seq<TokenModel>) -> Result<InvocationModel, SyntaxError> {
    assembled(tokens, first_binds(tokens))
}

/// Whether `token` is the punctuation `symbol`.
fn is_symbol(token: &Token, symbol: char) -> (same: bool)
    ensures
        same == (token@ matches TokenModel::Punctuation(found, _) && found == symbol),
{
    match token {
        Token::Punctuation { symbol: found, joint: _ } => *found == symbol,
        _ => false,
    }
}

/// The text of the bound written at `at`, if a literal stands there.
fn read_bound_text(tokens: &Vec<Token>, at: usize) -> (text: Option<String>)
    ensures
        match text {
            Some(text) => bound_text(models(tokens@), at as int) == Some(text@),
            None => bound_text(models(tokens@), at as int) is None,
        },
{
    if at >= tokens.len() {
        return None;
    }
    assert(models(tokens@)[at as int] == tokens@[at as int]@);
    if is_symbol(&tokens[at], '-') {
        if tokens.len() - at < 2 {
            return None;
        }
        assert(models(tokens@)[at + 1] == tokens@[at + 1]@);
        match &tokens[at + 1] {
            Token::Literal(digits) => {
                let mut text = String::new();
                text.push('-');
                text.append(digits.as_str());
                assert(text@ =~= seq!['-'] + digits@);
                Some(text)
            },
            _ => None,
        }
    } else {
        match &tokens[at] {
            Token::Literal(digits) => Some(digits.clone()),
            _ => None,
        }
    }
}

/// How many tokens a bound written at `at` takes.
fn read_bound_len(tokens: &Vec<Token>, at: usize) -> (len: usize)
    ensures
        len == bound_len(models(tokens@), at as int),
{
    if at < tokens.len() {
        assert(models(tokens@)[at as int] == tokens@[at as int]@);
        if is_symbol(&tokens[at], '-') {
            return 2;
        }
    }
    1
}

/// What the bound written at `at` is worth.
fn read_bound_value(tokens: &Vec<Token>, at: usize) -> (value: Option<i32>)
    ensures
        value == bound_value(models(tokens@), at as int),
{
    match read_bound_text(tokens, at) {
        Some(text) => literal_value(text.as_str()),
        None => None,
    }
}

impl Invocation {
    /// Puts an invocation together from `tokens`, once the one word that
    /// only the lexer can judge is judged: `binder_accepted` tells whether the
    /// name of the first token can bind.
    ///
    /// The parts are checked in the order in which they are written. The
    /// result is the first error in that order, or the invocation. A bound is
    /// a literal of decimal digits, or `-` and such a literal, whose value
    /// fits 32 bits.
    pub fn assemble(tokens: &Vec<Token>, binder_accepted: bool) -> (out: Result<
        Invocation,
        SyntaxError,
    >)
        ensures
            match out {
                Ok(invocation) => assembled(models(tokens@), binder_accepted) == Ok::<
                    InvocationModel,
                    SyntaxError,
                >(invocation@),
                Err(error) => assembled(models(tokens@), binder_accepted) == Err::<
                    InvocationModel,
                    SyntaxError,
                >(error),
            },
    {
        let ghost model = models(tokens@);
        let len = tokens.len();
        if len == 0 || !binder_accepted {
            return Err(SyntaxError::MissingBinder);
        }
        assert(model[0] == tokens@[0]@);
        let binder = match &tokens[0] {
            Token::Identifier(name) => name.clone(),
            _ => {
                return Err(SyntaxError::MissingBinder);
            },
        };
        if len < 2 {
            return Err(SyntaxError::MissingIn);
        }
        assert(model[1] == tokens@[1]@);
        let keyword = "in".to_owned();
        let follows = match &tokens[1] {
            Token::Identifier(name) => *name == keyword,
            _ => false,
        };
        if !follows {
            return Err(SyntaxError::MissingIn);
        }
        let low = match read_bound_value(tokens, 2) {
            Some(value) => value,
            None => {
                return Err(SyntaxError::BadLowerBound);
            },
        };
        let separator = 2 + read_bound_len(tokens, 2);
        if len - separator < 2 {
            return Err(SyntaxError::MissingRangeSeparator);
        }
        assert(model[separator as int] == tokens@[separator as int]@);
        assert(model[separator + 1] == tokens@[separator + 1]@);
        let first = match &tokens[separator] {
            Token::Punctuation { symbol, joint } => *symbol == '.' && *joint,
            _ => false,
        };
        if !(first && is_symbol(&tokens[separator + 1], '.')) {
            return Err(SyntaxError::MissingRangeSeparator);
        }
        let upper = separator + 2;
        let high = match read_bound_value(tokens, upper) {
            Some(value) => value,
            None => {
                return Err(SyntaxError::BadUpperBound);
            },
        };
        let at = upper + read_bound_len(tokens, upper);
        if at >= len {
            return Err(SyntaxError::MissingBody);
        }
        assert(model[at as int] == tokens@[at as int]@);
        let body = match &tokens[at] {
            Token::Group { delimiter, content } => match delimiter {
                Delimiter::Brace => clone_tokens(content),
                _ => {
                    return Err(SyntaxError::MissingBody);
                },
            },
            _ => {
                return Err(SyntaxError::MissingBody);
            },
        };
        if len - at != 1 {
            return Err(SyntaxError::TrailingTokens);
        }
        Ok(Invocation { binder, low, high, body })
    }

    /// Reads `tokens` as an invocation `binder in low..high { body }`.
    ///
    /// A bound is a literal of decimal digits, or `-` and such a literal,
    /// whose value fits 32 bits; the body is the content of the braces, as
    /// written.
    pub fn parse(tokens: &Vec<Token>) -> (out: Result<Invocation, SyntaxError>)
        ensures
            match out {
                Ok(invocation) => parsed(models(tokens@)) == Ok::<InvocationModel, SyntaxError>(
                    invocation@,
                ),
                Err(error) => parsed(models(tokens@)) == Err::<InvocationModel, SyntaxError>(
                    error,
                ),
            },
    {
        let ghost model = models(tokens@);
        let accepted = if tokens.len() > 0 {
            assert(model[0] == tokens@[0]@);
            match &tokens[0] {
                Token::Identifier(name) => read_binder(name.as_str()),
                _ => false,
            }
        } else {
            false
        };
        let out = Invocation::assemble(tokens, accepted);
        proof {
            let first = tokens.len() > 0 && model[0] is Identifier;
            assert(first ==> accepted == first_binds(model));
            assert(!first ==> assembled(model, accepted) == assembled(model, first_binds(model)));
        }
        out
    }

    /// Classifies the body and expands it over the range.
    ///
    /// Fails only where the marker of the body is ambiguous. Malformed
    /// fusions do not fail: they are listed beside the output.
    pub fn expand(&self) -> (out: Result<Expansion, AmbiguousMarkerError>)
        ensures
            match out {
                Ok(expansion) => self@.expansion() == Some(
                    (models(expansion.tokens@), error_models(expansion.errors@)),
                ),
                Err(_) => self@.expansion() is None,
            },
    {
        match classify(&self.body) {
            Ok(class) => Ok(expand(&class, self.binder.as_str(), self.low, self.high)),
            Err(error) => Err(error),
        }
    }
}

/// Why an invocation gave no output.
#[derive(Clone, Copy, Debug, PartialEq, Eq, Structural)]
pub enum ExpandError {
    /// The tokens are no invocation.
    Syntax(SyntaxError),
    /// The body holds more than one marker at the level of its first one.
    AmbiguousMarker,
}

/// What `input` expands to: the output and the malformed fusions met on the
/// way, or the reason why there is none.
pub open spec fn outcome(input: Seq<TokenModel>) -> Result<
    (Seq<TokenModel>, Seq<FusionErrorModel>),
    ExpandError,
> {
    match parsed(input) {
        Ok(invocation) => match invocation.expansion() {
            Some(expansion) => Ok(expansion),
            None => Err(ExpandError::AmbiguousMarker),
        },
        Err(error) => Err(ExpandError::Syntax(error)),
    }
}

/// Expands the invocation that `input` spells: parses it, classifies its
/// body and expands the body over the range.
///
/// A syntax error or an ambiguous marker gives no output at all. Malformed
/// fusions are listed beside the output, which then is not fit for use.
pub fn seq(input: &Vec<Token>) -> (out: Result<Expansion, ExpandError>)
    ensures
        match out {
            Ok(expansion) => outcome(models(input@)) == Ok::<
                (Seq<TokenModel>, Seq<FusionErrorModel>),
                ExpandError,
            >((models(expansion.tokens@), error_models(expansion.errors@))),
            Err(error) => outcome(models(input@)) == Err::<
                (Seq<TokenModel>, Seq<FusionErrorModel>),
                ExpandError,
            >(error),
        },
{
    match Invocation::parse(input) {
        Ok(invocation) => match invocation.expand() {
            Ok(expansion) => Ok(expansion),
            Err(_) => Err(ExpandError::AmbiguousMarker),
        },
        Err(error) => Err(ExpandError::Syntax(error)),
    }
}

} // verus!
