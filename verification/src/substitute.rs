//! Replacing the bound identifier, and fusing `name # binder` into one
//! identifier.
//!
//! The walk over a token sequence is a small state machine. An identifier
//! that is not the binder is held back, because a `#` after it may ask to
//! fuse it with the value of the binder:
//!
//! ```text
//! Idle --identifier--> SawIdentifier --#--> SawIdentifierHash --binder--> Idle
//! ```
//!
//! Only the token right after `name #` can complete the fusion. A held name
//! is emitted as it stands as soon as anything but a `#` follows it. A `#`
//! that takes part in no fusion is malformed, in one of three ways:
//!
//! - nothing is held when it comes: it is reported at its own place and left
//!   out;
//! - an identifier other than the binder follows `name #`: that identifier
//!   is reported, and all three tokens are left out;
//! - anything else, or the end of the sequence, follows `name #`: the name
//!   is reported, and the two tokens are left out.
//!
//! None of these stops the walk. A group is a sequence of its own: its
//! content is walked from the idle state, and nothing is held across its
//! brackets.

use vstd::prelude::*;
use vstd::string::StringExecFns;
use crate::token::{Token, TokenModel, models, lemma_models_push};

verus! {

/// What is wrong with a `#` that fuses nothing.
#[derive(Clone, Copy, Debug, PartialEq, Eq, Structural)]
pub enum FusionFault {
    /// A `#` with no identifier right before it.
    NoIdentBeforeHash,
    /// `name #` with no identifier right after it.
    NoIdentAfterHash,
    /// `name # other`, where `other` is an identifier but not the binder.
    MismatchedIdent,
}

/// One malformed fusion, with the place of the token it is reported at.
///
/// The place is a path of indices from the sequence that was handed in: the
/// last index is that of the token in its own sequence, the ones before it
/// lead through the enclosing groups.
#[derive(Debug, PartialEq, Eq)]
pub struct FusionError {
    pub fault: FusionFault,
    pub path: Vec<usize>,
}

/// The mathematical value of a [`FusionError`].
pub struct FusionErrorModel {
    pub fault: FusionFault,
    pub path: Seq<nat>,
}

impl View for FusionError {
    type V = FusionErrorModel;

    open spec fn view(&self) -> FusionErrorModel {
        FusionErrorModel { fault: self.fault, path: self.path@.map_values(|index: usize| index as nat) }
    }
}

impl FusionErrorModel {
    /// The same error, seen from the sequence that holds the group at `index`.
    pub open spec fn under(self, index: nat) -> FusionErrorModel {
        FusionErrorModel { fault: self.fault, path: seq![index] + self.path }
    }
}

/// The models of the errors of `errors`, in order.
pub open spec fn error_models(errors: Seq<FusionError>) -> Seq<FusionErrorModel> {
    errors.map_values(|error: FusionError| error@)
}

/// Each error of `errors`, seen from the sequence that holds the group at
/// `index`.
pub open spec fn all_under(errors: Seq<FusionErrorModel>, index: nat) -> Seq<FusionErrorModel> {
    errors.map_values(|error: FusionErrorModel| error.under(index))
}

/// What the walk holds back between two tokens.
pub enum Lookbehind {
    /// Nothing is held.
    Idle,
    /// The identifier of this name came last and is not emitted yet.
    SawIdentifier(Seq<char>),
    /// The identifier of this name and a `#` came last.
    SawIdentifierHash(Seq<char>),
}

/// Whether `token` is the punctuation `#`.
pub open spec fn is_hash(token: TokenModel) -> bool {
    token matches TokenModel::Punctuation(symbol, _) && symbol == '#'
}

/// What `token` adds to the output when nothing is held. `inner` is the
/// substituted content of `token` where it is a group.
pub open spec fn emitted_idle(
    token: TokenModel,
    binder: Seq<char>,
    replacement: TokenModel,
    inner: Seq<TokenModel>,
) -> Seq<TokenModel> {
    match token {
        TokenModel::Group(delimiter, _) => seq![TokenModel::Group(delimiter, inner)],
        TokenModel::Identifier(name) => if name == binder {
            seq![replacement]
        } else {
            Seq::empty()
        },
        TokenModel::Punctuation(symbol, _) => if symbol == '#' {
            Seq::empty()
        } else {
            seq![token]
        },
        TokenModel::Literal(_) => seq![token],
    }
}

/// What `token` adds to the output when it comes in state `held`.
pub open spec fn emitted(
    held: Lookbehind,
    token: TokenModel,
    binder: Seq<char>,
    replacement: TokenModel,
    inner: Seq<TokenModel>,
) -> Seq<TokenModel> {
    match held {
        Lookbehind::Idle => emitted_idle(token, binder, replacement, inner),
        Lookbehind::SawIdentifier(name) => if is_hash(token) {
            Seq::empty()
        } else {
            seq![TokenModel::Identifier(name)] + emitted_idle(token, binder, replacement, inner)
        },
        Lookbehind::SawIdentifierHash(name) => match token {
            TokenModel::Identifier(other) => if other == binder {
                seq![TokenModel::Identifier(name + replacement.text())]
            } else {
                Seq::empty()
            },
            _ => emitted_idle(token, binder, replacement, inner),
        },
    }
}

/// The state after `token` came in state `held`.
pub open spec fn next_held(held: Lookbehind, token: TokenModel, binder: Seq<char>) -> Lookbehind {
    match token {
        TokenModel::Identifier(name) => if name == binder || held is SawIdentifierHash {
            Lookbehind::Idle
        } else {
            Lookbehind::SawIdentifier(name)
        },
        TokenModel::Punctuation(symbol, _) => match held {
            Lookbehind::SawIdentifier(name) => if symbol == '#' {
                Lookbehind::SawIdentifierHash(name)
            } else {
                Lookbehind::Idle
            },
            _ => Lookbehind::Idle,
        },
        _ => Lookbehind::Idle,
    }
}

/// What is let go at the end of a sequence: a held identifier is emitted, a
/// held `name #` is not.
pub open spec fn trailing(held: Lookbehind) -> Seq<TokenModel> {
    match held {
        Lookbehind::SawIdentifier(name) => seq![TokenModel::Identifier(name)],
        _ => Seq::empty(),
    }
}

/// An error of kind `fault` at the token `index` of the sequence at hand.
pub open spec fn fault_at(fault: FusionFault, index: int) -> FusionErrorModel {
    FusionErrorModel { fault, path: seq![index as nat] }
}

/// The errors that `token`, at `index`, brings to light in state `held`.
///
/// A held `name #` wants the binder next: another identifier is reported at
/// that identifier, anything else at the held name, two places back. A `#`
/// wants a held identifier before it, and is reported at its own place.
pub open spec fn faults(held: Lookbehind, token: TokenModel, binder: Seq<char>, index: int) -> Seq<
    FusionErrorModel,
> {
    let unfused = if held is SawIdentifierHash {
        match token {
            TokenModel::Identifier(other) => if other == binder {
                Seq::empty()
            } else {
                seq![fault_at(FusionFault::MismatchedIdent, index)]
            },
            _ => seq![fault_at(FusionFault::NoIdentAfterHash, index - 2)],
        }
    } else {
        Seq::empty()
    };
    let bare = if is_hash(token) && !(held is SawIdentifier) {
        seq![fault_at(FusionFault::NoIdentBeforeHash, index)]
    } else {
        Seq::empty()
    };
    unfused + bare
}

/// The error that the end of a sequence of `len` tokens brings to light.
pub open spec fn trailing_faults(held: Lookbehind, len: int) -> Seq<FusionErrorModel> {
    if held is SawIdentifierHash {
        seq![fault_at(FusionFault::NoIdentAfterHash, len - 2)]
    } else {
        Seq::empty()
    }
}

/// The output for `tokens[from..]` when the walk reaches `from` in state
/// `held`.
pub open spec fn substituted_from(
    tokens: Seq<TokenModel>,
    binder: Seq<char>,
    replacement: TokenModel,
    held: Lookbehind,
    from: int,
) -> Seq<TokenModel>
    decreases tokens, tokens.len() - from,
{
    if 0 <= from < tokens.len() {
        let inner = match tokens[from] {
            TokenModel::Group(_, content) => substituted_from(
                content,
                binder,
                replacement,
                Lookbehind::Idle,
                0,
            ),
            _ => Seq::empty(),
        };
        emitted(held, tokens[from], binder, replacement, inner) + substituted_from(
            tokens,
            binder,
            replacement,
            next_held(held, tokens[from], binder),
            from + 1,
        )
    } else {
        trailing(held)
    }
}

/// `tokens` with every binder replaced and every `name # binder` fused, at
/// every depth.
pub open spec fn substituted(
    tokens: Seq<TokenModel>,
    binder: Seq<char>,
    replacement: TokenModel,
) -> Seq<TokenModel> {
    substituted_from(tokens, binder, replacement, Lookbehind::Idle, 0)
}

/// The errors for `tokens[from..]` when the walk reaches `from` in state
/// `held`, in the order in which the walk meets them.
pub open spec fn fusion_errors_from(
    tokens: Seq<TokenModel>,
    binder: Seq<char>,
    held: Lookbehind,
    from: int,
) -> Seq<FusionErrorModel>
    decreases tokens, tokens.len() - from,
{
    if 0 <= from < tokens.len() {
        let inner = match tokens[from] {
            TokenModel::Group(_, content) => all_under(
                fusion_errors_from(content, binder, Lookbehind::Idle, 0),
                from as nat,
            ),
            _ => Seq::empty(),
        };
        faults(held, tokens[from], binder, from) + inner + fusion_errors_from(
            tokens,
            binder,
            next_held(held, tokens[from], binder),
            from + 1,
        )
    } else {
        trailing_faults(held, tokens.len() as int)
    }
}

/// The malformed fusions of `tokens`, at every depth. They do not depend on
/// what the binder is replaced by.
pub open spec fn fusion_errors(tokens: Seq<TokenModel>, binder: Seq<char>) -> Seq<
    FusionErrorModel,
> {
    fusion_errors_from(tokens, binder, Lookbehind::Idle, 0)
}

/// What a substitution gives: the output, and the malformed fusions that
/// were left out of it.
#[derive(Debug, PartialEq, Eq)]
pub struct Substitution {
    pub tokens: Vec<Token>,
    pub errors: Vec<FusionError>,
}

/// The state of the walk as the executable code holds it.
enum Held {
    Idle,
    SawIdentifier(String),
    SawIdentifierHash(String),
}

impl View for Held {
    type V = Lookbehind;

    closed spec fn view(&self) -> Lookbehind {
        match self {
            Held::Idle => Lookbehind::Idle,
            Held::SawIdentifier(name) => Lookbehind::SawIdentifier(name@),
            Held::SawIdentifierHash(name) => Lookbehind::SawIdentifierHash(name@),
        }
    }
}

/// Whether `token` is the punctuation `#`.
fn is_hash_token(token: &Token) -> (hash: bool)
    ensures
        hash == is_hash(token@),
{
    match token {
        Token::Punctuation { symbol, joint: _ } => *symbol == '#',
        _ => false,
    }
}

/// An error of kind `fault` at the token `index` of the sequence at hand.
fn error_at(fault: FusionFault, index: usize) -> (error: FusionError)
    ensures
        error@ == fault_at(fault, index as int),
{
    let mut path: Vec<usize> = Vec::new();
    path.push(index);
    let error = FusionError { fault, path };
    assert(error@.path =~= seq![index as nat]);
    error
}

/// Each error of `errors`, seen from the sequence that holds the group at
/// `index`.
pub(crate) fn place_under(errors: &Vec<FusionError>, index: usize) -> (placed: Vec<FusionError>)
    ensures
        error_models(placed@) == all_under(error_models(errors@), index as nat),
{
    let mut placed: Vec<FusionError> = Vec::new();
    let mut k: usize = 0;
    while k < errors.len()
        invariant
            k <= errors.len(),
            placed.len() == k,
            forall|n: int| 0 <= n < k ==> placed@[n]@ == (#[trigger] errors@[n])@.under(index as nat),
        decreases errors.len() - k,
    {
        let error = &errors[k];
        let mut path: Vec<usize> = Vec::new();
        path.push(index);
        let mut j: usize = 0;
        while j < error.path.len()
            invariant
                j <= error.path.len(),
                path@ == seq![index] + error.path@.subrange(0, j as int),
            decreases error.path.len() - j,
        {
            path.push(error.path[j]);
            assert(path@ =~= seq![index] + error.path@.subrange(0, j + 1));
            j += 1;
        }
        assert(error.path@.subrange(0, j as int) =~= error.path@);
        let moved = FusionError { fault: error.fault, path };
        assert(moved@.path =~= error@.under(index as nat).path);
        placed.push(moved);
        k += 1;
    }
    assert(error_models(placed@) =~= all_under(error_models(errors@), index as nat));
    placed
}

/// Replaces the identifier `binder` by `replacement` everywhere in `tokens`,
/// and fuses each `name # binder` into the one identifier whose name is
/// `name` followed by the textual form of `replacement`.
///
/// Malformed fusions do not stop the walk: each is listed in `errors` with
/// its place, its tokens are left out of `tokens`, and the rest is produced
/// as if they were not there.
pub fn substitute(tokens: &Vec<Token>, binder: &str, replacement: &Token) -> (out: Substitution)
    ensures
        models(out.tokens@) == substituted(models(tokens@), binder@, replacement@),
        error_models(out.errors@) == fusion_errors(models(tokens@), binder@),
{
    let name = binder.to_owned();
    let text = replacement.text();
    substitute_with(tokens, &name, replacement, &text)
}

/// The models of a sequence of errors follow its errors one by one.
proof fn lemma_error_models_push(errors: Seq<FusionError>, error: FusionError)
    ensures
        error_models(errors.push(error)) == error_models(errors).push(error@),
{
    assert(error_models(errors.push(error)) =~= error_models(errors).push(error@));
}

/// [`substitute`], with the textual form of `replacement` at hand.
fn substitute_with(tokens: &Vec<Token>, binder: &String, replacement: &Token, text: &String) -> (out:
    Substitution)
    requires
        text@ == replacement@.text(),
    ensures
        models(out.tokens@) == substituted(models(tokens@), binder@, replacement@),
        error_models(out.errors@) == fusion_errors(models(tokens@), binder@),
    decreases tokens,
{
    let mut out: Vec<Token> = Vec::new();
    let mut errors: Vec<FusionError> = Vec::new();
    let mut held = Held::Idle;
    let ghost model = models(tokens@);
    let mut i: usize = 0;
    assert(models(out@) =~= Seq::<TokenModel>::empty());
    assert(error_models(errors@) =~= Seq::<FusionErrorModel>::empty());
    while i < tokens.len()
        invariant
            i <= tokens.len(),
            model == models(tokens@),
            text@ == replacement@.text(),
            held@ is SawIdentifier ==> i >= 1,
            held@ is SawIdentifierHash ==> i >= 2,
            models(out@) + substituted_from(model, binder@, replacement@, held@, i as int)
                == substituted(model, binder@, replacement@),
            error_models(errors@) + fusion_errors_from(model, binder@, held@, i as int)
                == fusion_errors(model, binder@),
        decreases tokens.len() - i,
    {
        let token = &tokens[i];
        let ghost before = held@;
        let ghost done = models(out@);
        let ghost seen = error_models(errors@);
        let ghost inner = match model[i as int] {
            TokenModel::Group(_, content) => substituted(content, binder@, replacement@),
            _ => Seq::empty(),
        };
        let ghost inner_errors = match model[i as int] {
            TokenModel::Group(_, content) => all_under(fusion_errors(content, binder@), i as nat),
            _ => Seq::empty(),
        };
        assert(model[i as int] == token@);
        let mut step: Vec<Token> = Vec::new();
        let mut found: Vec<FusionError> = Vec::new();
        assert(models(step@) =~= Seq::<TokenModel>::empty());
        assert(error_models(found@) =~= Seq::<FusionErrorModel>::empty());
        let mut used = false;
        let previous = held;
        held = Held::Idle;
        match previous {
            Held::Idle => {},
            Held::SawIdentifier(name) => {
                if is_hash_token(token) {
                    held = Held::SawIdentifierHash(name);
                    used = true;
                } else {
                    proof {
                        lemma_models_push(step@, Token::Identifier(name));
                    }
                    step.push(Token::Identifier(name));
                }
            },
            Held::SawIdentifierHash(name) => {
                match token {
                    Token::Identifier(other) => {
                        if *other == *binder {
                            let fused = Token::Identifier(name.concat(text.as_str()));
                            proof {
                                lemma_models_push(step@, fused);
                            }
                            step.push(fused);
                        } else {
                            let error = error_at(FusionFault::MismatchedIdent, i);
                            proof {
                                lemma_error_models_push(found@, error);
                            }
                            found.push(error);
                        }
                        used = true;
                    },
                    _ => {
                        let error = error_at(FusionFault::NoIdentAfterHash, i - 2);
                        proof {
                            lemma_error_models_push(found@, error);
                        }
                        found.push(error);
                    },
                }
            },
        }
        let ghost flushed = models(step@);
        let ghost unfused = error_models(found@);
        assert(used ==> flushed =~= emitted(before, token@, binder@, replacement@, inner));
        assert(used ==> unfused =~= faults(before, token@, binder@, i as int) + inner_errors);
        assert(used ==> held@ == next_held(before, token@, binder@));
        assert(!used ==> flushed + emitted_idle(token@, binder@, replacement@, inner) =~= emitted(
            before,
            token@,
            binder@,
            replacement@,
            inner,
        ));
        if !used {
            match token {
                Token::Group { delimiter, content } => {
                    let nested = substitute_with(content, binder, replacement, text);
                    let mut placed = place_under(&nested.errors, i);
                    let group = Token::Group { delimiter: *delimiter, content: nested.tokens };
                    proof {
                        lemma_models_push(step@, group);
                        assert(error_models(found@ + placed@) =~= unfused + inner_errors);
                    }
                    step.push(group);
                    found.append(&mut placed);
                },
                Token::Identifier(name) => {
                    if *name == *binder {
                        let copy = replacement.clone();
                        proof {
                            lemma_models_push(step@, copy);
                        }
                        step.push(copy);
                    } else {
                        held = Held::SawIdentifier(name.clone());
                    }
                },
                Token::Punctuation { symbol, joint } => {
                    if *symbol == '#' {
                        let error = error_at(FusionFault::NoIdentBeforeHash, i);
                        proof {
                            lemma_error_models_push(found@, error);
                        }
                        found.push(error);
                    } else {
                        let copy = Token::Punctuation { symbol: *symbol, joint: *joint };
                        proof {
                            lemma_models_push(step@, copy);
                        }
                        step.push(copy);
                    }
                },
                Token::Literal(value) => {
                    let copy = Token::Literal(value.clone());
                    proof {
                        lemma_models_push(step@, copy);
                    }
                    step.push(copy);
                },
            }
        }
        proof {
            let piece = emitted(before, token@, binder@, replacement@, inner);
            let blame = faults(before, token@, binder@, i as int) + inner_errors;
            let after = next_held(before, token@, binder@);
            assert(models(step@) =~= piece);
            assert(error_models(found@) =~= blame);
            assert(held@ == after);
            crate::token::lemma_models_concat(out@, step@);
            assert(error_models(errors@ + found@) =~= seen + blame);
            assert(done + piece + substituted_from(model, binder@, replacement@, after, i + 1)
                =~= done + substituted_from(model, binder@, replacement@, before, i as int));
            assert(seen + blame + fusion_errors_from(model, binder@, after, i + 1) =~= seen
                + fusion_errors_from(model, binder@, before, i as int));
        }
        out.append(&mut step);
        errors.append(&mut found);
        i += 1;
    }
    match held {
        Held::SawIdentifier(name) => {
            let last = Token::Identifier(name);
            proof {
                lemma_models_push(out@, last);
            }
            out.push(last);
        },
        Held::SawIdentifierHash(_) => {
            let error = error_at(FusionFault::NoIdentAfterHash, i - 2);
            proof {
                lemma_error_models_push(errors@, error);
            }
            errors.push(error);
        },
        Held::Idle => {},
    }
    assert(models(out@) =~= substituted(model, binder@, replacement@));
    assert(error_models(errors@) =~= fusion_errors(model, binder@));
    Substitution { tokens: out, errors }
}

/// Whether the identifier `binder` occurs in `tokens[from..]`, at any depth.
pub open spec fn mentions_from(tokens: Seq<TokenModel>, binder: Seq<char>, from: int) -> bool
    decreases tokens, tokens.len() - from,
{
    if 0 <= from < tokens.len() {
        let here = match tokens[from] {
            TokenModel::Identifier(name) => name == binder,
            TokenModel::Group(_, content) => mentions_from(content, binder, 0),
            _ => false,
        };
        here || mentions_from(tokens, binder, from + 1)
    } else {
        false
    }
}

/// Whether the identifier `binder` occurs in `tokens`, at any depth.
pub open spec fn mentions(tokens: Seq<TokenModel>, binder: Seq<char>) -> bool {
    mentions_from(tokens, binder, 0)
}

/// How many tokens a substitution puts out does not depend on what the
/// binder is replaced by, whatever is held and wherever the walk stands.
proof fn lemma_length_from(
    tokens: Seq<TokenModel>,
    binder: Seq<char>,
    first: TokenModel,
    second: TokenModel,
    held: Lookbehind,
    from: int,
)
    ensures
        substituted_from(tokens, binder, first, held, from).len() == substituted_from(
            tokens,
            binder,
            second,
            held,
            from,
        ).len(),
    decreases tokens.len() - from,
{
    if 0 <= from < tokens.len() {
        lemma_length_from(
            tokens,
            binder,
            first,
            second,
            next_held(held, tokens[from], binder),
            from + 1,
        );
    }
}

/// The number of tokens that a substitution puts out is the same for every
/// replacement.
pub proof fn law_length_ignores_replacement(
    tokens: Seq<TokenModel>,
    binder: Seq<char>,
    first: TokenModel,
    second: TokenModel,
)
    ensures
        substituted(tokens, binder, first).len() == substituted(tokens, binder, second).len(),
{
    lemma_length_from(tokens, binder, first, second, Lookbehind::Idle, 0);
}

/// A held `name #` that the binder does not follow is always reported.
proof fn lemma_unfused_is_reported(
    tokens: Seq<TokenModel>,
    binder: Seq<char>,
    name: Seq<char>,
    from: int,
)
    requires
        !mentions_from(tokens, binder, from),
    ensures
        fusion_errors_from(tokens, binder, Lookbehind::SawIdentifierHash(name), from).len() > 0,
{
}

/// Without binder and without malformed fusion, the walk from `from` on puts
/// out what is held and then the tokens as they stand.
proof fn lemma_identity_from(
    tokens: Seq<TokenModel>,
    binder: Seq<char>,
    replacement: TokenModel,
    held: Lookbehind,
    from: int,
)
    requires
        0 <= from <= tokens.len(),
        !mentions_from(tokens, binder, from),
        fusion_errors_from(tokens, binder, held, from).len() == 0,
    ensures
        substituted_from(tokens, binder, replacement, held, from) == trailing(held)
            + tokens.subrange(from, tokens.len() as int),
    decreases tokens, tokens.len() - from,
{
    let rest = tokens.subrange(from, tokens.len() as int);
    if from < tokens.len() {
        let token = tokens[from];
        let after = next_held(held, token, binder);
        let later = tokens.subrange(from + 1, tokens.len() as int);
        assert(rest =~= seq![token] + later);
        if after is SawIdentifierHash {
            lemma_unfused_is_reported(tokens, binder, after->SawIdentifierHash_0, from + 1);
        }
        lemma_identity_from(tokens, binder, replacement, after, from + 1);
        match token {
            TokenModel::Group(delimiter, content) => {
                let inner = fusion_errors_from(content, binder, Lookbehind::Idle, 0);
                assert(all_under(inner, from as nat).len() == inner.len());
                lemma_identity_from(content, binder, replacement, Lookbehind::Idle, 0);
                assert(content.subrange(0, content.len() as int) =~= content);
                assert(substituted_from(content, binder, replacement, Lookbehind::Idle, 0)
                    =~= content);
            },
            _ => {},
        }
        assert(substituted_from(tokens, binder, replacement, held, from) =~= trailing(held) + rest);
    } else {
        assert(rest =~= Seq::<TokenModel>::empty());
        assert(trailing(held) + rest =~= trailing(held));
    }
}

/// Substituting a binder that occurs nowhere returns the tokens unchanged,
/// where they hold no malformed fusion.
///
/// A `#` that fuses nothing is left out of the output, whether or not the
/// binder occurs: such tokens are not returned unchanged, and the law does
/// not speak of them.
pub proof fn law_identity_substitution(
    tokens: Seq<TokenModel>,
    binder: Seq<char>,
    replacement: TokenModel,
)
    requires
        !mentions(tokens, binder),
        fusion_errors(tokens, binder).len() == 0,
    ensures
        substituted(tokens, binder, replacement) == tokens,
{
    lemma_identity_from(tokens, binder, replacement, Lookbehind::Idle, 0);
    assert(tokens.subrange(0, tokens.len() as int) =~= tokens);
    assert(trailing(Lookbehind::Idle) + tokens =~= tokens);
}

/// `name # binder` becomes the one identifier whose name is `name` followed
/// by the textual form of the replacement, whatever the spacing of the `#`.
pub proof fn law_fusion(
    name: Seq<char>,
    joint: bool,
    binder: Seq<char>,
    replacement: TokenModel,
)
    requires
        name != binder,
    ensures
        substituted(
            seq![
                TokenModel::Identifier(name),
                TokenModel::Punctuation('#', joint),
                TokenModel::Identifier(binder),
            ],
            binder,
            replacement,
        ) == seq![TokenModel::Identifier(name + replacement.text())],
        fusion_errors(
            seq![
                TokenModel::Identifier(name),
                TokenModel::Punctuation('#', joint),
                TokenModel::Identifier(binder),
            ],
            binder,
        ) == Seq::<FusionErrorModel>::empty(),
{
    let tokens = seq![
        TokenModel::Identifier(name),
        TokenModel::Punctuation('#', joint),
        TokenModel::Identifier(binder),
    ];
    reveal_with_fuel(substituted_from, 4);
    reveal_with_fuel(fusion_errors_from, 4);
    assert(substituted(tokens, binder, replacement) =~= seq![
        TokenModel::Identifier(name + replacement.text()),
    ]);
    assert(fusion_errors(tokens, binder) =~= Seq::<FusionErrorModel>::empty());
}

/// The sequence in which the last index of `path` counts: `tokens` itself for
/// a path of one index, else the content of the groups that the indices
/// before the last lead through. `None` where the path leads nowhere.
pub open spec fn level_at(tokens: Seq<TokenModel>, path: Seq<nat>) -> Option<Seq<TokenModel>>
    decreases path.len(),
{
    if path.len() == 0 {
        None
    } else if path.len() == 1 {
        Some(tokens)
    } else if path[0] < tokens.len() {
        match tokens[path[0] as int] {
            TokenModel::Group(_, content) => level_at(content, path.drop_first()),
            _ => None,
        }
    } else {
        None
    }
}

/// Whether `error` is reported at a token of `tokens` that shows its fault:
/// a bare `#` at the `#`; a mismatch at the identifier that is not the
/// binder, after a name and a `#`; a missing identifier at the name that the
/// `#` follows.
pub open spec fn points_at_fault(
    tokens: Seq<TokenModel>,
    binder: Seq<char>,
    error: FusionErrorModel,
) -> bool {
    match level_at(tokens, error.path) {
        Some(level) => {
            let at = error.path.last() as int;
            &&& at < level.len()
            &&& match error.fault {
                FusionFault::NoIdentBeforeHash => is_hash(level[at]),
                FusionFault::MismatchedIdent => {
                    &&& level[at] is Identifier
                    &&& level[at]->Identifier_0 != binder
                    &&& at >= 2
                    &&& is_hash(level[at - 1])
                    &&& level[at - 2] is Identifier
                },
                FusionFault::NoIdentAfterHash => {
                    &&& level[at] is Identifier
                    &&& at + 1 < level.len()
                    &&& is_hash(level[at + 1])
                },
            }
        },
        None => false,
    }
}

/// Whether what is held in front of `from` is what stands there.
pub open spec fn held_fits(tokens: Seq<TokenModel>, held: Lookbehind, from: int) -> bool {
    match held {
        Lookbehind::Idle => true,
        Lookbehind::SawIdentifier(name) => from >= 1 && tokens[from - 1] == TokenModel::Identifier(
            name,
        ),
        Lookbehind::SawIdentifierHash(name) => {
            &&& from >= 2
            &&& tokens[from - 2] == TokenModel::Identifier(name)
            &&& is_hash(tokens[from - 1])
        },
    }
}

/// Every error of the walk from `from` on is reported at a token that shows
/// its fault.
proof fn lemma_errors_point_from(
    tokens: Seq<TokenModel>,
    binder: Seq<char>,
    held: Lookbehind,
    from: int,
)
    requires
        0 <= from <= tokens.len(),
        held_fits(tokens, held, from),
    ensures
        forall|k: int|
            0 <= k < fusion_errors_from(tokens, binder, held, from).len() ==> points_at_fault(
                tokens,
                binder,
                #[trigger] fusion_errors_from(tokens, binder, held, from)[k],
            ),
    decreases tokens, tokens.len() - from,
{
    reveal_with_fuel(level_at, 2);
    let errors = fusion_errors_from(tokens, binder, held, from);
    if from < tokens.len() {
        let token = tokens[from];
        let own = faults(held, token, binder, from);
        let nested = match token {
            TokenModel::Group(_, content) => fusion_errors_from(
                content,
                binder,
                Lookbehind::Idle,
                0,
            ),
            _ => Seq::empty(),
        };
        let inner = match token {
            TokenModel::Group(_, content) => all_under(nested, from as nat),
            _ => Seq::empty(),
        };
        let after = next_held(held, token, binder);
        let rest = fusion_errors_from(tokens, binder, after, from + 1);
        lemma_errors_point_from(tokens, binder, after, from + 1);
        match token {
            TokenModel::Group(_, content) => {
                lemma_errors_point_from(content, binder, Lookbehind::Idle, 0);
            },
            _ => {},
        }
        assert(errors == own + inner + rest);
        assert forall|k: int| 0 <= k < errors.len() implies points_at_fault(
            tokens,
            binder,
            #[trigger] errors[k],
        ) by {
            if k < own.len() {
                assert(errors[k] == own[k]);
                assert(level_at(tokens, own[k].path) == Some(tokens));
            } else if k < own.len() + inner.len() {
                let j = k - own.len();
                assert(errors[k] == inner[j]);
                let below = nested[j];
                assert(inner[j] == below.under(from as nat));
                assert(points_at_fault(token.content(), binder, below));
                assert(inner[j].path.drop_first() =~= below.path);
                assert(inner[j].path.last() == below.path.last());
                assert(level_at(tokens, inner[j].path) == level_at(
                    token.content(),
                    below.path,
                ));
            } else {
                assert(errors[k] == rest[k - own.len() - inner.len()]);
            }
        }
    } else {
        assert forall|k: int| 0 <= k < errors.len() implies points_at_fault(
            tokens,
            binder,
            #[trigger] errors[k],
        ) by {
            assert(level_at(tokens, errors[k].path) == Some(tokens));
        }
    }
}

/// Every malformed fusion is reported at a token of the input that shows
/// it: the path of the error leads to that token through the groups around
/// it.
pub proof fn law_errors_point_at_tokens(tokens: Seq<TokenModel>, binder: Seq<char>)
    ensures
        forall|k: int|
            0 <= k < fusion_errors(tokens, binder).len() ==> points_at_fault(
                tokens,
                binder,
                #[trigger] fusion_errors(tokens, binder)[k],
            ),
{
    lemma_errors_point_from(tokens, binder, Lookbehind::Idle, 0);
}

} // verus!
