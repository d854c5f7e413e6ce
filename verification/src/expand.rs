//! Producing the output of a classified body over a range of values.

use vstd::prelude::*;
use crate::classify::{
    Classification, ClassificationModel, Marked, MarkedModel, MarkedRegion, MarkedRegionModel,
};
use crate::lexeme::{decimal_text, literal_token};
use crate::substitute::{
    FusionError, FusionErrorModel, substitute, substituted, fusion_errors, error_models, all_under,
    place_under, mentions, law_identity_substitution, law_length_ignores_replacement,
};
use crate::token::{Token, TokenModel, models, clone_tokens, lemma_models_concat, lemma_models_push};

verus! {

/// What an expansion gives: the output, and the malformed fusions met while
/// producing it.
#[derive(Debug, PartialEq, Eq)]
pub struct Expansion {
    pub tokens: Vec<Token>,
    pub errors: Vec<FusionError>,
}

/// The literal that stands for `value`.
pub open spec fn literal_model(value: int) -> TokenModel {
    TokenModel::Literal(decimal_text(value))
}

/// One copy of `unit` for each value of `low..high`, in ascending order, with
/// the binder replaced by the value. Nothing when `high <= low`.
pub open spec fn replicated(unit: Seq<TokenModel>, binder: Seq<char>, low: int, high: int) -> Seq<
    TokenModel,
>
    decreases high - low,
{
    if high <= low {
        Seq::empty()
    } else {
        replicated(unit, binder, low, high - 1) + substituted(unit, binder, literal_model(high - 1))
    }
}

/// The malformed fusions of `unit`, once for each value of `low..high`.
pub open spec fn replicated_errors(unit: Seq<TokenModel>, binder: Seq<char>, low: int, high: int) -> Seq<
    FusionErrorModel,
>
    decreases high - low,
{
    if high <= low {
        Seq::empty()
    } else {
        replicated_errors(unit, binder, low, high - 1) + fusion_errors(unit, binder)
    }
}

/// The output of a marked body: its prefix once, its marked region expanded,
/// its suffix once. A marker's content is repeated over the range; a group
/// that holds the marker is emitted once around the expansion of its content.
pub open spec fn expanded_marked(marked: MarkedModel, binder: Seq<char>, low: int, high: int) -> Seq<
    TokenModel,
>
    decreases marked,
{
    let region = match marked.region {
        MarkedRegionModel::Direct(unit) => replicated(unit, binder, low, high),
        MarkedRegionModel::Nested(delimiter, inner) => seq![
            TokenModel::Group(delimiter, expanded_marked(*inner, binder, low, high)),
        ],
    };
    marked.prefix + region + marked.suffix
}

/// The malformed fusions met while expanding a marked body. Their paths
/// start at the body: they lead through the index that follows the prefix,
/// where the marker's `#` or the group that holds the marker stands.
pub open spec fn marked_errors(marked: MarkedModel, binder: Seq<char>, low: int, high: int) -> Seq<
    FusionErrorModel,
>
    decreases marked,
{
    let inner = match marked.region {
        MarkedRegionModel::Direct(unit) => replicated_errors(unit, binder, low, high),
        MarkedRegionModel::Nested(_, inner) => marked_errors(*inner, binder, low, high),
    };
    all_under(inner, marked.prefix.len())
}

/// The output of a classified body over `low..high`.
pub open spec fn expanded(class: ClassificationModel, binder: Seq<char>, low: int, high: int) -> Seq<
    TokenModel,
> {
    match class {
        ClassificationModel::FullReplicate(body) => replicated(body, binder, low, high),
        ClassificationModel::PartiallyMarked(marked) => expanded_marked(marked, binder, low, high),
    }
}

/// The malformed fusions met while expanding a classified body over
/// `low..high`.
pub open spec fn expansion_errors(class: ClassificationModel, binder: Seq<char>, low: int, high: int) -> Seq<
    FusionErrorModel,
> {
    match class {
        ClassificationModel::FullReplicate(body) => replicated_errors(body, binder, low, high),
        ClassificationModel::PartiallyMarked(marked) => marked_errors(marked, binder, low, high),
    }
}

/// One copy of `unit` for each value of `low..high`.
fn replicate(unit: &Vec<Token>, binder: &str, low: i32, high: i32) -> (out: Expansion)
    ensures
        models(out.tokens@) == replicated(models(unit@), binder@, low as int, high as int),
        error_models(out.errors@) == replicated_errors(
            models(unit@),
            binder@,
            low as int,
            high as int,
        ),
{
    let mut tokens: Vec<Token> = Vec::new();
    let mut errors: Vec<FusionError> = Vec::new();
    let mut value: i32 = low;
    assert(models(tokens@) =~= Seq::<TokenModel>::empty());
    assert(error_models(errors@) =~= Seq::<FusionErrorModel>::empty());
    while value < high
        invariant
            low <= value,
            value <= high || value == low,
            models(tokens@) == replicated(models(unit@), binder@, low as int, value as int),
            error_models(errors@) == replicated_errors(
                models(unit@),
                binder@,
                low as int,
                value as int,
            ),
        decreases high - value,
    {
        let literal = literal_token(value);
        let mut copy = substitute(unit, binder, &literal);
        proof {
            lemma_models_concat(tokens@, copy.tokens@);
            assert(error_models(errors@ + copy.errors@) =~= error_models(errors@) + error_models(
                copy.errors@,
            ));
        }
        tokens.append(&mut copy.tokens);
        errors.append(&mut copy.errors);
        value += 1;
    }
    Expansion { tokens, errors }
}

/// The output of a marked body over `low..high`.
fn expand_marked(marked: &Marked, binder: &str, low: i32, high: i32) -> (out: Expansion)
    ensures
        models(out.tokens@) == expanded_marked(marked@, binder@, low as int, high as int),
        error_models(out.errors@) == marked_errors(marked@, binder@, low as int, high as int),
    decreases marked,
{
    let mut tokens = clone_tokens(&marked.prefix);
    let mut suffix = clone_tokens(&marked.suffix);
    let ghost prefix = models(tokens@);
    let errors = match &marked.region {
        MarkedRegion::Direct(unit) => {
            let mut copies = replicate(unit, binder, low, high);
            proof {
                lemma_models_concat(tokens@, copies.tokens@);
            }
            tokens.append(&mut copies.tokens);
            copies.errors
        },
        MarkedRegion::Nested { delimiter, inner } => {
            let nested = expand_marked(inner, binder, low, high);
            let group = Token::Group { delimiter: *delimiter, content: nested.tokens };
            proof {
                lemma_models_push(tokens@, group);
                assert(prefix.push(group@) =~= prefix + seq![group@]);
            }
            tokens.push(group);
            nested.errors
        },
    };
    proof {
        lemma_models_concat(tokens@, suffix@);
    }
    tokens.append(&mut suffix);
    let errors = place_under(&errors, marked.prefix.len());
    Expansion { tokens, errors }
}

/// Expands a classified body over the values of `low..high`, in ascending
/// order; an empty range gives an empty repetition and no error.
///
/// A body without marker is copied once per value, with `binder` replaced by
/// the value in each copy. A marked body has its prefix and suffix emitted
/// once, as they stand, and only its marked region repeated and substituted.
pub fn expand(class: &Classification, binder: &str, low: i32, high: i32) -> (out: Expansion)
    ensures
        models(out.tokens@) == expanded(class@, binder@, low as int, high as int),
        error_models(out.errors@) == expansion_errors(class@, binder@, low as int, high as int),
{
    match class {
        Classification::FullReplicate(body) => replicate(body, binder, low, high),
        Classification::PartiallyMarked(marked) => expand_marked(marked, binder, low, high),
    }
}

/// `times` copies of `unit`, one after the other.
pub open spec fn copies(unit: Seq<TokenModel>, times: int) -> Seq<TokenModel>
    decreases times,
{
    if times <= 0 {
        Seq::empty()
    } else {
        copies(unit, times - 1) + unit
    }
}

/// How many values `low..high` holds.
pub open spec fn range_len(low: int, high: int) -> int {
    if low <= high {
        high - low
    } else {
        0
    }
}

/// A repetition is as long as the range times one substituted copy.
proof fn lemma_replicated_len(
    unit: Seq<TokenModel>,
    binder: Seq<char>,
    low: int,
    high: int,
    replacement: TokenModel,
)
    ensures
        replicated(unit, binder, low, high).len() == range_len(low, high) * substituted(
            unit,
            binder,
            replacement,
        ).len(),
    decreases high - low,
{
    let one = substituted(unit, binder, replacement).len() as int;
    if low < high {
        lemma_replicated_len(unit, binder, low, high - 1, replacement);
        law_length_ignores_replacement(unit, binder, literal_model(high - 1), replacement);
        assert((high - low) * one == (high - 1 - low) * one + one) by (nonlinear_arith);
    } else {
        assert(range_len(low, high) * one == 0) by (nonlinear_arith)
            requires
                range_len(low, high) == 0,
        ;
    }
}

/// The output of a body without marker grows linearly with the size of the
/// range: it holds as many tokens as one substituted copy, times the number
/// of values. An empty range gives an empty output.
pub proof fn law_range_size(
    body: Seq<TokenModel>,
    binder: Seq<char>,
    low: int,
    high: int,
    replacement: TokenModel,
)
    ensures
        low <= high ==> expanded(ClassificationModel::FullReplicate(body), binder, low, high).len()
            == (high - low) * substituted(body, binder, replacement).len(),
        high <= low ==> expanded(ClassificationModel::FullReplicate(body), binder, low, high)
            == Seq::<TokenModel>::empty(),
{
    lemma_replicated_len(body, binder, low, high, replacement);
}

/// A body without marker, in which the binder occurs nowhere, expands to
/// one unchanged copy of itself per value of the range.
///
/// The law leaves out the bodies that hold a malformed fusion: their
/// malformed tokens are left out of every copy.
pub proof fn law_verbatim_copies(body: Seq<TokenModel>, binder: Seq<char>, low: int, high: int)
    requires
        !mentions(body, binder),
        fusion_errors(body, binder).len() == 0,
    ensures
        expanded(ClassificationModel::FullReplicate(body), binder, low, high) == copies(
            body,
            high - low,
        ),
    decreases high - low,
{
    if low < high {
        law_verbatim_copies(body, binder, low, high - 1);
        law_identity_substitution(body, binder, literal_model(high - 1));
    }
}

/// In the output of a marked body the prefix and the suffix stand exactly
/// once, at the start and at the end, whatever the size of the range. Between
/// them stands the marked region: the copies of a marker's content, as many
/// tokens as one substituted copy times the number of values, or the one
/// group that holds the marker.
pub proof fn law_single_repeat(
    marked: MarkedModel,
    binder: Seq<char>,
    low: int,
    high: int,
    replacement: TokenModel,
)
    ensures
        ({
            let out = expanded(ClassificationModel::PartiallyMarked(marked), binder, low, high);
            let between = out.len() - marked.prefix.len() - marked.suffix.len();
            &&& out.subrange(0, marked.prefix.len() as int) == marked.prefix
            &&& out.subrange(out.len() - marked.suffix.len(), out.len() as int) == marked.suffix
            &&& match marked.region {
                MarkedRegionModel::Direct(unit) => {
                    &&& between == range_len(low, high) * substituted(
                        unit,
                        binder,
                        replacement,
                    ).len()
                    &&& out.subrange(marked.prefix.len() as int, out.len() - marked.suffix.len())
                        == replicated(unit, binder, low, high)
                },
                MarkedRegionModel::Nested(delimiter, inner) => {
                    &&& between == 1
                    &&& out[marked.prefix.len() as int] == TokenModel::Group(
                        delimiter,
                        expanded_marked(*inner, binder, low, high),
                    )
                },
            }
        }),
{
    let out = expanded(ClassificationModel::PartiallyMarked(marked), binder, low, high);
    match marked.region {
        MarkedRegionModel::Direct(unit) => {
            lemma_replicated_len(unit, binder, low, high, replacement);
            assert(out.subrange(marked.prefix.len() as int, out.len() - marked.suffix.len())
                =~= replicated(unit, binder, low, high));
        },
        MarkedRegionModel::Nested(delimiter, inner) => {},
    }
    assert(out.subrange(0, marked.prefix.len() as int) =~= marked.prefix);
    assert(out.subrange(out.len() - marked.suffix.len(), out.len() as int) =~= marked.suffix);
}

/// Over an empty range a marked body reports nothing.
proof fn lemma_empty_range_marked(marked: MarkedModel, binder: Seq<char>, low: int, high: int)
    requires
        high <= low,
    ensures
        marked_errors(marked, binder, low, high) == Seq::<FusionErrorModel>::empty(),
    decreases marked,
{
    match marked.region {
        MarkedRegionModel::Direct(unit) => {},
        MarkedRegionModel::Nested(_, inner) => {
            lemma_empty_range_marked(*inner, binder, low, high);
        },
    }
    assert(marked_errors(marked, binder, low, high) =~= Seq::<FusionErrorModel>::empty());
}

/// An empty range substitutes nothing, and so reports no malformed fusion,
/// whatever the body holds.
pub proof fn law_empty_range_is_silent(
    class: ClassificationModel,
    binder: Seq<char>,
    low: int,
    high: int,
)
    requires
        high <= low,
    ensures
        expansion_errors(class, binder, low, high) == Seq::<FusionErrorModel>::empty(),
{
    match class {
        ClassificationModel::FullReplicate(body) => {},
        ClassificationModel::PartiallyMarked(marked) => {
            lemma_empty_range_marked(marked, binder, low, high);
        },
    }
}

} // verus!
