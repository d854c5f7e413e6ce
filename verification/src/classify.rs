//! Finding the repeat marker `#( ... )*` of a body.
//!
//! A body without a marker is repeated as a whole. A body with a marker is
//! split at the first level at which the marker shows: what stands before is
//! emitted once, the marked region is repeated, what stands after is emitted
//! once. The marker may sit inside nested groups; each enclosing group then is
//! the marked region of its own level, and keeps the split of its content.
//!
//! A marker is a `#`, a group in parentheses and a `*`, one right after the
//! other: where the `*` is missing, the `#` and the group are plain tokens.
//! A level that holds a second marker after its first is refused as
//! ambiguous.

use vstd::prelude::*;
use crate::token::{Delimiter, Token, TokenModel, models, clone_tokens};
use crate::substitute::is_hash;

verus! {

/// The part of a marked body that is repeated.
#[derive(Debug, PartialEq, Eq)]
pub enum MarkedRegion {
    /// The content of a marker `#( content )*`, repeated once per value.
    Direct(Vec<Token>),
    /// A group whose content holds the marker: the group is emitted once, and
    /// the repetition happens inside it.
    Nested { delimiter: Delimiter, inner: Box<Marked> },
}

/// A body split around its marked region.
#[derive(Debug, PartialEq, Eq)]
pub struct Marked {
    /// The tokens before the marked region, emitted once.
    pub prefix: Vec<Token>,
    pub region: MarkedRegion,
    /// The tokens after the marked region, emitted once.
    pub suffix: Vec<Token>,
}

/// How a body is to be expanded.
#[derive(Debug, PartialEq, Eq)]
pub enum Classification {
    /// No marker anywhere: the whole body is repeated once per value.
    FullReplicate(Vec<Token>),
    /// A marker was found: only the marked region is repeated.
    PartiallyMarked(Marked),
}

/// A body holds more than one marker at the level of its first one.
#[derive(Clone, Copy, Debug, PartialEq, Eq, Structural)]
pub struct AmbiguousMarkerError;

/// The mathematical value of a [`MarkedRegion`].
pub enum MarkedRegionModel {
    Direct(Seq<TokenModel>),
    Nested(Delimiter, Box<MarkedModel>),
}

/// The mathematical value of a [`Marked`].
pub struct MarkedModel {
    pub prefix: Seq<TokenModel>,
    pub region: MarkedRegionModel,
    pub suffix: Seq<TokenModel>,
}

/// The mathematical value of a [`Classification`].
pub enum ClassificationModel {
    FullReplicate(Seq<TokenModel>),
    PartiallyMarked(MarkedModel),
}

impl View for Marked {
    type V = MarkedModel;

    open spec fn view(&self) -> MarkedModel
        decreases self,
    {
        MarkedModel {
            prefix: models(self.prefix@),
            region: match self.region {
                MarkedRegion::Direct(unit) => MarkedRegionModel::Direct(models(unit@)),
                MarkedRegion::Nested { delimiter, inner } => MarkedRegionModel::Nested(
                    delimiter,
                    Box::new((*inner).view()),
                ),
            },
            suffix: models(self.suffix@),
        }
    }
}

impl View for Classification {
    type V = ClassificationModel;

    open spec fn view(&self) -> ClassificationModel {
        match self {
            Classification::FullReplicate(body) => ClassificationModel::FullReplicate(
                models(body@),
            ),
            Classification::PartiallyMarked(marked) => ClassificationModel::PartiallyMarked(
                marked@,
            ),
        }
    }
}

/// Whether `token` is the punctuation `*`.
pub open spec fn is_star(token: TokenModel) -> bool {
    token matches TokenModel::Punctuation(symbol, _) && symbol == '*'
}

/// Whether a marker starts at `at`: a `#`, a parenthesized group and a `*`,
/// one right after the other.
pub open spec fn is_marker_at(tokens: Seq<TokenModel>, at: int) -> bool {
    &&& 0 <= at
    &&& at + 2 < tokens.len()
    &&& is_hash(tokens[at])
    &&& tokens[at + 1] matches TokenModel::Group(delimiter, _) && delimiter == Delimiter::Parenthesis
    &&& is_star(tokens[at + 2])
}

/// Whether a marker starts at `from` or later, at the level of `tokens`.
pub open spec fn has_marker_from(tokens: Seq<TokenModel>, from: int) -> bool {
    exists|at: int| from <= at && is_marker_at(tokens, at)
}

/// What a scan for the marker finds.
pub enum Scan {
    /// No marker at any depth.
    Unmarked,
    /// The split around the first marker.
    Marked(MarkedModel),
    /// A second marker follows the first at the same level.
    Ambiguous,
}

/// What the scan of `tokens` finds from `from` on, when nothing was found
/// before.
///
/// The scan goes left to right. A marker at `from` ends it: its content is
/// the marked region, unless another marker follows at this level. A group at
/// `from` is scanned first: if a marker is found in it, the group is the
/// marked region, and what follows it is not looked at; if it is ambiguous,
/// so is the whole. Any other token is passed over.
pub open spec fn scanned_from(tokens: Seq<TokenModel>, from: int) -> Scan
    decreases tokens, tokens.len() - from,
{
    if !(0 <= from < tokens.len()) {
        Scan::Unmarked
    } else if is_marker_at(tokens, from) {
        if has_marker_from(tokens, from + 3) {
            Scan::Ambiguous
        } else {
            Scan::Marked(
                MarkedModel {
                    prefix: tokens.subrange(0, from),
                    region: MarkedRegionModel::Direct(tokens[from + 1].content()),
                    suffix: tokens.subrange(from + 3, tokens.len() as int),
                },
            )
        }
    } else {
        match tokens[from] {
            TokenModel::Group(delimiter, content) => match scanned_from(content, 0) {
                Scan::Unmarked => scanned_from(tokens, from + 1),
                Scan::Marked(inner) => Scan::Marked(
                    MarkedModel {
                        prefix: tokens.subrange(0, from),
                        region: MarkedRegionModel::Nested(delimiter, Box::new(inner)),
                        suffix: tokens.subrange(from + 1, tokens.len() as int),
                    },
                ),
                Scan::Ambiguous => Scan::Ambiguous,
            },
            _ => scanned_from(tokens, from + 1),
        }
    }
}

/// The classification of `body`, or `None` where its marker is ambiguous.
pub open spec fn classification(body: Seq<TokenModel>) -> Option<ClassificationModel> {
    match scanned_from(body, 0) {
        Scan::Unmarked => Some(ClassificationModel::FullReplicate(body)),
        Scan::Marked(marked) => Some(ClassificationModel::PartiallyMarked(marked)),
        Scan::Ambiguous => None,
    }
}

/// A copy of `tokens[from..to]`.
fn copy_range(tokens: &Vec<Token>, from: usize, to: usize) -> (copy: Vec<Token>)
    requires
        from <= to <= tokens.len(),
    ensures
        models(copy@) == models(tokens@).subrange(from as int, to as int),
{
    let mut copy: Vec<Token> = Vec::new();
    let mut i: usize = from;
    while i < to
        invariant
            from <= i <= to <= tokens.len(),
            copy.len() == i - from,
            forall|k: int| 0 <= k < i - from ==> copy@[k]@ == tokens@[from + k]@,
        decreases to - i,
    {
        copy.push(tokens[i].clone());
        i += 1;
    }
    assert(models(copy@) =~= models(tokens@).subrange(from as int, to as int));
    copy
}

/// Whether a marker starts at `at`.
fn marker_at(tokens: &Vec<Token>, at: usize) -> (found: bool)
    ensures
        found == is_marker_at(models(tokens@), at as int),
{
    if at >= tokens.len() || tokens.len() - at <= 2 {
        return false;
    }
    let hash = match &tokens[at] {
        Token::Punctuation { symbol, joint: _ } => *symbol == '#',
        _ => false,
    };
    let group = match &tokens[at + 1] {
        Token::Group { delimiter, content: _ } => match delimiter {
            Delimiter::Parenthesis => true,
            _ => false,
        },
        _ => false,
    };
    let star = match &tokens[at + 2] {
        Token::Punctuation { symbol, joint: _ } => *symbol == '*',
        _ => false,
    };
    hash && group && star
}

/// Whether a marker starts at `from` or later.
fn marker_from(tokens: &Vec<Token>, from: usize) -> (found: bool)
    ensures
        found == has_marker_from(models(tokens@), from as int),
{
    let mut at: usize = from;
    while at < tokens.len()
        invariant
            from <= at,
            forall|k: int| from <= k < at ==> !is_marker_at(models(tokens@), k),
        decreases tokens.len() - at,
    {
        if marker_at(tokens, at) {
            return true;
        }
        at += 1;
    }
    false
}

/// The split of `tokens` around its first marker, if it has one.
fn scan(tokens: &Vec<Token>) -> (found: Result<Option<Marked>, AmbiguousMarkerError>)
    ensures
        match found {
            Ok(Some(marked)) => scanned_from(models(tokens@), 0) == Scan::Marked(marked@),
            Ok(None) => scanned_from(models(tokens@), 0) == Scan::Unmarked,
            Err(_) => scanned_from(models(tokens@), 0) == Scan::Ambiguous,
        },
    decreases tokens,
{
    let ghost model = models(tokens@);
    let mut i: usize = 0;
    while i < tokens.len()
        invariant
            i <= tokens.len(),
            model == models(tokens@),
            scanned_from(model, i as int) == scanned_from(model, 0),
        decreases tokens.len() - i,
    {
        assert(model[i as int] == tokens@[i as int]@);
        if marker_at(tokens, i) {
            if marker_from(tokens, i + 3) {
                return Err(AmbiguousMarkerError);
            }
            let unit = match &tokens[i + 1] {
                Token::Group { delimiter: _, content } => clone_tokens(content),
                _ => Vec::new(),
            };
            assert(model[i + 1] == tokens@[i + 1]@);
            let marked = Marked {
                prefix: copy_range(tokens, 0, i),
                region: MarkedRegion::Direct(unit),
                suffix: copy_range(tokens, i + 3, tokens.len()),
            };
            return Ok(Some(marked));
        }
        match &tokens[i] {
            Token::Group { delimiter, content } => {
                match scan(content) {
                    Err(error) => {
                        return Err(error);
                    },
                    Ok(Some(inner)) => {
                        let marked = Marked {
                            prefix: copy_range(tokens, 0, i),
                            region: MarkedRegion::Nested {
                                delimiter: *delimiter,
                                inner: Box::new(inner),
                            },
                            suffix: copy_range(tokens, i + 1, tokens.len()),
                        };
                        return Ok(Some(marked));
                    },
                    Ok(None) => {},
                }
            },
            _ => {},
        }
        i += 1;
    }
    Ok(None)
}

/// Classifies `body`: repeated as a whole, or split around its first marker.
///
/// The first marker in reading order decides: at each level the leftmost
/// marker, or else the leftmost group that holds one. A level with a second
/// marker after its first is refused.
pub fn classify(body: &Vec<Token>) -> (found: Result<Classification, AmbiguousMarkerError>)
    ensures
        match found {
            Ok(class) => classification(models(body@)) == Some(class@),
            Err(_) => classification(models(body@)) is None,
        },
{
    match scan(body) {
        Ok(Some(marked)) => Ok(Classification::PartiallyMarked(marked)),
        Ok(None) => Ok(Classification::FullReplicate(clone_tokens(body))),
        Err(error) => Err(error),
    }
}

/// A scan that finds nothing in `prefix` passes it over when more tokens
/// follow, unless a marker starts in its last two tokens and ends in what
/// follows.
proof fn lemma_scan_passes_prefix(prefix: Seq<TokenModel>, rest: Seq<TokenModel>, from: int)
    requires
        0 <= from <= prefix.len(),
        scanned_from(prefix, from) is Unmarked,
        !is_marker_at(prefix + rest, prefix.len() - 2),
        !is_marker_at(prefix + rest, prefix.len() - 1),
    ensures
        scanned_from(prefix + rest, from) == scanned_from(prefix + rest, prefix.len() as int),
    decreases prefix.len() - from,
{
    let whole = prefix + rest;
    if from < prefix.len() {
        assert(whole[from] == prefix[from]);
        if from + 2 < prefix.len() {
            assert(whole[from + 1] == prefix[from + 1]);
            assert(whole[from + 2] == prefix[from + 2]);
        }
        assert(!is_marker_at(whole, from));
        lemma_scan_passes_prefix(prefix, rest, from + 1);
    }
}

/// A split tells where it was made. The prefix is what stands before the
/// marked region and the suffix what stands after it; a repeated content is
/// that of a marker that starts right after the prefix; a group that holds
/// the marker stands right after the prefix, and its split is that of its
/// content.
pub proof fn law_split_is_faithful(tokens: Seq<TokenModel>, from: int, marked: MarkedModel)
    requires
        0 <= from,
        scanned_from(tokens, from) == Scan::Marked(marked),
    ensures
        ({
            let at = marked.prefix.len() as int;
            &&& from <= at < tokens.len()
            &&& marked.prefix == tokens.subrange(0, at)
            &&& match marked.region {
                MarkedRegionModel::Direct(unit) => {
                    &&& is_marker_at(tokens, at)
                    &&& unit == tokens[at + 1].content()
                    &&& marked.suffix == tokens.subrange(at + 3, tokens.len() as int)
                },
                MarkedRegionModel::Nested(delimiter, inner) => {
                    &&& tokens[at] is Group
                    &&& tokens[at]->Group_0 == delimiter
                    &&& scanned_from(tokens[at]->Group_1, 0) == Scan::Marked(*inner)
                    &&& marked.suffix == tokens.subrange(at + 1, tokens.len() as int)
                },
            }
        }),
    decreases tokens.len() - from,
{
    if from < tokens.len() {
        if is_marker_at(tokens, from) {
        } else {
            match tokens[from] {
                TokenModel::Group(delimiter, content) => {
                    if scanned_from(content, 0) is Unmarked {
                        law_split_is_faithful(tokens, from + 1, marked);
                    }
                },
                _ => {
                    law_split_is_faithful(tokens, from + 1, marked);
                },
            }
        }
    }
}

/// A marker splits its level: among siblings that hold no marker, the
/// tokens before it are the prefix, its content is the repeated region, and
/// the tokens after it are the suffix.
pub proof fn law_marker_splits(
    prefix: Seq<TokenModel>,
    hash_joint: bool,
    unit: Seq<TokenModel>,
    star_joint: bool,
    suffix: Seq<TokenModel>,
)
    requires
        scanned_from(prefix, 0) is Unmarked,
        !has_marker_from(suffix, 0),
    ensures
        scanned_from(
            prefix + seq![
                TokenModel::Punctuation('#', hash_joint),
                TokenModel::Group(Delimiter::Parenthesis, unit),
                TokenModel::Punctuation('*', star_joint),
            ] + suffix,
            0,
        ) == Scan::Marked(
            MarkedModel { prefix, region: MarkedRegionModel::Direct(unit), suffix },
        ),
{
    let marker = seq![
        TokenModel::Punctuation('#', hash_joint),
        TokenModel::Group(Delimiter::Parenthesis, unit),
        TokenModel::Punctuation('*', star_joint),
    ];
    let whole = prefix + marker + suffix;
    let at = prefix.len() as int;
    assert(whole =~= prefix + (marker + suffix));
    assert(whole[at] == marker[0]);
    assert(whole[at + 1] == marker[1]);
    assert(whole[at + 2] == marker[2]);
    lemma_scan_passes_prefix(prefix, marker + suffix, 0);
    assert(is_marker_at(whole, at));
    assert forall|later: int| at + 3 <= later implies !is_marker_at(whole, later) by {
        if later + 2 < whole.len() {
            assert(whole[later] == suffix[later - at - 3]);
            assert(whole[later + 1] == suffix[later - at - 2]);
            assert(whole[later + 2] == suffix[later - at - 1]);
            assert(!is_marker_at(suffix, later - at - 3));
        }
    }
    assert(whole.subrange(0, at) =~= prefix);
    assert(whole.subrange(at + 3, whole.len() as int) =~= suffix);
}

/// A marker inside a group makes the group the marked region of the level
/// around it: among siblings that hold no marker, the tokens before the
/// group are the prefix, the tokens after it the suffix, and the split of its
/// content is kept.
///
/// The group must not itself be the parenthesis of a marker of its level,
/// between a `#` and a `*`: then its content is repeated as it stands.
pub proof fn law_marker_propagates(
    prefix: Seq<TokenModel>,
    delimiter: Delimiter,
    content: Seq<TokenModel>,
    inner: MarkedModel,
    suffix: Seq<TokenModel>,
)
    requires
        scanned_from(prefix, 0) is Unmarked,
        scanned_from(content, 0) == Scan::Marked(inner),
        !is_marker_at(
            prefix + seq![TokenModel::Group(delimiter, content)] + suffix,
            prefix.len() - 1,
        ),
    ensures
        scanned_from(prefix + seq![TokenModel::Group(delimiter, content)] + suffix, 0)
            == Scan::Marked(
            MarkedModel {
                prefix,
                region: MarkedRegionModel::Nested(delimiter, Box::new(inner)),
                suffix,
            },
        ),
{
    let group = seq![TokenModel::Group(delimiter, content)];
    let whole = prefix + group + suffix;
    let at = prefix.len() as int;
    assert(whole =~= prefix + (group + suffix));
    assert(whole[at] == group[0]);
    lemma_scan_passes_prefix(prefix, group + suffix, 0);
    assert(whole.subrange(0, at) =~= prefix);
    assert(whole.subrange(at + 1, whole.len() as int) =~= suffix);
}

/// A marker inside a doubly nested group makes both enclosing levels
/// marked: each level has the group that holds the marker as its marked
/// region, and the siblings of that group, which hold no marker, as its
/// prefix and suffix.
pub proof fn law_nested_marker_propagates(
    outer_prefix: Seq<TokenModel>,
    outer: Delimiter,
    middle_prefix: Seq<TokenModel>,
    middle: Delimiter,
    inner_prefix: Seq<TokenModel>,
    hash_joint: bool,
    unit: Seq<TokenModel>,
    star_joint: bool,
    inner_suffix: Seq<TokenModel>,
    middle_suffix: Seq<TokenModel>,
    outer_suffix: Seq<TokenModel>,
)
    requires
        scanned_from(outer_prefix, 0) is Unmarked,
        scanned_from(middle_prefix, 0) is Unmarked,
        scanned_from(inner_prefix, 0) is Unmarked,
        !has_marker_from(inner_suffix, 0),
        !(middle == Delimiter::Parenthesis && middle_prefix.len() > 0 && is_hash(
            middle_prefix.last(),
        ) && middle_suffix.len() > 0 && is_star(middle_suffix[0])),
        !(outer == Delimiter::Parenthesis && outer_prefix.len() > 0 && is_hash(
            outer_prefix.last(),
        ) && outer_suffix.len() > 0 && is_star(outer_suffix[0])),
    ensures
        ({
            let innermost = inner_prefix + seq![
                TokenModel::Punctuation('#', hash_joint),
                TokenModel::Group(Delimiter::Parenthesis, unit),
                TokenModel::Punctuation('*', star_joint),
            ] + inner_suffix;
            let between = middle_prefix + seq![TokenModel::Group(middle, innermost)]
                + middle_suffix;
            let body = outer_prefix + seq![TokenModel::Group(outer, between)] + outer_suffix;
            classification(body) == Some(
                ClassificationModel::PartiallyMarked(
                    MarkedModel {
                        prefix: outer_prefix,
                        region: MarkedRegionModel::Nested(
                            outer,
                            Box::new(
                                MarkedModel {
                                    prefix: middle_prefix,
                                    region: MarkedRegionModel::Nested(
                                        middle,
                                        Box::new(
                                            MarkedModel {
                                                prefix: inner_prefix,
                                                region: MarkedRegionModel::Direct(unit),
                                                suffix: inner_suffix,
                                            },
                                        ),
                                    ),
                                    suffix: middle_suffix,
                                },
                            ),
                        ),
                        suffix: outer_suffix,
                    },
                ),
            )
        }),
{
    let innermost = inner_prefix + seq![
        TokenModel::Punctuation('#', hash_joint),
        TokenModel::Group(Delimiter::Parenthesis, unit),
        TokenModel::Punctuation('*', star_joint),
    ] + inner_suffix;
    let between = middle_prefix + seq![TokenModel::Group(middle, innermost)] + middle_suffix;
    let body = outer_prefix + seq![TokenModel::Group(outer, between)] + outer_suffix;
    let lowest = MarkedModel {
        prefix: inner_prefix,
        region: MarkedRegionModel::Direct(unit),
        suffix: inner_suffix,
    };
    let halfway = MarkedModel {
        prefix: middle_prefix,
        region: MarkedRegionModel::Nested(middle, Box::new(lowest)),
        suffix: middle_suffix,
    };
    law_marker_splits(inner_prefix, hash_joint, unit, star_joint, inner_suffix);
    law_marker_propagates(middle_prefix, middle, innermost, lowest, middle_suffix);
    law_marker_propagates(outer_prefix, outer, between, halfway, outer_suffix);
}

} // verus!
