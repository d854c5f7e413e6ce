use std::str::FromStr;

use seq_expand::classify::{classify, AmbiguousMarkerError, Classification, Marked, MarkedRegion};
use seq_expand::expand::expand;
use seq_expand::invocation::{ExpandError, Invocation, SyntaxError};
use seq_expand::substitute::{substitute, FusionError, FusionFault};
use seq_expand::token::{Delimiter, Token};

fn convert(stream: proc_macro2::TokenStream) -> Vec<Token> {
    let mut tokens = Vec::new();
    for tree in stream {
        tokens.push(match tree {
            proc_macro2::TokenTree::Group(group) => Token::Group {
                delimiter: match group.delimiter() {
                    proc_macro2::Delimiter::Parenthesis => Delimiter::Parenthesis,
                    proc_macro2::Delimiter::Bracket => Delimiter::Bracket,
                    proc_macro2::Delimiter::Brace => Delimiter::Brace,
                    proc_macro2::Delimiter::None => Delimiter::Implicit,
                },
                content: convert(group.stream()),
            },
            proc_macro2::TokenTree::Ident(ident) => Token::Identifier(ident.to_string()),
            proc_macro2::TokenTree::Punct(punct) => Token::Punctuation {
                symbol: punct.as_char(),
                joint: punct.spacing() == proc_macro2::Spacing::Joint,
            },
            proc_macro2::TokenTree::Literal(literal) => Token::Literal(literal.to_string()),
        });
    }
    tokens
}

fn lex(source: &str) -> Vec<Token> {
    convert(proc_macro2::TokenStream::from_str(source).unwrap())
}

fn error(fault: FusionFault, path: Vec<usize>) -> FusionError {
    FusionError { fault, path }
}

#[test]
fn functions_are_repeated_over_the_range() {
    let out = seq_expand::invocation::seq(&lex("N in 0..3 { fn f#N() {} }")).unwrap();
    assert_eq!(out.tokens, lex("fn f0() {} fn f1() {} fn f2() {}"));
    assert!(out.errors.is_empty());
}

#[test]
fn marked_list_is_repeated_between_prefix_and_suffix() {
    let out =
        seq_expand::invocation::seq(&lex("N in 0..3 { before; #( item#N, )* after; }")).unwrap();
    assert_eq!(out.tokens, lex("before; item0, item1, item2, after;"));
    assert!(out.errors.is_empty());
}

#[test]
fn empty_range_gives_empty_output() {
    let out = seq_expand::invocation::seq(&lex("N in 5..5 { X#N }")).unwrap();
    assert_eq!(out.tokens, Vec::<Token>::new());
    assert!(out.errors.is_empty());
}

#[test]
fn reversed_range_gives_empty_output() {
    let out = seq_expand::invocation::seq(&lex("N in 5..3 { X#N }")).unwrap();
    assert!(out.tokens.is_empty());
    assert!(out.errors.is_empty());
}

#[test]
fn hash_without_identifier_is_reported_at_its_place() {
    let out = substitute(&lex("# X"), "N", &Token::literal("0"));
    assert_eq!(out.errors, vec![error(FusionFault::NoIdentBeforeHash, vec![0])]);
    assert_eq!(out.tokens, lex("X"));
}

#[test]
fn malformed_fusion_does_not_stop_the_expansion() {
    let out = seq_expand::invocation::seq(&lex("N in 0..2 { a; # X; b#N }")).unwrap();
    assert_eq!(out.tokens, lex("a; X; b0 a; X; b1"));
    assert_eq!(
        out.errors,
        vec![
            error(FusionFault::NoIdentBeforeHash, vec![2]),
            error(FusionFault::NoIdentBeforeHash, vec![2]),
        ]
    );
}

#[test]
fn fusion_over_three_values() {
    let class = classify(&lex("foo # N")).unwrap();
    let out = expand(&class, "N", 0, 3);
    assert_eq!(
        out.tokens,
        vec![Token::ident("foo0"), Token::ident("foo1"), Token::ident("foo2")]
    );
    assert!(out.errors.is_empty());
}

#[test]
fn fusion_takes_the_text_of_the_replacement() {
    let out = substitute(&lex("field # N"), "N", &Token::literal("3"));
    assert_eq!(out.tokens, vec![Token::ident("field3")]);
    let out = substitute(&lex("get_#N"), "N", &Token::ident("name"));
    assert_eq!(out.tokens, vec![Token::ident("get_name")]);
    let out = substitute(&lex("x#N"), "N", &Token::punct('+'));
    assert_eq!(out.tokens, vec![Token::ident("x+")]);
    let group = Token::group(Delimiter::Bracket, lex("a 1"));
    let out = substitute(&lex("x#N"), "N", &group);
    assert_eq!(out.tokens, vec![Token::ident("x[a1]")]);
}

#[test]
fn binder_is_replaced_where_it_stands() {
    let out = substitute(&lex("return N; [N, (N + 1)]"), "N", &Token::literal("7"));
    assert_eq!(out.tokens, lex("return 7; [7, (7 + 1)]"));
    assert!(out.errors.is_empty());
}

#[test]
fn other_identifiers_are_kept() {
    let out = substitute(&lex("a b c"), "N", &Token::literal("7"));
    assert_eq!(out.tokens, lex("a b c"));
    assert!(out.errors.is_empty());
}

#[test]
fn body_without_binder_is_copied_unchanged() {
    let body = lex("let x = [1, 2]; call(x);");
    let class = classify(&body).unwrap();
    let out = expand(&class, "N", 2, 5);
    let mut expected = Vec::new();
    for _ in 0..3 {
        expected.extend(body.clone());
    }
    assert_eq!(out.tokens, expected);
    assert!(out.errors.is_empty());
}

#[test]
fn output_grows_linearly_with_the_range() {
    let class = classify(&lex("a#N + N")).unwrap();
    assert_eq!(expand(&class, "N", 4, 4).tokens.len(), 0);
    assert_eq!(expand(&class, "N", 4, 5).tokens.len(), 3);
    assert_eq!(expand(&class, "N", 4, 9).tokens.len(), 15);
    assert_eq!(expand(&class, "N", -3, 2).tokens.len(), 15);
}

#[test]
fn prefix_and_suffix_stand_once_for_every_range() {
    let class = classify(&lex("p q #( t#N )* s")).unwrap();
    assert_eq!(expand(&class, "N", 0, 0).tokens, lex("p q s"));
    assert_eq!(expand(&class, "N", 0, 1).tokens, lex("p q t0 s"));
    assert_eq!(expand(&class, "N", 0, 4).tokens, lex("p q t0 t1 t2 t3 s"));
}

#[test]
fn prefix_and_suffix_are_not_substituted() {
    let out = seq_expand::invocation::seq(&lex("N in 1..3 { N a#N #( N )* N b#N }")).unwrap();
    assert_eq!(out.tokens, lex("N a#N 1 2 N b#N"));
    assert!(out.errors.is_empty());
}

#[test]
fn values_are_written_in_decimal() {
    let out = seq_expand::invocation::seq(&lex("N in -2..1 { N }")).unwrap();
    assert_eq!(
        out.tokens,
        vec![Token::literal("-2"), Token::literal("-1"), Token::literal("0")]
    );
    let out = seq_expand::invocation::seq(&lex("N in 9..12 { N }")).unwrap();
    assert_eq!(out.tokens, lex("9 10 11"));
    let class = classify(&lex("N")).unwrap();
    let out = expand(&class, "N", 2147483646, 2147483647);
    assert_eq!(out.tokens, lex("2147483646"));
    let out = expand(&class, "N", -2147483648, -2147483647);
    assert_eq!(out.tokens, vec![Token::literal("-2147483648")]);
    assert_eq!(
        seq_expand::lexeme::literal_token(1203),
        Token::literal("1203")
    );
}

#[test]
fn unmarked_body_is_fully_replicated() {
    let body = lex("a (b [c]) d");
    assert_eq!(classify(&body), Ok(Classification::FullReplicate(body)));
    assert_eq!(classify(&Vec::new()), Ok(Classification::FullReplicate(Vec::new())));
}

#[test]
fn marker_splits_its_level() {
    assert_eq!(
        classify(&lex("a (b) #( c d )* e f")),
        Ok(Classification::PartiallyMarked(Marked {
            prefix: lex("a (b)"),
            region: MarkedRegion::Direct(lex("c d")),
            suffix: lex("e f"),
        }))
    );
}

#[test]
fn marker_in_a_doubly_nested_group_marks_both_levels() {
    let class = classify(&lex("a { b [ c #( d#N )* e ] f } g")).unwrap();
    assert_eq!(
        class,
        Classification::PartiallyMarked(Marked {
            prefix: lex("a"),
            region: MarkedRegion::Nested {
                delimiter: Delimiter::Brace,
                inner: Box::new(Marked {
                    prefix: lex("b"),
                    region: MarkedRegion::Nested {
                        delimiter: Delimiter::Bracket,
                        inner: Box::new(Marked {
                            prefix: lex("c"),
                            region: MarkedRegion::Direct(lex("d#N")),
                            suffix: lex("e"),
                        }),
                    },
                    suffix: lex("f"),
                }),
            },
            suffix: lex("g"),
        })
    );
    let out = expand(&class, "N", 0, 2);
    assert_eq!(out.tokens, lex("a { b [ c d0 d1 e ] f } g"));
}

#[test]
fn first_group_with_a_marker_wins() {
    let class = classify(&lex("(x) (#(a)*) (#(b)*) #(c)*")).unwrap();
    assert_eq!(
        class,
        Classification::PartiallyMarked(Marked {
            prefix: lex("(x)"),
            region: MarkedRegion::Nested {
                delimiter: Delimiter::Parenthesis,
                inner: Box::new(Marked {
                    prefix: Vec::new(),
                    region: MarkedRegion::Direct(lex("a")),
                    suffix: Vec::new(),
                }),
            },
            suffix: lex("(#(b)*) #(c)*"),
        })
    );
}

#[test]
fn hash_and_parenthesis_without_star_are_no_marker() {
    let body = lex("# (a) b");
    assert_eq!(classify(&body), Ok(Classification::FullReplicate(body)));
    let body = lex("# [a] *");
    assert_eq!(classify(&body), Ok(Classification::FullReplicate(body)));
    assert_eq!(
        classify(&lex("# (#(a)*) b")),
        Ok(Classification::PartiallyMarked(Marked {
            prefix: lex("#"),
            region: MarkedRegion::Nested {
                delimiter: Delimiter::Parenthesis,
                inner: Box::new(Marked {
                    prefix: Vec::new(),
                    region: MarkedRegion::Direct(lex("a")),
                    suffix: Vec::new(),
                }),
            },
            suffix: lex("b"),
        }))
    );
}

#[test]
fn second_marker_at_the_same_level_is_ambiguous() {
    assert_eq!(classify(&lex("#(a)* b #(c)*")), Err(AmbiguousMarkerError));
    assert_eq!(classify(&lex("x { #(a)* #(c)* } y")), Err(AmbiguousMarkerError));
    assert_eq!(
        seq_expand::invocation::seq(&lex("N in 0..2 { #(a)* #(b)* }")),
        Err(ExpandError::AmbiguousMarker)
    );
    assert!(classify(&lex("#(a)* (#(c)*)")).is_ok());
    assert!(classify(&lex("#( #(a)* #(b)* )*")).is_ok());
}

#[test]
fn each_malformed_fusion_is_named() {
    let zero = Token::literal("0");
    let out = substitute(&lex("a # b c"), "N", &zero);
    assert_eq!(out.errors, vec![error(FusionFault::MismatchedIdent, vec![2])]);
    assert_eq!(out.tokens, lex("c"));

    let out = substitute(&lex("x a #"), "N", &zero);
    assert_eq!(out.errors, vec![error(FusionFault::NoIdentAfterHash, vec![1])]);
    assert_eq!(out.tokens, lex("x"));

    let out = substitute(&lex("a # + N"), "N", &zero);
    assert_eq!(out.errors, vec![error(FusionFault::NoIdentAfterHash, vec![0])]);
    assert_eq!(out.tokens, lex("+ 0"));

    let out = substitute(&lex("a # # N"), "N", &zero);
    assert_eq!(
        out.errors,
        vec![
            error(FusionFault::NoIdentAfterHash, vec![0]),
            error(FusionFault::NoIdentBeforeHash, vec![2]),
        ]
    );
    assert_eq!(out.tokens, lex("0"));

    let out = substitute(&lex("N # N"), "N", &zero);
    assert_eq!(out.errors, vec![error(FusionFault::NoIdentBeforeHash, vec![1])]);
    assert_eq!(out.tokens, lex("0 0"));
}

#[test]
fn errors_inside_groups_carry_their_path() {
    let out = substitute(&lex("a (b [# c] d # e) f#N"), "N", &Token::literal("1"));
    assert_eq!(
        out.errors,
        vec![
            error(FusionFault::NoIdentBeforeHash, vec![1, 1, 0]),
            error(FusionFault::MismatchedIdent, vec![1, 4]),
        ]
    );
    assert_eq!(out.tokens, lex("a (b [c]) f1"));
}

#[test]
fn errors_of_a_marked_region_start_at_the_body() {
    let out = seq_expand::invocation::seq(&lex("N in 0..2 { a { b #( c # )* } }")).unwrap();
    assert_eq!(out.tokens, lex("a { b }"));
    assert_eq!(
        out.errors,
        vec![
            error(FusionFault::NoIdentAfterHash, vec![1, 1, 0]),
            error(FusionFault::NoIdentAfterHash, vec![1, 1, 0]),
        ]
    );
}

#[test]
fn fusion_does_not_reach_across_a_group() {
    let out = substitute(&lex("a # (b) N"), "N", &Token::literal("0"));
    assert_eq!(out.tokens, lex("(b) 0"));
    assert_eq!(out.errors, vec![error(FusionFault::NoIdentAfterHash, vec![0])]);
    let out = substitute(&lex("a (# N)"), "N", &Token::literal("0"));
    assert_eq!(out.tokens, lex("a (0)"));
    assert_eq!(out.errors, vec![error(FusionFault::NoIdentBeforeHash, vec![1, 0])]);
}

#[test]
fn invocation_is_parsed() {
    assert_eq!(
        Invocation::parse(&lex("N in 0..3 { fn f#N() {} }")),
        Ok(Invocation {
            binder: "N".to_string(),
            low: 0,
            high: 3,
            body: lex("fn f#N() {}"),
        })
    );
    assert_eq!(
        Invocation::parse(&lex("index in -10..-2 {}")),
        Ok(Invocation { binder: "index".to_string(), low: -10, high: -2, body: Vec::new() })
    );
}

#[test]
fn bounds_are_integers_in_base_ten() {
    let parsed = Invocation::parse(&lex("N in 007..1000 {}")).unwrap();
    assert_eq!((parsed.low, parsed.high), (7, 1000));
    let parsed = Invocation::parse(&lex("N in -0..12 {}")).unwrap();
    assert_eq!((parsed.low, parsed.high), (0, 12));
    let parsed = Invocation::parse(&lex("N in -2147483648..2147483647 {}")).unwrap();
    assert_eq!((parsed.low, parsed.high), (i32::MIN, i32::MAX));
    assert_eq!(
        Invocation::parse(&lex("N in 2147483648..3 {}")),
        Err(SyntaxError::BadLowerBound)
    );
    assert_eq!(
        Invocation::parse(&lex("N in -2147483649..3 {}")),
        Err(SyntaxError::BadLowerBound)
    );
    assert_eq!(
        Invocation::parse(&lex("N in 0..99999999999999999999999999999999999999999 {}")),
        Err(SyntaxError::BadUpperBound)
    );
    assert_eq!(Invocation::parse(&lex("N in 0x10..3 {}")), Err(SyntaxError::BadLowerBound));
    assert_eq!(Invocation::parse(&lex("N in 0..1_000 {}")), Err(SyntaxError::BadUpperBound));
    assert_eq!(Invocation::parse(&lex("N in 0..3u8 {}")), Err(SyntaxError::BadUpperBound));
    assert_eq!(Invocation::parse(&lex("N in 1.5..3 {}")), Err(SyntaxError::BadLowerBound));
    assert_eq!(Invocation::parse(&lex("N in 0..\"3\" {}")), Err(SyntaxError::BadUpperBound));
    assert_eq!(Invocation::parse(&lex("N in c\"x\"..3 {}")), Err(SyntaxError::BadLowerBound));
    assert_eq!(Invocation::parse(&lex("N in --1..3 {}")), Err(SyntaxError::BadLowerBound));
}

#[test]
fn literal_with_its_sign_inside_is_a_bound() {
    let mut tokens = lex("N in 0..3 {}");
    tokens[2] = seq_expand::lexeme::literal_token(-4);
    let parsed = Invocation::parse(&tokens).unwrap();
    assert_eq!((parsed.low, parsed.high), (-4, 3));
    tokens.insert(2, Token::punct('-'));
    assert_eq!(Invocation::parse(&tokens), Err(SyntaxError::BadLowerBound));
}

#[test]
fn values_of_decimal_texts() {
    assert_eq!(seq_expand::lexeme::literal_value("0"), Some(0));
    assert_eq!(seq_expand::lexeme::literal_value("12"), Some(12));
    assert_eq!(seq_expand::lexeme::literal_value("-12"), Some(-12));
    assert_eq!(seq_expand::lexeme::literal_value("0000000000000000042"), Some(42));
    assert_eq!(seq_expand::lexeme::literal_value("2147483647"), Some(i32::MAX));
    assert_eq!(seq_expand::lexeme::literal_value("2147483648"), None);
    assert_eq!(seq_expand::lexeme::literal_value("-2147483648"), Some(i32::MIN));
    assert_eq!(seq_expand::lexeme::literal_value("-2147483649"), None);
    for text in ["", "-", "+5", "1 2", " 1", "1-", "--1", "0x1f", "1_0", "1e3", "12i32", "x", "\u{661}\u{662}"] {
        assert_eq!(seq_expand::lexeme::literal_value(text), None);
    }
    for value in [0, 1, -1, 9, 10, 99, 100, -100, 65535, i32::MAX, i32::MIN] {
        match seq_expand::lexeme::literal_token(value) {
            Token::Literal(text) => {
                assert_eq!(text, value.to_string());
                assert_eq!(seq_expand::lexeme::literal_value(&text), Some(value));
            }
            other => panic!("{:?}", other),
        }
    }
}

#[test]
fn each_syntax_error_is_named() {
    assert_eq!(Invocation::parse(&Vec::new()), Err(SyntaxError::MissingBinder));
    assert_eq!(Invocation::parse(&lex("3 in 0..3 {}")), Err(SyntaxError::MissingBinder));
    assert_eq!(Invocation::parse(&lex("fn in 0..3 {}")), Err(SyntaxError::MissingBinder));
    assert_eq!(Invocation::parse(&lex("_ in 0..3 {}")), Err(SyntaxError::MissingBinder));
    assert_eq!(Invocation::parse(&lex("N")), Err(SyntaxError::MissingIn));
    assert_eq!(Invocation::parse(&lex("N of 0..3 {}")), Err(SyntaxError::MissingIn));
    assert_eq!(Invocation::parse(&lex("N in")), Err(SyntaxError::BadLowerBound));
    assert_eq!(Invocation::parse(&lex("N in x..3 {}")), Err(SyntaxError::BadLowerBound));
    assert_eq!(Invocation::parse(&lex("N in - ..3 {}")), Err(SyntaxError::BadLowerBound));
    assert_eq!(Invocation::parse(&lex("N in 0")), Err(SyntaxError::MissingRangeSeparator));
    assert_eq!(Invocation::parse(&lex("N in 0 3 {}")), Err(SyntaxError::MissingRangeSeparator));
    assert_eq!(Invocation::parse(&lex("N in 0 . . 3 {}")), Err(SyntaxError::MissingRangeSeparator));
    assert_eq!(Invocation::parse(&lex("N in 0.. {}")), Err(SyntaxError::BadUpperBound));
    assert_eq!(Invocation::parse(&lex("N in 0...3 {}")), Err(SyntaxError::BadUpperBound));
    assert_eq!(Invocation::parse(&lex("N in 0..3")), Err(SyntaxError::MissingBody));
    assert_eq!(Invocation::parse(&lex("N in 0..3 (a)")), Err(SyntaxError::MissingBody));
    assert_eq!(Invocation::parse(&lex("N in 0..3 {} x")), Err(SyntaxError::TrailingTokens));
    assert_eq!(
        seq_expand::invocation::seq(&lex("N in 0..3 [a]")),
        Err(ExpandError::Syntax(SyntaxError::MissingBody))
    );
}

#[test]
fn earlier_part_is_blamed_first() {
    assert_eq!(Invocation::parse(&lex("fn of x y")), Err(SyntaxError::MissingBinder));
    assert_eq!(Invocation::parse(&lex("N in x 3")), Err(SyntaxError::BadLowerBound));
    assert_eq!(Invocation::parse(&lex("N in 0 x [a]")), Err(SyntaxError::MissingRangeSeparator));
}

#[test]
fn assemble_takes_the_judgement_of_the_binder_as_given() {
    let tokens = lex("fn in 7..9 { a }");
    assert_eq!(
        Invocation::assemble(&tokens, true),
        Ok(Invocation { binder: "fn".to_string(), low: 7, high: 9, body: lex("a") })
    );
    assert_eq!(Invocation::assemble(&tokens, false), Err(SyntaxError::MissingBinder));
    assert_eq!(Invocation::parse(&tokens), Err(SyntaxError::MissingBinder));
    assert_eq!(Invocation::assemble(&lex("3 in 7..9 {}"), true), Err(SyntaxError::MissingBinder));
}

#[test]
fn odd_names_cannot_bind() {
    for name in ["", " ", "a b", "1", "1a", "(", ")", "\"", "'", "c\"x\"", "a-b", "#", "in", "Self", "r#"] {
        let mut tokens = lex("N in 0..3 {}");
        tokens[0] = Token::ident(name);
        assert_eq!(Invocation::parse(&tokens), Err(SyntaxError::MissingBinder));
    }
    for name in ["n", "N", "_n", "n1", "r#in", "straße", "union", "dyn"] {
        let mut tokens = lex("N in 0..3 {}");
        tokens[0] = Token::ident(name);
        assert_eq!(Invocation::parse(&tokens).unwrap().binder, name);
    }
}

#[test]
fn raw_identifier_can_bind() {
    let out = seq_expand::invocation::seq(&lex("r#type in 0..2 { r#type x }")).unwrap();
    assert_eq!(out.tokens, lex("0 x 1 x"));
}

#[test]
fn marker_inside_an_implicit_group_marks_the_group() {
    let body = vec![
        Token::ident("a"),
        Token::group(Delimiter::Implicit, lex("#( b#N )* c")),
    ];
    let class = classify(&body).unwrap();
    assert_eq!(
        class,
        Classification::PartiallyMarked(Marked {
            prefix: lex("a"),
            region: MarkedRegion::Nested {
                delimiter: Delimiter::Implicit,
                inner: Box::new(Marked {
                    prefix: Vec::new(),
                    region: MarkedRegion::Direct(lex("b#N")),
                    suffix: lex("c"),
                }),
            },
            suffix: Vec::new(),
        })
    );
    assert_eq!(
        expand(&class, "N", 0, 2).tokens,
        vec![Token::ident("a"), Token::group(Delimiter::Implicit, lex("b0 b1 c"))]
    );
}

#[test]
fn invocation_expands_its_body() {
    let invocation = Invocation {
        binder: "I".to_string(),
        low: 1,
        high: 3,
        body: lex("[ #( v#I, )* ]"),
    };
    let out = invocation.expand().unwrap();
    assert_eq!(out.tokens, lex("[ v1, v2, ]"));
}

#[test]
fn joint_punctuation_is_kept() {
    let out = seq_expand::invocation::seq(&lex("N in 0..2 { a::b#N -> c; }")).unwrap();
    assert_eq!(out.tokens, lex("a::b0 -> c; a::b1 -> c;"));
}

#[test]
fn textual_form_of_tokens() {
    assert_eq!(Token::literal("12").text(), "12");
    assert_eq!(Token::ident("name").text(), "name");
    assert_eq!(Token::joint(':').text(), ":");
    assert_eq!(Token::group(Delimiter::Parenthesis, lex("a + (b)")).text(), "(a+(b))");
    assert_eq!(Token::group(Delimiter::Brace, lex("x [1]")).text(), "{x[1]}");
    assert_eq!(Token::group(Delimiter::Implicit, lex("x y")).text(), "xy");
    assert_eq!(seq_expand::token::text_of_all(&lex("a 1 ;")), "a1;");
}

#[test]
fn clone_copies_the_whole_tree() {
    let tokens = lex("a (b [c 1] #) ..");
    assert_eq!(seq_expand::token::clone_tokens(&tokens), tokens);
    assert_eq!(tokens[1].clone(), tokens[1]);
}
