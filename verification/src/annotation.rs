//! The annotation mini-language: a comma-separated list of `key = expression`
//! pairs attached to a schema member. Keys are bare identifiers; expressions
//! are opaque to the parser. Recognized keys are `prompt` and `name`; others
//! are ignored. When a key appears more than once, the last occurrence wins.

use vstd::prelude::*;

verus! {

use crate::text::str_eq;

/// One token of an annotation body, already split by the host tokenizer.
/// An expression is carried as opaque text.
#[derive(Debug)]
pub enum Token {
    Ident(String),
    Assign,
    Comma,
    Expr(String),
}

/// Why an annotation body failed to parse: a pair's key, `=`, or expression
/// was missing, or tokens trailed after a pair without a comma.
#[derive(Clone, Copy, Debug, PartialEq, Eq, Structural)]
pub enum ParseError {
    ExpectedKey,
    ExpectedAssign,
    ExpectedExpr,
    Trailing,
}

/// The parsed annotation of a schema member.
#[derive(Debug)]
pub struct Annotation {
    /// Text shown to the user when composing this member.
    pub prompt: Option<String>,
    /// Display label override for a sum variant in its selection menu.
    pub name: Option<String>,
}

/// One attribute attached to a schema member; only those named `dialogue`
/// carry an annotation body.
#[derive(Debug)]
pub struct Attr {
    pub name: String,
    pub tokens: Vec<Token>,
}

/// Text carried by an identifier or expression token.
pub open spec fn token_text(t: Token) -> Seq<char> {
    match t {
        Token::Ident(s) => s@,
        Token::Expr(s) => s@,
        _ => Seq::empty(),
    }
}

/// The key/value pairs denoted by an annotation body, in order, or the first
/// parse error. The grammar is `pair (',' pair)*` with an optional trailing
/// comma, where `pair` is `identifier '=' expression`.
pub open spec fn parse_pairs_spec(ts: Seq<Token>) -> Result<
    Seq<(Seq<char>, Seq<char>)>,
    ParseError,
>
    decreases ts.len(),
{
    if ts.len() == 0 {
        Ok(Seq::empty())
    } else if !(ts[0] is Ident) {
        Err(ParseError::ExpectedKey)
    } else if ts.len() < 2 || !(ts[1] is Assign) {
        Err(ParseError::ExpectedAssign)
    } else if ts.len() < 3 || !(ts[2] is Expr) {
        Err(ParseError::ExpectedExpr)
    } else if ts.len() == 3 {
        Ok(seq![(token_text(ts[0]), token_text(ts[2]))])
    } else if ts[3] is Comma {
        match parse_pairs_spec(ts.skip(4)) {
            Ok(ps) => Ok(seq![(token_text(ts[0]), token_text(ts[2]))] + ps),
            Err(e) => Err(e),
        }
    } else {
        Err(ParseError::Trailing)
    }
}

/// The value of the last pair whose key is `key`, if any: the map-overwrite
/// reading of a pair list.
pub open spec fn lookup_last(ps: Seq<(Seq<char>, Seq<char>)>, key: Seq<char>) -> Option<Seq<char>>
    decreases ps.len(),
{
    if ps.len() == 0 {
        None
    } else if ps.last().0 == key {
        Some(ps.last().1)
    } else {
        lookup_last(ps.drop_last(), key)
    }
}

/// View of an optional string.
pub open spec fn opt_text(o: Option<String>) -> Option<Seq<char>> {
    match o {
        None => None,
        Some(s) => Some(s@),
    }
}

/// The tokens of the first attribute named `dialogue`, if any.
pub open spec fn dialogue_attr(attrs: Seq<Attr>) -> Option<Seq<Token>>
    decreases attrs.len(),
{
    if attrs.len() == 0 {
        None
    } else if attrs[0].name@ == "dialogue"@ {
        Some(attrs[0].tokens@)
    } else {
        dialogue_attr(attrs.skip(1))
    }
}

/// The `(prompt, name)` pair denoted by a member's attributes: the parse of
/// the first `dialogue` attribute's body under map-overwrite semantics, the
/// empty annotation when none is present, or the body's parse error.
pub open spec fn ann_spec(attrs: Seq<Attr>) -> Result<
    (Option<Seq<char>>, Option<Seq<char>>),
    ParseError,
> {
    match dialogue_attr(attrs) {
        None => Ok((None, None)),
        Some(ts) => match parse_pairs_spec(ts) {
            Ok(ps) => Ok((lookup_last(ps, "prompt"@), lookup_last(ps, "name"@))),
            Err(e) => Err(e),
        },
    }
}

proof fn lemma_dialogue_attr_found(attrs: Seq<Attr>, i: int)
    requires
        0 <= i < attrs.len(),
        attrs[i].name@ == "dialogue"@,
        forall|j: int| 0 <= j < i ==> attrs[j].name@ != "dialogue"@,
    ensures
        dialogue_attr(attrs) == Some(attrs[i].tokens@),
    decreases i,
{
    if i > 0 {
        lemma_dialogue_attr_found(attrs.skip(1), i - 1);
    }
}

proof fn lemma_dialogue_attr_missing(attrs: Seq<Attr>)
    requires
        forall|j: int| 0 <= j < attrs.len() ==> attrs[j].name@ != "dialogue"@,
    ensures
        dialogue_attr(attrs) is None,
    decreases attrs.len(),
{
    if attrs.len() > 0 {
        lemma_dialogue_attr_missing(attrs.skip(1));
    }
}

/// Parse an annotation body. On success the result's `prompt` and `name` are
/// the last values given for those keys, and unrecognized keys are ignored.
pub fn parse_annotation(tokens: &Vec<Token>) -> (r: Result<Annotation, ParseError>)
    ensures
        match parse_pairs_spec(tokens@) {
            Ok(ps) => r matches Ok(a) && opt_text(a.prompt) == lookup_last(ps, "prompt"@)
                && opt_text(a.name) == lookup_last(ps, "name"@),
            Err(e) => r matches Err(e2) && e2 == e,
        },
{
    let mut prompt: Option<String> = None;
    let mut name: Option<String> = None;
    let ghost mut done: Seq<(Seq<char>, Seq<char>)> = Seq::empty();
    let mut i: usize = 0;
    proof {
        reveal_strlit("prompt");
        reveal_strlit("name");
        assert(tokens@.skip(0) =~= tokens@);
        match parse_pairs_spec(tokens@) {
            Ok(rest) => {
                assert(done + rest =~= rest);
            },
            Err(_) => {},
        }
    }
    while i < tokens.len()
        invariant
            i <= tokens@.len(),
            match parse_pairs_spec(tokens@.skip(i as int)) {
                Ok(rest) => parse_pairs_spec(tokens@) == Ok::<_, ParseError>(done + rest),
                Err(e) => parse_pairs_spec(tokens@) == Err::<Seq<(Seq<char>, Seq<char>)>,
                    _,
                >(e),
            },
            opt_text(prompt) == lookup_last(done, "prompt"@),
            opt_text(name) == lookup_last(done, "name"@),
        decreases tokens@.len() - i,
    {
        let ghost ts = tokens@.skip(i as int);
        proof {
            assert(forall|j: int| 0 <= j < ts.len() ==> ts[j] == tokens@[i + j]);
        }
        let k: &String = match &tokens[i] {
            Token::Ident(s) => s,
            _ => {
                return Err(ParseError::ExpectedKey);
            },
        };
        if i + 1 >= tokens.len() {
            return Err(ParseError::ExpectedAssign);
        }
        match &tokens[i + 1] {
            Token::Assign => {},
            _ => {
                return Err(ParseError::ExpectedAssign);
            },
        }
        if i + 2 >= tokens.len() {
            return Err(ParseError::ExpectedExpr);
        }
        let v: &String = match &tokens[i + 2] {
            Token::Expr(s) => s,
            _ => {
                return Err(ParseError::ExpectedExpr);
            },
        };
        let ghost pair = (k@, v@);
        proof {
            assert(token_text(ts[0]) == k@);
            assert(token_text(ts[2]) == v@);
        }
        if str_eq(k.as_str(), "prompt") {
            prompt = Some(v.clone());
        } else if str_eq(k.as_str(), "name") {
            name = Some(v.clone());
        }
        proof {
            reveal_strlit("prompt");
            reveal_strlit("name");
            assert("prompt"@.len() == 6);
            assert("name"@.len() == 4);
            assert("prompt"@ != "name"@);
            assert(done.push(pair).drop_last() =~= done);
            assert(lookup_last(done.push(pair), "prompt"@) == if pair.0 == "prompt"@ {
                Some(pair.1)
            } else {
                lookup_last(done, "prompt"@)
            });
            assert(lookup_last(done.push(pair), "name"@) == if pair.0 == "name"@ {
                Some(pair.1)
            } else {
                lookup_last(done, "name"@)
            });
            done = done.push(pair);
        }
        if i + 3 == tokens.len() {
            proof {
                assert(ts.len() == 3);
                assert(parse_pairs_spec(ts) == Ok::<_, ParseError>(seq![pair]));
                assert(done.drop_last() + seq![pair] =~= done);
                assert(tokens@.skip(tokens@.len() as int) =~= Seq::<Token>::empty());
            }
            i = tokens.len();
        } else {
            match &tokens[i + 3] {
                Token::Comma => {},
                _ => {
                    return Err(ParseError::Trailing);
                },
            }
            proof {
                assert(ts.skip(4) =~= tokens@.skip(i + 4));
                match parse_pairs_spec(ts.skip(4)) {
                    Ok(rest) => {
                        assert(parse_pairs_spec(ts) == Ok::<_, ParseError>(seq![pair] + rest));
                        assert(done.drop_last() + (seq![pair] + rest) =~= done + rest);
                    },
                    Err(_) => {},
                }
            }
            i = i + 4;
        }
    }
    proof {
        assert(tokens@.skip(tokens@.len() as int) =~= Seq::<Token>::empty());
        assert(done + Seq::<(Seq<char>, Seq<char>)>::empty() =~= done);
    }
    Ok(Annotation { prompt, name })
}

/// The annotation of a member with the given attributes: the parse of the
/// first `dialogue` attribute's body, or the empty annotation when no such
/// attribute is present.
pub fn annotation_of_attrs(attrs: &Vec<Attr>) -> (r: Result<Annotation, ParseError>)
    ensures
        match ann_spec(attrs@) {
            Ok(pn) => r matches Ok(a) && opt_text(a.prompt) == pn.0 && opt_text(a.name) == pn.1,
            Err(e) => r matches Err(e2) && e2 == e,
        },
{
    let mut i: usize = 0;
    while i < attrs.len()
        invariant
            i <= attrs@.len(),
            forall|j: int| 0 <= j < i ==> attrs@[j].name@ != "dialogue"@,
        decreases attrs@.len() - i,
    {
        if str_eq(attrs[i].name.as_str(), "dialogue") {
            proof {
                lemma_dialogue_attr_found(attrs@, i as int);
            }
            return parse_annotation(&attrs[i].tokens);
        }
        i = i + 1;
    }
    proof {
        lemma_dialogue_attr_missing(attrs@);
    }
    Ok(Annotation { prompt: None, name: None })
}

} // verus!
