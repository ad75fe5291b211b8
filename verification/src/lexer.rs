use vstd::prelude::*;

use crate::token::SpecToken;
use crate::token::Token;
use crate::token::tokens_view;

verus! {

/// An error raised while turning formula text into tokens.
#[derive(Debug, Clone, Copy, PartialEq, Eq, Structural)]
pub enum LexError {
    /// A `Then` keyword appeared with no earlier unmatched `If` or `Iff`.
    ThenWithoutIf,
    /// Two atoms appeared consecutively with no operator between them.
    MissingOperator,
}

/// An ASCII letter, the only characters an atom or keyword may contain.
pub open spec fn is_alpha(c: char) -> bool {
    (97 <= c as u32 && c as u32 <= 122) || (65 <= c as u32 && c as u32 <= 90)
}

/// The word, if any, made of an alphabetic run collected so far.
pub open spec fn run_words(run: Seq<char>) -> Seq<Seq<char>> {
    if run.len() == 0 {
        seq![]
    } else {
        seq![run]
    }
}

/// The lexemes of `s` given a pending alphabetic run `run`: maximal
/// alphabetic runs and single parenthesis characters, in order; every other
/// character only separates lexemes.
pub open spec fn lexemes_from(s: Seq<char>, run: Seq<char>) -> Seq<Seq<char>>
    decreases s.len(),
{
    if s.len() == 0 {
        run_words(run)
    } else {
        let c = s[0];
        let rest = s.drop_first();
        if is_alpha(c) {
            lexemes_from(rest, run.push(c))
        } else if c == '(' || c == ')' {
            run_words(run) + seq![seq![c]] + lexemes_from(rest, Seq::empty())
        } else {
            run_words(run) + lexemes_from(rest, Seq::empty())
        }
    }
}

/// The lexemes of an input string.
pub open spec fn lexemes(s: Seq<char>) -> Seq<Seq<char>> {
    lexemes_from(s, Seq::empty())
}

/// The token a lexeme stands for: a reserved keyword or parenthesis gives
/// its own token, any other word names an atom.
pub open spec fn classify(w: Seq<char>) -> SpecToken {
    if w == "not"@ {
        SpecToken::Not
    } else if w == "and"@ {
        SpecToken::And
    } else if w == "or"@ {
        SpecToken::Or
    } else if w == "if"@ {
        SpecToken::If
    } else if w == "iff"@ {
        SpecToken::Iff
    } else if w == "then"@ {
        SpecToken::Then
    } else if w == "("@ {
        SpecToken::OpenParen
    } else if w == ")"@ {
        SpecToken::CloseParen
    } else {
        SpecToken::Atom(w)
    }
}

/// The raw token sequence of an input: its lexemes, each classified.
pub open spec fn raw_tokens(s: Seq<char>) -> Seq<SpecToken> {
    lexemes(s).map_values(|w: Seq<char>| classify(w))
}

/// Scans a token sequence for the first policy violation, carrying the
/// number of `If`/`Iff` keywords not yet matched by a `Then`, and whether
/// the previous token was an atom.
pub open spec fn scan_policy(toks: Seq<SpecToken>, opens: int, last_atom: bool) -> Option<
    LexError,
>
    decreases toks.len(),
{
    if toks.len() == 0 {
        None
    } else {
        let rest = toks.drop_first();
        match toks[0] {
            SpecToken::Atom(_) => if last_atom {
                Some(LexError::MissingOperator)
            } else {
                scan_policy(rest, opens, true)
            },
            SpecToken::If => scan_policy(rest, opens + 1, false),
            SpecToken::Iff => scan_policy(rest, opens + 1, false),
            SpecToken::Then => if opens <= 0 {
                Some(LexError::ThenWithoutIf)
            } else {
                scan_policy(rest, opens - 1, false)
            },
            _ => scan_policy(rest, opens, false),
        }
    }
}

/// What lexing an input yields: its raw tokens, unless they break one of
/// the two lexing policies, in which case the first violation's error.
pub open spec fn spec_lex(s: Seq<char>) -> Result<Seq<SpecToken>, LexError> {
    match scan_policy(raw_tokens(s), 0, false) {
        None => Ok(raw_tokens(s)),
        Some(e) => Err(e),
    }
}

/// The text a token prints as: its atom name, keyword, or parenthesis.
pub open spec fn token_text(t: SpecToken) -> Seq<char> {
    match t {
        SpecToken::Atom(name) => name,
        SpecToken::Not => "not"@,
        SpecToken::And => "and"@,
        SpecToken::Or => "or"@,
        SpecToken::If => "if"@,
        SpecToken::Iff => "iff"@,
        SpecToken::Then => "then"@,
        SpecToken::OpenParen => "("@,
        SpecToken::CloseParen => ")"@,
    }
}

/// A token the lexer itself could have produced: an atom name is a
/// nonempty alphabetic word that classifies as an atom, not a keyword.
pub open spec fn wf_token(t: SpecToken) -> bool {
    match t {
        SpecToken::Atom(name) => name.len() > 0 && (forall|i: int|
            0 <= i < name.len() ==> is_alpha(name[i])) && classify(name) is Atom,
        _ => true,
    }
}

/// The serialization of a token sequence: each token's text, single
/// spaces in between.
pub open spec fn spec_serialize(ts: Seq<SpecToken>) -> Seq<char>
    decreases ts.len(),
{
    if ts.len() == 0 {
        Seq::empty()
    } else if ts.len() == 1 {
        token_text(ts[0])
    } else {
        token_text(ts[0]) + seq![' '] + spec_serialize(ts.drop_first())
    }
}

/// Appending a token to a nonempty sequence appends a separator and its text.
proof fn lemma_serialize_snoc(ts: Seq<SpecToken>, t: SpecToken)
    requires
        ts.len() > 0,
    ensures
        spec_serialize(ts.push(t)) == spec_serialize(ts) + seq![' '] + token_text(t),
    decreases ts.len(),
{
    reveal_with_fuel(spec_serialize, 3);
    if ts.len() == 1 {
        assert(ts.push(t).drop_first() =~= seq![t]);
        assert(ts.push(t).len() == 2);
        assert(spec_serialize(ts.push(t)) == token_text(ts.push(t)[0]) + seq![' ']
            + spec_serialize(seq![t]));
        assert(spec_serialize(seq![t]) == token_text(t));
        assert(spec_serialize(ts.push(t)) =~= spec_serialize(ts) + seq![' '] + token_text(t));
    } else {
        assert(ts.push(t).drop_first() =~= ts.drop_first().push(t));
        lemma_serialize_snoc(ts.drop_first(), t);
        assert(spec_serialize(ts.push(t)) =~= spec_serialize(ts) + seq![' '] + token_text(t));
    }
}

/// Prints a token sequence back as formula text: each token's text, with
/// single spaces in between.
pub fn serialize_tokens(tokens: &Vec<Token>) -> (r: String)
    ensures
        r@ == spec_serialize(tokens_view(tokens@)),
{
    let ghost tv = tokens_view(tokens@);
    let mut out = String::new();
    let mut i: usize = 0;
    #[verifier::loop_isolation(false)]
    while i < tokens.len()
        invariant
            i <= tokens@.len(),
            i == 0 ==> out@ == Seq::<char>::empty(),
            i > 0 ==> out@ == spec_serialize(tv.take(i as int)),
        decreases tokens@.len() - i,
    {
        if i > 0 {
            out.append(" ");
            proof {
                assert(out@ == spec_serialize(tv.take(i as int)) + seq![' ']) by {
                    assert(" "@ =~= seq![' ']) by {
                        reveal_strlit(" ");
                    }
                }
            }
        }
        match &tokens[i] {
            Token::Atom(s) => out.append(s.as_str()),
            Token::Not => out.append("not"),
            Token::And => out.append("and"),
            Token::Or => out.append("or"),
            Token::If => out.append("if"),
            Token::Iff => out.append("iff"),
            Token::Then => out.append("then"),
            Token::OpenParen => out.append("("),
            Token::CloseParen => out.append(")"),
        }
        proof {
            assert(tv[i as int] == tokens@[i as int]@);
            if i == 0 {
                assert(tv.take(1) =~= seq![tv[0]]);
                assert(out@ == token_text(tv[0]));
            } else {
                assert(tv.take(i as int + 1) =~= tv.take(i as int).push(tv[i as int]));
                lemma_serialize_snoc(tv.take(i as int), tv[i as int]);
            }
        }
        i += 1;
    }
    proof {
        if tokens@.len() == 0 {
            assert(out@ =~= spec_serialize(tv));
        } else {
            assert(tv.take(tokens@.len() as int) =~= tv);
        }
    }
    out
}

/// Whether `c` is an ASCII letter.
fn alpha(c: char) -> (b: bool)
    ensures
        b == is_alpha(c),
{
    let u = c as u32;
    (97 <= u && u <= 122) || (65 <= u && u <= 90)
}

/// Cuts an input string into its lexemes.
fn scan_words(input: &str) -> (words: Vec<String>)
    ensures
        words@.map_values(|w: String| w@) == lexemes(input@),
{
    let n = input.unicode_len();
    let mut words: Vec<String> = Vec::new();
    let mut i: usize = 0;
    let mut start: usize = 0;
    proof {
        assert(input@.skip(0) =~= input@);
        assert(input@.subrange(0, 0) =~= Seq::<char>::empty());
        assert(words@.map_values(|w: String| w@) + lexemes_from(input@, Seq::empty()) =~= lexemes(
            input@,
        ));
    }
    while i < n
        invariant
            n == input@.len(),
            start <= i <= n,
            forall|k: int| start <= k < i ==> is_alpha(input@[k]),
            lexemes(input@) == words@.map_values(|w: String| w@) + lexemes_from(
                input@.skip(i as int),
                input@.subrange(start as int, i as int),
            ),
        decreases n - i,
    {
        let ghost run = input@.subrange(start as int, i as int);
        let ghost suffix = input@.skip(i as int);
        let ghost old_map = words@.map_values(|w: String| w@);
        proof {
            assert(suffix.len() > 0);
            assert(suffix[0] == input@[i as int]);
            assert(suffix.drop_first() =~= input@.skip(i as int + 1));
        }
        let c = input.get_char(i);
        if alpha(c) {
            proof {
                assert(run.push(c) =~= input@.subrange(start as int, i as int + 1));
                assert(lexemes_from(suffix, run) == lexemes_from(
                    input@.skip(i as int + 1),
                    input@.subrange(start as int, i as int + 1),
                ));
            }
            i += 1;
        } else {
            if start < i {
                let w = input.substring_char(start, i).to_owned();
                words.push(w);
                proof {
                    assert(words@.map_values(|x: String| x@) =~= old_map + run_words(run));
                }
            } else {
                proof {
                    assert(words@.map_values(|x: String| x@) =~= old_map + run_words(run));
                }
            }
            let ghost flushed = old_map + run_words(run);
            if c == '(' || c == ')' {
                let w = input.substring_char(i, i + 1).to_owned();
                proof {
                    assert(w@ =~= seq![c]);
                }
                words.push(w);
                proof {
                    assert(words@.map_values(|x: String| x@) =~= flushed + seq![seq![c]]);
                    assert(lexemes_from(suffix, run) == run_words(run) + seq![seq![c]]
                        + lexemes_from(suffix.drop_first(), Seq::empty()));
                    assert(old_map + lexemes_from(suffix, run) =~= words@.map_values(
                        |x: String| x@,
                    ) + lexemes_from(input@.skip(i as int + 1), Seq::empty()));
                }
            } else {
                proof {
                    assert(lexemes_from(suffix, run) == run_words(run) + lexemes_from(
                        suffix.drop_first(),
                        Seq::empty(),
                    ));
                    assert(old_map + lexemes_from(suffix, run) =~= words@.map_values(
                        |x: String| x@,
                    ) + lexemes_from(input@.skip(i as int + 1), Seq::empty()));
                }
            }
            i += 1;
            start = i;
            proof {
                assert(input@.subrange(i as int, i as int) =~= Seq::<char>::empty());
            }
        }
    }
    proof {
        assert(input@.skip(n as int) =~= Seq::empty());
        if start < i {
            assert(lexemes_from(Seq::empty(), input@.subrange(start as int, i as int)) =~= seq![
                input@.subrange(start as int, i as int),
            ]);
        }
    }
    if start < i {
        let w = input.substring_char(start, i).to_owned();
        words.push(w);
    }
    proof {
        assert(words@.map_values(|w: String| w@) =~= lexemes(input@));
    }
    words
}

/// Classifies one lexeme as its token.
fn classify_word(w: &String) -> (t: Token)
    ensures
        t@ == classify(w@),
{
    if *w == "not".to_owned() {
        Token::Not
    } else if *w == "and".to_owned() {
        Token::And
    } else if *w == "or".to_owned() {
        Token::Or
    } else if *w == "if".to_owned() {
        Token::If
    } else if *w == "iff".to_owned() {
        Token::Iff
    } else if *w == "then".to_owned() {
        Token::Then
    } else if *w == "(".to_owned() {
        Token::OpenParen
    } else if *w == ")".to_owned() {
        Token::CloseParen
    } else {
        Token::Atom(w.clone())
    }
}

/// Turns formula text into its token sequence.
///
/// The tokens are the input's lexemes — maximal alphabetic runs and single
/// parentheses — each classified as a keyword, a parenthesis, or an atom.
/// Lexing fails on the first `Then` with no earlier unmatched `If` or `Iff`,
/// and on the first pair of consecutive atoms.
#[verifier::rlimit(30)]
pub fn lex(input: &str) -> (r: Result<Vec<Token>, LexError>)
    ensures
        match r {
            Ok(toks) => spec_lex(input@) == Ok::<Seq<SpecToken>, LexError>(tokens_view(toks@)),
            Err(e) => spec_lex(input@) == Err::<Seq<SpecToken>, LexError>(e),
        },
{
    let words = scan_words(input);
    let ghost raw = raw_tokens(input@);
    proof {
        assert(raw.len() == words@.len());
    }
    let mut toks: Vec<Token> = Vec::new();
    let mut opens: usize = 0;
    let mut last_atom: bool = false;
    let mut j: usize = 0;
    proof {
        assert(raw.skip(0) =~= raw);
        assert(tokens_view(toks@) =~= raw.take(0));
    }
    while j < words.len()
        invariant
            raw == raw_tokens(input@),
            words@.map_values(|w: String| w@) == lexemes(input@),
            raw.len() == words@.len(),
            j <= words.len(),
            opens <= j,
            tokens_view(toks@) == raw.take(j as int),
            scan_policy(raw, 0, false) == scan_policy(
                raw.skip(j as int),
                opens as int,
                last_atom,
            ),
        decreases words.len() - j,
    {
        proof {
            assert(raw.skip(j as int).len() > 0);
            assert(raw.skip(j as int)[0] == raw[j as int]);
            assert(raw.skip(j as int).drop_first() =~= raw.skip(j as int + 1));
            assert(lexemes(input@)[j as int] == words@[j as int]@);
            assert(raw[j as int] == classify(words@[j as int]@));
        }
        let t = classify_word(&words[j]);
        let ghost tv = t@;
        let ghost old_toks = toks@;
        match &t {
            Token::Atom(_) => {
                if last_atom {
                    return Err(LexError::MissingOperator);
                }
                last_atom = true;
            },
            Token::If => {
                opens += 1;
                last_atom = false;
            },
            Token::Iff => {
                opens += 1;
                last_atom = false;
            },
            Token::Then => {
                if opens == 0 {
                    return Err(LexError::ThenWithoutIf);
                }
                opens -= 1;
                last_atom = false;
            },
            _ => {
                last_atom = false;
            },
        }
        toks.push(t);
        j += 1;
        proof {
            assert(tokens_view(toks@) =~= tokens_view(old_toks).push(tv));
            assert(raw.take(j as int) =~= raw.take(j as int - 1).push(raw[j as int - 1]));
            assert(tokens_view(toks@) =~= raw.take(j as int));
        }
    }
    proof {
        assert(raw.skip(words@.len() as int) =~= Seq::<SpecToken>::empty());
        assert(tokens_view(toks@) =~= raw);
    }
    Ok(toks)
}

} // verus!
