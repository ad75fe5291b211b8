use vstd::prelude::*;

use crate::ast::SpecAst;
use crate::ast::leaf_atoms;
use crate::lexer::LexError;
use crate::lexer::classify;
use crate::lexer::is_alpha;
use crate::lexer::lexemes;
use crate::lexer::lexemes_from;
use crate::lexer::raw_tokens;
use crate::lexer::run_words;
use crate::lexer::scan_policy;
use crate::lexer::spec_lex;
use crate::lexer::spec_serialize;
use crate::lexer::token_text;
use crate::lexer::wf_token;
use crate::parser::SyntaxError;
use crate::parser::parse_conditional_at;
use crate::parser::parse_expr_at;
use crate::parser::parse_expr_rest;
use crate::parser::parse_not_at;
use crate::parser::parse_paren_at;
use crate::parser::parse_primary_at;
use crate::parser::spec_parse;
use crate::token::SpecToken;

verus! {

/// The names of the atom tokens in a token sequence, in order.
pub open spec fn atom_token_names(ts: Seq<SpecToken>) -> Seq<Seq<char>> {
    ts.filter(|t: SpecToken| t is Atom).map_values(|t: SpecToken| t->Atom_0)
}

proof fn lemma_atom_names_empty()
    ensures
        atom_token_names(Seq::<SpecToken>::empty()) == Seq::<Seq<char>>::empty(),
{
    assert(Seq::<SpecToken>::empty().filter(|t: SpecToken| t is Atom) =~= Seq::<
        SpecToken,
    >::empty());
    assert(atom_token_names(Seq::<SpecToken>::empty()) =~= Seq::<Seq<char>>::empty());
}

proof fn lemma_atom_names_split(a: Seq<SpecToken>, b: Seq<SpecToken>)
    ensures
        atom_token_names(a + b) == atom_token_names(a) + atom_token_names(b),
{
    broadcast use Seq::filter_distributes_over_add;

    let pred = |t: SpecToken| t is Atom;
    assert((a + b).filter(pred) == a.filter(pred) + b.filter(pred));
    assert(atom_token_names(a + b) =~= atom_token_names(a) + atom_token_names(b));
}

proof fn lemma_atom_names_single(t: SpecToken)
    ensures
        atom_token_names(seq![t]) == if t is Atom {
            seq![t->Atom_0]
        } else {
            Seq::<Seq<char>>::empty()
        },
{
    let pred = |t: SpecToken| t is Atom;
    let s = seq![t];
    reveal_with_fuel(Seq::<SpecToken>::filter, 3);
    assert(s.drop_last() =~= Seq::<SpecToken>::empty());
    assert(Seq::<SpecToken>::empty().filter(pred) =~= Seq::<SpecToken>::empty());
    assert(s.last() == t);
    if pred(t) {
        assert(s.filter(pred) =~= seq![t]);
        assert(atom_token_names(s) =~= seq![t->Atom_0]);
    } else {
        assert(s.filter(pred) =~= Seq::<SpecToken>::empty());
        assert(atom_token_names(s) =~= Seq::<Seq<char>>::empty());
    }
}

proof fn lemma_primary_leaves(toks: Seq<SpecToken>, pos: int)
    requires
        parse_primary_at(toks, pos) is Ok,
    ensures
        ({
            let r = parse_primary_at(toks, pos)->Ok_0;
            pos < r.1 <= toks.len() && leaf_atoms(r.0) == atom_token_names(
                toks.subrange(pos, r.1),
            )
        }),
    decreases toks.len() - pos, 0int,
{
    let r = parse_primary_at(toks, pos)->Ok_0;
    match toks[pos] {
        SpecToken::Atom(name) => {
            assert(toks.subrange(pos, pos + 1) =~= seq![toks[pos]]);
            lemma_atom_names_single(toks[pos]);
            assert(leaf_atoms(r.0) =~= seq![name]);
        },
        SpecToken::Not => {
            lemma_not_leaves(toks, pos + 1);
            let inner = parse_not_at(toks, pos + 1)->Ok_0;
            assert(toks.subrange(pos, inner.1) =~= seq![toks[pos]] + toks.subrange(
                pos + 1,
                inner.1,
            ));
            lemma_atom_names_split(seq![toks[pos]], toks.subrange(pos + 1, inner.1));
            lemma_atom_names_single(toks[pos]);
        },
        SpecToken::If => {
            lemma_conditional_leaves(toks, pos + 1);
            let inner = parse_conditional_at(toks, pos + 1)->Ok_0;
            assert(toks.subrange(pos, inner.1) =~= seq![toks[pos]] + toks.subrange(
                pos + 1,
                inner.1,
            ));
            lemma_atom_names_split(seq![toks[pos]], toks.subrange(pos + 1, inner.1));
            lemma_atom_names_single(toks[pos]);
        },
        SpecToken::Iff => {
            lemma_conditional_leaves(toks, pos + 1);
            let inner = parse_conditional_at(toks, pos + 1)->Ok_0;
            assert(toks.subrange(pos, inner.1) =~= seq![toks[pos]] + toks.subrange(
                pos + 1,
                inner.1,
            ));
            lemma_atom_names_split(seq![toks[pos]], toks.subrange(pos + 1, inner.1));
            lemma_atom_names_single(toks[pos]);
        },
        SpecToken::OpenParen => {
            lemma_paren_leaves(toks, pos + 1);
            let inner = parse_paren_at(toks, pos + 1)->Ok_0;
            assert(toks.subrange(pos, inner.1) =~= seq![toks[pos]] + toks.subrange(
                pos + 1,
                inner.1,
            ));
            lemma_atom_names_split(seq![toks[pos]], toks.subrange(pos + 1, inner.1));
            lemma_atom_names_single(toks[pos]);
        },
        _ => {
        },
    }
}

proof fn lemma_not_leaves(toks: Seq<SpecToken>, pos: int)
    requires
        parse_not_at(toks, pos) is Ok,
    ensures
        ({
            let r = parse_not_at(toks, pos)->Ok_0;
            pos < r.1 <= toks.len() && leaf_atoms(r.0) == atom_token_names(
                toks.subrange(pos, r.1),
            )
        }),
    decreases toks.len() - pos, 1int,
{
    lemma_primary_leaves(toks, pos);
}

proof fn lemma_conditional_leaves(toks: Seq<SpecToken>, pos: int)
    requires
        parse_conditional_at(toks, pos) is Ok,
    ensures
        ({
            let r = parse_conditional_at(toks, pos)->Ok_0;
            pos < r.1 <= toks.len() && leaf_atoms(r.0) == atom_token_names(
                toks.subrange(pos, r.1),
            )
        }),
    decreases toks.len() - pos, 3int,
{
    let cond = parse_expr_at(toks, pos)->Ok_0;
    lemma_expr_leaves(toks, pos);
    let p = cond.1;
    lemma_expr_leaves(toks, p + 1);
    let cons = parse_expr_at(toks, p + 1)->Ok_0;
    let q = cons.1;
    assert(toks.subrange(pos, q) =~= toks.subrange(pos, p) + seq![toks[p]] + toks.subrange(
        p + 1,
        q,
    ));
    lemma_atom_names_split(toks.subrange(pos, p) + seq![toks[p]], toks.subrange(p + 1, q));
    lemma_atom_names_split(toks.subrange(pos, p), seq![toks[p]]);
    lemma_atom_names_single(toks[p]);
}

proof fn lemma_paren_leaves(toks: Seq<SpecToken>, pos: int)
    requires
        parse_paren_at(toks, pos) is Ok,
    ensures
        ({
            let r = parse_paren_at(toks, pos)->Ok_0;
            pos < r.1 <= toks.len() && leaf_atoms(r.0) == atom_token_names(
                toks.subrange(pos, r.1),
            )
        }),
    decreases toks.len() - pos, 3int,
{
    lemma_expr_leaves(toks, pos);
    let inner = parse_expr_at(toks, pos)->Ok_0;
    let p = inner.1;
    assert(toks.subrange(pos, p + 1) =~= toks.subrange(pos, p) + seq![toks[p]]);
    lemma_atom_names_split(toks.subrange(pos, p), seq![toks[p]]);
    lemma_atom_names_single(toks[p]);
}

proof fn lemma_rest_leaves(toks: Seq<SpecToken>, acc: SpecAst, pos: int)
    requires
        0 <= pos <= toks.len(),
        parse_expr_rest(toks, acc, pos) is Ok,
    ensures
        ({
            let r = parse_expr_rest(toks, acc, pos)->Ok_0;
            pos <= r.1 <= toks.len() && leaf_atoms(r.0) == leaf_atoms(acc) + atom_token_names(
                toks.subrange(pos, r.1),
            )
        }),
    decreases toks.len() - pos, 1int,
{
    if 0 <= pos < toks.len() && (toks[pos] is And || toks[pos] is Or) {
        lemma_primary_leaves(toks, pos + 1);
        let rhs = parse_primary_at(toks, pos + 1)->Ok_0;
        let p = rhs.1;
        let node = if toks[pos] is And {
            SpecAst::And(Box::new(acc), Box::new(rhs.0))
        } else {
            SpecAst::Or(Box::new(acc), Box::new(rhs.0))
        };
        lemma_rest_leaves(toks, node, p);
        let fin = parse_expr_rest(toks, node, p)->Ok_0;
        assert(toks.subrange(pos, fin.1) =~= seq![toks[pos]] + toks.subrange(pos + 1, p)
            + toks.subrange(p, fin.1));
        lemma_atom_names_split(seq![toks[pos]] + toks.subrange(pos + 1, p), toks.subrange(
            p,
            fin.1,
        ));
        lemma_atom_names_split(seq![toks[pos]], toks.subrange(pos + 1, p));
        lemma_atom_names_single(toks[pos]);
        assert(leaf_atoms(node) =~= leaf_atoms(acc) + leaf_atoms(rhs.0));
    } else {
        assert(toks.subrange(pos, pos) =~= Seq::<SpecToken>::empty());
        lemma_atom_names_empty();
        assert(leaf_atoms(acc) + Seq::<Seq<char>>::empty() =~= leaf_atoms(acc));
    }
}

proof fn lemma_expr_leaves(toks: Seq<SpecToken>, pos: int)
    requires
        parse_expr_at(toks, pos) is Ok,
    ensures
        ({
            let r = parse_expr_at(toks, pos)->Ok_0;
            pos < r.1 <= toks.len() && leaf_atoms(r.0) == atom_token_names(
                toks.subrange(pos, r.1),
            )
        }),
    decreases toks.len() - pos, 2int,
{
    lemma_primary_leaves(toks, pos);
    let first = parse_primary_at(toks, pos)->Ok_0;
    let p = first.1;
    lemma_rest_leaves(toks, first.0, p);
    let fin = parse_expr_rest(toks, first.0, p)->Ok_0;
    assert(toks.subrange(pos, fin.1) =~= toks.subrange(pos, p) + toks.subrange(p, fin.1));
    lemma_atom_names_split(toks.subrange(pos, p), toks.subrange(p, fin.1));
}

proof fn lemma_atom_names_of_classified(ws: Seq<Seq<char>>)
    ensures
        atom_token_names(ws.map_values(|w: Seq<char>| classify(w))) == ws.filter(
            |w: Seq<char>| classify(w) is Atom,
        ),
    decreases ws.len(),
{
    let pred = |w: Seq<char>| classify(w) is Atom;
    reveal_with_fuel(Seq::<Seq<char>>::filter, 3);
    if ws.len() == 0 {
        assert(ws.map_values(|w: Seq<char>| classify(w)) =~= Seq::<SpecToken>::empty());
        lemma_atom_names_empty();
        assert(ws.filter(pred) =~= Seq::<Seq<char>>::empty());
    } else {
        let front = ws.drop_last();
        let last = ws.last();
        lemma_atom_names_of_classified(front);
        assert(ws.map_values(|w: Seq<char>| classify(w)) =~= front.map_values(
            |w: Seq<char>| classify(w),
        ) + seq![classify(last)]);
        lemma_atom_names_split(front.map_values(|w: Seq<char>| classify(w)), seq![
            classify(last),
        ]);
        lemma_atom_names_single(classify(last));
        assert(ws =~= front.push(last));
        if pred(last) {
            assert(classify(last)->Atom_0 == last);
            assert(ws.filter(pred) =~= front.filter(pred).push(last));
            assert(atom_token_names(ws.map_values(|w: Seq<char>| classify(w))) =~= ws.filter(
                pred,
            ));
        } else {
            assert(ws.filter(pred) =~= front.filter(pred));
            assert(atom_token_names(ws.map_values(|w: Seq<char>| classify(w))) =~= ws.filter(
                pred,
            ));
        }
    }
}

proof fn lemma_keyword_views()
    ensures
        "not"@ =~= seq!['n', 'o', 't'],
        "and"@ =~= seq!['a', 'n', 'd'],
        "or"@ =~= seq!['o', 'r'],
        "if"@ =~= seq!['i', 'f'],
        "iff"@ =~= seq!['i', 'f', 'f'],
        "then"@ =~= seq!['t', 'h', 'e', 'n'],
        "("@ =~= seq!['('],
        ")"@ =~= seq![')'],
{
    reveal_strlit("not");
    reveal_strlit("and");
    reveal_strlit("or");
    reveal_strlit("if");
    reveal_strlit("iff");
    reveal_strlit("then");
    reveal_strlit("(");
    reveal_strlit(")");
}

/// Classifying a well-formed token's own text gives that token back.
proof fn lemma_classify_text(t: SpecToken)
    requires
        wf_token(t),
    ensures
        classify(token_text(t)) == t,
{
    lemma_keyword_views();
    assert(("not"@).len() == 3);
    assert(("and"@).len() == 3);
    assert(("or"@).len() == 2);
    assert(("if"@).len() == 2);
    assert(("iff"@).len() == 3);
    assert(("then"@).len() == 4);
    assert(("("@).len() == 1);
    assert((")"@).len() == 1);
    assert(("not"@)[0] != ("and"@)[0]);
    assert(("iff"@)[2] != ("not"@)[2]);
    assert(("iff"@)[0] != ("and"@)[0]);
    assert(("or"@)[0] != ("if"@)[0]);
    assert(("("@)[0] != (")"@)[0]);
    match t {
        SpecToken::Atom(name) => {
            assert(classify(name) == SpecToken::Atom(name));
        },
        SpecToken::Not => {
            assert(classify("not"@) == SpecToken::Not);
        },
        SpecToken::And => {
            assert(classify("and"@) == SpecToken::And);
        },
        SpecToken::Or => {
            assert(classify("or"@) == SpecToken::Or);
        },
        SpecToken::If => {
            assert(classify("if"@) == SpecToken::If);
        },
        SpecToken::Iff => {
            assert(classify("iff"@) == SpecToken::Iff);
        },
        SpecToken::Then => {
            assert(classify("then"@) == SpecToken::Then);
        },
        SpecToken::OpenParen => {
            assert(classify("("@) == SpecToken::OpenParen);
        },
        SpecToken::CloseParen => {
            assert(classify(")"@) == SpecToken::CloseParen);
        },
    }
}

/// Scanning a purely alphabetic stretch only grows the pending run:
/// the lexemes of `w + s` under run `run` are those of `s` under `run + w`.
proof fn lemma_lexemes_run(w: Seq<char>, s: Seq<char>, run: Seq<char>)
    requires
        forall|i: int| 0 <= i < w.len() ==> is_alpha(w[i]),
    ensures
        lexemes_from(w + s, run) == lexemes_from(s, run + w),
    decreases w.len(),
{
    if w.len() == 0 {
        assert(w + s =~= s);
        assert(run + w =~= run);
    } else {
        assert((w + s)[0] == w[0]);
        assert((w + s).len() > 0);
        assert((w + s).drop_first() =~= w.drop_first() + s);
        lemma_lexemes_run(w.drop_first(), s, run.push(w[0]));
        assert(run.push(w[0]) + w.drop_first() =~= run + w);
    }
}

/// The text of a well-formed token is a nonempty alphabetic word or a
/// single parenthesis character.
proof fn lemma_wf_token_text_shape(t: SpecToken)
    requires
        wf_token(t),
    ensures
        token_text(t) =~= seq!['('] || token_text(t) =~= seq![')'] || (token_text(t).len() > 0
            && forall|i: int| 0 <= i < token_text(t).len() ==> is_alpha(token_text(t)[i])),
{
    lemma_keyword_views();
}

/// Serializing well-formed tokens and cutting the text back into lexemes
/// recovers each token's text, in order.
proof fn lemma_lexemes_serialize(ts: Seq<SpecToken>)
    requires
        forall|k: int| 0 <= k < ts.len() ==> wf_token(#[trigger] ts[k]),
    ensures
        lexemes(spec_serialize(ts)) == ts.map_values(|t: SpecToken| token_text(t)),
    decreases ts.len(),
{
    let texts = ts.map_values(|t: SpecToken| token_text(t));
    if ts.len() == 0 {
        assert(lexemes_from(Seq::<char>::empty(), Seq::<char>::empty()) =~= Seq::<
            Seq<char>,
        >::empty());
        assert(texts =~= Seq::<Seq<char>>::empty());
    } else if ts.len() == 1 {
        let w = token_text(ts[0]);
        lemma_wf_token_text_shape(ts[0]);
        if w =~= seq!['('] || w =~= seq![')'] {
            assert(!is_alpha('(')) by {
                assert('(' as u32 == 40);
            }
            assert(!is_alpha(')')) by {
                assert(')' as u32 == 41);
            }
            assert(w.drop_first() =~= Seq::<char>::empty());
            assert(lexemes_from(w, Seq::empty()) == run_words(Seq::empty()) + seq![seq![w[0]]]
                + lexemes_from(Seq::<char>::empty(), Seq::empty()));
            assert(lexemes(w) =~= seq![w]);
        } else {
            assert(w + Seq::<char>::empty() =~= w);
            lemma_lexemes_run(w, Seq::empty(), Seq::empty());
            assert(Seq::<char>::empty() + w =~= w);
            assert(lexemes_from(Seq::<char>::empty(), w) == run_words(w));
            assert(lexemes(w) =~= seq![w]);
        }
        assert(texts =~= seq![w]);
    } else {
        let w = token_text(ts[0]);
        let rest = spec_serialize(ts.drop_first());
        assert(spec_serialize(ts) == w + seq![' '] + rest);
        lemma_lexemes_serialize(ts.drop_first());
        lemma_wf_token_text_shape(ts[0]);
        assert(!is_alpha(' ')) by {
            assert(' ' as u32 == 32);
        }
        if w =~= seq!['('] || w =~= seq![')'] {
            assert(!is_alpha('(')) by {
                assert('(' as u32 == 40);
            }
            assert(!is_alpha(')')) by {
                assert(')' as u32 == 41);
            }
            assert(' ' != '(' && ' ' != ')');
            assert((w + seq![' '] + rest)[0] == w[0]);
            assert((w + seq![' '] + rest).drop_first() =~= seq![' '] + rest);
            assert((seq![' '] + rest)[0] == ' ');
            assert((seq![' '] + rest).drop_first() =~= rest);
            assert(lexemes_from(w + seq![' '] + rest, Seq::empty()) == run_words(Seq::empty())
                + seq![seq![w[0]]] + lexemes_from(seq![' '] + rest, Seq::empty()));
            assert(lexemes_from(seq![' '] + rest, Seq::empty()) == run_words(Seq::empty())
                + lexemes_from(rest, Seq::empty()));
            assert(lexemes(spec_serialize(ts)) =~= seq![w] + lexemes(rest));
        } else {
            assert(w + seq![' '] + rest =~= w + (seq![' '] + rest));
            lemma_lexemes_run(w, seq![' '] + rest, Seq::empty());
            assert(Seq::<char>::empty() + w =~= w);
            assert((seq![' '] + rest)[0] == ' ');
            assert((seq![' '] + rest).drop_first() =~= rest);
            assert(lexemes_from(seq![' '] + rest, w) == run_words(w) + lexemes(rest));
            assert(run_words(w) == seq![w]);
            assert(lexemes(spec_serialize(ts)) =~= seq![w] + lexemes(rest));
        }
        assert(texts =~= seq![w] + ts.drop_first().map_values(|t: SpecToken| token_text(t)));
    }
}

/// A lexeme is a single parenthesis or a nonempty alphabetic word.
spec fn lexeme_shape(w: Seq<char>) -> bool {
    w == seq!['('] || w == seq![')'] || (w.len() > 0 && forall|i: int|
        0 <= i < w.len() ==> is_alpha(w[i]))
}

proof fn lemma_lexemes_shape(s: Seq<char>, run: Seq<char>)
    requires
        forall|i: int| 0 <= i < run.len() ==> is_alpha(run[i]),
    ensures
        forall|k: int|
            0 <= k < lexemes_from(s, run).len() ==> lexeme_shape(
                #[trigger] lexemes_from(s, run)[k],
            ),
    decreases s.len(),
{
    let out = lexemes_from(s, run);
    if s.len() == 0 {
        assert forall|k: int| 0 <= k < out.len() implies lexeme_shape(#[trigger] out[k]) by {
            assert(out[k] == run);
        }
    } else {
        let c = s[0];
        let rest = s.drop_first();
        if is_alpha(c) {
            assert forall|i: int| 0 <= i < run.push(c).len() implies is_alpha(
                #[trigger] run.push(c)[i],
            ) by {
                if i < run.len() {
                    assert(run.push(c)[i] == run[i]);
                }
            }
            lemma_lexemes_shape(rest, run.push(c));
            assert(out == lexemes_from(rest, run.push(c)));
            assert forall|k: int| 0 <= k < out.len() implies lexeme_shape(#[trigger] out[k]) by {
                assert(out[k] == lexemes_from(rest, run.push(c))[k]);
            }
        } else if c == '(' || c == ')' {
            lemma_lexemes_shape(rest, Seq::empty());
            assert forall|k: int| 0 <= k < out.len() implies lexeme_shape(#[trigger] out[k]) by {
                let head = run_words(run) + seq![seq![c]];
                if k < head.len() {
                    if k < run_words(run).len() {
                        assert(out[k] == run);
                    } else {
                        assert(out[k] == seq![c]);
                    }
                } else {
                    assert(out[k] == lexemes_from(rest, Seq::empty())[k - head.len()]);
                }
            }
        } else {
            lemma_lexemes_shape(rest, Seq::empty());
            assert forall|k: int| 0 <= k < out.len() implies lexeme_shape(#[trigger] out[k]) by {
                if k < run_words(run).len() {
                    assert(out[k] == run);
                } else {
                    assert(out[k] == lexemes_from(rest, Seq::empty())[k - run_words(run).len()]);
                }
            }
        }
    }
}

/// Every token that lexing an input produces is well-formed: its atom
/// names are nonempty alphabetic words that are not reserved keywords.
pub proof fn lemma_lex_tokens_wf(s: Seq<char>)
    ensures
        forall|k: int|
            0 <= k < raw_tokens(s).len() ==> wf_token(#[trigger] raw_tokens(s)[k]),
{
    lemma_keyword_views();
    lemma_lexemes_shape(s, Seq::empty());
    assert forall|k: int| 0 <= k < raw_tokens(s).len() implies wf_token(
        #[trigger] raw_tokens(s)[k],
    ) by {
        let w = lexemes(s)[k];
        assert(lexeme_shape(w));
        assert(raw_tokens(s)[k] == classify(w));
        if classify(w) is Atom {
            assert(w != "("@ && w != ")"@);
            assert(w.len() > 0 && forall|i: int| 0 <= i < w.len() ==> is_alpha(w[i]));
        }
    }
}

/// Re-lexing the serialization of a token sequence yields that very
/// sequence, for any sequence the lexer itself could have produced: one of
/// well-formed tokens that passes the two lexing policies.
pub proof fn lemma_serialize_relex(ts: Seq<SpecToken>)
    requires
        forall|k: int| 0 <= k < ts.len() ==> wf_token(#[trigger] ts[k]),
        scan_policy(ts, 0, false) is None,
    ensures
        spec_lex(spec_serialize(ts)) == Ok::<Seq<SpecToken>, LexError>(ts),
{
    lemma_lexemes_serialize(ts);
    let texts = ts.map_values(|t: SpecToken| token_text(t));
    assert forall|k: int| 0 <= k < ts.len() implies #[trigger] raw_tokens(spec_serialize(ts))[k]
        == ts[k] by {
        lemma_classify_text(ts[k]);
        assert(texts[k] == token_text(ts[k]));
    }
    assert(raw_tokens(spec_serialize(ts)) =~= ts);
}

/// A well-formed input, lexed and then parsed, yields a tree whose atom
/// leaves are exactly the input's maximal alphabetic runs that are not
/// reserved keywords, in their order of appearance.
pub proof fn lemma_lex_parse_atom_leaves(input: Seq<char>, toks: Seq<SpecToken>, ast: SpecAst)
    requires
        spec_lex(input) == Ok::<Seq<SpecToken>, LexError>(toks),
        spec_parse(toks) == Ok::<SpecAst, SyntaxError>(ast),
    ensures
        leaf_atoms(ast) == lexemes(input).filter(|w: Seq<char>| classify(w) is Atom),
{
    assert(toks == raw_tokens(input));
    lemma_expr_leaves(toks, 0);
    let r = parse_expr_at(toks, 0)->Ok_0;
    assert(r.1 == toks.len());
    assert(toks.subrange(0, toks.len() as int) =~= toks);
    lemma_atom_names_of_classified(lexemes(input));
}

} // verus!
