//! Query sanitization for the full-text engine: strip operator characters,
//! drop stop words and short tokens, escape quotes, and join the remaining
//! terms with `OR`.

use crate::text::{
    chars_eq_lit, chars_of, lower_of, lowercase, seq_trim, split_ws_tokens, string_from_chars,
    tokens_by, trim_chars, ws_pred,
};
use vstd::prelude::*;

verus! {

/// The characters the full-text engine reads as operators; they are removed
/// from queries outright.
pub open spec fn spec_is_fts_operator(c: char) -> bool {
    c == '?' || c == '*' || c == '(' || c == ')' || c == '{' || c == '}' || c == '-' || c == '\''
}

/// The predicate keeping every character that is not an operator.
pub open spec fn not_operator_pred() -> spec_fn(char) -> bool {
    |c: char| !spec_is_fts_operator(c)
}

/// The fixed English stop-word list; membership is decided on the
/// Unicode-lowercased token.
pub open spec fn is_stop_word(w: Seq<char>) -> bool {
    ||| w == "the"@
    ||| w == "a"@
    ||| w == "an"@
    ||| w == "and"@
    ||| w == "or"@
    ||| w == "but"@
    ||| w == "in"@
    ||| w == "on"@
    ||| w == "at"@
    ||| w == "to"@
    ||| w == "for"@
    ||| w == "of"@
    ||| w == "with"@
    ||| w == "by"@
    ||| w == "from"@
    ||| w == "as"@
    ||| w == "is"@
    ||| w == "are"@
    ||| w == "was"@
    ||| w == "were"@
    ||| w == "be"@
    ||| w == "been"@
    ||| w == "being"@
    ||| w == "have"@
    ||| w == "has"@
    ||| w == "had"@
    ||| w == "do"@
    ||| w == "does"@
    ||| w == "did"@
    ||| w == "will"@
    ||| w == "would"@
    ||| w == "should"@
    ||| w == "could"@
    ||| w == "what"@
    ||| w == "which"@
    ||| w == "who"@
    ||| w == "where"@
    ||| w == "when"@
    ||| w == "why"@
    ||| w == "how"@
    ||| w == "this"@
    ||| w == "that"@
    ||| w == "these"@
    ||| w == "those"@
}

/// The predicate keeping a token: at least two characters and not a stop
/// word (after lowercasing).
pub open spec fn keep_term_pred() -> spec_fn(Seq<char>) -> bool {
    |t: Seq<char>| t.len() >= 2 && !is_stop_word(lower_of(t))
}

/// Every double quote doubled, all other characters unchanged.
pub open spec fn esc_quotes(s: Seq<char>) -> Seq<char>
    decreases s.len(),
{
    if s.len() == 0 {
        Seq::<char>::empty()
    } else {
        (if s[0] == '"' {
            seq!['"', '"']
        } else {
            seq![s[0]]
        }) + esc_quotes(s.drop_first())
    }
}

/// The terms joined by the `OR` operator.
pub open spec fn join_or(ts: Seq<Seq<char>>) -> Seq<char>
    decreases ts.len(),
{
    if ts.len() == 0 {
        Seq::<char>::empty()
    } else if ts.len() == 1 {
        ts[0]
    } else {
        ts[0] + " OR "@ + join_or(ts.drop_first())
    }
}

/// The sanitized form of a raw query: trim, strip operator characters,
/// tokenize on whitespace, drop stop words and one-character tokens, escape
/// double quotes; a lone term stands alone, several are joined with `OR`,
/// and when every token was dropped the cleaned text itself (quotes escaped)
/// is the fallback.
pub open spec fn sanitized_query(q: Seq<char>) -> Seq<char> {
    let cleaned = seq_trim(q).filter(not_operator_pred());
    let terms = tokens_by(cleaned, ws_pred()).filter(keep_term_pred());
    if terms.len() == 0 {
        esc_quotes(cleaned)
    } else if terms.len() == 1 {
        esc_quotes(terms[0])
    } else {
        join_or(terms.map_values(|t: Seq<char>| esc_quotes(t)))
    }
}

/// The characters of `v` that are not full-text operators, in order.
fn strip_operators(v: &Vec<char>) -> (r: Vec<char>)
    ensures
        r@ == v@.filter(not_operator_pred()),
{
    let mut r: Vec<char> = Vec::new();
    let mut i: usize = 0;
    proof {
        assert(v@.subrange(0, 0).filter(not_operator_pred()) =~= Seq::<char>::empty());
    }
    while i < v.len()
        invariant
            i <= v.len(),
            r@ == v@.subrange(0, i as int).filter(not_operator_pred()),
        decreases v.len() - i,
    {
        let c = v[i];
        proof {
            let pre = v@.subrange(0, i as int);
            let cur = v@.subrange(0, i + 1 as int);
            assert(cur.drop_last() =~= pre);
            reveal_with_fuel(Seq::filter, 1);
            assert(not_operator_pred()(v@[i as int]) == !spec_is_fts_operator(v@[i as int]));
            if !spec_is_fts_operator(v@[i as int]) {
                assert(cur.filter(not_operator_pred()) =~= pre.filter(not_operator_pred()).push(
                    v@[i as int],
                ));
            } else {
                assert(cur.filter(not_operator_pred()) =~= pre.filter(not_operator_pred()));
            }
        }
        if !(c == '?' || c == '*' || c == '(' || c == ')' || c == '{' || c == '}' || c == '-' || c
            == '\'') {
            r.push(c);
        }
        i = i + 1;
    }
    proof {
        assert(v@.subrange(0, v@.len() as int) =~= v@);
    }
    r
}

/// Whether the token's lowercased form is on the stop-word list.
fn is_stop_token(t: &Vec<char>) -> (r: bool)
    ensures
        r == is_stop_word(lower_of(t@)),
{
    let s = string_from_chars(t);
    let lw = lowercase(s.as_str());
    let lv = chars_of(lw.as_str());
    chars_eq_lit(&lv, "the") || chars_eq_lit(&lv, "a") || chars_eq_lit(&lv, "an") || chars_eq_lit(
        &lv,
        "and",
    ) || chars_eq_lit(&lv, "or") || chars_eq_lit(&lv, "but") || chars_eq_lit(&lv, "in")
        || chars_eq_lit(&lv, "on") || chars_eq_lit(&lv, "at") || chars_eq_lit(&lv, "to")
        || chars_eq_lit(&lv, "for") || chars_eq_lit(&lv, "of") || chars_eq_lit(&lv, "with")
        || chars_eq_lit(&lv, "by") || chars_eq_lit(&lv, "from") || chars_eq_lit(&lv, "as")
        || chars_eq_lit(&lv, "is") || chars_eq_lit(&lv, "are") || chars_eq_lit(&lv, "was")
        || chars_eq_lit(&lv, "were") || chars_eq_lit(&lv, "be") || chars_eq_lit(&lv, "been")
        || chars_eq_lit(&lv, "being") || chars_eq_lit(&lv, "have") || chars_eq_lit(&lv, "has")
        || chars_eq_lit(&lv, "had") || chars_eq_lit(&lv, "do") || chars_eq_lit(&lv, "does")
        || chars_eq_lit(&lv, "did") || chars_eq_lit(&lv, "will") || chars_eq_lit(&lv, "would")
        || chars_eq_lit(&lv, "should") || chars_eq_lit(&lv, "could") || chars_eq_lit(&lv, "what")
        || chars_eq_lit(&lv, "which") || chars_eq_lit(&lv, "who") || chars_eq_lit(&lv, "where")
        || chars_eq_lit(&lv, "when") || chars_eq_lit(&lv, "why") || chars_eq_lit(&lv, "how")
        || chars_eq_lit(&lv, "this") || chars_eq_lit(&lv, "that") || chars_eq_lit(&lv, "these")
        || chars_eq_lit(&lv, "those")
}

/// The tokens that survive the stop-word and length filter, in order.
fn filter_terms(ts: &Vec<Vec<char>>) -> (r: Vec<Vec<char>>)
    ensures
        r.deep_view() == ts.deep_view().filter(keep_term_pred()),
{
    let mut r: Vec<Vec<char>> = Vec::new();
    let mut i: usize = 0;
    proof {
        assert(ts.deep_view().subrange(0, 0).filter(keep_term_pred()) =~= Seq::<Seq<char>>::empty());
    }
    while i < ts.len()
        invariant
            i <= ts.len(),
            r.deep_view() == ts.deep_view().subrange(0, i as int).filter(keep_term_pred()),
        decreases ts.len() - i,
    {
        let keep = ts[i].len() >= 2 && !is_stop_token(&ts[i]);
        proof {
            let pre = ts.deep_view().subrange(0, i as int);
            let cur = ts.deep_view().subrange(0, i + 1 as int);
            assert(cur.drop_last() =~= pre);
            assert(cur.last() == ts.deep_view()[i as int]);
            reveal_with_fuel(Seq::filter, 1);
            assert(ts.deep_view()[i as int] == ts@[i as int]@);
            assert(keep_term_pred()(ts.deep_view()[i as int]) == (ts@[i as int]@.len() >= 2
                && !is_stop_word(lower_of(ts@[i as int]@))));
            if keep {
                assert(cur.filter(keep_term_pred()) =~= pre.filter(keep_term_pred()).push(
                    ts.deep_view()[i as int],
                ));
            } else {
                assert(cur.filter(keep_term_pred()) =~= pre.filter(keep_term_pred()));
            }
        }
        if keep {
            let t = crate::text::subvec(&ts[i], 0, ts[i].len());
            let ghost old_dv = r.deep_view();
            r.push(t);
            proof {
                assert(t@ =~= ts.deep_view()[i as int]);
                assert(r.deep_view() =~~= old_dv.push(ts.deep_view()[i as int]));
            }
        }
        i = i + 1;
    }
    proof {
        assert(ts.deep_view().subrange(0, ts.deep_view().len() as int) =~= ts.deep_view());
    }
    r
}

/// Every double quote of `v` doubled.
fn escape_quotes(v: &Vec<char>) -> (r: Vec<char>)
    ensures
        r@ == esc_quotes(v@),
{
    let mut r: Vec<char> = Vec::new();
    let mut i: usize = 0;
    proof {
        assert(v@.subrange(0, v@.len() as int) =~= v@);
        assert(r@ + esc_quotes(v@) =~= esc_quotes(v@));
    }
    while i < v.len()
        invariant
            i <= v.len(),
            r@ + esc_quotes(v@.subrange(i as int, v@.len() as int)) == esc_quotes(v@),
        decreases v.len() - i,
    {
        proof {
            let m = v@.subrange(i as int, v@.len() as int);
            assert(m.drop_first() =~= v@.subrange(i + 1, v@.len() as int));
            assert(m[0] == v@[i as int]);
        }
        if v[i] == '"' {
            r.push('"');
            r.push('"');
        } else {
            r.push(v[i]);
        }
        proof {
            let piece: Seq<char> = if v@[i as int] == '"' {
                seq!['"', '"']
            } else {
                seq![v@[i as int]]
            };
            assert(r@ + esc_quotes(v@.subrange(i + 1, v@.len() as int)) =~= esc_quotes(v@));
        }
        i = i + 1;
    }
    proof {
        assert(v@.subrange(v@.len() as int, v@.len() as int) =~= Seq::<char>::empty());
        assert(r@ + esc_quotes(Seq::<char>::empty()) =~= r@);
    }
    r
}

/// The escaped terms joined with `" OR "`.
fn join_terms_or(ts: &Vec<Vec<char>>) -> (r: Vec<char>)
    ensures
        r@ == join_or(ts.deep_view().map_values(|t: Seq<char>| esc_quotes(t))),
{
    let ghost target = ts.deep_view().map_values(|t: Seq<char>| esc_quotes(t));
    let mut r: Vec<char> = Vec::new();
    let mut i: usize = 0;
    proof {
        assert(target.subrange(0, 0) =~= Seq::<Seq<char>>::empty());
        assert(r@ =~= join_or(target.subrange(0, 0)));
    }
    while i < ts.len()
        invariant
            i <= ts.len(),
            r@ == join_or(
                ts.deep_view().map_values(|t: Seq<char>| esc_quotes(t)).subrange(0, i as int),
            ),
        decreases ts.len() - i,
    {
        proof {
            let m = ts.deep_view().map_values(|t: Seq<char>| esc_quotes(t));
            lemma_join_or_push(m.subrange(0, i as int), m[i as int]);
            assert(m.subrange(0, i as int).push(m[i as int]) =~= m.subrange(0, i + 1 as int));
        }
        if i > 0 {
            let sep = chars_of(" OR ");
            let mut k: usize = 0;
            let ghost before = r@;
            while k < sep.len()
                invariant
                    k <= sep.len(),
                    sep@ == " OR "@,
                    r@ == before + sep@.subrange(0, k as int),
                decreases sep.len() - k,
            {
                r.push(sep[k]);
                proof {
                    assert(before + sep@.subrange(0, k + 1 as int) =~= (before + sep@.subrange(
                        0,
                        k as int,
                    )).push(sep@[k as int]));
                }
                k = k + 1;
            }
            proof {
                assert(sep@.subrange(0, sep@.len() as int) =~= sep@);
            }
        }
        let e = escape_quotes(&ts[i]);
        let mut k: usize = 0;
        let ghost before = r@;
        while k < e.len()
            invariant
                k <= e.len(),
                r@ == before + e@.subrange(0, k as int),
            decreases e.len() - k,
        {
            r.push(e[k]);
            proof {
                assert(before + e@.subrange(0, k + 1 as int) =~= (before + e@.subrange(
                    0,
                    k as int,
                )).push(e@[k as int]));
            }
            k = k + 1;
        }
        proof {
            assert(e@.subrange(0, e@.len() as int) =~= e@);
            let m = ts.deep_view().map_values(|t: Seq<char>| esc_quotes(t));
            assert(m[i as int] == esc_quotes(ts.deep_view()[i as int]));
            assert(ts.deep_view()[i as int] == ts@[i as int]@);
            assert(r@ =~= join_or(m.subrange(0, i + 1 as int)));
        }
        i = i + 1;
    }
    proof {
        let m = ts.deep_view().map_values(|t: Seq<char>| esc_quotes(t));
        assert(m.subrange(0, m.len() as int) =~= m);
    }
    r
}

proof fn lemma_join_or_push(ts: Seq<Seq<char>>, t: Seq<char>)
    ensures
        join_or(ts.push(t)) == if ts.len() == 0 {
            t
        } else {
            join_or(ts) + " OR "@ + t
        },
    decreases ts.len(),
{
    if ts.len() == 0 {
        assert(ts.push(t)[0] == t);
    } else if ts.len() == 1 {
        assert(ts.push(t).drop_first() =~= seq![t]);
        assert(join_or(seq![t]) == t);
    } else {
        lemma_join_or_push(ts.drop_first(), t);
        assert(ts.push(t).drop_first() =~= ts.drop_first().push(t));
        assert(join_or(ts.push(t)) =~= join_or(ts) + " OR "@ + t);
    }
}

/// The raw query in the exact form handed to the full-text engine.
pub fn sanitize_fts5_query(query: &str) -> (r: String)
    ensures
        r@ == sanitized_query(query@),
{
    let cs = chars_of(query);
    let trimmed = trim_chars(&cs);
    let cleaned = strip_operators(&trimmed);
    let toks = split_ws_tokens(&cleaned);
    let terms = filter_terms(&toks);
    if terms.len() == 0 {
        let e = escape_quotes(&cleaned);
        string_from_chars(&e)
    } else if terms.len() == 1 {
        proof {
            assert(terms.deep_view()[0] == terms@[0]@);
        }
        let e = escape_quotes(&terms[0]);
        string_from_chars(&e)
    } else {
        let j = join_terms_or(&terms);
        string_from_chars(&j)
    }
}

} // verus!
