//! Character-level text utilities shared by the parsing, chunking and
//! sanitization code. All logic here works on `Vec<char>` / `Seq<char>`.

use vstd::prelude::*;
use vstd::std_specs::iter::IteratorSpec;

verus! {

/// The Unicode `White_Space` code points, as `char::is_whitespace` and
/// `str::split_whitespace` classify them.
pub open spec fn spec_is_ws(c: char) -> bool {
    let u = c as u32;
    u == 0x20 || (0x09 <= u && u <= 0x0D) || u == 0x85 || u == 0xA0 || u == 0x1680 || (0x2000
        <= u && u <= 0x200A) || u == 0x2028 || u == 0x2029 || u == 0x202F || u == 0x205F || u
        == 0x3000
}

/// Executable test for the Unicode `White_Space` code points.
#[verifier::when_used_as_spec(spec_is_ws)]
pub fn is_ws(c: char) -> (b: bool)
    ensures
        b == spec_is_ws(c),
{
    let u = c as u32;
    u == 0x20 || (0x09 <= u && u <= 0x0D) || u == 0x85 || u == 0xA0 || u == 0x1680 || (0x2000
        <= u && u <= 0x200A) || u == 0x2028 || u == 0x2029 || u == 0x202F || u == 0x205F || u
        == 0x3000
}

/// The predicate holding of the character `sep` alone.
pub open spec fn eq_char_pred(sep: char) -> spec_fn(char) -> bool {
    |c: char| c == sep
}

/// The whitespace predicate, as a value.
pub open spec fn ws_pred() -> spec_fn(char) -> bool {
    |c: char| spec_is_ws(c)
}

/// The predicate holding of non-empty character sequences.
pub open spec fn nonempty_pred() -> spec_fn(Seq<char>) -> bool {
    |t: Seq<char>| t.len() != 0
}

/// The ASCII lowercase image of a character: `'A'..='Z'` shift down by 32,
/// all other characters stay.
pub open spec fn spec_lower_ascii(c: char) -> char {
    if 'A' <= c && c <= 'Z' {
        ((c as u8) + 32) as char
    } else {
        c
    }
}

/// Executable ASCII lowering of one character.
#[verifier::when_used_as_spec(spec_lower_ascii)]
pub fn lower_ascii(c: char) -> (r: char)
    ensures
        r == spec_lower_ascii(c),
{
    if 'A' <= c && c <= 'Z' {
        ((c as u8) + 32) as char
    } else {
        c
    }
}

/// The characters of a string, in order.
pub fn chars_of(s: &str) -> (v: Vec<char>)
    ensures
        v@ == s@,
{
    broadcast use vstd::string::next_postcondition, vstd::string::axiom_spec_iter;

    let mut it = s.chars();
    let mut v: Vec<char> = Vec::new();
    loop
        invariant
            it.obeys_prophetic_iter_laws(),
            it.decrease() is Some,
            v@ + it.remaining() == s@,
        ensures
            v@ == s@,
        decreases it.decrease()->0,
    {
        match it.next() {
            Some(c) => {
                v.push(c);
                proof {
                    assert(v@ + it.remaining() =~= s@);
                }
            },
            None => {
                proof {
                    assert(v@ =~= s@);
                }
                break ;
            },
        }
    }
    v
}

/// Relies on `String::push`: appends one character to the end of the string.
#[verifier::external_body]
pub fn push_char(s: &mut String, c: char)
    ensures
        final (s)@ == old(s)@.push(c),
{
    s.push(c)
}

/// A string holding exactly the given characters, in order.
pub fn string_from_chars(v: &Vec<char>) -> (s: String)
    ensures
        s@ == v@,
{
    let mut s = String::new();
    let mut i: usize = 0;
    while i < v.len()
        invariant
            i <= v.len(),
            s@ == v@.subrange(0, i as int),
        decreases v.len() - i,
    {
        push_char(&mut s, v[i]);
        proof {
            assert(s@ =~= v@.subrange(0, i + 1 as int));
        }
        i = i + 1;
    }
    proof {
        assert(s@ =~= v@);
    }
    s
}

/// The Unicode-lowercased form of a character sequence, as
/// `str::to_lowercase` produces it. The mapping depends on the characters
/// alone, never on any environment.
pub uninterp spec fn lower_of(s: Seq<char>) -> Seq<char>;

/// Relies on `str::to_lowercase`: the Unicode lowercase mapping of the
/// string; an empty string stays empty.
#[verifier::external_body]
pub fn lowercase(s: &str) -> (r: String)
    ensures
        r@ == lower_of(s@),
        s@.len() == 0 ==> r@.len() == 0,
{
    s.to_lowercase()
}

/// The sequence with its leading whitespace dropped.
pub open spec fn trim_front(s: Seq<char>) -> Seq<char>
    decreases s.len(),
{
    if s.len() > 0 && spec_is_ws(s[0]) {
        trim_front(s.drop_first())
    } else {
        s
    }
}

/// The sequence with its trailing whitespace dropped.
pub open spec fn trim_back(s: Seq<char>) -> Seq<char>
    decreases s.len(),
{
    if s.len() > 0 && spec_is_ws(s[s.len() - 1]) {
        trim_back(s.drop_last())
    } else {
        s
    }
}

/// The sequence with leading and trailing whitespace dropped, as `str::trim`.
pub open spec fn seq_trim(s: Seq<char>) -> Seq<char> {
    trim_back(trim_front(s))
}

proof fn lemma_trim_front_subrange(s: Seq<char>, i: int)
    requires
        0 <= i <= s.len(),
        forall|j: int| 0 <= j < i ==> spec_is_ws(s[j]),
    ensures
        trim_front(s) == trim_front(s.subrange(i, s.len() as int)),
    decreases i,
{
    if i > 0 {
        assert(s.subrange(1, s.len() as int) =~= s.drop_first());
        lemma_trim_front_subrange(s.drop_first(), i - 1);
        assert(s.drop_first().subrange(i - 1, s.drop_first().len() as int) =~= s.subrange(
            i,
            s.len() as int,
        ));
    } else {
        assert(s.subrange(0, s.len() as int) =~= s);
    }
}

proof fn lemma_trim_back_subrange(s: Seq<char>, i: int)
    requires
        0 <= i <= s.len(),
        forall|j: int| i <= j < s.len() ==> spec_is_ws(s[j]),
    ensures
        trim_back(s) == trim_back(s.subrange(0, i)),
    decreases s.len() - i,
{
    if i < s.len() {
        assert(s.subrange(0, s.len() - 1) =~= s.drop_last());
        lemma_trim_back_subrange(s.drop_last(), i);
        assert(s.drop_last().subrange(0, i) =~= s.subrange(0, i));
    } else {
        assert(s.subrange(0, s.len() as int) =~= s);
    }
}

/// The characters of `v` with leading and trailing whitespace dropped.
pub fn trim_chars(v: &Vec<char>) -> (r: Vec<char>)
    ensures
        r@ == seq_trim(v@),
{
    let mut lo: usize = 0;
    while lo < v.len() && is_ws(v[lo])
        invariant
            lo <= v.len(),
            forall|j: int| 0 <= j < lo ==> spec_is_ws(v@[j]),
        decreases v.len() - lo,
    {
        lo = lo + 1;
    }
    let mut hi: usize = v.len();
    while hi > lo && is_ws(v[hi - 1])
        invariant
            lo <= hi <= v.len(),
            forall|j: int| 0 <= j < lo ==> spec_is_ws(v@[j]),
            forall|j: int| hi <= j < v.len() ==> spec_is_ws(v@[j]),
        decreases hi,
    {
        hi = hi - 1;
    }
    let mut r: Vec<char> = Vec::new();
    let mut i: usize = lo;
    while i < hi
        invariant
            lo <= i <= hi <= v.len(),
            r@ == v@.subrange(lo as int, i as int),
        decreases hi - i,
    {
        r.push(v[i]);
        proof {
            assert(r@ =~= v@.subrange(lo as int, i + 1 as int));
        }
        i = i + 1;
    }
    proof {
        let m = v@.subrange(lo as int, v@.len() as int);
        lemma_trim_front_subrange(v@, lo as int);
        assert(trim_front(m) == m);
        let t = m.subrange(0, hi - lo);
        lemma_trim_back_subrange(m, hi - lo);
        assert(trim_back(t) == t);
        assert(t =~= v@.subrange(lo as int, hi as int));
    }
    r
}

/// The pieces of `s` between separator characters (characters satisfying
/// `p`), in order. A sequence with no separator splits into itself alone;
/// every separator ends one piece and starts the next, so empty pieces
/// appear between adjacent separators.
pub open spec fn split_by(s: Seq<char>, p: spec_fn(char) -> bool) -> Seq<Seq<char>>
    decreases s.len(),
{
    if s.len() == 0 {
        seq![Seq::<char>::empty()]
    } else if p(s[0]) {
        seq![Seq::<char>::empty()] + split_by(s.drop_first(), p)
    } else {
        let rest = split_by(s.drop_first(), p);
        seq![seq![s[0]] + rest[0]] + rest.drop_first()
    }
}

pub proof fn lemma_split_by_nonempty(s: Seq<char>, p: spec_fn(char) -> bool)
    ensures
        split_by(s, p).len() >= 1,
    decreases s.len(),
{
    if s.len() > 0 {
        lemma_split_by_nonempty(s.drop_first(), p);
    }
}

/// Splitting a separator-free sequence yields that sequence alone.
pub proof fn lemma_split_by_none(s: Seq<char>, p: spec_fn(char) -> bool)
    requires
        forall|j: int| 0 <= j < s.len() ==> !p(s[j]),
    ensures
        split_by(s, p) == seq![s],
    decreases s.len(),
{
    if s.len() == 0 {
        assert(Seq::<char>::empty() =~= s);
        assert(split_by(s, p) =~= seq![s]);
    } else {
        lemma_split_by_none(s.drop_first(), p);
        let rest = split_by(s.drop_first(), p);
        assert(rest[0] == s.drop_first());
        assert(seq![s[0]] + s.drop_first() =~= s);
        assert(rest.drop_first() =~= Seq::<Seq<char>>::empty());
        assert(split_by(s, p) =~= seq![s]);
    }
}

/// At the first separator position `i`, the split is the prefix before `i`
/// followed by the split of everything after `i`.
pub proof fn lemma_split_by_step(s: Seq<char>, p: spec_fn(char) -> bool, i: int)
    requires
        0 <= i < s.len(),
        p(s[i]),
        forall|j: int| 0 <= j < i ==> !p(s[j]),
    ensures
        split_by(s, p) == seq![s.subrange(0, i)] + split_by(s.subrange(i + 1, s.len() as int), p),
    decreases i,
{
    if i == 0 {
        assert(s.subrange(0, 0) =~= Seq::<char>::empty());
        assert(s.drop_first() =~= s.subrange(1, s.len() as int));
        assert(split_by(s, p) =~= seq![s.subrange(0, 0)] + split_by(
            s.subrange(1, s.len() as int),
            p,
        ));
    } else {
        let d = s.drop_first();
        lemma_split_by_step(d, p, i - 1);
        lemma_split_by_nonempty(d.subrange(i, d.len() as int), p);
        let rest = split_by(d, p);
        assert(rest[0] == d.subrange(0, i - 1));
        assert(seq![s[0]] + d.subrange(0, i - 1) =~= s.subrange(0, i));
        assert(rest.drop_first() =~= split_by(d.subrange(i, d.len() as int), p));
        assert(d.subrange(i, d.len() as int) =~= s.subrange(i + 1, s.len() as int));
        assert(split_by(s, p) =~= seq![s.subrange(0, i)] + split_by(
            s.subrange(i + 1, s.len() as int),
            p,
        ));
    }
}

/// The tokens of `s`: the non-empty pieces between separators, as
/// `str::split_whitespace` yields them when `p` is the whitespace test.
pub open spec fn tokens_by(s: Seq<char>, p: spec_fn(char) -> bool) -> Seq<Seq<char>> {
    split_by(s, p).filter(nonempty_pred())
}

/// The pieces joined with a single separator character between them.
pub open spec fn join_with(ts: Seq<Seq<char>>, sep: char) -> Seq<char>
    decreases ts.len(),
{
    if ts.len() == 0 {
        Seq::<char>::empty()
    } else if ts.len() == 1 {
        ts[0]
    } else {
        ts[0] + seq![sep] + join_with(ts.drop_first(), sep)
    }
}

pub proof fn lemma_join_with_push(ts: Seq<Seq<char>>, t: Seq<char>, sep: char)
    ensures
        join_with(ts.push(t), sep) == if ts.len() == 0 {
            t
        } else {
            join_with(ts, sep) + seq![sep] + t
        },
    decreases ts.len(),
{
    if ts.len() == 0 {
        assert(ts.push(t)[0] == t);
    } else if ts.len() == 1 {
        assert(ts.push(t).drop_first() =~= seq![t]);
        assert(join_with(seq![t], sep) == t);
    } else {
        lemma_join_with_push(ts.drop_first(), t, sep);
        assert(ts.push(t).drop_first() =~= ts.drop_first().push(t));
        assert(join_with(ts.push(t), sep) =~= join_with(ts, sep) + seq![sep] + t);
    }
}

/// A copy of `v[from..to]`.
pub fn subvec(v: &Vec<char>, from: usize, to: usize) -> (r: Vec<char>)
    requires
        from <= to <= v@.len(),
    ensures
        r@ == v@.subrange(from as int, to as int),
{
    let mut r: Vec<char> = Vec::new();
    let mut i: usize = from;
    while i < to
        invariant
            from <= i <= to <= v@.len(),
            r@ == v@.subrange(from as int, i as int),
        decreases to - i,
    {
        r.push(v[i]);
        proof {
            assert(r@ =~= v@.subrange(from as int, i + 1 as int));
        }
        i = i + 1;
    }
    r
}

/// The pieces of `v` between occurrences of the character `sep`, empties
/// included, exactly as `split_by` describes them.
pub fn split_char(v: &Vec<char>, sep: char) -> (r: Vec<Vec<char>>)
    ensures
        r.deep_view() == split_by(v@, eq_char_pred(sep)),
        r.len() >= 1,
{
    let mut r: Vec<Vec<char>> = Vec::new();
    let mut start: usize = 0;
    let mut i: usize = 0;
    proof {
        assert(v@.subrange(0, v@.len() as int) =~= v@);
        assert(r.deep_view() + split_by(v@, eq_char_pred(sep)) =~= split_by(v@, eq_char_pred(sep)));
    }
    while i < v.len()
        invariant
            start <= i <= v.len(),
            forall|j: int| start <= j < i ==> !eq_char_pred(sep)(v@[j]),
            split_by(v@, eq_char_pred(sep)) == r.deep_view() + split_by(v@.subrange(start as int, v@.len() as int), eq_char_pred(sep)),
        decreases v.len() - i,
    {
        proof {
            assert(eq_char_pred(sep)(v@[i as int]) == (v@[i as int] == sep));
        }
        if v[i] == sep {
            let seg = subvec(v, start, i);
            proof {
                let m = v@.subrange(start as int, v@.len() as int);
                assert(m[i - start] == v@[i as int]);
                lemma_split_by_step(m, eq_char_pred(sep), i - start);
                assert(m.subrange(0, i - start) =~= v@.subrange(start as int, i as int));
                assert(m.subrange(i - start + 1, m.len() as int) =~= v@.subrange(
                    i + 1,
                    v@.len() as int,
                ));
            }
            let ghost old_dv = r.deep_view();
            r.push(seg);
            proof {
                assert(r.deep_view() =~~= old_dv.push(seg@));
                assert(old_dv.push(seg@) =~= old_dv + seq![seg@]);
                assert((old_dv + seq![seg@]) + split_by(
                    v@.subrange(i + 1, v@.len() as int),
                    eq_char_pred(sep),
                ) =~= old_dv + (seq![seg@] + split_by(
                    v@.subrange(i + 1, v@.len() as int),
                    eq_char_pred(sep),
                )));
            }
            start = i + 1;
        }
        i = i + 1;
    }
    let seg = subvec(v, start, v.len());
    let ghost old_dv = r.deep_view();
    r.push(seg);
    proof {
        let m = v@.subrange(start as int, v@.len() as int);
        lemma_split_by_none(m, eq_char_pred(sep));
        assert(r.deep_view() =~~= old_dv.push(seg@));
        assert(old_dv.push(seg@) =~= old_dv + seq![m]);
        lemma_split_by_nonempty(v@, eq_char_pred(sep));
    }
    r
}

/// The whitespace-delimited tokens of `v`, empties dropped, exactly as
/// `str::split_whitespace` yields them.
pub fn split_ws_tokens(v: &Vec<char>) -> (r: Vec<Vec<char>>)
    ensures
        r.deep_view() == tokens_by(v@, ws_pred()),
{
    let mut r: Vec<Vec<char>> = Vec::new();
    let mut start: usize = 0;
    let mut i: usize = 0;
    proof {
        assert(v@.subrange(0, v@.len() as int) =~= v@);
        assert(r.deep_view() + split_by(v@, ws_pred()).filter(nonempty_pred()) =~= split_by(
            v@,
            ws_pred(),
        ).filter(nonempty_pred()));
    }
    while i < v.len()
        invariant
            start <= i <= v.len(),
            forall|j: int| start <= j < i ==> !ws_pred()(v@[j]),
            split_by(v@, ws_pred()).filter(nonempty_pred()) == r.deep_view() + split_by(
                v@.subrange(start as int, v@.len() as int),
                ws_pred(),
            ).filter(nonempty_pred()),
        decreases v.len() - i,
    {
        proof {
            assert(ws_pred()(v@[i as int]) == spec_is_ws(v@[i as int]));
        }
        if is_ws(v[i]) {
            proof {
                let m = v@.subrange(start as int, v@.len() as int);
                assert(m[i - start] == v@[i as int]);
                lemma_split_by_step(m, ws_pred(), i - start);
                let head = m.subrange(0, i - start);
                let tail_split = split_by(m.subrange(i - start + 1, m.len() as int), ws_pred());
                assert((seq![head] + tail_split).filter(nonempty_pred()) =~= seq![head].filter(
                    nonempty_pred(),
                ) + tail_split.filter(nonempty_pred())) by {
                    Seq::filter_distributes_over_add(seq![head], tail_split, nonempty_pred());
                }
                reveal_with_fuel(Seq::filter, 2);
                assert(head =~= v@.subrange(start as int, i as int));
                assert(m.subrange(i - start + 1, m.len() as int) =~= v@.subrange(
                    i + 1,
                    v@.len() as int,
                ));
                assert(seq![head].drop_last() =~= Seq::<Seq<char>>::empty());
                if head.len() == 0 {
                    assert(seq![head].filter(nonempty_pred()) =~= Seq::<Seq<char>>::empty());
                } else {
                    assert(seq![head].filter(nonempty_pred()) =~= seq![head]);
                }
            }
            if i > start {
                let seg = subvec(v, start, i);
                let ghost old_dv = r.deep_view();
                r.push(seg);
                proof {
                    assert(r.deep_view() =~~= old_dv.push(seg@));
                    assert(old_dv.push(seg@) =~= old_dv + seq![seg@]);
                    assert((old_dv + seq![seg@]) + split_by(
                        v@.subrange(i + 1, v@.len() as int),
                        ws_pred(),
                    ).filter(nonempty_pred()) =~= old_dv + (seq![seg@] + split_by(
                        v@.subrange(i + 1, v@.len() as int),
                        ws_pred(),
                    ).filter(nonempty_pred())));
                }
            }
            start = i + 1;
        }
        i = i + 1;
    }
    proof {
        let m = v@.subrange(start as int, v@.len() as int);
        lemma_split_by_none(m, ws_pred());
        reveal_with_fuel(Seq::filter, 2);
        assert(seq![m].drop_last() =~= Seq::<Seq<char>>::empty());
        if m.len() == 0 {
            assert(seq![m].filter(nonempty_pred()) =~= Seq::<Seq<char>>::empty());
            assert(r.deep_view() + seq![m].filter(nonempty_pred()) =~= r.deep_view());
        } else {
            assert(seq![m].filter(nonempty_pred()) =~= seq![m]);
        }
    }
    if start < v.len() {
        let seg = subvec(v, start, v.len());
        let ghost old_dv = r.deep_view();
        r.push(seg);
        proof {
            let m = v@.subrange(start as int, v@.len() as int);
            assert(r.deep_view() =~~= old_dv.push(seg@));
            assert(old_dv.push(seg@) =~= old_dv + seq![m]);
        }
    }
    r
}

/// The tokens joined with the separator character between them.
pub fn join_tokens(ts: &Vec<Vec<char>>, sep: char) -> (r: Vec<char>)
    ensures
        r@ == join_with(ts.deep_view(), sep),
{
    let mut r: Vec<char> = Vec::new();
    let mut i: usize = 0;
    while i < ts.len()
        invariant
            i <= ts.len(),
            r@ == join_with(ts.deep_view().subrange(0, i as int), sep),
        decreases ts.len() - i,
    {
        proof {
            let pre = ts.deep_view().subrange(0, i as int);
            lemma_join_with_push(pre, ts.deep_view()[i as int], sep);
            assert(pre.push(ts.deep_view()[i as int]) =~= ts.deep_view().subrange(0, i + 1 as int));
        }
        if i > 0 {
            r.push(sep);
        }
        let t = &ts[i];
        let mut k: usize = 0;
        while k < t.len()
            invariant
                k <= t.len(),
                r@ == if i == 0 {
                    t@.subrange(0, k as int)
                } else {
                    join_with(ts.deep_view().subrange(0, i as int), sep) + seq![sep] + t@.subrange(
                        0,
                        k as int,
                    )
                },
        decreases t.len() - k,
        {
            r.push(t[k]);
            proof {
                assert(t@.subrange(0, k + 1 as int) =~= t@.subrange(0, k as int).push(t@[k as int]));
            }
            k = k + 1;
        }
        proof {
            assert(t@.subrange(0, t@.len() as int) =~= t@);
            assert(ts.deep_view()[i as int] == t@);
        }
        i = i + 1;
    }
    proof {
        assert(ts.deep_view().subrange(0, ts.deep_view().len() as int) =~= ts.deep_view());
    }
    r
}


/// The non-empty sequences of `ts`, in order.
pub fn filter_nonempty(ts: &Vec<Vec<char>>) -> (r: Vec<Vec<char>>)
    ensures
        r.deep_view() == ts.deep_view().filter(nonempty_pred()),
{
    let mut r: Vec<Vec<char>> = Vec::new();
    let mut i: usize = 0;
    proof {
        assert(ts.deep_view().subrange(0, 0).filter(nonempty_pred()) =~= Seq::<Seq<char>>::empty());
    }
    while i < ts.len()
        invariant
            i <= ts.len(),
            r.deep_view() == ts.deep_view().subrange(0, i as int).filter(nonempty_pred()),
        decreases ts.len() - i,
    {
        proof {
            let pre = ts.deep_view().subrange(0, i as int);
            let cur = ts.deep_view().subrange(0, i + 1 as int);
            assert(cur.drop_last() =~= pre);
            assert(cur.last() == ts.deep_view()[i as int]);
            reveal_with_fuel(Seq::filter, 1);
            if ts.deep_view()[i as int].len() != 0 {
                assert(cur.filter(nonempty_pred()) =~= pre.filter(nonempty_pred()).push(
                    ts.deep_view()[i as int],
                ));
            } else {
                assert(cur.filter(nonempty_pred()) =~= pre.filter(nonempty_pred()));
            }
        }
        if ts[i].len() > 0 {
            let t = subvec(&ts[i], 0, ts[i].len());
            let ghost old_dv = r.deep_view();
            r.push(t);
            proof {
                assert(t@ =~= ts.deep_view()[i as int]);
                assert(r.deep_view() =~~= old_dv.push(ts.deep_view()[i as int]));
            }
        }
        i = i + 1;
    }
    proof {
        assert(ts.deep_view().subrange(0, ts.deep_view().len() as int) =~= ts.deep_view());
    }
    r
}

/// Whether `needle` occurs as a contiguous subrange of `hay` at offset `at`.
pub open spec fn occurs_at(hay: Seq<char>, needle: Seq<char>, at: int) -> bool {
    0 <= at && at + needle.len() <= hay.len() && hay.subrange(at, at + needle.len()) == needle
}

/// Whether `needle` occurs anywhere in `hay`.
pub open spec fn spec_contains_seq(hay: Seq<char>, needle: Seq<char>) -> bool {
    exists|at: int| occurs_at(hay, needle, at)
}

/// Executable substring search: true exactly when `needle` occurs in `hay`.
pub fn contains_seq(hay: &Vec<char>, needle: &Vec<char>) -> (b: bool)
    ensures
        b == spec_contains_seq(hay@, needle@),
{
    if needle.len() > hay.len() {
        proof {
            assert(forall|at: int| !occurs_at(hay@, needle@, at));
        }
        return false;
    }
    if needle.len() == 0 {
        proof {
            assert(hay@.subrange(0, 0) =~= needle@);
            assert(occurs_at(hay@, needle@, 0));
        }
        return true;
    }
    let mut at: usize = 0;
    while at <= hay.len() - needle.len()
        invariant
            1 <= needle.len() <= hay.len(),
            at <= hay.len() - needle.len() + 1,
            forall|j: int| 0 <= j < at ==> !occurs_at(hay@, needle@, j),
        decreases hay.len() - needle.len() - at + 1,
    {
        let mut k: usize = 0;
        let mut mismatch = false;
        while k < needle.len()
            invariant
                at + needle.len() <= hay.len(),
                k <= needle.len(),
                !mismatch ==> forall|j: int| 0 <= j < k ==> hay@[at + j] == needle@[j],
                mismatch ==> !occurs_at(hay@, needle@, at as int),
            ensures
                mismatch ==> !occurs_at(hay@, needle@, at as int),
                !mismatch ==> forall|j: int| 0 <= j < needle@.len() ==> hay@[at + j] == needle@[j],
            decreases needle.len() - k,
        {
            if hay[at + k] != needle[k] {
                mismatch = true;
                proof {
                    assert(hay@.subrange(at as int, at + needle@.len() as int)[k as int] == hay@[at
                        + k]);
                }
                break ;
            }
            k = k + 1;
        }
        if !mismatch {
            proof {
                assert(hay@.subrange(at as int, at + needle@.len() as int) =~= needle@);
                assert(occurs_at(hay@, needle@, at as int));
            }
            return true;
        }
        at = at + 1;
    }
    proof {
        assert forall|j: int| !occurs_at(hay@, needle@, j) by {
            if occurs_at(hay@, needle@, j) {
                assert(0 <= j < at);
            }
        }
    }
    false
}

/// Whether `s` ends with the suffix `suf`.
pub open spec fn spec_ends_with(s: Seq<char>, suf: Seq<char>) -> bool {
    s.len() >= suf.len() && s.subrange(s.len() - suf.len(), s.len() as int) == suf
}

/// Executable suffix test against a string literal.
pub fn ends_with_lit(v: &Vec<char>, lit: &str) -> (b: bool)
    ensures
        b == spec_ends_with(v@, lit@),
{
    let w = chars_of(lit);
    if w.len() > v.len() {
        return false;
    }
    let off = v.len() - w.len();
    let mut i: usize = 0;
    while i < w.len()
        invariant
            i <= w.len(),
            w.len() <= v.len(),
            off == v.len() - w.len(),
            w@ == lit@,
            forall|j: int| 0 <= j < i ==> v@[off + j] == w@[j],
        decreases w.len() - i,
    {
        if v[off + i] != w[i] {
            proof {
                assert(v@.subrange(v@.len() - w@.len(), v@.len() as int)[i as int] == v@[off + i]);
            }
            return false;
        }
        i = i + 1;
    }
    proof {
        assert(v@.subrange(v@.len() - w@.len(), v@.len() as int) =~= w@);
    }
    true
}

/// Whether the two character vectors hold the same characters.
pub fn chars_eq_lit(v: &Vec<char>, lit: &str) -> (r: bool)
    ensures
        r == (v@ == lit@),
{
    let w = chars_of(lit);
    if v.len() != w.len() {
        return false;
    }
    let mut i: usize = 0;
    while i < v.len()
        invariant
            i <= v.len(),
            v@.len() == w@.len(),
            w@ == lit@,
            forall|j: int| 0 <= j < i ==> v@[j] == w@[j],
        decreases v.len() - i,
    {
        if v[i] != w[i] {
            proof {
                assert(v@ != lit@);
            }
            return false;
        }
        i = i + 1;
    }
    proof {
        assert(v@ =~= lit@);
    }
    true
}


/// Whether two character vectors hold the same characters.
pub fn chars_eq(a: &Vec<char>, b: &Vec<char>) -> (r: bool)
    ensures
        r == (a@ == b@),
{
    if a.len() != b.len() {
        return false;
    }
    let mut i: usize = 0;
    while i < a.len()
        invariant
            i <= a.len(),
            a@.len() == b@.len(),
            forall|j: int| 0 <= j < i ==> a@[j] == b@[j],
        decreases a.len() - i,
    {
        if a[i] != b[i] {
            return false;
        }
        i = i + 1;
    }
    proof {
        assert(a@ =~= b@);
    }
    true
}

/// Whether two string slices hold the same characters.
pub fn str_eq(a: &str, b: &str) -> (r: bool)
    ensures
        r == (a@ == b@),
{
    let va = chars_of(a);
    let vb = chars_of(b);
    chars_eq(&va, &vb)
}

/// The decimal digit character for `0 <= d <= 9`.
pub open spec fn spec_digit(d: int) -> char {
    ((48 + d) as u8) as char
}

/// The decimal rendering of a non-negative integer, most significant
/// digit first.
pub open spec fn dec_str(n: int) -> Seq<char>
    decreases n,
{
    if n < 10 {
        seq![spec_digit(if n >= 0 {
            n
        } else {
            0
        })]
    } else {
        dec_str(n / 10).push(spec_digit(n % 10))
    }
}

/// The decimal digits of `n`, as characters.
pub fn usize_to_chars(n: usize) -> (r: Vec<char>)
    ensures
        r@ == dec_str(n as int),
{
    let mut low: Vec<char> = Vec::new();
    let mut cur: usize = n;
    while cur >= 10
        invariant
            dec_str(n as int) == dec_str(cur as int) + low@.reverse(),
        decreases cur,
    {
        let d = ((cur % 10) as u8 + 48) as char;
        proof {
            assert(d == spec_digit(cur as int % 10));
            assert(low@.push(d).reverse() =~= seq![d] + low@.reverse());
            assert(dec_str(cur as int / 10) + (seq![d] + low@.reverse()) =~= (dec_str(
                cur as int / 10,
            ).push(d)) + low@.reverse());
        }
        low.push(d);
        cur = cur / 10;
    }
    let d0 = ((cur % 10) as u8 + 48) as char;
    proof {
        assert(cur as int % 10 == cur as int);
        assert(d0 == spec_digit(cur as int));
        assert(dec_str(cur as int) =~= seq![d0]);
    }
    let mut r: Vec<char> = Vec::new();
    r.push(d0);
    let mut k: usize = low.len();
    while k > 0
        invariant
            k <= low@.len(),
            r@ == seq![d0] + low@.subrange(k as int, low@.len() as int).reverse(),
        decreases k,
    {
        proof {
            let tail = low@.subrange(k - 1, low@.len() as int);
            assert(tail.drop_first() =~= low@.subrange(k as int, low@.len() as int));
            assert(tail.reverse() =~= tail.drop_first().reverse().push(tail[0]));
            assert(tail[0] == low@[k - 1]);
        }
        r.push(low[k - 1]);
        proof {
            assert(r@ =~= seq![d0] + low@.subrange(k - 1, low@.len() as int).reverse());
        }
        k = k - 1;
    }
    proof {
        assert(low@.subrange(0, low@.len() as int) =~= low@);
        assert(r@ =~= dec_str(n as int));
    }
    r
}

} // verus!
