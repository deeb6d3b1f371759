use vstd::prelude::*;
use vstd::seq_lib::lemma_flatten_concat;

use crate::rules::{longest_at, longest_ending, occurs_at};
use crate::tokenizer::{
    affix_tokens, candidate_pieces, candidate_tokens, candidate_tokens_fn, emit_fn, english_rules,
    infix_pieces, is_protected, middle_end, prefix_len, segment_piece, tokens, Piece, Rules,
};
use crate::whitespace::{candidates, candidates_from, is_space};

verus! {

/// Characters that are not whitespace.
pub open spec fn visible() -> spec_fn(char) -> bool {
    |c: char| !is_space(c)
}

/// Emitting the segment's prefix after its middle leaves the text of the two
/// unchanged (as where either is empty).
pub open spec fn prefix_in_place(r: Rules, seg: Seq<char>) -> bool {
    let p = prefix_len(r, seg) as int;
    let m = middle_end(r, seg);
    seg.subrange(p, m) + seg.subrange(0, p) == seg.subrange(0, m)
}

/// Every segment among the pieces rejoins to its own text.
pub open spec fn pieces_in_order(r: Rules, ps: Seq<Piece>) -> bool {
    forall|j: int|
        0 <= j < ps.len() && (#[trigger] ps[j]) is Segment ==> prefix_in_place(r, ps[j]->Segment_0)
}

/// Every segment of every candidate of `s` rejoins to its own text.
pub open spec fn keeps_order(r: Rules, s: Seq<char>) -> bool {
    forall|k: int|
        0 <= k < candidates(s).len() ==> pieces_in_order(
            r,
            candidate_pieces(r, #[trigger] candidates(s)[k]),
        )
}

proof fn lemma_longest_at_bound(lits: Seq<Seq<char>>, s: Seq<char>, i: int)
    requires
        0 <= i <= s.len(),
    ensures
        longest_at(lits, s, i) <= s.len() - i,
    decreases lits.len(),
{
    if lits.len() > 0 {
        lemma_longest_at_bound(lits.drop_last(), s, i);
    }
}

proof fn lemma_longest_ending_bound(lits: Seq<Seq<char>>, s: Seq<char>)
    ensures
        longest_ending(lits, s) <= s.len(),
    decreases lits.len(),
{
    if lits.len() > 0 {
        lemma_longest_ending_bound(lits.drop_last(), s);
    }
}

proof fn lemma_flat_map_concat<A, B>(a: Seq<A>, b: Seq<A>, f: spec_fn(A) -> Seq<B>)
    ensures
        (a + b).flat_map(f) == a.flat_map(f) + b.flat_map(f),
{
    assert((a + b).map_values(f) =~= a.map_values(f) + b.map_values(f));
    lemma_flatten_concat(a.map_values(f), b.map_values(f));
}

proof fn lemma_flatten_empty<A>(a: Seq<Seq<A>>)
    requires
        a.len() == 0,
    ensures
        a.flatten() == Seq::<A>::empty(),
{
    assert(a.flatten() =~= Seq::<A>::empty());
}

proof fn lemma_affix_joined(r: Rules, seg: Seq<char>)
    requires
        prefix_in_place(r, seg),
    ensures
        affix_tokens(r, seg).flatten() == seg,
{
    lemma_longest_at_bound(r.prefixes, seg, 0);
    lemma_longest_ending_bound(r.suffixes, seg);
    let p = prefix_len(r, seg) as int;
    let m = middle_end(r, seg);
    let n = seg.len() as int;
    let a: Seq<Seq<char>> = if m > p {
        seq![seg.subrange(p, m)]
    } else {
        seq![]
    };
    let b: Seq<Seq<char>> = if p > 0 {
        seq![seg.subrange(0, p)]
    } else {
        seq![]
    };
    let c: Seq<Seq<char>> = if n > m {
        seq![seg.subrange(m, n)]
    } else {
        seq![]
    };
    assert(affix_tokens(r, seg) == a + b + c);
    assert(0 <= p <= m <= n);
    let sa = seg.subrange(p, m);
    let sb = seg.subrange(0, p);
    let sc = seg.subrange(m, n);
    assert(a.flatten() == sa) by {
        if m > p {
            a.lemma_flatten_singleton();
        } else {
            lemma_flatten_empty(a);
            assert(sa =~= Seq::<char>::empty());
        }
    }
    assert(b.flatten() == sb) by {
        if p > 0 {
            b.lemma_flatten_singleton();
        } else {
            lemma_flatten_empty(b);
            assert(sb =~= Seq::<char>::empty());
        }
    }
    assert(c.flatten() == sc) by {
        if n > m {
            c.lemma_flatten_singleton();
        } else {
            lemma_flatten_empty(c);
            assert(sc =~= Seq::<char>::empty());
        }
    }
    lemma_flatten_concat(a + b, c);
    lemma_flatten_concat(a, b);
    assert(sa + sb == seg.subrange(0, m));
    assert(seg.subrange(0, m) + sc =~= seg);
}

proof fn lemma_segment_joined(r: Rules, x: Seq<char>)
    requires
        pieces_in_order(r, segment_piece(x)),
    ensures
        segment_piece(x).flat_map(emit_fn(r)).flatten() == x,
{
    let f = emit_fn(r);
    let sp = segment_piece(x);
    if x.len() > 0 {
        sp.lemma_flat_map_singleton(f);
        assert(sp[0] is Segment);
        lemma_affix_joined(r, x);
    } else {
        assert(sp.map_values(f) =~= Seq::<Seq<Seq<char>>>::empty());
        lemma_flatten_empty(sp.map_values(f));
        lemma_flatten_empty(sp.flat_map(f));
        assert(x =~= Seq::<char>::empty());
    }
}

proof fn lemma_infix_joined(r: Rules, c: Seq<char>, cur: int, i: int)
    requires
        0 <= cur <= i <= c.len(),
        pieces_in_order(r, infix_pieces(r, c, cur, i)),
    ensures
        infix_pieces(r, c, cur, i).flat_map(emit_fn(r)).flatten() == c.subrange(
            cur,
            c.len() as int,
        ),
    decreases c.len() - i,
{
    let f = emit_fn(r);
    if i >= c.len() {
        lemma_segment_joined(r, c.subrange(cur, c.len() as int));
    } else {
        let m = longest_at(r.infixes, c, i);
        if m > 0 && i + m <= c.len() {
            let x = c.subrange(cur, i);
            let sp = segment_piece(x);
            let w = seq![Piece::Whole(c.subrange(i, i + m))];
            let rest = infix_pieces(r, c, i + m, i + m);
            let all = infix_pieces(r, c, cur, i);
            assert(all == sp + w + rest);
            assert(pieces_in_order(r, sp)) by {
                assert forall|j: int| 0 <= j < sp.len() implies #[trigger] sp[j] == all[j] by {}
            }
            assert(pieces_in_order(r, rest)) by {
                assert forall|j: int| 0 <= j < rest.len() implies #[trigger] rest[j] == all[j
                    + sp.len() + 1] by {}
            }
            lemma_infix_joined(r, c, i + m, i + m);
            lemma_segment_joined(r, x);
            lemma_flat_map_concat(sp + w, rest, f);
            lemma_flat_map_concat(sp, w, f);
            w.lemma_flat_map_singleton(f);
            let wt = w.flat_map(f);
            assert(wt == seq![c.subrange(i, i + m)]);
            wt.lemma_flatten_singleton();
            lemma_flatten_concat(sp.flat_map(f) + wt, rest.flat_map(f));
            lemma_flatten_concat(sp.flat_map(f), wt);
            assert(x + c.subrange(i, i + m) + c.subrange(i + m, c.len() as int) =~= c.subrange(
                cur,
                c.len() as int,
            ));
        } else {
            lemma_infix_joined(r, c, cur, i + 1);
        }
    }
}

proof fn lemma_candidate_joined(r: Rules, c: Seq<char>)
    requires
        pieces_in_order(r, candidate_pieces(r, c)),
    ensures
        candidate_tokens(r, c).flatten() == c,
{
    let f = emit_fn(r);
    if is_protected(r, c) {
        seq![Piece::Whole(c)].lemma_flat_map_singleton(f);
        seq![c].lemma_flatten_singleton();
    } else {
        lemma_infix_joined(r, c, 0, 0);
        assert(c.subrange(0, c.len() as int) =~= c);
    }
}

proof fn lemma_filter_empty(x: Seq<char>)
    requires
        x.len() == 0,
    ensures
        x.filter(visible()) == x,
{
    reveal(Seq::filter);
}

proof fn lemma_filter_visible(x: Seq<char>)
    requires
        forall|j: int| 0 <= j < x.len() ==> !is_space(#[trigger] x[j]),
    ensures
        x.filter(visible()) == x,
    decreases x.len(),
{
    if x.len() > 0 {
        lemma_filter_visible(x.drop_last());
        x.drop_last().lemma_filter_push(x.last(), visible());
        assert(x.drop_last().push(x.last()) =~= x);
    } else {
        lemma_filter_empty(x);
    }
}

proof fn lemma_candidates_joined(r: Rules, s: Seq<char>, start: int, i: int)
    requires
        0 <= start <= i <= s.len(),
        forall|j: int| start <= j < i ==> !is_space(#[trigger] s[j]),
        forall|k: int|
            0 <= k < candidates_from(s, start, i).len() ==> pieces_in_order(
                r,
                candidate_pieces(r, #[trigger] candidates_from(s, start, i)[k]),
            ),
    ensures
        candidates_from(s, start, i).flat_map(candidate_tokens_fn(r)).flatten() == s.subrange(
            start,
            s.len() as int,
        ).filter(visible()),
    decreases s.len() - i,
{
    let g = candidate_tokens_fn(r);
    let cf = candidates_from(s, start, i);
    if i >= s.len() {
        if start < s.len() {
            let x = s.subrange(start, s.len() as int);
            cf.lemma_flat_map_singleton(g);
            assert(cf[0] == x);
            lemma_candidate_joined(r, x);
            lemma_filter_visible(x);
        } else {
            assert(cf.map_values(g) =~= Seq::<Seq<Seq<char>>>::empty());
            lemma_flatten_empty(cf.map_values(g));
            lemma_flatten_empty(cf.flat_map(g));
            lemma_filter_empty(s.subrange(start, s.len() as int));
        }
    } else if is_space(s[i]) {
        let rest = candidates_from(s, i + 1, i + 1);
        let x = s.subrange(start, i);
        let head: Seq<Seq<char>> = if start < i {
            seq![x]
        } else {
            seq![]
        };
        assert(cf == head + rest);
        assert forall|k: int| 0 <= k < rest.len() implies pieces_in_order(
            r,
            candidate_pieces(r, #[trigger] rest[k]),
        ) by {
            assert(rest[k] == cf[k + head.len()]);
        }
        lemma_candidates_joined(r, s, i + 1, i + 1);
        lemma_flat_map_concat(head, rest, g);
        lemma_flatten_concat(head.flat_map(g), rest.flat_map(g));
        if start < i {
            head.lemma_flat_map_singleton(g);
            assert(cf[0] == x);
            lemma_candidate_joined(r, x);
        } else {
            assert(head.map_values(g) =~= Seq::<Seq<Seq<char>>>::empty());
            lemma_flatten_empty(head.map_values(g));
            lemma_flatten_empty(head.flat_map(g));
            assert(x =~= Seq::<char>::empty());
        }
        lemma_filter_visible(x);
        let b = s.subrange(i, i + 1);
        let tail = s.subrange(i + 1, s.len() as int);
        assert(s.subrange(start, s.len() as int) =~= x + b + tail);
        Seq::filter_distributes_over_add(x + b, tail, visible());
        Seq::filter_distributes_over_add(x, b, visible());
        let e = Seq::<char>::empty();
        lemma_filter_empty(e);
        e.lemma_filter_push(s[i], visible());
        assert(e.push(s[i]) =~= b);
        assert(head.flat_map(g).flatten() =~= x);
    } else {
        lemma_candidates_joined(r, s, start, i + 1);
    }
}

/// Joining the tokens of a text in order gives back the text with its
/// whitespace taken out: each visible character lands in exactly one token,
/// in its place. Since the prefix token of a segment follows its middle one,
/// this holds exactly where that reordering changes no segment's text.
pub proof fn lemma_tokens_rejoin(r: Rules, s: Seq<char>)
    requires
        keeps_order(r, s),
    ensures
        tokens(r, s).flatten() == s.filter(visible()),
{
    assert forall|k: int| 0 <= k < candidates_from(s, 0, 0).len() implies pieces_in_order(
        r,
        candidate_pieces(r, #[trigger] candidates_from(s, 0, 0)[k]),
    ) by {
        assert(candidates(s)[k] == candidates_from(s, 0, 0)[k]);
    }
    lemma_candidates_joined(r, s, 0, 0);
    assert(s.subrange(0, s.len() as int) =~= s);
}

/// One of the characters on which the english preset splits.
pub open spec fn is_split_char(c: char) -> bool {
    c == '?' || c == ',' || c == '!' || c == '.' || c == '*' || c == '+' || c == '-'
}

/// Each character of `s` as a token of its own, in order.
pub open spec fn one_char_tokens(s: Seq<char>) -> Seq<Seq<char>> {
    s.map_values(|c: char| seq![c])
}

proof fn lemma_single_lits(lits: Seq<Seq<char>>, c: Seq<char>, i: int)
    requires
        0 <= i < c.len(),
        forall|j: int| 0 <= j < lits.len() ==> (#[trigger] lits[j]).len() == 1,
    ensures
        longest_at(lits, c, i) == (if exists|j: int| 0 <= j < lits.len() && #[trigger] lits[j][0]
            == c[i] {
            1int
        } else {
            0int
        }),
    decreases lits.len(),
{
    if lits.len() > 0 {
        let init = lits.drop_last();
        lemma_single_lits(init, c, i);
        let lit = lits.last();
        assert(lit.len() == 1);
        if lit[0] == c[i] {
            assert(c.subrange(i, i + 1) =~= lit);
            assert(occurs_at(lit, c, i));
        } else {
            assert(c.subrange(i, i + 1)[0] == c[i]);
            assert(!occurs_at(lit, c, i));
        }
        if exists|j: int| 0 <= j < lits.len() && #[trigger] lits[j][0] == c[i] {
            let j = choose|j: int| 0 <= j < lits.len() && #[trigger] lits[j][0] == c[i];
            if j < lits.len() - 1 {
                assert(init[j][0] == c[i]);
            }
        } else {
            assert forall|j: int| 0 <= j < init.len() implies #[trigger] init[j][0] != c[i] by {
                assert(init[j] == lits[j]);
            }
        }
    }
}

proof fn lemma_no_match_first(lits: Seq<Seq<char>>, c: Seq<char>)
    requires
        c.len() > 0,
        forall|j: int| 0 <= j < lits.len() ==> (#[trigger] lits[j]).len() > 0 && lits[j][0] != c[0],
    ensures
        longest_at(lits, c, 0) == 0,
    decreases lits.len(),
{
    if lits.len() > 0 {
        let lit = lits.last();
        assert(lits[lits.len() - 1] == lit);
        if occurs_at(lit, c, 0) {
            assert(c.subrange(0, lit.len() as int)[0] == c[0]);
        }
        lemma_no_match_first(lits.drop_last(), c);
    }
}

proof fn lemma_split_infix(c: Seq<char>, i: int)
    requires
        0 <= i <= c.len(),
        forall|j: int| 0 <= j < c.len() ==> is_split_char(#[trigger] c[j]),
    ensures
        infix_pieces(english_rules(), c, i, i).flat_map(emit_fn(english_rules())) == one_char_tokens(
            c.subrange(i, c.len() as int),
        ),
    decreases c.len() - i,
{
    let r = english_rules();
    let f = emit_fn(r);
    if i >= c.len() {
        let e = segment_piece(c.subrange(i, c.len() as int));
        assert(e =~= Seq::<Piece>::empty());
        assert(e.map_values(f) =~= Seq::<Seq<Seq<char>>>::empty());
        lemma_flatten_empty(e.map_values(f));
        assert(one_char_tokens(c.subrange(i, c.len() as int)) =~= Seq::<Seq<char>>::empty());
    } else {
        assert forall|j: int| 0 <= j < r.infixes.len() implies (#[trigger] r.infixes[j]).len()
            == 1 by {}
        lemma_single_lits(r.infixes, c, i);
        let ch = c[i];
        assert(is_split_char(ch));
        if ch == '?' {
            assert(r.infixes[0][0] == ch);
        } else if ch == ',' {
            assert(r.infixes[1][0] == ch);
        } else if ch == '!' {
            assert(r.infixes[2][0] == ch);
        } else if ch == '.' {
            assert(r.infixes[3][0] == ch);
        } else if ch == '*' {
            assert(r.infixes[4][0] == ch);
        } else if ch == '+' {
            assert(r.infixes[5][0] == ch);
        } else {
            assert(r.infixes[6][0] == ch);
        }
        assert(longest_at(r.infixes, c, i) == 1);
        let w = seq![Piece::Whole(c.subrange(i, i + 1))];
        let rest = infix_pieces(r, c, i + 1, i + 1);
        let sp = segment_piece(c.subrange(i, i));
        assert(sp =~= Seq::<Piece>::empty());
        assert(infix_pieces(r, c, i, i) == sp + w + rest);
        assert(sp + w + rest =~= w + rest);
        lemma_split_infix(c, i + 1);
        lemma_flat_map_concat(w, rest, f);
        w.lemma_flat_map_singleton(f);
        assert(c.subrange(i, i + 1) =~= seq![ch]);
        assert(one_char_tokens(c.subrange(i, c.len() as int)) =~= seq![seq![ch]]
            + one_char_tokens(c.subrange(i + 1, c.len() as int)));
    }
}

proof fn lemma_no_space_candidates(s: Seq<char>, i: int)
    requires
        0 <= i <= s.len(),
        s.len() > 0,
        forall|j: int| 0 <= j < s.len() ==> !is_space(#[trigger] s[j]),
    ensures
        candidates_from(s, 0, i) == seq![s],
    decreases s.len() - i,
{
    if i >= s.len() {
        assert(s.subrange(0, s.len() as int) =~= s);
    } else {
        lemma_no_space_candidates(s, i + 1);
    }
}

proof fn lemma_one_char_join(s: Seq<char>)
    ensures
        one_char_tokens(s).flatten() == s,
    decreases s.len(),
{
    if s.len() == 0 {
        lemma_flatten_empty(one_char_tokens(s));
        assert(s =~= Seq::<char>::empty());
    } else {
        let init = s.drop_last();
        lemma_one_char_join(init);
        assert(one_char_tokens(s) =~= one_char_tokens(init).push(seq![s.last()]));
        one_char_tokens(init).lemma_flatten_push(seq![s.last()]);
        assert(init + seq![s.last()] =~= s);
    }
}

/// Under the english preset, a text made only of its split characters falls
/// apart into one token per character; joining those tokens without
/// separators and splitting again gives the same tokens.
pub proof fn lemma_punctuation_resplit(s: Seq<char>)
    requires
        forall|j: int| 0 <= j < s.len() ==> is_split_char(#[trigger] s[j]),
    ensures
        tokens(english_rules(), s) == one_char_tokens(s),
        tokens(english_rules(), tokens(english_rules(), s).flatten()) == tokens(english_rules(), s),
{
    let r = english_rules();
    let g = candidate_tokens_fn(r);
    if s.len() == 0 {
        assert(candidates(s) =~= Seq::<Seq<char>>::empty());
        assert(candidates(s).map_values(g) =~= Seq::<Seq<Seq<char>>>::empty());
        lemma_flatten_empty(candidates(s).map_values(g));
        assert(one_char_tokens(s) =~= Seq::<Seq<char>>::empty());
    } else {
        assert forall|j: int| 0 <= j < s.len() implies !is_space(#[trigger] s[j]) by {
            assert(is_split_char(s[j]));
        }
        lemma_no_space_candidates(s, 0);
        seq![s].lemma_flat_map_singleton(g);
        assert forall|j: int| 0 <= j < r.exceptions.len() implies (#[trigger] r.exceptions[j]).len()
            > 0 && r.exceptions[j][0] != s[0] by {
            assert(is_split_char(s[0]));
        }
        lemma_no_match_first(r.exceptions, s);
        lemma_split_infix(s, 0);
        assert(s.subrange(0, s.len() as int) =~= s);
    }
    lemma_one_char_join(s);
}

} // verus!
