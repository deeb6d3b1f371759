//! The rule-based tokenizer. A line is split on whitespace into candidates;
//! a candidate that the exception rule protects is one token; any other is
//! cut at its infix matches, each match a token of its own, and each segment
//! between them gives its middle, then its prefix, then its suffix.
use vstd::prelude::*;

use crate::rules::{lit_views, longest_at, longest_ending, longest_ending_in, longest_in};
use crate::token::{all_borrowed, texts, Token};
use crate::whitespace::{candidate_spans, candidates, chars_of, span_texts, spans_within};

verus! {

/// The four rules of a tokenizer, each a list of literal alternatives.
pub struct Rules {
    /// A candidate that begins with one of these is kept whole.
    pub exceptions: Seq<Seq<char>>,
    /// Delimiters that split a candidate and become tokens of their own.
    pub infixes: Seq<Seq<char>>,
    /// A leading piece to peel off a segment.
    pub prefixes: Seq<Seq<char>>,
    /// A trailing piece to peel off a segment.
    pub suffixes: Seq<Seq<char>>,
}

/// A piece of a candidate: kept as one token, or a segment that still goes
/// through prefix and suffix stripping.
pub enum Piece {
    /// A protected candidate or an infix match.
    Whole(Seq<char>),
    /// The text between infix matches.
    Segment(Seq<char>),
}

/// The candidate is protected by the exception rule.
pub open spec fn is_protected(r: Rules, c: Seq<char>) -> bool {
    longest_at(r.exceptions, c, 0) > 0
}

/// The length of the prefix match at the start of `seg`.
pub open spec fn prefix_len(r: Rules, seg: Seq<char>) -> nat {
    longest_at(r.prefixes, seg, 0)
}

/// The length of the suffix match at the end of `seg`.
pub open spec fn suffix_len(r: Rules, seg: Seq<char>) -> nat {
    longest_ending(r.suffixes, seg)
}

/// Where the middle of `seg` ends: a suffix that would start inside the
/// prefix is dropped.
pub open spec fn middle_end(r: Rules, seg: Seq<char>) -> int {
    let p = prefix_len(r, seg) as int;
    let e = seg.len() - suffix_len(r, seg);
    if e >= p {
        e
    } else {
        p
    }
}

/// The tokens of a segment: the middle, then the prefix, then the suffix,
/// each where it is not empty.
pub open spec fn affix_tokens(r: Rules, seg: Seq<char>) -> Seq<Seq<char>> {
    let p = prefix_len(r, seg) as int;
    let m = middle_end(r, seg);
    let n = seg.len() as int;
    (if m > p {
        seq![seg.subrange(p, m)]
    } else {
        seq![]
    }) + (if p > 0 {
        seq![seg.subrange(0, p)]
    } else {
        seq![]
    }) + (if n > m {
        seq![seg.subrange(m, n)]
    } else {
        seq![]
    })
}

/// A segment piece, or nothing for an empty segment.
pub open spec fn segment_piece(x: Seq<char>) -> Seq<Piece> {
    if x.len() > 0 {
        seq![Piece::Segment(x)]
    } else {
        seq![]
    }
}

/// The pieces of `c` from position `i` on, where the segment begun at `cur`
/// is still open: each infix match closes a segment and is a piece of its own.
pub open spec fn infix_pieces(r: Rules, c: Seq<char>, cur: int, i: int) -> Seq<Piece>
    decreases c.len() - i,
{
    if i >= c.len() {
        segment_piece(c.subrange(cur, c.len() as int))
    } else {
        let m = longest_at(r.infixes, c, i);
        if m > 0 && i + m <= c.len() {
            segment_piece(c.subrange(cur, i)) + seq![Piece::Whole(c.subrange(i, i + m))]
                + infix_pieces(r, c, i + m, i + m)
        } else {
            infix_pieces(r, c, cur, i + 1)
        }
    }
}

/// The pieces of one candidate.
pub open spec fn candidate_pieces(r: Rules, c: Seq<char>) -> Seq<Piece> {
    if is_protected(r, c) {
        seq![Piece::Whole(c)]
    } else {
        infix_pieces(r, c, 0, 0)
    }
}

/// The tokens of one piece.
pub open spec fn emit(r: Rules, p: Piece) -> Seq<Seq<char>> {
    match p {
        Piece::Whole(x) => seq![x],
        Piece::Segment(x) => affix_tokens(r, x),
    }
}

/// `emit` as a function of the piece.
pub open spec fn emit_fn(r: Rules) -> spec_fn(Piece) -> Seq<Seq<char>> {
    |p: Piece| emit(r, p)
}

/// The tokens of one candidate.
pub open spec fn candidate_tokens(r: Rules, c: Seq<char>) -> Seq<Seq<char>> {
    candidate_pieces(r, c).flat_map(emit_fn(r))
}

/// `candidate_tokens` as a function of the candidate.
pub open spec fn candidate_tokens_fn(r: Rules) -> spec_fn(Seq<char>) -> Seq<Seq<char>> {
    |c: Seq<char>| candidate_tokens(r, c)
}

/// The tokens of a text: those of each whitespace-delimited candidate, in order.
pub open spec fn tokens(r: Rules, s: Seq<char>) -> Seq<Seq<char>> {
    candidates(s).flat_map(candidate_tokens_fn(r))
}

/// The texts of a list of string slices.
pub open spec fn str_views(v: Seq<&str>) -> Seq<Seq<char>> {
    v.map_values(|x: &str| x@)
}

/// Some literal of the list is empty.
pub open spec fn has_empty(lits: Seq<Seq<char>>) -> bool {
    exists|k: int| 0 <= k < lits.len() && #[trigger] lits[k].len() == 0
}

/// Why four lists of literals make no tokenizer: the first list, in the
/// order exception, infix, prefix, suffix, that holds an empty literal.
pub open spec fn refusal(
    exceptions: Seq<Seq<char>>,
    infixes: Seq<Seq<char>>,
    prefixes: Seq<Seq<char>>,
    suffixes: Seq<Seq<char>>,
) -> Option<PatternError> {
    if has_empty(exceptions) {
        Some(PatternError::EmptyException)
    } else if has_empty(infixes) {
        Some(PatternError::EmptyInfix)
    } else if has_empty(prefixes) {
        Some(PatternError::EmptyPrefix)
    } else if has_empty(suffixes) {
        Some(PatternError::EmptySuffix)
    } else {
        None
    }
}

/// The rules of the english preset.
pub open spec fn english_rules() -> Rules {
    Rules {
        exceptions: seq![seq!['h', 't', 't', 'p', ':', '/', '/'], seq!['h', 't', 't', 'p', 's', ':', '/', '/']],
        infixes: seq![seq!['?'], seq![','], seq!['!'], seq!['.'], seq!['*'], seq!['+'], seq!['-']],
        prefixes: seq![seq!['$']],
        suffixes: seq![seq!['\'', 'm'], seq!['\'', 't'], seq!['\'', 'd'], seq!['\'', 's'], seq!['%']],
    }
}

/// The characters of each of `v`, or `None` where one of them is empty.
fn literals(v: &[&str]) -> (r: Option<Vec<Vec<char>>>)
    ensures
        r is Some <==> !has_empty(str_views(v@)),
        r is Some ==> lit_views(r->0@) == str_views(v@),
{
    let mut out: Vec<Vec<char>> = Vec::new();
    let mut k: usize = 0;
    while k < v.len()
        invariant
            k <= v@.len(),
            lit_views(out@) == str_views(v@).take(k as int),
            !has_empty(str_views(v@).take(k as int)),
        decreases v@.len() - k,
    {
        let cs = chars_of(v[k]);
        if cs.len() == 0 {
            proof {
                assert(str_views(v@)[k as int].len() == 0);
            }
            return None;
        }
        let ghost before = out@;
        let ghost added = cs@;
        proof {
            assert(lit_views(before).len() == before.len());
            assert(str_views(v@).take(k as int).len() == k);
        }
        out.push(cs);
        proof {
            assert(out@ == before.push(out@[k as int]));
            assert forall|j: int| 0 <= j < k implies #[trigger] lit_views(out@)[j] == lit_views(
                before,
            )[j] by {
                assert(out@[j] == before[j]);
            }
            assert(lit_views(out@)[k as int] == added);
            assert(lit_views(out@) =~= str_views(v@).take(k + 1));
            assert(!has_empty(str_views(v@).take(k + 1))) by {
                if has_empty(str_views(v@).take(k + 1)) {
                    let j = choose|j: int| 0 <= j < k + 1 && #[trigger] str_views(v@).take(k + 1)[j].len() == 0;
                    if j < k {
                        assert(str_views(v@).take(k as int)[j] == str_views(v@).take(k + 1)[j]);
                    }
                }
            }
        }
        k = k + 1;
    }
    proof {
        assert(str_views(v@).take(k as int) =~= str_views(v@));
    }
    Some(out)
}

/// Why a set of rules was refused: one of its literals is empty.
#[derive(Debug, PartialEq, Eq, Structural)]
pub enum PatternError {
    /// An exception literal is empty.
    EmptyException,
    /// An infix literal is empty.
    EmptyInfix,
    /// A prefix literal is empty.
    EmptyPrefix,
    /// A suffix literal is empty.
    EmptySuffix,
}

/// A reusable rule set that splits lines of text into tokens.
pub struct Tokenizer {
    exceptions: Vec<Vec<char>>,
    infixes: Vec<Vec<char>>,
    prefixes: Vec<Vec<char>>,
    suffixes: Vec<Vec<char>>,
}

impl View for Tokenizer {
    type V = Rules;

    closed spec fn view(&self) -> Rules {
        Rules {
            exceptions: lit_views(self.exceptions@),
            infixes: lit_views(self.infixes@),
            prefixes: lit_views(self.prefixes@),
            suffixes: lit_views(self.suffixes@),
        }
    }
}

/// Pushes the token `input[a..b]`.
fn push_span<'a>(input: &'a str, a: usize, b: usize, out: &mut Vec<Token<'a>>)
    requires
        a <= b <= input@.len(),
    ensures
        texts(final(out)@) == texts(old(out)@) + seq![input@.subrange(a as int, b as int)],
        all_borrowed(old(out)@) ==> all_borrowed(final(out)@),
{
    let t = Token::from(input.substring_char(a, b));
    out.push(t);
    proof {
        assert(texts(final(out)@) =~= texts(old(out)@) + seq![input@.subrange(a as int, b as int)]);
    }
}

impl Tokenizer {
    /// A tokenizer from the literal alternatives of its four rules. Every
    /// literal must be non-empty; the first rule (in the order of the
    /// parameters) that holds an empty one is reported.
    pub fn new(exceptions: &[&str], infixes: &[&str], prefixes: &[&str], suffixes: &[&str]) -> (r:
        Result<Tokenizer, PatternError>)
        ensures
            match refusal(
                str_views(exceptions@),
                str_views(infixes@),
                str_views(prefixes@),
                str_views(suffixes@),
            ) {
                Some(e) => r == Err::<Tokenizer, PatternError>(e),
                None => r is Ok && r->Ok_0@ == (Rules {
                    exceptions: str_views(exceptions@),
                    infixes: str_views(infixes@),
                    prefixes: str_views(prefixes@),
                    suffixes: str_views(suffixes@),
                }),
            },
    {
        let exceptions = match literals(exceptions) {
            Some(x) => x,
            None => return Err(PatternError::EmptyException),
        };
        let infixes = match literals(infixes) {
            Some(x) => x,
            None => return Err(PatternError::EmptyInfix),
        };
        let prefixes = match literals(prefixes) {
            Some(x) => x,
            None => return Err(PatternError::EmptyPrefix),
        };
        let suffixes = match literals(suffixes) {
            Some(x) => x,
            None => return Err(PatternError::EmptySuffix),
        };
        Ok(Tokenizer { exceptions, infixes, prefixes, suffixes })
    }

    /// The english preset: web addresses are kept whole, the punctuation
    /// `? , ! . * + -` splits, a leading `$` and the tails `'m 't 'd 's %`
    /// are peeled off.
    pub fn english() -> (r: Tokenizer)
        ensures
            r@ == english_rules(),
    {
        let r = Tokenizer {
            exceptions: vec![vec!['h', 't', 't', 'p', ':', '/', '/'], vec!['h', 't', 't', 'p', 's', ':', '/', '/']],
            infixes: vec![vec!['?'], vec![','], vec!['!'], vec!['.'], vec!['*'], vec!['+'], vec!['-']],
            prefixes: vec![vec!['$']],
            suffixes: vec![vec!['\'', 'm'], vec!['\'', 't'], vec!['\'', 'd'], vec!['\'', 's'], vec!['%']],
        };
        proof {
            assert(r@.exceptions =~~= english_rules().exceptions);
            assert(r@.infixes =~~= english_rules().infixes);
            assert(r@.prefixes =~~= english_rules().prefixes);
            assert(r@.suffixes =~~= english_rules().suffixes);
        }
        r
    }

    /// The length of the prefix match at the start of `segment`; 0 if none.
    pub fn find_prefix(&self, segment: &str) -> (r: usize)
        ensures
            r == prefix_len(self@, segment@),
    {
        let cs = chars_of(segment);
        let r = longest_in(&self.prefixes, &cs, 0, cs.len(), 0);
        proof {
            assert(cs@.subrange(0, cs@.len() as int) =~= segment@);
        }
        r
    }

    /// The length of the suffix match at the end of `segment`; 0 if none.
    pub fn find_suffix(&self, segment: &str) -> (r: usize)
        ensures
            r == suffix_len(self@, segment@),
    {
        let cs = chars_of(segment);
        let r = longest_ending_in(&self.suffixes, &cs, 0, cs.len());
        proof {
            assert(cs@.subrange(0, cs@.len() as int) =~= segment@);
        }
        r
    }

    /// Emits the tokens of the segment `input[lo..hi]`.
    fn push_segment<'a>(
        &self,
        input: &'a str,
        chars: &Vec<char>,
        lo: usize,
        hi: usize,
        out: &mut Vec<Token<'a>>,
    )
        requires
            chars@ == input@,
            lo <= hi <= chars@.len(),
        ensures
            texts(final(out)@) == texts(old(out)@) + affix_tokens(
                self@,
                input@.subrange(lo as int, hi as int),
            ),
            all_borrowed(old(out)@) ==> all_borrowed(final(out)@),
    {
        let ghost seg = input@.subrange(lo as int, hi as int);
        let p = longest_in(&self.prefixes, chars, lo, hi, 0);
        let s = longest_ending_in(&self.suffixes, chars, lo, hi);
        let n = hi - lo;
        let m = if n - s >= p {
            n - s
        } else {
            p
        };
        let ghost o0 = texts(out@);
        if m > p {
            push_span(input, lo + p, lo + m, out);
            proof {
                assert(seg.subrange(p as int, m as int) =~= input@.subrange(lo + p, lo + m));
            }
        }
        if p > 0 {
            push_span(input, lo, lo + p, out);
            proof {
                assert(seg.subrange(0, p as int) =~= input@.subrange(lo as int, lo + p));
            }
        }
        if n > m {
            push_span(input, lo + m, hi, out);
            proof {
                assert(seg.subrange(m as int, n as int) =~= input@.subrange(lo + m, hi as int));
            }
        }
        proof {
            assert(texts(out@) =~= o0 + affix_tokens(self@, seg));
        }
    }

    /// Emits the tokens of the candidate `input[lo..hi]`.
    fn push_candidate<'a>(
        &self,
        input: &'a str,
        chars: &Vec<char>,
        lo: usize,
        hi: usize,
        out: &mut Vec<Token<'a>>,
    )
        requires
            chars@ == input@,
            lo <= hi <= chars@.len(),
        ensures
            texts(final(out)@) == texts(old(out)@) + candidate_tokens(
                self@,
                input@.subrange(lo as int, hi as int),
            ),
            all_borrowed(old(out)@) ==> all_borrowed(final(out)@),
    {
        let ghost c = input@.subrange(lo as int, hi as int);
        let ghost f = emit_fn(self@);
        let ghost o0 = texts(out@);
        let n = hi - lo;
        if longest_in(&self.exceptions, chars, lo, hi, 0) > 0 {
            push_span(input, lo, hi, out);
            proof {
                seq![Piece::Whole(c)].lemma_flat_map_singleton(f);
            }
            return ;
        }
        let mut cur: usize = 0;
        let mut i: usize = 0;
        let ghost mut done: Seq<Piece> = seq![];
        proof {
            assert(done.flat_map(f) =~= seq![]);
            assert(texts(out@) =~= o0 + done.flat_map(f));
        }
        while i < n
            invariant
                chars@ == input@,
                lo <= hi <= chars@.len(),
                n == hi - lo,
                cur <= i <= n,
                c == input@.subrange(lo as int, hi as int),
                f == emit_fn(self@),
                candidate_pieces(self@, c) == done + infix_pieces(self@, c, cur as int, i as int),
                texts(out@) == o0 + done.flat_map(f),
                all_borrowed(old(out)@) ==> all_borrowed(out@),
            decreases n - i,
        {
            let m = longest_in(&self.infixes, chars, lo, hi, i);
            if m > 0 {
                if cur < i {
                    self.push_segment(input, chars, lo + cur, lo + i, out);
                    proof {
                        let x = c.subrange(cur as int, i as int);
                        assert(x =~= input@.subrange(lo + cur, lo + i));
                        done.lemma_flat_map_push(f, Piece::Segment(x));
                        done = done.push(Piece::Segment(x));
                    }
                }
                push_span(input, lo + i, lo + i + m, out);
                proof {
                    let x = c.subrange(i as int, i + m);
                    assert(x =~= input@.subrange(lo + i, lo + i + m));
                    done.lemma_flat_map_push(f, Piece::Whole(x));
                    done = done.push(Piece::Whole(x));
                    assert(texts(out@) =~= o0 + done.flat_map(f));
                    if cur < i {
                        assert(candidate_pieces(self@, c) =~= done + infix_pieces(self@, c, i + m, i + m));
                    } else {
                        assert(c.subrange(cur as int, i as int) =~= seq![]);
                        assert(candidate_pieces(self@, c) =~= done + infix_pieces(self@, c, i + m, i + m));
                    }
                }
                i = i + m;
                cur = i;
            } else {
                i = i + 1;
            }
        }
        if cur < n {
            self.push_segment(input, chars, lo + cur, hi, out);
            proof {
                let x = c.subrange(cur as int, n as int);
                assert(x =~= input@.subrange(lo + cur, hi as int));
                done.lemma_flat_map_push(f, Piece::Segment(x));
                done = done.push(Piece::Segment(x));
                assert(candidate_pieces(self@, c) =~= done);
            }
        } else {
            proof {
                assert(c.subrange(cur as int, n as int) =~= seq![]);
                assert(candidate_pieces(self@, c) =~= done);
            }
        }
    }

    /// Splits `input` into tokens that borrow from it.
    pub fn tokenize<'a>(&self, input: &'a str) -> (r: Vec<Token<'a>>)
        ensures
            texts(r@) == tokens(self@, input@),
            all_borrowed(r@),
    {
        let ghost f = candidate_tokens_fn(self@);
        let ghost cs = candidates(input@);
        let chars = chars_of(input);
        let spans = candidate_spans(&chars);
        let mut out: Vec<Token<'a>> = Vec::new();
        let mut k: usize = 0;
        proof {
            assert(cs.take(0).flat_map(f) =~= seq![]);
            assert(texts(out@) =~= seq![]);
        }
        while k < spans.len()
            invariant
                chars@ == input@,
                cs == candidates(input@),
                f == candidate_tokens_fn(self@),
                span_texts(chars@, spans@) == cs,
                spans_within(spans@, chars@.len() as int),
                k <= spans@.len(),
                texts(out@) == cs.take(k as int).flat_map(f),
                all_borrowed(out@),
            decreases spans@.len() - k,
        {
            let (a, b) = spans[k];
            proof {
                assert(spans@[k as int].0 <= spans@[k as int].1 <= chars@.len());
                assert(cs[k as int] == input@.subrange(a as int, b as int));
            }
            self.push_candidate(input, &chars, a, b, &mut out);
            proof {
                cs.lemma_flat_map_take_append(f, k as int);
            }
            k = k + 1;
        }
        proof {
            assert(cs.take(k as int) =~= cs);
        }
        out
    }
}

} // verus!
