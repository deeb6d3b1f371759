use vstd::prelude::*;

use crate::token::{all_borrowed, texts, Token};

verus! {

/// The Unicode `White_Space` characters.
pub open spec fn is_space(c: char) -> bool {
    let u = c as u32;
    (0x9 <= u <= 0xd) || u == 0x20 || u == 0x85 || u == 0xa0 || u == 0x1680 || (0x2000 <= u
        <= 0x200a) || u == 0x2028 || u == 0x2029 || u == 0x202f || u == 0x205f || u == 0x3000
}

/// Whether `c` is a Unicode whitespace character.
pub fn is_whitespace(c: char) -> (r: bool)
    ensures
        r == is_space(c),
{
    let u = c as u32;
    (0x9 <= u && u <= 0xd) || u == 0x20 || u == 0x85 || u == 0xa0 || u == 0x1680 || (0x2000 <= u
        && u <= 0x200a) || u == 0x2028 || u == 0x2029 || u == 0x202f || u == 0x205f || u == 0x3000
}

/// The whitespace-delimited candidates of `s` from position `i` on, where a
/// candidate begun at `start` is still open.
pub open spec fn candidates_from(s: Seq<char>, start: int, i: int) -> Seq<Seq<char>>
    decreases s.len() - i,
{
    if i >= s.len() {
        if start < s.len() {
            seq![s.subrange(start, s.len() as int)]
        } else {
            seq![]
        }
    } else if is_space(s[i]) {
        let rest = candidates_from(s, i + 1, i + 1);
        if start < i {
            seq![s.subrange(start, i)] + rest
        } else {
            rest
        }
    } else {
        candidates_from(s, start, i + 1)
    }
}

/// The maximal runs of non-whitespace characters of `s`, in order.
pub open spec fn candidates(s: Seq<char>) -> Seq<Seq<char>> {
    candidates_from(s, 0, 0)
}

/// The texts that character spans pick out of `s`.
pub open spec fn span_texts(s: Seq<char>, spans: Seq<(usize, usize)>) -> Seq<Seq<char>> {
    spans.map_values(|p: (usize, usize)| s.subrange(p.0 as int, p.1 as int))
}

/// Every span lies within a text of length `n`.
pub open spec fn spans_within(spans: Seq<(usize, usize)>, n: int) -> bool {
    forall|k: int| 0 <= k < spans.len() ==> #[trigger] spans[k].0 <= spans[k].1 <= n
}

/// The characters of `s`, in order.
pub fn chars_of(s: &str) -> (r: Vec<char>)
    ensures
        r@ == s@,
{
    let mut out: Vec<char> = Vec::new();
    for c in it: s.chars()
        invariant
            it.seq() == s@,
            out@ == s@.take(it.index() as int),
    {
        out.push(c);
    }
    proof {
        assert(out@ =~= s@);
    }
    out
}

/// The character spans of the whitespace-delimited candidates of `s`.
pub fn candidate_spans(s: &Vec<char>) -> (r: Vec<(usize, usize)>)
    ensures
        span_texts(s@, r@) == candidates(s@),
        spans_within(r@, s@.len() as int),
{
    let mut out: Vec<(usize, usize)> = Vec::new();
    let mut start: usize = 0;
    let mut i: usize = 0;
    while i < s.len()
        invariant
            start <= i <= s@.len(),
            candidates(s@) == span_texts(s@, out@) + candidates_from(s@, start as int, i as int),
            spans_within(out@, s@.len() as int),
        decreases s@.len() - i,
    {
        if is_whitespace(s[i]) {
            if start < i {
                let ghost before = out@;
                out.push((start, i));
                proof {
                    assert(span_texts(s@, out@) =~= span_texts(s@, before) + seq![
                        s@.subrange(start as int, i as int),
                    ]);
                }
            }
            start = i + 1;
        }
        i = i + 1;
    }
    if start < s.len() {
        let ghost before = out@;
        out.push((start, s.len()));
        proof {
            assert(span_texts(s@, out@) =~= span_texts(s@, before) + seq![
                s@.subrange(start as int, s@.len() as int),
            ]);
        }
    }
    proof {
        assert(span_texts(s@, out@) =~= candidates(s@));
    }
    out
}

/// Walks the whitespace-delimited candidates of a text, one token at a time.
pub struct WhitespaceIterator<'a> {
    input: &'a str,
    spans: Vec<(usize, usize)>,
    next_index: usize,
}

impl<'a> WhitespaceIterator<'a> {
    /// The internal invariant: the spans are those of the input's candidates.
    pub closed spec fn wf(&self) -> bool {
        &&& span_texts(self.input@, self.spans@) == candidates(self.input@)
        &&& spans_within(self.spans@, self.input@.len() as int)
        &&& self.next_index <= self.spans@.len()
    }

    /// The candidates that are still to come.
    pub closed spec fn remaining(&self) -> Seq<Seq<char>> {
        candidates(self.input@).skip(self.next_index as int)
    }

    /// An iterator over all the candidates of `input`.
    pub fn new(input: &'a str) -> (r: Self)
        ensures
            r.wf(),
            r.remaining() == candidates(input@),
    {
        let chars = chars_of(input);
        let spans = candidate_spans(&chars);
        let r = WhitespaceIterator { input, spans, next_index: 0 };
        proof {
            assert(candidates(input@).skip(0) =~= candidates(input@));
        }
        r
    }

    /// The next candidate as a borrowed token, or `None` when all have been
    /// handed out.
    pub fn next(&mut self) -> (r: Option<Token<'a>>)
        requires
            old(self).wf(),
        ensures
            final(self).wf(),
            old(self).remaining().len() == 0 ==> r is None && final(self).remaining() == old(
                self,
            ).remaining(),
            old(self).remaining().len() > 0 ==> r is Some && r->0@ == old(self).remaining()[0]
                && r->0.is_borrowed() && final(self).remaining() == old(
                self,
            ).remaining().drop_first(),
    {
        if self.next_index < self.spans.len() {
            let (a, b) = self.spans[self.next_index];
            proof {
                assert(span_texts(self.input@, self.spans@)[self.next_index as int] == self.input@.subrange(a as int, b as int));
            }
            let t = Token::from(self.input.substring_char(a, b));
            self.next_index = self.next_index + 1;
            proof {
                assert(old(self).remaining().drop_first() =~= self.remaining());
            }
            Some(t)
        } else {
            None
        }
    }
}

/// A tokenizer that only splits on whitespace.
pub struct WhitespaceTokenizer;

impl WhitespaceTokenizer {
    /// The whitespace tokenizer.
    pub fn new() -> (r: Self) {
        WhitespaceTokenizer
    }

    /// The whitespace tokenizer (same as `new`).
    pub fn default() -> (r: Self) {
        WhitespaceTokenizer
    }

    /// The whitespace-delimited candidates of `input`, as borrowed tokens.
    pub fn tokenize<'a>(&self, input: &'a str) -> (r: Vec<Token<'a>>)
        ensures
            texts(r@) == candidates(input@),
            all_borrowed(r@),
    {
        let mut it = WhitespaceIterator::new(input);
        let mut out: Vec<Token<'a>> = Vec::new();
        loop
            invariant
                it.wf(),
                candidates(input@) == texts(out@) + it.remaining(),
                all_borrowed(out@),
            decreases it.remaining().len(),
        {
            let ghost before = out@;
            match it.next() {
                Some(t) => {
                    out.push(t);
                    proof {
                        assert(texts(out@) =~= texts(before) + seq![t@]);
                        assert(texts(out@) + it.remaining() =~= texts(before) + seq![t@] + it.remaining());
                    }
                }
                None => {
                    proof {
                        assert(texts(out@) =~= candidates(input@));
                    }
                    return out;
                }
            }
        }
    }
}

} // verus!
