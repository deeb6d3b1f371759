use vstd::prelude::*;

verus! {

/// The storage behind a token: a view into the caller's text, or a string of
/// the token's own once it has been edited.
#[derive(Debug)]
pub enum Text<'a> {
    Borrowed(&'a str),
    Owned(String),
}

/// One piece of tokenized text.
///
/// The text is only copied when it is edited through `as_mut_str`.
#[derive(Debug)]
pub struct Token<'a> {
    /// The text, borrowed or owned.
    pub term: Text<'a>,
    /// The index of the token within the source text, where it is tracked.
    pub offset: Option<usize>,
}

impl<'a> View for Token<'a> {
    type V = Seq<char>;

    /// The current text of the token.
    open spec fn view(&self) -> Seq<char> {
        match self.term {
            Text::Borrowed(s) => s@,
            Text::Owned(s) => s@,
        }
    }
}

/// Relies on `<str as PartialEq>::eq`: two string slices are equal exactly when
/// they hold the same characters.
#[verifier::external_body]
fn str_eq(a: &str, b: &str) -> (r: bool)
    ensures
        r == (a@ == b@),
{
    a == b
}

impl<'a> Token<'a> {
    /// The token still borrows its text from the caller.
    pub open spec fn is_borrowed(&self) -> bool {
        self.term is Borrowed
    }

    /// A token that borrows `term`, found at `offset` in the source text.
    pub fn new(term: &'a str, offset: Option<usize>) -> (r: Self)
        ensures
            r@ == term@,
            r.offset == offset,
            r.is_borrowed(),
    {
        Token { term: Text::Borrowed(term), offset }
    }

    /// A token that borrows `term`, with no offset.
    pub fn from(term: &'a str) -> (r: Self)
        ensures
            r@ == term@,
            r.offset is None,
            r.is_borrowed(),
    {
        Token { term: Text::Borrowed(term), offset: None }
    }

    /// The current text of the token.
    pub fn as_str(&self) -> (r: &str)
        ensures
            r@ == self@,
    {
        match &self.term {
            Text::Borrowed(s) => s,
            Text::Owned(s) => s.as_str(),
        }
    }

    /// The current text of the token (same as `as_str`).
    pub fn term(&self) -> (r: &str)
        ensures
            r@ == self@,
    {
        self.as_str()
    }

    /// A handle for editing the token's text in place. A borrowed token first
    /// copies its text, so the caller's text is never changed; later reads of
    /// the token see the edit.
    pub fn as_mut_str(&mut self) -> (r: &mut String)
        ensures
            r@ == old(self)@,
            final(self)@ == final(r)@,
            !final(self).is_borrowed(),
            final(self).offset == old(self).offset,
    {
        if let Text::Borrowed(s) = self.term {
            self.term = Text::Owned(s.to_owned());
        }
        match &mut self.term {
            Text::Owned(s) => s,
            Text::Borrowed(_) => vstd::pervasive::unreached(),
        }
    }

    /// The token's text as an owned string, copied only if still borrowed.
    pub fn into_string(self) -> (r: String)
        ensures
            r@ == self@,
    {
        match self.term {
            Text::Borrowed(s) => s.to_owned(),
            Text::Owned(s) => s,
        }
    }

    /// The token's text as it is displayed: exactly its current text.
    pub fn to_string(&self) -> (r: String)
        ensures
            r@ == self@,
    {
        self.as_str().to_owned()
    }
}

impl<'a> PartialEq for Token<'a> {
    fn eq(&self, other: &Self) -> (r: bool)
        ensures
            r == (self@ == other@),
    {
        str_eq(self.as_str(), other.as_str())
    }
}

impl<'a> vstd::std_specs::cmp::PartialEqSpecImpl for Token<'a> {
    open spec fn obeys_eq_spec() -> bool {
        true
    }

    open spec fn eq_spec(&self, other: &Self) -> bool {
        self@ == other@
    }
}

impl<'a> Eq for Token<'a> {}

impl<'a> PartialEq<String> for Token<'a> {
    fn eq(&self, other: &String) -> (r: bool)
        ensures
            r == (self@ == other@),
    {
        str_eq(self.as_str(), other.as_str())
    }
}

impl<'a> vstd::std_specs::cmp::PartialEqSpecImpl<String> for Token<'a> {
    open spec fn obeys_eq_spec() -> bool {
        true
    }

    open spec fn eq_spec(&self, other: &String) -> bool {
        self@ == other@
    }
}

impl<'a, 'b> PartialEq<&'b str> for Token<'a> {
    fn eq(&self, other: &&'b str) -> (r: bool)
        ensures
            r == (self@ == (*other)@),
    {
        str_eq(self.as_str(), *other)
    }
}

impl<'a, 'b> vstd::std_specs::cmp::PartialEqSpecImpl<&'b str> for Token<'a> {
    open spec fn obeys_eq_spec() -> bool {
        true
    }

    open spec fn eq_spec(&self, other: &&'b str) -> bool {
        self@ == (*other)@
    }
}

} // verus!

verus! {

/// The texts of a sequence of tokens, in order.
pub open spec fn texts<'a>(v: Seq<Token<'a>>) -> Seq<Seq<char>> {
    v.map_values(|t: Token<'a>| t@)
}

/// Every token of the sequence still borrows its text.
pub open spec fn all_borrowed<'a>(v: Seq<Token<'a>>) -> bool {
    forall|k: int| 0 <= k < v.len() ==> #[trigger] v[k].is_borrowed()
}

} // verus!
