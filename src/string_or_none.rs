//! A text that may be absent.
use vstd::prelude::*;
use crate::text::{fold_quotes, paragraphs, trimmed, replace_quotes, trim_text, wrap_paragraphs};

verus! {

/// `Some(text)` when present, `None` when absent.
#[derive(Clone, Debug, PartialEq, Eq)]
pub struct StringOrNone(pub Option<String>);

impl View for StringOrNone {
    type V = Option<Seq<char>>;

    open spec fn view(&self) -> Option<Seq<char>> {
        match &self.0 {
            Some(s) => Some(s@),
            None => None,
        }
    }
}

/// The text, or the empty text when absent.
pub open spec fn text_or_empty(o: Option<Seq<char>>) -> Seq<char> {
    match o {
        Some(t) => t,
        None => Seq::empty(),
    }
}

/// Quote folding applied to a present text.
pub open spec fn fold_quotes_opt(o: Option<Seq<char>>) -> Option<Seq<char>> {
    match o {
        Some(t) => Some(fold_quotes(t)),
        None => None,
    }
}

/// A present text trimmed and wrapped into paragraphs.
pub open spec fn paragraphs_opt(o: Option<Seq<char>>) -> Option<Seq<char>> {
    match o {
        Some(t) => Some(paragraphs(trimmed(t))),
        None => None,
    }
}

impl StringOrNone {
    /// Every `"` of a present text replaced by `'`; absent stays absent.
    pub fn replace_double_quotes_with_single_quotes(&self) -> (r: Self)
        ensures
            r@ == fold_quotes_opt(self@),
    {
        match &self.0 {
            Some(text) => StringOrNone(Some(replace_quotes(text.as_str()))),
            None => StringOrNone(None),
        }
    }

    /// A present text trimmed, then each of its lines wrapped as a paragraph;
    /// absent stays absent.
    pub fn replace_new_lines_with_p_tags(&self) -> (r: Self)
        ensures
            r@ == paragraphs_opt(self@),
    {
        match &self.0 {
            Some(text) => {
                let trimmed = trim_text(text.as_str());
                StringOrNone(Some(wrap_paragraphs(trimmed.as_str())))
            },
            None => StringOrNone(None),
        }
    }

    /// The displayed form: the text, or nothing when absent.
    pub fn to_string(&self) -> (r: String)
        ensures
            r@ == text_or_empty(self@),
    {
        match &self.0 {
            Some(text) => text.clone(),
            None => String::new(),
        }
    }
}

/// Quote folding of an optional text changes nothing the second time.
pub proof fn lemma_fold_quotes_opt_idempotent(o: Option<Seq<char>>)
    ensures
        fold_quotes_opt(fold_quotes_opt(o)) == fold_quotes_opt(o),
{
    if let Some(t) = o {
        crate::text::lemma_fold_quotes_idempotent(t);
    }
}

} // verus!
