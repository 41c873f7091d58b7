//! The final document: front matter, surrounding text, table of contents
//! and card list.
use vstd::prelude::*;
use crate::app_compat_list::{AppCompatList, all_hosts, card_list_text, first_unhosted, toc_block, views};
use crate::error::{CompatError, is_malformed_link};

verus! {

/// What surrounds the generated part of the document.
#[derive(Clone, Debug, PartialEq, Eq)]
pub struct AppOutputMdFileConfig {
    pub title: String,
    pub description: String,
    pub alias: String,
    pub before_text: Option<String>,
    pub after_text: Option<String>,
}

/// An optional text, or the empty text.
pub open spec fn opt_or_empty(o: Option<String>) -> Seq<char> {
    match o {
        Some(t) => t@,
        None => Seq::empty(),
    }
}

/// The document: front matter with title and description, the text before,
/// the table of contents, the card list and the text after.
pub open spec fn document_text(
    title: Seq<char>,
    description: Seq<char>,
    before: Seq<char>,
    toc: Seq<char>,
    cards: Seq<char>,
    after: Seq<char>,
) -> Seq<char> {
    "+++\ntitle = \""@ + title + "\"\ndescription = \""@ + description
        + "\"\n\n[extra]\n\nrelated = []\n+++\n"@ + before + "\n"@ + toc + "\n"@ + cards + "\n\n"@
        + after
}

/// The text, or the empty text when there is none.
pub fn option_to_string_or_empty(thing: Option<String>) -> (r: String)
    ensures
        r@ == opt_or_empty(thing),
{
    match thing {
        Some(text) => text,
        None => String::new(),
    }
}

impl AppOutputMdFileConfig {
    /// The whole document for a collection, which should be sorted first.
    /// Fails when a record's link gives no host.
    pub fn render_document(&self, list: &AppCompatList) -> (r: Result<String, CompatError>)
        requires
            list.wf(),
        ensures
            all_hosts(views(list.apps_seq())) ==> r is Ok && r->Ok_0@ == document_text(
                self.title@,
                self.description@,
                opt_or_empty(self.before_text),
                toc_block(list.letters()),
                card_list_text(views(list.apps_seq())),
                opt_or_empty(self.after_text),
            ),
            !all_hosts(views(list.apps_seq())) ==> r is Err && exists|i: int|
                first_unhosted(views(list.apps_seq()), i) && is_malformed_link(
                    r->Err_0,
                    views(list.apps_seq())[i].link->Some_0,
                ),
    {
        let cards = match list.print_cards_list() {
            Ok(c) => c,
            Err(e) => return Err(e),
        };
        let toc = list.print_md_toc_wrapped_in_div();
        let before = match &self.before_text {
            Some(t) => t.clone(),
            None => String::new(),
        };
        let after = match &self.after_text {
            Some(t) => t.clone(),
            None => String::new(),
        };
        let mut out = String::from_str("+++\ntitle = \"");
        out.append(self.title.as_str());
        out.append("\"\ndescription = \"");
        out.append(self.description.as_str());
        out.append("\"\n\n[extra]\n\nrelated = []\n+++\n");
        out.append(before.as_str());
        out.append("\n");
        out.append(toc.as_str());
        out.append("\n");
        out.append(cards.as_str());
        out.append("\n\n");
        out.append(after.as_str());
        Ok(out)
    }
}

} // verus!
