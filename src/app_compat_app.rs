//! One application's compatibility record: sanitizing and rendering.
use vstd::prelude::*;
use crate::bool_or_none::{BoolOrNone, tri_text};
use crate::error::{CompatError, is_malformed_link};
use crate::string_or_none::{
    StringOrNone, text_or_empty, fold_quotes_opt, paragraphs_opt, lemma_fold_quotes_opt_idempotent,
};
use crate::text::{
    char_lower, char_upper, fold_quotes, trimmed, replace_quotes, trim_text, uppercase_char,
    lemma_fold_quotes_idempotent, lemma_trimmed_idempotent,
};

verus! {

/// The mathematical value of a record.
pub ghost struct RecordView {
    pub app_name: Seq<char>,
    pub package_name: Seq<char>,
    pub version: Seq<char>,
    pub link: Option<Seq<char>>,
    pub description: Option<Seq<char>>,
    pub works: bool,
    pub works_without_compat_mode: bool,
    pub works_without_gms: Option<bool>,
    pub works_installed_by_any_source: Option<bool>,
    pub comment: Option<Seq<char>>,
}

/// One application's compatibility entry.
#[derive(Clone, Debug, PartialEq, Eq)]
pub struct AppCompatApp {
    pub app_name: String,
    pub package_name: String,
    pub version: String,
    pub repo_or_download_link: StringOrNone,
    pub description: StringOrNone,
    pub works: bool,
    pub works_without_compat_mode: bool,
    pub works_without_gms: BoolOrNone,
    pub works_installed_by_any_source: BoolOrNone,
    pub other_compatibility_comment: StringOrNone,
}

impl View for AppCompatApp {
    type V = RecordView;

    open spec fn view(&self) -> RecordView {
        RecordView {
            app_name: self.app_name@,
            package_name: self.package_name@,
            version: self.version@,
            link: self.repo_or_download_link@,
            description: self.description@,
            works: self.works,
            works_without_compat_mode: self.works_without_compat_mode,
            works_without_gms: self.works_without_gms@,
            works_installed_by_any_source: self.works_installed_by_any_source@,
            comment: self.other_compatibility_comment@,
        }
    }
}

/// The first character of the name, upper-cased (a text: `ß` has `SS`).
pub open spec fn leading_letter(r: RecordView) -> Seq<char> {
    char_upper(r.app_name[0])
}

/// The first character of the name, lower-cased: records are grouped, and
/// listed in the table of contents, by this case-folded letter.
pub open spec fn folded_letter(r: RecordView) -> Seq<char> {
    char_lower(r.app_name[0])
}

/// The status glyph: works without compatibility mode, works only with it,
/// or does not work.
pub open spec fn status_glyph(works: bool, works_without_compat_mode: bool) -> Seq<char> {
    if works && works_without_compat_mode {
        "✅"@
    } else if works {
        "⚠️"@
    } else {
        "❌"@
    }
}

/// How a boolean is written in a card.
pub open spec fn bool_word(b: bool) -> Seq<char> {
    if b {
        "true"@
    } else {
        "false"@
    }
}

/// The card fragment of a record whose link has the given host.
pub open spec fn card_text(r: RecordView, host: Seq<char>) -> Seq<char> {
    "{{ app_compat_card( app_name = \""@ + r.app_name + "\", package_name = \""@ + r.package_name
        + "\", version = \""@ + r.version + "\", repo_or_download_link = \""@ + text_or_empty(
        r.link,
    ) + "\", link_host = \""@ + host + "\", description = \""@ + text_or_empty(r.description)
        + "\", works = "@ + bool_word(r.works) + ", general_status_icon = \""@ + status_glyph(
        r.works,
        r.works_without_compat_mode,
    ) + "\", works_without_gms = \""@ + tri_text(r.works_without_gms)
        + "\", works_installed_by_any_source = \""@ + tri_text(r.works_installed_by_any_source)
        + "\", other_compatibility_comment = \""@ + text_or_empty(r.comment) + "\" ) }}"@
}

/// The host of the URL that a link parses to; `None` when it is no URL or
/// the URL has no host.
pub uninterp spec fn link_host_of(link: Seq<char>) -> Option<Seq<char>>;

/// The host shown on a record's card: empty without a link, `None` when the
/// link gives no host.
pub open spec fn card_host(r: RecordView) -> Option<Seq<char>> {
    match r.link {
        None => Some(Seq::empty()),
        Some(l) => link_host_of(l),
    }
}

/// The view of an optional owned text.
pub open spec fn opt_text_view(o: Option<String>) -> Option<Seq<char>> {
    match o {
        Some(s) => Some(s@),
        None => None,
    }
}

/// Relies on `url::Url::parse` and `url::Url::host_str`: the host depends on
/// the link alone; `None` when parsing fails or the URL has no host.
#[verifier::external_body]
fn url_host(link: &str) -> (r: Option<String>)
    ensures
        opt_text_view(r) == link_host_of(link@),
{
    match url::Url::parse(link) {
        Ok(u) => u.host_str().map(|h| h.to_string()),
        Err(_) => None,
    }
}

/// The record with quote folding applied to every text field.
pub open spec fn quotes_folded(r: RecordView) -> RecordView {
    RecordView {
        app_name: fold_quotes(r.app_name),
        package_name: fold_quotes(r.package_name),
        version: fold_quotes(r.version),
        link: fold_quotes_opt(r.link),
        description: fold_quotes_opt(r.description),
        comment: fold_quotes_opt(r.comment),
        ..r
    }
}

/// The record with its description and comment wrapped into paragraphs.
pub open spec fn paragraphized(r: RecordView) -> RecordView {
    RecordView {
        description: paragraphs_opt(r.description),
        comment: paragraphs_opt(r.comment),
        ..r
    }
}

/// The record made safe to embed: quotes folded, then paragraphs wrapped.
pub open spec fn sanitized(r: RecordView) -> RecordView {
    paragraphized(quotes_folded(r))
}

/// An optional text answer trimmed; one that is empty once trimmed is absent.
pub open spec fn trimmed_opt(o: Option<Seq<char>>) -> Option<Seq<char>> {
    match o {
        Some(t) => if trimmed(t).len() == 0 {
            None
        } else {
            Some(trimmed(t))
        },
        None => None,
    }
}

/// Whether the required answers are non-empty once trimmed.
pub open spec fn required_answers_given(
    app_name: Seq<char>,
    package_name: Seq<char>,
    version: Seq<char>,
) -> bool {
    trimmed(app_name).len() > 0 && trimmed(package_name).len() > 0 && trimmed(version).len() > 0
}

/// A record entered by hand: every text trimmed, and when the application
/// does not work, the answers that depend on it are not applicable.
pub open spec fn entered_record(
    app_name: Seq<char>,
    package_name: Seq<char>,
    version: Seq<char>,
    link: Option<Seq<char>>,
    description: Option<Seq<char>>,
    works: bool,
    works_without_compat_mode: bool,
    works_without_gms: Option<bool>,
    works_installed_by_any_source: Option<bool>,
    comment: Option<Seq<char>>,
) -> RecordView {
    RecordView {
        app_name: trimmed(app_name),
        package_name: trimmed(package_name),
        version: trimmed(version),
        link: trimmed_opt(link),
        description: trimmed_opt(description),
        works,
        works_without_compat_mode: works && works_without_compat_mode,
        works_without_gms: if works {
            works_without_gms
        } else {
            None
        },
        works_installed_by_any_source: if works {
            works_installed_by_any_source
        } else {
            None
        },
        comment: if works {
            trimmed_opt(comment)
        } else {
            None
        },
    }
}

/// An optional text trimmed, absent when nothing is left.
fn trim_answer(o: &StringOrNone) -> (r: StringOrNone)
    ensures
        r@ == trimmed_opt(o@),
{
    match &o.0 {
        Some(t) => {
            let t2 = trim_text(t.as_str());
            if t2.as_str().unicode_len() == 0 {
                StringOrNone(None)
            } else {
                StringOrNone(Some(t2))
            }
        },
        None => StringOrNone(None),
    }
}

impl AppCompatApp {
    /// Builds a record from the answers given for it. Every text is trimmed;
    /// the name, the package name and the version must not be empty then.
    /// When the application does not work, the later answers are not
    /// applicable and are dropped.
    pub fn new_from_command_line(
        app_name: String,
        package_name: String,
        version: String,
        repo_or_download_link: StringOrNone,
        description: StringOrNone,
        works: bool,
        works_without_compat_mode: bool,
        works_without_gms: BoolOrNone,
        works_installed_by_any_source: BoolOrNone,
        other_compatibility_comment: StringOrNone,
    ) -> (r: Result<Self, CompatError>)
        ensures
            r is Ok <==> required_answers_given(app_name@, package_name@, version@),
            r is Err ==> r == Err::<Self, CompatError>(CompatError::EmptyInput),
            r is Ok ==> r->Ok_0@ == entered_record(
                app_name@,
                package_name@,
                version@,
                repo_or_download_link@,
                description@,
                works,
                works_without_compat_mode,
                works_without_gms@,
                works_installed_by_any_source@,
                other_compatibility_comment@,
            ),
    {
        let app_name = trim_text(app_name.as_str());
        let package_name = trim_text(package_name.as_str());
        let version = trim_text(version.as_str());
        if app_name.as_str().unicode_len() == 0 || package_name.as_str().unicode_len() == 0
            || version.as_str().unicode_len() == 0 {
            return Err(CompatError::EmptyInput);
        }
        let repo_or_download_link = trim_answer(&repo_or_download_link);
        let description = trim_answer(&description);
        if !works {
            return Ok(
                AppCompatApp {
                    app_name,
                    package_name,
                    version,
                    repo_or_download_link,
                    description,
                    works,
                    works_without_compat_mode: false,
                    works_without_gms: BoolOrNone(None),
                    works_installed_by_any_source: BoolOrNone(None),
                    other_compatibility_comment: StringOrNone(None),
                },
            );
        }
        let other_compatibility_comment = trim_answer(&other_compatibility_comment);
        Ok(
            AppCompatApp {
                app_name,
                package_name,
                version,
                repo_or_download_link,
                description,
                works,
                works_without_compat_mode,
                works_without_gms,
                works_installed_by_any_source,
                other_compatibility_comment,
            },
        )
    }

    /// The first character of the name, upper-cased.
    pub fn get_name_first_char(&self) -> (r: String)
        requires
            self.app_name@.len() > 0,
        ensures
            r@ == leading_letter(self@),
    {
        uppercase_char(self.app_name.as_str().get_char(0))
    }

    /// The first character of the name, lower-cased.
    pub fn folded_first_char(&self) -> (r: String)
        requires
            self.app_name@.len() > 0,
        ensures
            r@ == folded_letter(self@),
    {
        crate::text::lowercase_char(self.app_name.as_str().get_char(0))
    }

    /// The status glyph of this record.
    pub fn general_status_icon(&self) -> (r: &'static str)
        ensures
            r@ == status_glyph(self.works, self.works_without_compat_mode),
    {
        if self.works && self.works_without_compat_mode {
            "✅"
        } else if self.works {
            "⚠️"
        } else {
            "❌"
        }
    }

    /// The card fragment of this record, given the host of its link.
    pub fn print_card_line_with_host(&self, host: &str) -> (r: String)
        ensures
            r@ == card_text(self@, host@),
    {
        let link = self.repo_or_download_link.to_string();
        let description = self.description.to_string();
        let comment = self.other_compatibility_comment.to_string();
        let works: &str = if self.works {
            "true"
        } else {
            "false"
        };
        let gms = self.works_without_gms.to_string();
        let any_source = self.works_installed_by_any_source.to_string();
        let mut out = String::from_str("{{ app_compat_card( app_name = \"");
        out.append(self.app_name.as_str());
        out.append("\", package_name = \"");
        out.append(self.package_name.as_str());
        out.append("\", version = \"");
        out.append(self.version.as_str());
        out.append("\", repo_or_download_link = \"");
        out.append(link.as_str());
        out.append("\", link_host = \"");
        out.append(host);
        out.append("\", description = \"");
        out.append(description.as_str());
        out.append("\", works = ");
        out.append(works);
        out.append(", general_status_icon = \"");
        out.append(self.general_status_icon());
        out.append("\", works_without_gms = \"");
        out.append(gms.as_str());
        out.append("\", works_installed_by_any_source = \"");
        out.append(any_source.as_str());
        out.append("\", other_compatibility_comment = \"");
        out.append(comment.as_str());
        out.append("\" ) }}");
        out
    }

    /// The card fragment of this record. A link that gives no host is an
    /// error; without a link the host is empty.
    pub fn print_card_line(&self) -> (r: Result<String, CompatError>)
        ensures
            match card_host(self@) {
                Some(h) => r is Ok && r->Ok_0@ == card_text(self@, h),
                None => r is Err && is_malformed_link(r->Err_0, self@.link->Some_0),
            },
    {
        match &self.repo_or_download_link.0 {
            None => {
                proof {
                    reveal_strlit("");
                }
                Ok(self.print_card_line_with_host(""))
            },
            Some(link) => match url_host(link.as_str()) {
                Some(host) => Ok(self.print_card_line_with_host(host.as_str())),
                None => Err(CompatError::MalformedLink(link.clone())),
            },
        }
    }

    /// Replaces every `"` by `'` in all text fields, so that none can end
    /// the quoted values of a card early.
    pub fn replace_double_quotes_from_all_string_fields(&mut self)
        ensures
            final(self)@ == quotes_folded(old(self)@),
    {
        self.app_name = replace_quotes(self.app_name.as_str());
        self.package_name = replace_quotes(self.package_name.as_str());
        self.version = replace_quotes(self.version.as_str());
        self.description = self.description.replace_double_quotes_with_single_quotes();
        self.repo_or_download_link =
        self.repo_or_download_link.replace_double_quotes_with_single_quotes();
        self.other_compatibility_comment =
        self.other_compatibility_comment.replace_double_quotes_with_single_quotes();
    }

    /// Wraps the lines of the description and of the comment into
    /// paragraphs, so that no newline breaks a card.
    pub fn replace_new_lines_with_p_tags(&mut self)
        ensures
            final(self)@ == paragraphized(old(self)@),
    {
        self.description = self.description.replace_new_lines_with_p_tags();
        self.other_compatibility_comment =
        self.other_compatibility_comment.replace_new_lines_with_p_tags();
    }

    /// A copy of the record made safe to embed in a document.
    pub fn sanitize(&self) -> (r: Self)
        ensures
            r@ == sanitized(self@),
    {
        let mut r = AppCompatApp {
            app_name: replace_quotes(self.app_name.as_str()),
            package_name: replace_quotes(self.package_name.as_str()),
            version: replace_quotes(self.version.as_str()),
            repo_or_download_link: self.repo_or_download_link.replace_double_quotes_with_single_quotes(),
            description: self.description.replace_double_quotes_with_single_quotes(),
            works: self.works,
            works_without_compat_mode: self.works_without_compat_mode,
            works_without_gms: self.works_without_gms,
            works_installed_by_any_source: self.works_installed_by_any_source,
            other_compatibility_comment: self.other_compatibility_comment.replace_double_quotes_with_single_quotes(),
        };
        r.replace_new_lines_with_p_tags();
        r
    }
}

/// The glyph is the check mark exactly when the application works without
/// compatibility mode, the cross exactly when it does not work, and the
/// warning sign otherwise.
pub proof fn lemma_status_glyph(works: bool, works_without_compat_mode: bool)
    ensures
        (status_glyph(works, works_without_compat_mode) == "✅"@) == (works
            && works_without_compat_mode),
        (status_glyph(works, works_without_compat_mode) == "❌"@) == !works,
        (status_glyph(works, works_without_compat_mode) == "⚠️"@) == (works
            && !works_without_compat_mode),
{
    reveal_strlit("✅");
    reveal_strlit("❌");
    reveal_strlit("⚠️");
    assert("✅"@.len() == 1 && "❌"@.len() == 1 && "⚠️"@.len() == 2);
    assert("✅"@[0] != "❌"@[0]);
}

/// An entered record has non-empty required texts, and every text of it is
/// already trimmed.
pub proof fn lemma_entered_record_trimmed(
    app_name: Seq<char>,
    package_name: Seq<char>,
    version: Seq<char>,
    link: Option<Seq<char>>,
    description: Option<Seq<char>>,
    works: bool,
    works_without_compat_mode: bool,
    works_without_gms: Option<bool>,
    works_installed_by_any_source: Option<bool>,
    comment: Option<Seq<char>>,
)
    requires
        required_answers_given(app_name, package_name, version),
    ensures
        ({
            let r = entered_record(
                app_name,
                package_name,
                version,
                link,
                description,
                works,
                works_without_compat_mode,
                works_without_gms,
                works_installed_by_any_source,
                comment,
            );
            &&& r.app_name.len() > 0 && trimmed(r.app_name) == r.app_name
            &&& r.package_name.len() > 0 && trimmed(r.package_name) == r.package_name
            &&& r.version.len() > 0 && trimmed(r.version) == r.version
            &&& r.link matches Some(t) ==> t.len() > 0 && trimmed(t) == t
            &&& r.description matches Some(t) ==> t.len() > 0 && trimmed(t) == t
            &&& r.comment matches Some(t) ==> t.len() > 0 && trimmed(t) == t
        }),
{
    lemma_trimmed_idempotent(app_name);
    lemma_trimmed_idempotent(package_name);
    lemma_trimmed_idempotent(version);
    if let Some(t) = link {
        lemma_trimmed_idempotent(t);
    }
    if let Some(t) = description {
        lemma_trimmed_idempotent(t);
    }
    if let Some(t) = comment {
        lemma_trimmed_idempotent(t);
    }
}

/// Quote folding changes nothing the second time.
pub proof fn lemma_quotes_folded_idempotent(r: RecordView)
    ensures
        quotes_folded(quotes_folded(r)) == quotes_folded(r),
{
    lemma_fold_quotes_idempotent(r.app_name);
    lemma_fold_quotes_idempotent(r.package_name);
    lemma_fold_quotes_idempotent(r.version);
    lemma_fold_quotes_opt_idempotent(r.link);
    lemma_fold_quotes_opt_idempotent(r.description);
    lemma_fold_quotes_opt_idempotent(r.comment);
}

/// Sanitizing a record without description and comment changes nothing the
/// second time. (A present description or comment is wrapped into
/// paragraphs once more on each pass.)
pub proof fn lemma_sanitized_idempotent(r: RecordView)
    requires
        r.description is None,
        r.comment is None,
    ensures
        sanitized(sanitized(r)) == sanitized(r),
{
    lemma_quotes_folded_idempotent(r);
}

} // verus!
