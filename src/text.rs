//! Character-level text operations used when records are sanitized, sorted
//! and rendered.
use vstd::prelude::*;

verus! {

/// Every double quote replaced by a single quote.
pub open spec fn fold_quotes(s: Seq<char>) -> Seq<char> {
    s.map_values(|c: char| if c == '"' { '\'' } else { c })
}

/// The body of a paragraphized text: each newline closes one paragraph and
/// opens the next.
pub open spec fn paragraph_body(s: Seq<char>) -> Seq<char>
    decreases s.len(),
{
    if s.len() == 0 {
        Seq::empty()
    } else {
        paragraph_body(s.drop_last()) + if s.last() == '\n' {
            "</p><p>"@
        } else {
            seq![s.last()]
        }
    }
}

/// The text split at each newline, every line wrapped as `<p>line</p>`, and
/// the wrapped lines joined with nothing between them.
pub open spec fn paragraphs(s: Seq<char>) -> Seq<char> {
    "<p>"@ + paragraph_body(s) + "</p>"@
}

/// Lexicographic order on characters by code point; for Rust strings this is
/// the order of `str`'s `Ord`.
pub open spec fn text_le(a: Seq<char>, b: Seq<char>) -> bool
    decreases a.len(),
{
    if a.len() == 0 {
        true
    } else if b.len() == 0 {
        false
    } else if a[0] != b[0] {
        a[0] < b[0]
    } else {
        text_le(a.drop_first(), b.drop_first())
    }
}

/// ASCII lower-case letters mapped to upper case; every other character kept.
pub open spec fn ascii_upper(c: char) -> char {
    if 'a' <= c && c <= 'z' {
        ((c as u32 - 32) as u8) as char
    } else {
        c
    }
}

/// ASCII upper-case letters mapped to lower case; every other character kept.
pub open spec fn ascii_lower(c: char) -> char {
    if 'A' <= c && c <= 'Z' {
        ((c as u32 + 32) as u8) as char
    } else {
        c
    }
}

/// Whether a character is ASCII.
pub open spec fn is_ascii_char(c: char) -> bool {
    c <= '\x7f'
}

/// Whether every character of a text is ASCII.
pub open spec fn ascii_text(s: Seq<char>) -> bool {
    forall|i: int| 0 <= i < s.len() ==> is_ascii_char(#[trigger] s[i])
}

/// Whitespace as `char::is_whitespace` defines it: the characters with the
/// Unicode property White_Space.
pub open spec fn is_ws(c: char) -> bool {
    ('\u{9}' <= c && c <= '\u{d}') || c == ' ' || c == '\u{85}' || c == '\u{a0}' || c == '\u{1680}'
        || ('\u{2000}' <= c && c <= '\u{200a}') || c == '\u{2028}' || c == '\u{2029}' || c
        == '\u{202f}' || c == '\u{205f}' || c == '\u{3000}'
}

/// The text without its leading whitespace.
pub open spec fn trim_start(s: Seq<char>) -> Seq<char>
    decreases s.len(),
{
    if s.len() > 0 && is_ws(s[0]) {
        trim_start(s.drop_first())
    } else {
        s
    }
}

/// The text without its trailing whitespace.
pub open spec fn trim_end(s: Seq<char>) -> Seq<char>
    decreases s.len(),
{
    if s.len() > 0 && is_ws(s.last()) {
        trim_end(s.drop_last())
    } else {
        s
    }
}

/// The text without leading and trailing whitespace.
pub open spec fn trimmed(s: Seq<char>) -> Seq<char> {
    trim_end(trim_start(s))
}

/// What `str::to_lowercase` returns for a text that is not all ASCII.
pub uninterp spec fn lower_of(s: Seq<char>) -> Seq<char>;

/// What `str::to_uppercase` returns for a text that is not all ASCII.
pub uninterp spec fn upper_of(s: Seq<char>) -> Seq<char>;

/// What `char::to_lowercase` yields for a non-ASCII character, collected
/// into a text.
pub uninterp spec fn char_lower_of(c: char) -> Seq<char>;

/// What `char::to_uppercase` yields for a non-ASCII character, collected
/// into a text.
pub uninterp spec fn char_upper_of(c: char) -> Seq<char>;

/// The lower case of a text: ASCII text is mapped character by character.
pub open spec fn text_lower(s: Seq<char>) -> Seq<char> {
    if ascii_text(s) {
        s.map_values(|c: char| ascii_lower(c))
    } else {
        lower_of(s)
    }
}

/// The upper case of a text: ASCII text is mapped character by character.
pub open spec fn text_upper(s: Seq<char>) -> Seq<char> {
    if ascii_text(s) {
        s.map_values(|c: char| ascii_upper(c))
    } else {
        upper_of(s)
    }
}

/// The lower case of a character, as a text.
pub open spec fn char_lower(c: char) -> Seq<char> {
    if is_ascii_char(c) {
        seq![ascii_lower(c)]
    } else {
        char_lower_of(c)
    }
}

/// The upper case of a character, as a text (`ß` has `SS`).
pub open spec fn char_upper(c: char) -> Seq<char> {
    if is_ascii_char(c) {
        seq![ascii_upper(c)]
    } else {
        char_upper_of(c)
    }
}

/// Relies on `str::to_lowercase`: the result depends on the text alone, and
/// an ASCII text has each `A`..=`Z` mapped to `a`..=`z`, nothing else changed.
#[verifier::external_body]
pub(crate) fn lowercase(s: &str) -> (r: String)
    ensures
        !ascii_text(s@) ==> r@ == lower_of(s@),
        ascii_text(s@) ==> r@ == s@.map_values(|c: char| ascii_lower(c)),
{
    s.to_lowercase()
}

/// Relies on `str::to_uppercase`: the result depends on the text alone, and
/// an ASCII text has each `a`..=`z` mapped to `A`..=`Z`, nothing else changed.
#[verifier::external_body]
pub(crate) fn uppercase(s: &str) -> (r: String)
    ensures
        !ascii_text(s@) ==> r@ == upper_of(s@),
        ascii_text(s@) ==> r@ == s@.map_values(|c: char| ascii_upper(c)),
{
    s.to_uppercase()
}

/// Relies on `str::trim`: leading and trailing White_Space removed.
#[verifier::external_body]
pub(crate) fn trim_text(s: &str) -> (r: String)
    ensures
        r@ == trimmed(s@),
{
    s.trim().to_string()
}

/// Relies on `char::to_lowercase`: the result depends on the character alone,
/// and an ASCII character maps as `char::to_ascii_lowercase` does.
#[verifier::external_body]
pub(crate) fn lowercase_char(c: char) -> (r: String)
    ensures
        !is_ascii_char(c) ==> r@ == char_lower_of(c),
        is_ascii_char(c) ==> r@ == seq![ascii_lower(c)],
{
    c.to_lowercase().to_string()
}

/// Relies on `char::to_uppercase`: the result depends on the character alone,
/// and an ASCII character maps as `char::to_ascii_uppercase` does.
#[verifier::external_body]
pub(crate) fn uppercase_char(c: char) -> (r: String)
    ensures
        !is_ascii_char(c) ==> r@ == char_upper_of(c),
        is_ascii_char(c) ==> r@ == seq![ascii_upper(c)],
{
    c.to_uppercase().to_string()
}

/// The text with every `"` replaced by `'`.
pub fn replace_quotes(s: &str) -> (r: String)
    ensures
        r@ == fold_quotes(s@),
{
    let n = s.unicode_len();
    let mut out = String::new();
    let mut i: usize = 0;
    while i < n
        invariant
            n == s@.len(),
            i <= n,
            out@ == fold_quotes(s@.subrange(0, i as int)),
        decreases n - i,
    {
        let c = s.get_char(i);
        proof {
            reveal_strlit("'");
        }
        if c == '"' {
            out.append("'");
        } else {
            out.append(s.substring_char(i, i + 1));
        }
        assert(s@.subrange(i as int, i + 1) =~= seq![c]);
        assert(fold_quotes(s@.subrange(0, i + 1)) =~= fold_quotes(s@.subrange(0, i as int)) + seq![
            if c == '"' { '\'' } else { c },
        ]);
        i += 1;
    }
    assert(s@.subrange(0, n as int) =~= s@);
    out
}

/// The text wrapped into paragraphs, one for each line.
pub fn wrap_paragraphs(s: &str) -> (r: String)
    ensures
        r@ == paragraphs(s@),
{
    let n = s.unicode_len();
    let mut out = String::from_str("<p>");
    let mut i: usize = 0;
    while i < n
        invariant
            n == s@.len(),
            i <= n,
            out@ == "<p>"@ + paragraph_body(s@.subrange(0, i as int)),
        decreases n - i,
    {
        let c = s.get_char(i);
        if c == '\n' {
            out.append("</p><p>");
        } else {
            out.append(s.substring_char(i, i + 1));
        }
        assert(s@.subrange(i as int, i + 1) =~= seq![c]);
        assert(s@.subrange(0, i + 1).drop_last() =~= s@.subrange(0, i as int));
        i += 1;
    }
    assert(s@.subrange(0, n as int) =~= s@);
    out.append("</p>");
    out
}

/// Whether `a` comes before `b` or equals it, character by character.
pub fn text_le_exec(a: &str, b: &str) -> (r: bool)
    ensures
        r == text_le(a@, b@),
{
    let na = a.unicode_len();
    let nb = b.unicode_len();
    let mut i: usize = 0;
    assert(a@.subrange(0, na as int) =~= a@);
    assert(b@.subrange(0, nb as int) =~= b@);
    while i < na && i < nb
        invariant
            na == a@.len(),
            nb == b@.len(),
            i <= na,
            i <= nb,
            text_le(a@, b@) == text_le(a@.subrange(i as int, na as int), b@.subrange(i as int, nb as int)),
        decreases na - i,
    {
        let ca = a.get_char(i);
        let cb = b.get_char(i);
        let ghost sa = a@.subrange(i as int, na as int);
        let ghost sb = b@.subrange(i as int, nb as int);
        assert(sa[0] == ca && sb[0] == cb);
        if ca != cb {
            return ca < cb;
        }
        assert(sa.drop_first() =~= a@.subrange(i + 1, na as int));
        assert(sb.drop_first() =~= b@.subrange(i + 1, nb as int));
        i += 1;
    }
    i == na
}

/// Quote folding changes nothing the second time.
pub proof fn lemma_fold_quotes_idempotent(s: Seq<char>)
    ensures
        fold_quotes(fold_quotes(s)) == fold_quotes(s),
{
    assert(fold_quotes(fold_quotes(s)) =~= fold_quotes(s));
}

/// Every text is ordered before itself.
pub proof fn lemma_text_le_refl(a: Seq<char>)
    ensures
        text_le(a, a),
    decreases a.len(),
{
    if a.len() > 0 {
        lemma_text_le_refl(a.drop_first());
    }
}

/// Any two texts are ordered one way or the other.
pub proof fn lemma_text_le_total(a: Seq<char>, b: Seq<char>)
    ensures
        text_le(a, b) || text_le(b, a),
    decreases a.len(),
{
    if a.len() > 0 && b.len() > 0 {
        if a[0] == b[0] {
            lemma_text_le_total(a.drop_first(), b.drop_first());
        }
    }
}

/// The order is transitive.
pub proof fn lemma_text_le_trans(a: Seq<char>, b: Seq<char>, c: Seq<char>)
    requires
        text_le(a, b),
        text_le(b, c),
    ensures
        text_le(a, c),
    decreases a.len(),
{
    if a.len() > 0 && b.len() > 0 && c.len() > 0 && a[0] == b[0] && b[0] == c[0] {
        lemma_text_le_trans(a.drop_first(), b.drop_first(), c.drop_first());
    }
}

/// Texts ordered both ways are equal.
pub proof fn lemma_text_le_antisym(a: Seq<char>, b: Seq<char>)
    requires
        text_le(a, b),
        text_le(b, a),
    ensures
        a == b,
    decreases a.len(),
{
    if a.len() > 0 && b.len() > 0 {
        lemma_text_le_antisym(a.drop_first(), b.drop_first());
        assert(a =~= seq![a[0]] + a.drop_first());
        assert(b =~= seq![b[0]] + b.drop_first());
    }
}

/// Trimming the start leaves a text that is empty or starts with a
/// non-whitespace character.
proof fn lemma_trim_start_shape(s: Seq<char>)
    ensures
        trim_start(s).len() == 0 || !is_ws(trim_start(s)[0]),
    decreases s.len(),
{
    if s.len() > 0 && is_ws(s[0]) {
        lemma_trim_start_shape(s.drop_first());
    }
}

/// Trimming the end keeps a prefix of the text, and leaves it empty or
/// ending with a non-whitespace character.
proof fn lemma_trim_end_shape(s: Seq<char>)
    ensures
        trim_end(s).len() <= s.len(),
        trim_end(s) == s.subrange(0, trim_end(s).len() as int),
        trim_end(s).len() == 0 || !is_ws(trim_end(s).last()),
    decreases s.len(),
{
    if s.len() > 0 && is_ws(s.last()) {
        lemma_trim_end_shape(s.drop_last());
        assert(s.drop_last().subrange(0, trim_end(s).len() as int) =~= s.subrange(0, trim_end(s).len() as int));
    } else {
        assert(s.subrange(0, s.len() as int) =~= s);
    }
}

/// Trimming changes nothing the second time.
pub proof fn lemma_trimmed_idempotent(s: Seq<char>)
    ensures
        trimmed(trimmed(s)) == trimmed(s),
{
    let a = trim_start(s);
    let t = trim_end(a);
    lemma_trim_start_shape(s);
    lemma_trim_end_shape(a);
    if t.len() > 0 {
        assert(t[0] == a[0]);
    }
    assert(trim_start(t) == t);
    assert(trim_end(t) == t);
}

} // verus!
