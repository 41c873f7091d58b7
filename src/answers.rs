//! Decisions on the answers typed in while a record is entered.
use vstd::prelude::*;
use crate::bool_or_none::{BoolOrNone, tri_text};
use crate::error::CompatError;
use crate::string_or_none::StringOrNone;
use crate::text::{
    ascii_lower, trim_start, trim_end, text_lower, trimmed, lowercase, trim_text, text_le_exec, lemma_text_le_antisym,
    lemma_trimmed_idempotent,
};

verus! {

/// The value of an answer token: `yes`/`y` is true, `no`/`n` is false.
pub open spec fn bool_token(t: Seq<char>) -> Option<bool> {
    if t == "yes"@ || t == "y"@ {
        Some(true)
    } else if t == "no"@ || t == "n"@ {
        Some(false)
    } else {
        None
    }
}

/// The value of a typed answer: lower-cased, trimmed, then read as a token.
pub open spec fn answer_bool(input: Seq<char>) -> Option<bool> {
    bool_token(trimmed(text_lower(input)))
}

/// An answer to a text question after trimming, refused when it is empty
/// and an empty answer is not allowed.
pub open spec fn answer_text_of(raw: Seq<char>, can_be_empty: bool) -> Option<Seq<char>> {
    if !can_be_empty && trimmed(raw).len() == 0 {
        None
    } else {
        Some(trimmed(raw))
    }
}

/// Whether the two texts are equal.
pub fn same_text(a: &str, b: &str) -> (r: bool)
    ensures
        r == (a@ == b@),
{
    let ab = text_le_exec(a, b);
    let ba = text_le_exec(b, a);
    if ab && ba {
        proof {
            lemma_text_le_antisym(a@, b@);
        }
        true
    } else {
        proof {
            crate::text::lemma_text_le_refl(a@);
        }
        false
    }
}

/// Reads an answer token that has already been lower-cased and trimmed.
pub fn answer_token_to_bool(token: &str) -> (r: Result<bool, CompatError>)
    ensures
        r == match bool_token(token@) {
            Some(b) => Ok::<bool, CompatError>(b),
            None => Err(CompatError::InvalidAnswer),
        },
{
    if same_text(token, "yes") || same_text(token, "y") {
        Ok(true)
    } else if same_text(token, "no") || same_text(token, "n") {
        Ok(false)
    } else {
        Err(CompatError::InvalidAnswer)
    }
}

/// Reads a required yes/no answer, in any case and with surrounding
/// whitespace; anything else is refused.
pub fn answer_string_to_bool(input: String) -> (r: Result<bool, CompatError>)
    ensures
        r == match answer_bool(input@) {
            Some(b) => Ok::<bool, CompatError>(b),
            None => Err(CompatError::InvalidAnswer),
        },
{
    let lower = lowercase(input.as_str());
    let trimmed = trim_text(lower.as_str());
    answer_token_to_bool(trimmed.as_str())
}

/// Reads an optional yes/no answer; anything that is not yes or no,
/// the empty answer and `idk` included, is unknown. This never fails.
pub fn answer_string_to_option_bool(input: String) -> (r: BoolOrNone)
    ensures
        r@ == answer_bool(input@),
{
    match answer_string_to_bool(input) {
        Ok(b) => BoolOrNone(Some(b)),
        Err(_) => BoolOrNone(None),
    }
}

/// A typed text answer, trimmed; `None` when it is empty and must not be.
pub fn answer_text(raw: &str, can_be_empty: bool) -> (r: Option<String>)
    ensures
        match r {
            Some(t) => answer_text_of(raw@, can_be_empty) == Some(t@),
            None => answer_text_of(raw@, can_be_empty) is None,
        },
{
    let trimmed = trim_text(raw);
    if !can_be_empty && trimmed.as_str().unicode_len() == 0 {
        None
    } else {
        Some(trimmed)
    }
}

/// An optional text answer: the empty answer is absent.
pub fn get_option_string_from_user(response: String) -> (r: StringOrNone)
    ensures
        r@ == if response@.len() == 0 {
            None::<Seq<char>>
        } else {
            Some(response@)
        },
{
    if response.as_str().unicode_len() == 0 {
        StringOrNone(None)
    } else {
        StringOrNone(Some(response))
    }
}

/// The displayed form of a tri-state value reads back as that value.
pub proof fn lemma_tri_state_round_trip(b: Option<bool>)
    ensures
        answer_bool(tri_text(b)) == b,
{
    reveal_strlit("yes");
    reveal_strlit("y");
    reveal_strlit("no");
    reveal_strlit("n");
    reveal_strlit("?");
    let t = tri_text(b);
    assert(t.len() >= 1 && t.len() <= 3);
    assert(t.map_values(|c: char| ascii_lower(c)) =~= t);
    let s = t.map_values(|c: char| ascii_lower(c));
    assert(trim_start(s) == s);
    assert(trim_end(s) == s);
    assert("yes"@.len() == 3 && "y"@.len() == 1 && "no"@.len() == 2 && "n"@.len() == 1);
    assert("?"@[0] == '?' && "y"@[0] == 'y' && "n"@[0] == 'n');
}

/// A text answer, once accepted, is trimmed: trimming it again changes
/// nothing.
pub proof fn lemma_answer_text_trimmed(raw: Seq<char>, can_be_empty: bool)
    ensures
        answer_text_of(raw, can_be_empty) matches Some(t) ==> trimmed(t) == t,
{
    lemma_trimmed_idempotent(raw);
}

/// Every answer displays as one of `yes`, `no` and `?`.
pub proof fn lemma_tri_state_display(input: Seq<char>)
    ensures
        tri_text(answer_bool(input)) == "yes"@ || tri_text(answer_bool(input)) == "no"@
            || tri_text(answer_bool(input)) == "?"@,
{
}

} // verus!
