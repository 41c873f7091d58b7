//! The collection of records: loading, sorting, table of contents and the
//! grouped card list.
use vstd::prelude::*;
use vstd::multiset::Multiset;
use crate::answers::same_text;
use crate::app_compat_app::{
    AppCompatApp, RecordView, card_host, card_text, folded_letter, leading_letter, sanitized,
};
use crate::error::{CompatError, is_malformed_link};
use crate::text::{
    ascii_lower, ascii_upper, ascii_text, is_ascii_char, text_lower, text_upper, text_le,
    lowercase, text_le_exec, uppercase,
    lemma_text_le_refl, lemma_text_le_total, lemma_text_le_trans, lemma_text_le_antisym,
};

verus! {

broadcast use vstd::seq_lib::group_to_multiset_ensures;

/// The views of a sequence of owned texts.
pub open spec fn texts(v: Seq<String>) -> Seq<Seq<char>> {
    v.map_values(|s: String| s@)
}

/// The table-of-contents entry of a record: its case-folded first letter.
pub open spec fn toc_letter(r: RecordView) -> Seq<char> {
    folded_letter(r)
}

/// The key records are sorted by: the name, lower-cased.
pub open spec fn name_key(a: AppCompatApp) -> Seq<char> {
    text_lower(a.app_name@)
}

/// The records with `a` placed before the first one whose key is not
/// before its own.
pub open spec fn insert_by_name(s: Seq<AppCompatApp>, a: AppCompatApp) -> Seq<AppCompatApp>
    decreases s.len(),
{
    if s.len() == 0 {
        seq![a]
    } else if text_le(name_key(a), name_key(s[0])) {
        seq![a] + s
    } else {
        seq![s[0]] + insert_by_name(s.drop_first(), a)
    }
}

/// The records sorted by name: each one, from the last to the first, placed
/// before the first already placed whose key is not before its own, so that
/// records with equal keys keep their order.
pub open spec fn sorted_by_name(s: Seq<AppCompatApp>) -> Seq<AppCompatApp>
    decreases s.len(),
{
    if s.len() == 0 {
        s
    } else {
        insert_by_name(sorted_by_name(s.drop_first()), s[0])
    }
}

/// Records in non-decreasing order of their lower-cased names.
pub open spec fn names_sorted(s: Seq<AppCompatApp>) -> bool {
    forall|i: int, j: int| 0 <= i < j < s.len() ==> text_le(name_key(s[i]), name_key(s[j]))
}

/// Texts in strictly increasing order.
pub open spec fn letters_sorted(s: Seq<Seq<char>>) -> bool {
    forall|i: int, j: int| #![trigger s[i], s[j]] 0 <= i < j < s.len() ==> text_le(s[i], s[j]) && s[i] != s[j]
}

/// Texts in non-decreasing order.
pub open spec fn keys_sorted(s: Seq<Seq<char>>) -> bool {
    forall|i: int, j: int| #![trigger s[i], s[j]] 0 <= i < j < s.len() ==> text_le(s[i], s[j])
}

/// The distinct texts of a sequence, each where it first occurs.
pub open spec fn first_seen(s: Seq<Seq<char>>) -> Seq<Seq<char>>
    decreases s.len(),
{
    if s.len() == 0 {
        s
    } else {
        let p = first_seen(s.drop_last());
        if p.contains(s.last()) {
            p
        } else {
            p.push(s.last())
        }
    }
}

/// The table-of-contents entries of records once sanitized, in their order.
pub open spec fn loaded_letters(records: Seq<AppCompatApp>) -> Seq<Seq<char>> {
    Seq::new(records.len(), |i: int| toc_letter(sanitized(records[i]@)))
}

/// The marker that opens a section of cards.
pub open spec fn section_start() -> Seq<char> {
    "{{ raw_html( html = \"<div class='app-compat-list-section'>\") }}"@
}

/// The marker that closes a section of cards.
pub open spec fn section_end() -> Seq<char> {
    "{{ raw_html( html = \"</div>\") }}"@
}

/// The heading line of the section of a letter.
pub open spec fn heading(letter: Seq<char>) -> Seq<char> {
    "\n# "@ + letter + "\n"@
}

/// Whether the record at `i` begins a new section: its case-folded letter
/// differs from that of the record before.
pub open spec fn starts_section(recs: Seq<RecordView>, i: int) -> bool {
    i == 0 || toc_letter(recs[i]) != toc_letter(recs[i - 1])
}

/// What comes before the card at `i`: nothing inside a section; at a new
/// section the close of the previous one (if any), the heading with the
/// upper-cased first letter of the section's first record, and the open
/// marker.
pub open spec fn section_break(recs: Seq<RecordView>, i: int) -> Seq<Seq<char>> {
    if starts_section(recs, i) {
        (if i > 0 {
            seq![section_end()]
        } else {
            Seq::empty()
        }) + seq![heading(leading_letter(recs[i])), section_start()]
    } else {
        Seq::empty()
    }
}

/// The pieces of the card list for the first `n` records.
pub open spec fn list_pieces(recs: Seq<RecordView>, cards: Seq<Seq<char>>, n: nat) -> Seq<Seq<char>>
    decreases n,
{
    if n == 0 {
        Seq::empty()
    } else {
        list_pieces(recs, cards, (n - 1) as nat) + section_break(recs, n - 1) + seq![cards[n - 1]]
    }
}

/// The pieces joined, one per line.
pub open spec fn join_lines(p: Seq<Seq<char>>) -> Seq<char>
    decreases p.len(),
{
    if p.len() == 0 {
        Seq::empty()
    } else if p.len() == 1 {
        p[0]
    } else {
        join_lines(p.drop_last()) + "\n"@ + p.last()
    }
}

/// Whether `i` is the first record whose card cannot be rendered.
pub open spec fn first_unhosted(recs: Seq<RecordView>, i: int) -> bool {
    &&& 0 <= i < recs.len()
    &&& card_host(recs[i]) is None
    &&& forall|j: int| 0 <= j < i ==> #[trigger] card_host(recs[j]) is Some
}

/// Whether every record's card can be rendered.
pub open spec fn all_hosts(recs: Seq<RecordView>) -> bool {
    forall|i: int| 0 <= i < recs.len() ==> #[trigger] card_host(recs[i]) is Some
}

/// The cards of the records, in their order.
pub open spec fn cards_of(recs: Seq<RecordView>) -> Seq<Seq<char>> {
    Seq::new(recs.len(), |i: int| card_text(recs[i], card_host(recs[i])->Some_0))
}

/// All pieces of the card list: the sections, then the final close marker.
pub open spec fn card_list_pieces(recs: Seq<RecordView>) -> Seq<Seq<char>> {
    list_pieces(recs, cards_of(recs), recs.len()).push(section_end())
}

/// The rendered card list.
pub open spec fn card_list_text(recs: Seq<RecordView>) -> Seq<char> {
    join_lines(card_list_pieces(recs))
}

/// Whether a piece of the card list is markup around the cards.
pub open spec fn is_marker(p: Seq<char>) -> bool {
    p == section_start() || p == section_end() || exists|t: Seq<char>| p == #[trigger] heading(t)
}

/// The views of records.
pub open spec fn views(s: Seq<AppCompatApp>) -> Seq<RecordView> {
    s.map_values(|a: AppCompatApp| a@)
}

/// The table-of-contents link of an entry.
pub open spec fn toc_entry(l: Seq<char>) -> Seq<char> {
    "["@ + text_upper(l) + "](#"@ + l + ")"@
}

/// The table-of-contents links, separated by ` | `.
pub open spec fn toc_text(ls: Seq<Seq<char>>) -> Seq<char>
    decreases ls.len(),
{
    if ls.len() == 0 {
        Seq::empty()
    } else if ls.len() == 1 {
        toc_entry(ls[0])
    } else {
        toc_text(ls.drop_last()) + " | "@ + toc_entry(ls.last())
    }
}

/// The table of contents inside its container markers.
pub open spec fn toc_block(ls: Seq<Seq<char>>) -> Seq<char> {
    "{{ raw_html( html = \"<div class='toc'>\") }}\n"@ + toc_text(ls) + "\n{{ raw_html( html = \"</div>\") }}"@
}

/// The set of records with the table of contents derived from them.
pub struct AppCompatList {
    apps: Vec<AppCompatApp>,
    toc: Vec<String>,
}

impl AppCompatList {
    /// The records, in their current order.
    pub closed spec fn apps_seq(&self) -> Seq<AppCompatApp> {
        self.apps@
    }

    /// The table-of-contents entries, in their current order.
    pub closed spec fn letters(&self) -> Seq<Seq<char>> {
        texts(self.toc@)
    }

    /// Every name is non-empty, and the table of contents holds each
    /// record's entry exactly once and nothing else.
    pub open spec fn wf(&self) -> bool {
        &&& forall|a: AppCompatApp| #[trigger] self.apps_seq().contains(a) ==> a.app_name@.len() > 0
        &&& self.letters().no_duplicates()
        &&& forall|x: Seq<char>|
            #[trigger] self.letters().contains(x) <==> exists|a: AppCompatApp|
                #[trigger] self.apps_seq().contains(a) && x == toc_letter(a@)
    }

    /// The records.
    pub fn records(&self) -> (r: &Vec<AppCompatApp>)
        ensures
            r@ == self.apps_seq(),
    {
        &self.apps
    }

    /// The table-of-contents entries.
    pub fn toc_letters(&self) -> (r: &Vec<String>)
        ensures
            texts(r@) == self.letters(),
    {
        &self.toc
    }

    /// Builds the collection from decoded records, in the order they were
    /// found: each record is sanitized, and the entries of the table of
    /// contents are collected in the order they are first seen. A record
    /// with an empty name is refused.
    pub fn new_from_records(records: Vec<AppCompatApp>) -> (r: Result<Self, CompatError>)
        ensures
            r is Ok <==> forall|i: int| 0 <= i < records@.len() ==> #[trigger] records@[i].app_name@.len() > 0,
            r is Err ==> r == Err::<Self, CompatError>(CompatError::EmptyInput),
            r is Ok ==> {
                let l = r->Ok_0;
                &&& l.wf()
                &&& l.apps_seq().len() == records@.len()
                &&& forall|i: int| 0 <= i < records@.len() ==> #[trigger] l.apps_seq()[i]@ == sanitized(records@[i]@)
                &&& l.letters() == first_seen(loaded_letters(records@))
            },
    {
        let n = records.len();
        let mut apps: Vec<AppCompatApp> = Vec::new();
        let mut toc: Vec<String> = Vec::new();
        let mut i: usize = 0;
        while i < n
            invariant
                n == records@.len(),
                i <= n,
                apps@.len() == i,
                forall|j: int| 0 <= j < i ==> #[trigger] apps@[j]@ == sanitized(records@[j]@),
                forall|j: int| 0 <= j < i ==> #[trigger] records@[j].app_name@.len() > 0,
                texts(toc@) == first_seen(loaded_letters(records@).subrange(0, i as int)),
            decreases n - i,
        {
            let rec = &records[i];
            if rec.app_name.as_str().unicode_len() == 0 {
                return Err(CompatError::EmptyInput);
            }
            let s = rec.sanitize();
            let letter = s.folded_first_char();
            let ghost before = texts(toc@);
            let ghost seen = loaded_letters(records@).subrange(0, i + 1);
            assert(seen.drop_last() =~= loaded_letters(records@).subrange(0, i as int));
            if !contains_text(&toc, letter.as_str()) {
                toc.push(letter);
                assert(texts(toc@) =~= before.push(seen.last()));
            }
            apps.push(s);
            i += 1;
        }
        assert(loaded_letters(records@).subrange(0, n as int) =~= loaded_letters(records@));
        let l = AppCompatList { apps, toc };
        proof {
            lemma_first_seen(loaded_letters(records@));
            assert forall|a: AppCompatApp| #[trigger] l.apps_seq().contains(a) implies a.app_name@.len() > 0 by {
                let j = choose|j: int| 0 <= j < l.apps_seq().len() && l.apps_seq()[j] == a;
                assert(records@[j].app_name@.len() > 0);
            }
            assert forall|x: Seq<char>| #[trigger] l.letters().contains(x) <==> exists|a: AppCompatApp|
                #[trigger] l.apps_seq().contains(a) && x == toc_letter(a@) by {
                if l.letters().contains(x) {
                    let j = choose|j: int| 0 <= j < n && loaded_letters(records@)[j] == x;
                    assert(l.apps_seq().contains(l.apps_seq()[j]));
                }
                if exists|a: AppCompatApp| #[trigger] l.apps_seq().contains(a) && x == toc_letter(a@) {
                    let a = choose|a: AppCompatApp| #[trigger] l.apps_seq().contains(a) && x == toc_letter(a@);
                    let j = choose|j: int| 0 <= j < l.apps_seq().len() && l.apps_seq()[j] == a;
                    assert(loaded_letters(records@)[j] == x);
                }
            }
        }
        Ok(l)
    }

    /// Orders the records by name, compared case-insensitively, and the
    /// table of contents ascending.
    pub fn sort_list(&mut self)
        requires
            old(self).wf(),
        ensures
            final(self).wf(),
            final(self).apps_seq() == sorted_by_name(old(self).apps_seq()),
            final(self).apps_seq().to_multiset() == old(self).apps_seq().to_multiset(),
            names_sorted(final(self).apps_seq()),
            letters_sorted(final(self).letters()),
            final(self).letters().to_set() == old(self).letters().to_set(),
    {
        let ghost orig_apps = self.apps@;
        let ghost orig_letters = texts(self.toc@);
        let mut pending: Vec<AppCompatApp> = Vec::new();
        std::mem::swap(&mut self.apps, &mut pending);
        let mut out: Vec<AppCompatApp> = Vec::new();
        let mut keys: Vec<String> = Vec::new();
        while pending.len() > 0
            invariant
                out@.len() == keys@.len(),
                forall|k: int| 0 <= k < keys@.len() ==> #[trigger] keys@[k]@ == name_key(out@[k]),
                keys_sorted(texts(keys@)),
                pending@.to_multiset().add(out@.to_multiset()) == orig_apps.to_multiset(),
                pending@.len() <= orig_apps.len(),
                pending@ == orig_apps.subrange(0, pending@.len() as int),
                out@ == sorted_by_name(orig_apps.subrange(pending@.len() as int, orig_apps.len() as int)),
            decreases pending@.len(),
        {
            let ghost before_pending = pending@;
            let a = pending.pop().unwrap();
            proof {
                assert(before_pending =~= pending@.push(a));
            }
            let k = lowercase(a.app_name.as_str());
            let p = find_slot(&keys, k.as_str());
            let ghost old_keys = texts(keys@);
            let ghost old_out = out@;
            let ghost old_raw = keys@;
            out.insert(p, a);
            keys.insert(p, k);
            proof {
                assert(texts(keys@) =~= old_keys.insert(p as int, k@));
                lemma_insert_sorted(old_keys, p as int, k@);
                assert forall|m: int| 0 <= m < p implies !text_le(name_key(a), #[trigger] name_key(old_out[m])) by {
                    assert(old_raw[m]@ == name_key(old_out[m]));
                }
                if p < old_out.len() {
                    assert(old_raw[p as int]@ == name_key(old_out[p as int]));
                }
                lemma_insert_at_slot(old_out, p as int, a);
                let ghost rest = orig_apps.subrange(pending@.len() as int, orig_apps.len() as int);
                assert(rest.drop_first() =~= orig_apps.subrange(pending@.len() as int + 1, orig_apps.len() as int));
                assert(pending@ =~= orig_apps.subrange(0, pending@.len() as int));
                assert(rest[0] == a);
                assert forall|m: int| 0 <= m < keys@.len() implies #[trigger] keys@[m]@ == name_key(out@[m]) by {
                    if m < p {
                        assert(keys@[m] == old_raw[m] && out@[m] == old_out[m]);
                    } else if m > p {
                        assert(keys@[m] == old_raw[m - 1] && out@[m] == old_out[m - 1]);
                    }
                }
            }
        }
        proof {
            assert(orig_apps.subrange(0, orig_apps.len() as int) =~= orig_apps);
            assert(pending@.to_multiset() =~= Multiset::empty());
            assert forall|i: int, j: int| 0 <= i < j < out@.len() implies text_le(name_key(out@[i]), name_key(out@[j])) by {
                assert(texts(keys@)[i] == keys@[i]@);
                assert(texts(keys@)[j] == keys@[j]@);
            }
        }
        self.apps = out;

        let mut pending_letters: Vec<String> = Vec::new();
        std::mem::swap(&mut self.toc, &mut pending_letters);
        let mut letters: Vec<String> = Vec::new();
        while pending_letters.len() > 0
            invariant
                letters_sorted(texts(letters@)),
                forall|x: Seq<char>| #[trigger] orig_letters.contains(x) <==> (texts(pending_letters@).contains(x)
                    || texts(letters@).contains(x)),
            decreases pending_letters@.len(),
        {
            let ghost before_pending = texts(pending_letters@);
            let t = pending_letters.pop().unwrap();
            proof {
                assert(before_pending =~= texts(pending_letters@).push(t@));
                lemma_push_contains(texts(pending_letters@), t@);
            }
            let p = find_slot(&letters, t.as_str());
            let ghost old_letters = texts(letters@);
            if p < letters.len() && same_text(letters[p].as_str(), t.as_str()) {
                assert(old_letters[p as int] == t@);
                assert(texts(letters@).contains(t@));
            } else {
                letters.insert(p, t);
                proof {
                    assert(texts(letters@) =~= old_letters.insert(p as int, t@));
                    lemma_insert_strict(old_letters, p as int, t@);
                    lemma_insert_contains(old_letters, p as int, t@);
                }
            }
        }
        self.toc = letters;
        proof {
            assert(texts(pending_letters@) =~= Seq::empty());
            assert forall|x: Seq<char>| #[trigger] self.letters().contains(x) <==> orig_letters.contains(x) by {
            }
            assert(self.letters().to_set() =~= orig_letters.to_set());
            lemma_strict_no_duplicates(self.letters());
            assert forall|a: AppCompatApp| #[trigger] self.apps_seq().contains(a) <==> orig_apps.contains(a) by {
                assert(self.apps_seq().to_multiset().count(a) == orig_apps.to_multiset().count(a));
            }
            assert(orig_apps == old(self).apps_seq());
            assert(orig_letters == old(self).letters());
            assert(self.letters().no_duplicates());
            assert forall|a: AppCompatApp| #[trigger] self.apps_seq().contains(a) implies a.app_name@.len() > 0 by {
                assert(orig_apps.contains(a));
            }
            assert forall|x: Seq<char>| #[trigger] self.letters().contains(x) <==> exists|a: AppCompatApp|
                #[trigger] self.apps_seq().contains(a) && x == toc_letter(a@) by {
                assert(orig_letters.contains(x) == self.letters().contains(x));
                if exists|a: AppCompatApp| #[trigger] self.apps_seq().contains(a) && x == toc_letter(a@) {
                    let a = choose|a: AppCompatApp| #[trigger] self.apps_seq().contains(a) && x == toc_letter(a@);
                    assert(orig_apps.contains(a));
                }
                if orig_letters.contains(x) {
                    let a = choose|a: AppCompatApp| #[trigger] orig_apps.contains(a) && x == toc_letter(a@);
                    assert(self.apps_seq().contains(a));
                }
            }
        }
    }

    /// The card list: the cards in the current order, grouped into one
    /// section per run of records with the same leading letter, each
    /// section under its heading and between an open and a close marker;
    /// the last close marker always comes, also without records. Fails when
    /// a record's link gives no host.
    pub fn print_cards_list(&self) -> (r: Result<String, CompatError>)
        requires
            self.wf(),
        ensures
            all_hosts(views(self.apps_seq())) ==> r is Ok && r->Ok_0@ == card_list_text(views(self.apps_seq())),
            !all_hosts(views(self.apps_seq())) ==> r is Err && exists|i: int|
                first_unhosted(views(self.apps_seq()), i) && is_malformed_link(
                    r->Err_0,
                    views(self.apps_seq())[i].link->Some_0,
                ),
    {
        let ghost recs = views(self.apps@);
        let ghost cards = cards_of(recs);
        let mut out = String::new();
        let mut last: Option<String> = None;
        let mut i: usize = 0;
        while i < self.apps.len()
            invariant
                self.wf(),
                recs == views(self.apps@),
                cards == cards_of(recs),
                i <= self.apps@.len(),
                forall|j: int| 0 <= j < i ==> #[trigger] card_host(recs[j]) is Some,
                out@ == join_lines(list_pieces(recs, cards, i as nat)),
                i == 0 <==> last is None,
                i > 0 ==> last is Some && last->Some_0@ == toc_letter(recs[i - 1]),
                i > 0 ==> list_pieces(recs, cards, i as nat).len() > 0,
            decreases self.apps@.len() - i,
        {
            let app = &self.apps[i];
            assert(self.apps_seq().contains(self.apps@[i as int]));
            let letter = app.folded_first_char();
            let ghost pieces = list_pieces(recs, cards, i as nat);
            let ghost br = section_break(recs, i as int);
            let new_section = match &last {
                None => true,
                Some(l) => !same_text(l.as_str(), letter.as_str()),
            };
            let ghost mut emitted: Seq<Seq<char>> = pieces;
            if new_section {
                if i > 0 {
                    emit(&mut out, "{{ raw_html( html = \"</div>\") }}", false, Ghost(emitted));
                    proof { emitted = emitted.push(section_end()); }
                }
                let mut h = String::from_str("\n# ");
                let upper = app.get_name_first_char();
                h.append(upper.as_str());
                h.append("\n");
                emit(&mut out, h.as_str(), i == 0, Ghost(emitted));
                proof { emitted = emitted.push(heading(upper@)); }
                emit(&mut out, "{{ raw_html( html = \"<div class='app-compat-list-section'>\") }}", false, Ghost(emitted));
                proof { emitted = emitted.push(section_start()); }
                last = Some(letter);
            }
            let card = match app.print_card_line() {
                Ok(c) => c,
                Err(e) => {
                    assert(card_host(recs[i as int]) is None);
                    assert(first_unhosted(recs, i as int));
                    return Err(e);
                },
            };
            emit(&mut out, card.as_str(), false, Ghost(emitted));
            proof {
                emitted = emitted.push(cards[i as int]);
                if new_section {
                    if i > 0 {
                        assert(br =~= seq![section_end(), heading(leading_letter(recs[i as int])), section_start()]);
                    } else {
                        assert(br =~= seq![heading(leading_letter(recs[i as int])), section_start()]);
                    }
                } else {
                    assert(br =~= Seq::<Seq<char>>::empty());
                }
                assert(emitted =~= pieces + br + seq![cards[i as int]]);
            }
            i += 1;
        }
        let ghost pieces = list_pieces(recs, cards, i as nat);
        emit(&mut out, "{{ raw_html( html = \"</div>\") }}", i == 0, Ghost(pieces));
        proof {
            if i == 0 {
                assert(pieces =~= Seq::<Seq<char>>::empty());
            }
        }
        Ok(out)
    }

    /// The table of contents: each entry as a link from its upper-cased
    /// form to itself, separated by ` | `.
    pub fn print_md_toc(&self) -> (r: String)
        ensures
            r@ == toc_text(self.letters()),
    {
        let ghost ls = self.letters();
        let mut out = String::new();
        let mut i: usize = 0;
        while i < self.toc.len()
            invariant
                ls == texts(self.toc@),
                i <= self.toc@.len(),
                out@ == toc_text(ls.subrange(0, i as int)),
            decreases self.toc@.len() - i,
        {
            let l = &self.toc[i];
            assert(ls.subrange(0, i + 1).drop_last() =~= ls.subrange(0, i as int));
            if i > 0 {
                out.append(" | ");
            }
            out.append("[");
            let up = uppercase(l.as_str());
            out.append(up.as_str());
            out.append("](#");
            out.append(l.as_str());
            out.append(")");
            proof {
                if i == 0 {
                    reveal_strlit("");
                    assert(out@ =~= toc_entry(ls[0]));
                }
            }
            i += 1;
        }
        assert(ls.subrange(0, i as int) =~= ls);
        out
    }

    /// The table of contents inside its container markers.
    pub fn print_md_toc_wrapped_in_div(&self) -> (r: String)
        ensures
            r@ == toc_block(self.letters()),
    {
        let toc = self.print_md_toc();
        let mut out = String::from_str("{{ raw_html( html = \"<div class='toc'>\") }}\n");
        out.append(toc.as_str());
        out.append("\n{{ raw_html( html = \"</div>\") }}");
        out
    }
}

/// Appends one piece of the card list, on a line of its own unless it is
/// the first.
fn emit(out: &mut String, piece: &str, first: bool, Ghost(pieces): Ghost<Seq<Seq<char>>>)
    requires
        old(out)@ == join_lines(pieces),
        first == (pieces.len() == 0),
    ensures
        final(out)@ == join_lines(pieces.push(piece@)),
{
    if !first {
        out.append("\n");
    }
    out.append(piece);
    proof {
        assert(pieces.push(piece@).drop_last() =~= pieces);
        if first {
            reveal_strlit("");
        }
    }
}

/// The test that keeps the cards of a card list and drops the markup.
pub open spec fn card_filter() -> spec_fn(Seq<char>) -> bool {
    |p: Seq<char>| !is_marker(p)
}

/// No card is markup: a card begins with `{{ app_compat_card(`, a section
/// marker with `{{ raw_html(`, a heading with a newline.
pub proof fn lemma_card_not_marker(r: RecordView, h: Seq<char>)
    ensures
        !is_marker(card_text(r, h)),
{
    let card = card_text(r, h);
    reveal_strlit("{{ app_compat_card( app_name = \"");
    reveal_strlit("{{ raw_html( html = \"<div class='app-compat-list-section'>\") }}");
    reveal_strlit("{{ raw_html( html = \"</div>\") }}");
    reveal_strlit("\n# ");
    assert(card[0] == '{' && card[3] == 'a');
    assert(section_start()[3] == 'r');
    assert(section_end()[3] == 'r');
    assert forall|t: Seq<char>| card != #[trigger] heading(t) by {
        assert(heading(t)[0] == '\n');
    }
}

/// Dropping the markup from the pieces for the first `n` records leaves
/// their first `n` cards.
proof fn lemma_pieces_filter(recs: Seq<RecordView>, cards: Seq<Seq<char>>, n: nat)
    requires
        n <= recs.len(),
        cards.len() == recs.len(),
        forall|i: int| 0 <= i < cards.len() ==> !is_marker(#[trigger] cards[i]),
    ensures
        list_pieces(recs, cards, n).filter(card_filter()) == cards.subrange(0, n as int),
    decreases n,
{
    if n > 0 {
        let m = (n - 1) as nat;
        lemma_pieces_filter(recs, cards, m);
        let a = list_pieces(recs, cards, m);
        let b = section_break(recs, m as int);
        let c = seq![cards[m as int]];
        Seq::filter_distributes_over_add(a + b, c, card_filter());
        Seq::filter_distributes_over_add(a, b, card_filter());
        assert(is_marker(heading(leading_letter(recs[m as int]))));
        assert(b.filter(card_filter()) =~= Seq::<Seq<char>>::empty()) by {
            reveal_with_fuel(Seq::filter, 4);
        }
        assert(c.filter(card_filter()) =~= c) by {
            reveal_with_fuel(Seq::filter, 2);
        }
        assert(cards.subrange(0, n as int) =~= cards.subrange(0, m as int) + c);
    }
}

/// For a record whose name starts with an ASCII character, the
/// table-of-contents label is the section heading's letter and the anchor
/// its lower case: the entry is `[X](#x)` where `# X` heads the section.
pub proof fn lemma_ascii_toc_label(r: RecordView)
    requires
        r.app_name.len() > 0,
        is_ascii_char(r.app_name[0]),
    ensures
        toc_letter(r) == seq![ascii_lower(r.app_name[0])],
        leading_letter(r) == seq![ascii_upper(r.app_name[0])],
        text_upper(toc_letter(r)) == leading_letter(r),
        text_lower(leading_letter(r)) == toc_letter(r),
        toc_entry(toc_letter(r)) == "["@ + leading_letter(r) + "](#"@ + toc_letter(r) + ")"@,
{
    let c = r.app_name[0];
    let lo = seq![ascii_lower(c)];
    let up = seq![ascii_upper(c)];
    assert(is_ascii_char(ascii_lower(c)));
    assert(is_ascii_char(ascii_upper(c)));
    assert(ascii_upper(ascii_lower(c)) == ascii_upper(c));
    assert(ascii_lower(ascii_upper(c)) == ascii_lower(c));
    assert(lo.map_values(|x: char| ascii_upper(x)) =~= up);
    assert(up.map_values(|x: char| ascii_lower(x)) =~= lo);
}

/// In a list sorted by name whose names are ASCII, records with the same
/// case-folded letter lie in one section: no section starts between them,
/// so each case-folded letter gets one heading.
pub proof fn lemma_ascii_sections_contiguous(s: Seq<AppCompatApp>, i: int, j: int)
    requires
        names_sorted(s),
        forall|k: int| 0 <= k < s.len() ==> (#[trigger] s[k]).app_name@.len() > 0 && ascii_text(s[k].app_name@),
        0 <= i < j < s.len(),
        toc_letter(s[i]@) == toc_letter(s[j]@),
    ensures
        forall|k: int| i < k <= j ==> !starts_section(views(s), k),
{
    assert forall|k: int| i <= k < s.len() implies toc_letter(#[trigger] s[k]@) == seq![
        ascii_lower(s[k].app_name@[0]),
    ] && name_key(s[k])[0] == ascii_lower(s[k].app_name@[0]) && name_key(s[k]).len() > 0 by {
        assert(is_ascii_char(s[k].app_name@[0]));
    }
    assert forall|k: int| i < k <= j implies !starts_section(views(s), k) by {
        if k - 1 > i {
            lemma_text_le_first(name_key(s[i]), name_key(s[k - 1]));
        }
        lemma_text_le_first(name_key(s[k - 1]), name_key(s[k]));
        if k < j {
            lemma_text_le_first(name_key(s[k]), name_key(s[j]));
        }
        let fi = ascii_lower(s[i].app_name@[0]);
        let fp = ascii_lower(s[k - 1].app_name@[0]);
        let fk = ascii_lower(s[k].app_name@[0]);
        let fj = ascii_lower(s[j].app_name@[0]);
        assert(toc_letter(s[i]@) == seq![fi] && toc_letter(s[j]@) == seq![fj]);
        assert(toc_letter(s[k]@) == seq![fk] && toc_letter(s[k - 1]@) == seq![fp]);
        assert(name_key(s[i])[0] == fi && name_key(s[j])[0] == fj);
        assert(name_key(s[k])[0] == fk && name_key(s[k - 1])[0] == fp);
        assert(seq![fi][0] == seq![fj][0]);
        assert(fi <= fp && fp <= fk && fk <= fj && fi == fj);
        assert(toc_letter(s[k]@) =~= toc_letter(s[k - 1]@));
        assert(views(s)[k] == s[k]@ && views(s)[k - 1] == s[k - 1]@);
    }
}

/// Of two ordered non-empty texts, the first character of the first is not
/// after that of the second.
proof fn lemma_text_le_first(a: Seq<char>, b: Seq<char>)
    requires
        text_le(a, b),
        a.len() > 0,
        b.len() > 0,
    ensures
        a[0] <= b[0],
{
}

/// The card list holds exactly one card for each record, in the order of
/// the records: dropping the markup leaves the records' cards.
pub proof fn lemma_one_card_per_record(recs: Seq<RecordView>)
    requires
        all_hosts(recs),
    ensures
        card_list_pieces(recs).filter(card_filter()) == cards_of(recs),
{
    let cards = cards_of(recs);
    assert forall|i: int| 0 <= i < cards.len() implies !is_marker(#[trigger] cards[i]) by {
        lemma_card_not_marker(recs[i], card_host(recs[i])->Some_0);
    }
    lemma_pieces_filter(recs, cards, recs.len());
    let pieces = list_pieces(recs, cards, recs.len());
    assert(card_list_pieces(recs) =~= pieces + seq![section_end()]);
    Seq::filter_distributes_over_add(pieces, seq![section_end()], card_filter());
    assert(seq![section_end()].filter(card_filter()) =~= Seq::<Seq<char>>::empty()) by {
        reveal_with_fuel(Seq::filter, 2);
    }
    assert(cards.subrange(0, recs.len() as int) =~= cards);
}

/// Once sorted, the table of contents holds the case-folded leading letter
/// of every record exactly once, in ascending order, and nothing else.
pub proof fn lemma_toc_letters(l: &AppCompatList)
    requires
        l.wf(),
        letters_sorted(l.letters()),
    ensures
        l.letters().no_duplicates(),
        forall|x: Seq<char>| #[trigger] l.letters().contains(x) <==> exists|i: int|
            0 <= i < l.apps_seq().len() && x == toc_letter(#[trigger] l.apps_seq()[i]@),
        forall|i: int, j: int| 0 <= i < j < l.letters().len() ==> text_le(l.letters()[i], l.letters()[j]),
{
    assert forall|x: Seq<char>| #[trigger] l.letters().contains(x) <==> exists|i: int|
        0 <= i < l.apps_seq().len() && x == toc_letter(#[trigger] l.apps_seq()[i]@) by {
        if l.letters().contains(x) {
            let a = choose|a: AppCompatApp| #[trigger] l.apps_seq().contains(a) && x == toc_letter(a@);
            let i = choose|i: int| 0 <= i < l.apps_seq().len() && l.apps_seq()[i] == a;
            assert(x == toc_letter(l.apps_seq()[i]@));
        }
        if exists|i: int| 0 <= i < l.apps_seq().len() && x == toc_letter(#[trigger] l.apps_seq()[i]@) {
            let i = choose|i: int| 0 <= i < l.apps_seq().len() && x == toc_letter(#[trigger] l.apps_seq()[i]@);
            assert(l.apps_seq().contains(l.apps_seq()[i]));
        }
    }
    assert forall|i: int, j: int| 0 <= i < j < l.letters().len() implies text_le(l.letters()[i], l.letters()[j]) by {
        assert(text_le(l.letters()[i], l.letters()[j]) && l.letters()[i] != l.letters()[j]);
    }
}

/// Whether a text ends with the given suffix.
pub open spec fn ends_with(s: Seq<char>, suffix: Seq<char>) -> bool {
    s.len() >= suffix.len() && s.subrange(s.len() - suffix.len(), s.len() as int) == suffix
}

/// Which directory entries hold records: files named `*.yaml` or `*.yml`,
/// except hidden ones (leading `.`) and templates (leading `_`).
pub open spec fn is_record_file_spec(name: Seq<char>, is_dir: bool) -> bool {
    &&& !is_dir
    &&& ends_with(name, ".yaml"@) || ends_with(name, ".yml"@)
    &&& !(name.len() > 0 && (name[0] == '.' || name[0] == '_'))
}

/// Whether the text ends with the suffix.
fn text_ends_with(s: &str, suffix: &str) -> (r: bool)
    ensures
        r == ends_with(s@, suffix@),
{
    let n = s.unicode_len();
    let m = suffix.unicode_len();
    if n < m {
        return false;
    }
    same_text(s.substring_char(n - m, n), suffix)
}

/// Whether a directory entry with this name holds a record to load.
pub fn is_record_file(name: &str, is_dir: bool) -> (r: bool)
    ensures
        r == is_record_file_spec(name@, is_dir),
{
    if is_dir {
        return false;
    }
    if !(text_ends_with(name, ".yaml") || text_ends_with(name, ".yml")) {
        return false;
    }
    if name.unicode_len() > 0 {
        let c = name.get_char(0);
        if c == '.' || c == '_' {
            return false;
        }
    }
    true
}

/// Whether the texts hold the given one.
fn contains_text(v: &Vec<String>, x: &str) -> (r: bool)
    ensures
        r == texts(v@).contains(x@),
{
    let mut i: usize = 0;
    while i < v.len()
        invariant
            i <= v@.len(),
            forall|j: int| 0 <= j < i ==> v@[j]@ != x@,
        decreases v@.len() - i,
    {
        if same_text(v[i].as_str(), x) {
            assert(texts(v@)[i as int] == x@);
            return true;
        }
        i += 1;
    }
    proof {
        if texts(v@).contains(x@) {
            let j = choose|j: int| 0 <= j < texts(v@).len() && texts(v@)[j] == x@;
            assert(v@[j]@ == x@);
        }
    }
    false
}

/// The first position in sorted texts whose text is not before `k`.
fn find_slot(keys: &Vec<String>, k: &str) -> (p: usize)
    requires
        keys_sorted(texts(keys@)),
    ensures
        p <= keys@.len(),
        forall|i: int| 0 <= i < p ==> !text_le(k@, #[trigger] keys@[i]@),
        forall|i: int| p <= i < keys@.len() ==> text_le(k@, #[trigger] keys@[i]@),
{
    let mut p: usize = 0;
    while p < keys.len() && !text_le_exec(k, keys[p].as_str())
        invariant
            p <= keys@.len(),
            forall|i: int| 0 <= i < p ==> !text_le(k@, #[trigger] keys@[i]@),
        decreases keys@.len() - p,
    {
        p += 1;
    }
    proof {
        assert forall|i: int| p <= i < keys@.len() implies text_le(k@, #[trigger] keys@[i]@) by {
            if i > p {
                assert(texts(keys@)[p as int] == keys@[p as int]@);
                assert(texts(keys@)[i] == keys@[i]@);
                lemma_text_le_trans(k@, keys@[p as int]@, keys@[i]@);
            }
        }
    }
    p
}

/// Inserting a record at the position `find_slot` gives is placing it by
/// name.
proof fn lemma_insert_at_slot(s: Seq<AppCompatApp>, p: int, a: AppCompatApp)
    requires
        0 <= p <= s.len(),
        forall|i: int| 0 <= i < p ==> !text_le(name_key(a), #[trigger] name_key(s[i])),
        p < s.len() ==> text_le(name_key(a), name_key(s[p])),
    ensures
        s.insert(p, a) == insert_by_name(s, a),
    decreases p,
{
    if p == 0 {
        if s.len() > 0 {
            assert(s.insert(0, a) =~= seq![a] + s);
        } else {
            assert(s.insert(0, a) =~= seq![a]);
        }
    } else {
        assert(!text_le(name_key(a), name_key(s[0])));
        let d = s.drop_first();
        assert forall|i: int| 0 <= i < p - 1 implies !text_le(name_key(a), #[trigger] name_key(d[i])) by {
            assert(d[i] == s[i + 1]);
        }
        if p < s.len() {
            assert(d[p - 1] == s[p]);
        }
        lemma_insert_at_slot(d, p - 1, a);
        assert(s.insert(p, a) =~= seq![s[0]] + d.insert(p - 1, a));
    }
}

/// Inserting a text at the position `find_slot` gives keeps texts sorted.
proof fn lemma_insert_sorted(s: Seq<Seq<char>>, p: int, k: Seq<char>)
    requires
        keys_sorted(s),
        0 <= p <= s.len(),
        forall|i: int| 0 <= i < p ==> !text_le(k, #[trigger] s[i]),
        forall|i: int| p <= i < s.len() ==> text_le(k, #[trigger] s[i]),
    ensures
        keys_sorted(s.insert(p, k)),
{
    let t = s.insert(p, k);
    assert forall|i: int, j: int| 0 <= i < j < t.len() implies text_le(t[i], t[j]) by {
        if i < p && j == p {
            lemma_text_le_total(k, s[i]);
        } else if i < p && j > p {
            lemma_text_le_total(k, s[i]);
            lemma_text_le_trans(s[i], k, s[j - 1]);
        } else if i == p {
        } else if i > p {
            assert(t[i] == s[i - 1] && t[j] == s[j - 1]);
        }
    }
}

/// Inserting a text that is new at the position `find_slot` gives keeps
/// texts strictly sorted.
proof fn lemma_insert_strict(s: Seq<Seq<char>>, p: int, k: Seq<char>)
    requires
        letters_sorted(s),
        0 <= p <= s.len(),
        p < s.len() ==> s[p] != k,
        forall|i: int| 0 <= i < p ==> !text_le(k, #[trigger] s[i]),
        forall|i: int| p <= i < s.len() ==> text_le(k, #[trigger] s[i]),
    ensures
        letters_sorted(s.insert(p, k)),
{
    let t = s.insert(p, k);
    assert forall|i: int, j: int| #![trigger t[i], t[j]] 0 <= i < j < t.len() implies text_le(t[i], t[j]) && t[i] != t[j] by {
        if i < p {
            assert(t[i] == s[i]);
            assert(!text_le(k, s[i]));
            lemma_text_le_total(k, s[i]);
            if s[i] == k {
                lemma_text_le_refl(k);
            }
            if j < p {
                assert(t[j] == s[j]);
                assert(text_le(s[i], s[j]) && s[i] != s[j]);
            } else if j == p {
                assert(t[j] == k);
            } else {
                assert(t[j] == s[j - 1]);
                assert(text_le(k, s[j - 1]));
                lemma_text_le_trans(s[i], k, s[j - 1]);
                if s[i] == s[j - 1] {
                    lemma_text_le_antisym(k, s[i]);
                    lemma_text_le_refl(k);
                }
            }
        } else if i == p {
            assert(t[i] == k);
            assert(t[j] == s[j - 1]);
            assert(text_le(k, s[j - 1]));
            if j - 1 > p && k == s[j - 1] {
                assert(text_le(s[p], s[j - 1]) && s[p] != s[j - 1]);
                assert(text_le(k, s[p]));
                lemma_text_le_antisym(s[p], s[j - 1]);
            }
        } else {
            assert(t[i] == s[i - 1] && t[j] == s[j - 1]);
            assert(text_le(s[i - 1], s[j - 1]) && s[i - 1] != s[j - 1]);
        }
    }
}

/// Inserting a text adds that text, and only it, to what a sequence holds.
proof fn lemma_insert_contains(s: Seq<Seq<char>>, p: int, k: Seq<char>)
    requires
        0 <= p <= s.len(),
    ensures
        forall|x: Seq<char>| #[trigger] s.insert(p, k).contains(x) <==> (s.contains(x) || x == k),
{
    let t = s.insert(p, k);
    assert forall|x: Seq<char>| #[trigger] t.contains(x) <==> (s.contains(x) || x == k) by {
        if s.contains(x) {
            let j = choose|j: int| 0 <= j < s.len() && s[j] == x;
            if j < p {
                assert(t[j] == x);
            } else {
                assert(t[j + 1] == x);
            }
        }
        if x == k {
            assert(t[p] == x);
        }
        if t.contains(x) {
            let j = choose|j: int| 0 <= j < t.len() && t[j] == x;
            if j < p {
                assert(s[j] == x);
            } else if j > p {
                assert(s[j - 1] == x);
            }
        }
    }
}

/// Pushing a text adds that text, and only it, to what a sequence holds.
proof fn lemma_push_contains(s: Seq<Seq<char>>, k: Seq<char>)
    ensures
        forall|x: Seq<char>| #[trigger] s.push(k).contains(x) <==> (s.contains(x) || x == k),
{
    assert(s.push(k) =~= s.insert(s.len() as int, k));
    lemma_insert_contains(s, s.len() as int, k);
}

/// Strictly sorted texts hold no text twice.
proof fn lemma_strict_no_duplicates(s: Seq<Seq<char>>)
    requires
        letters_sorted(s),
    ensures
        s.no_duplicates(),
{
    assert forall|i: int, j: int| 0 <= i < s.len() && 0 <= j < s.len() && i != j implies s[i] != s[j] by {
        if i > j {
            assert(text_le(s[j], s[i]) && s[j] != s[i]);
        } else {
            assert(text_le(s[i], s[j]) && s[i] != s[j]);
        }
    }
}

/// The first occurrences hold each text of the sequence once, and nothing
/// else.
proof fn lemma_first_seen(s: Seq<Seq<char>>)
    ensures
        first_seen(s).no_duplicates(),
        forall|x: Seq<char>| #[trigger] first_seen(s).contains(x) <==> s.contains(x),
    decreases s.len(),
{
    if s.len() > 0 {
        let d = s.drop_last();
        lemma_first_seen(d);
        assert(s =~= d.push(s.last()));
        lemma_push_contains(d, s.last());
        let p = first_seen(d);
        if !p.contains(s.last()) {
            lemma_push_contains(p, s.last());
            assert forall|i: int, j: int| 0 <= i < p.len() + 1 && 0 <= j < p.len() + 1 && i != j
                implies p.push(s.last())[i] != p.push(s.last())[j] by {
                if i == p.len() {
                    assert(p.contains(p[j]));
                } else if j == p.len() {
                    assert(p.contains(p[i]));
                }
            }
        }
    }
}

} // verus!
