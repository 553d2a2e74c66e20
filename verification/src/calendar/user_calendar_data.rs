//! The notes and markings that the user keeps per calendar day.
use vstd::prelude::*;
use vstd::string::*;

use super::marking::{marking_name, next_marking, parse_marking_spec, MarkingType};
use super::note_date::{
    date_lt,
    date_text,
    lemma_date_order,
    lemma_date_text_roundtrip,
    parse_date_spec,
    NoteDate,
};
use crate::text::{is_blank, is_blank_str};
use crate::toml_doc::{
    entries_insert,
    key_lt,
    entries_lookup,
    items_view,
    only_strings_and_tables,
    parse_toml_spec,
    parse_toml_table,
    table_get,
    table_insert_str,
    table_insert_table,
    table_items,
    table_new,
    table_to_string,
    table_view,
    toml_render,
    TomlItem,
    TomlValueView,
};

verus! {

/// What is kept for one day: its marking and its note.
pub struct NoteData {
    pub marking: MarkingType,
    pub note: String,
}

impl Default for NoteData {
    fn default() -> (data: Self)
        ensures
            data.marking == MarkingType::Unmarked,
            data.note@ == Seq::<char>::empty(),
    {
        NoteData { marking: MarkingType::Unmarked, note: String::new() }
    }
}

/// The marking and note text of a day's data.
pub open spec fn note_view(n: NoteData) -> (MarkingType, Seq<char>) {
    (n.marking, n.note@)
}

/// The notes of all days, kept in date order with each date once.
pub struct UserCalendarData {
    pub notes: Vec<(NoteDate, NoteData)>,
}

impl UserCalendarData {
    /// Dates are strictly increasing.
    pub open spec fn wf(&self) -> bool {
        forall|i: int, j: int|
            0 <= i < j < self.notes@.len() ==> date_lt(self.notes@[i].0, self.notes@[j].0)
    }

    /// Date `d` has an entry at place `i`.
    pub open spec fn has_at(&self, d: NoteDate, i: int) -> bool {
        0 <= i < self.notes@.len() && self.notes@[i].0 == d
    }

    /// The data kept per date.
    pub open spec fn notes_view(&self) -> Map<NoteDate, (MarkingType, Seq<char>)> {
        Map::new(
            |d: NoteDate| exists|i: int| self.has_at(d, i),
            |d: NoteDate| note_view(self.notes@[choose|i: int| self.has_at(d, i)].1),
        )
    }
}

impl View for UserCalendarData {
    type V = Map<NoteDate, (MarkingType, Seq<char>)>;

    open spec fn view(&self) -> Map<NoteDate, (MarkingType, Seq<char>)> {
        self.notes_view()
    }
}

/// Replacing the data at the place of `date` keeps the order and changes
/// the view only at `date`.
proof fn lemma_update_view(old_data: UserCalendarData, pos: int, date: NoteDate)
    requires
        old_data.wf(),
        0 <= pos < old_data.notes@.len(),
        old_data.notes@[pos].0 == date,
    ensures
        forall|data: NoteData, new_data: UserCalendarData|
            #![trigger new_data.view(), note_view(data)]
            new_data.notes@ == old_data.notes@.update(pos, (date, data)) ==> new_data.wf()
                && new_data@ == old_data@.insert(date, note_view(data)),
{
    assert forall|data: NoteData, new_data: UserCalendarData|
        #![trigger new_data.view(), note_view(data)]
        new_data.notes@ == old_data.notes@.update(pos, (date, data)) implies new_data.wf()
        && new_data@ == old_data@.insert(date, note_view(data)) by {
        let o = old_data.notes@;
        let t = new_data.notes@;
        assert forall|i: int, j: int| 0 <= i < j < t.len() implies date_lt(t[i].0, t[j].0) by {
            assert(date_lt(o[i].0, o[j].0));
        }
        let expected = old_data@.insert(date, note_view(data));
        assert forall|k: NoteDate| new_data@.contains_key(k) <==> expected.contains_key(k) by {
            if new_data@.contains_key(k) {
                let j = choose|j: int| new_data.has_at(k, j);
                assert(old_data.has_at(k, j));
            }
            if expected.contains_key(k) {
                if k == date {
                    assert(new_data.has_at(k, pos));
                } else {
                    let i = choose|i: int| old_data.has_at(k, i);
                    assert(new_data.has_at(k, i));
                }
            }
        }
        assert forall|k: NoteDate| #[trigger] new_data@.contains_key(k) implies new_data@[k]
            == expected[k] by {
            let j = choose|j: int| new_data.has_at(k, j);
            lemma_view_at(&new_data, j);
            if k == date {
                lemma_view_at(&new_data, pos);
            } else {
                lemma_view_at(&old_data, j);
            }
        }
        assert(new_data@ =~= expected);
    }
}

/// Key of a day's marking in the notes file.
pub open spec fn marking_key() -> Seq<char> {
    seq!['m', 'a', 'r', 'k', 'i', 'n', 'g']
}

/// Key of a day's note in the notes file.
pub open spec fn note_key() -> Seq<char> {
    seq!['n', 'o', 't', 'e']
}

/// A day's data read from its table in the notes file: a missing marking
/// is no marking, a missing note is empty; either must otherwise be a
/// string, and the marking a known name.
pub open spec fn note_from_entries(es: Seq<(Seq<char>, TomlValueView)>) -> Option<
    (MarkingType, Seq<char>),
> {
    let marking = match entries_lookup(es, marking_key()) {
        None => Some(MarkingType::Unmarked),
        Some(TomlValueView::Str(s)) => parse_marking_spec(s),
        Some(_) => None,
    };
    let note = match entries_lookup(es, note_key()) {
        None => Some(Seq::<char>::empty()),
        Some(TomlValueView::Str(s)) => Some(s),
        Some(_) => None,
    };
    if marking is Some && note is Some {
        Some((marking->0, note->0))
    } else {
        None
    }
}

/// The notes that the entries of a notes file hold: every entry is a table
/// under a date key; later entries for the same date replace earlier ones.
/// `None` when some entry is malformed.
pub open spec fn notes_from_view(es: Seq<(Seq<char>, TomlValueView)>) -> Option<
    Map<NoteDate, (MarkingType, Seq<char>)>,
>
    decreases es.len(),
{
    if es.len() == 0 {
        Some(Map::empty())
    } else {
        match notes_from_view(es.drop_last()) {
            None => None,
            Some(m) => match es.last().1 {
                TomlValueView::Table(inner) => match (
                    note_from_entries(inner),
                    parse_date_spec(es.last().0),
                ) {
                    (Some(nd), Some(d)) => Some(m.insert(d, nd)),
                    _ => None,
                },
                _ => None,
            },
        }
    }
}

/// The table entries that hold a day's data.
pub open spec fn note_entries(nd: (MarkingType, Seq<char>)) -> Seq<(Seq<char>, TomlValueView)> {
    entries_insert(
        entries_insert(Seq::empty(), marking_key(), TomlValueView::Str(marking_name(nd.0))),
        note_key(),
        TomlValueView::Str(nd.1),
    )
}

/// The entries of the notes file written for `notes`, one table per date.
pub open spec fn notes_table_view(notes: Seq<(NoteDate, NoteData)>) -> Seq<
    (Seq<char>, TomlValueView),
>
    decreases notes.len(),
{
    if notes.len() == 0 {
        Seq::empty()
    } else {
        entries_insert(
            notes_table_view(notes.drop_last()),
            date_text(notes.last().0),
            TomlValueView::Table(note_entries(note_view(notes.last().1))),
        )
    }
}

/// The entry written for one day's data.
pub open spec fn day_entry(n: (NoteDate, NoteData)) -> (Seq<char>, TomlValueView) {
    (date_text(n.0), TomlValueView::Table(note_entries(note_view(n.1))))
}

/// The day's data that an entry of the notes file holds, if it is a table
/// of well-formed data.
pub open spec fn entry_note(e: (Seq<char>, TomlValueView)) -> Option<(MarkingType, Seq<char>)> {
    match e.1 {
        TomlValueView::Table(inner) => note_from_entries(inner),
        _ => None,
    }
}

/// The entry is a table of well-formed data under a date key.
pub open spec fn entry_decodes(e: (Seq<char>, TomlValueView)) -> bool {
    entry_note(e) is Some && parse_date_spec(e.0) is Some
}

/// The date of an entry's key.
pub open spec fn entry_date(e: (Seq<char>, TomlValueView)) -> NoteDate {
    parse_date_spec(e.0)->0
}

/// Entries that all decode, under keys naming distinct dates, give the map
/// from each entry's date to its data.
proof fn lemma_decode_distinct(es: Seq<(Seq<char>, TomlValueView)>)
    requires
        forall|i: int| 0 <= i < es.len() ==> entry_decodes(#[trigger] es[i]),
        forall|i: int, j: int|
            0 <= i < j < es.len() ==> entry_date(#[trigger] es[i]) != entry_date(#[trigger] es[j]),
    ensures
        notes_from_view(es) is Some,
        forall|d: NoteDate|
            #[trigger] notes_from_view(es)->0.contains_key(d) <==> exists|i: int|
                0 <= i < es.len() && entry_date(#[trigger] es[i]) == d,
        forall|i: int|
            0 <= i < es.len() ==> notes_from_view(es)->0[entry_date(#[trigger] es[i])]
                == entry_note(es[i])->0,
    decreases es.len(),
{
    if es.len() > 0 {
        let n = es.len() - 1;
        let init = es.drop_last();
        assert forall|i: int| 0 <= i < init.len() implies entry_decodes(#[trigger] init[i]) by {
            assert(init[i] == es[i]);
        }
        assert forall|i: int, j: int| 0 <= i < j < init.len() implies entry_date(
            #[trigger] init[i],
        ) != entry_date(#[trigger] init[j]) by {
            assert(init[i] == es[i]);
            assert(init[j] == es[j]);
        }
        lemma_decode_distinct(init);
        let m = notes_from_view(init)->0;
        let last = es[n];
        assert(entry_decodes(last));
        let dl = entry_date(last);
        let nl = entry_note(last)->0;
        assert(notes_from_view(es) == Some(m.insert(dl, nl)));
        let r = m.insert(dl, nl);
        assert forall|d: NoteDate| #[trigger] r.contains_key(d) <==> exists|i: int|
            0 <= i < es.len() && entry_date(#[trigger] es[i]) == d by {
            if r.contains_key(d) {
                if d == dl {
                    assert(entry_date(es[n]) == d);
                } else {
                    assert(m.contains_key(d));
                    let i = choose|i: int| 0 <= i < init.len() && entry_date(#[trigger] init[i]) == d;
                    assert(es[i] == init[i]);
                }
            }
            if exists|i: int| 0 <= i < es.len() && entry_date(#[trigger] es[i]) == d {
                let i = choose|i: int| 0 <= i < es.len() && entry_date(#[trigger] es[i]) == d;
                if i < n {
                    assert(init[i] == es[i]);
                    assert(m.contains_key(d));
                }
            }
        }
        assert forall|i: int| 0 <= i < es.len() implies r[entry_date(#[trigger] es[i])]
            == entry_note(es[i])->0 by {
            if i < n {
                assert(init[i] == es[i]);
                assert(entry_date(es[i]) != dl);
            }
        }
    }
}

/// The entries written for one day's data decode to that data.
proof fn lemma_note_entries_decode(nd: (MarkingType, Seq<char>))
    ensures
        note_from_entries(note_entries(nd)) == Some(nd),
{
    let mv = TomlValueView::Str(marking_name(nd.0));
    let nv = TomlValueView::Str(nd.1);
    let e1 = entries_insert(Seq::empty(), marking_key(), mv);
    assert(e1 == seq![(marking_key(), mv)]);
    assert(marking_key() != note_key()) by {
        assert(marking_key().len() != note_key().len());
    }
    assert(!key_lt(note_key(), marking_key())) by {
        assert(note_key()[0] != marking_key()[0]);
    }
    let e2 = entries_insert(e1, note_key(), nv);
    assert(e1.drop_first() =~= Seq::<(Seq<char>, TomlValueView)>::empty());
    assert(entries_insert(e1.drop_first(), note_key(), nv) == seq![(note_key(), nv)]);
    assert(e2 == seq![e1[0]] + seq![(note_key(), nv)]);
    assert(e2 =~= seq![(marking_key(), mv), (note_key(), nv)]);
    assert(entries_lookup(e2, marking_key()) == Some(mv));
    assert(e2.drop_first() =~= seq![(note_key(), nv)]);
    assert(entries_lookup(e2.drop_first(), note_key()) == Some(nv));
    assert(entries_lookup(e2, note_key()) == Some(nv));
    crate::calendar::marking::lemma_marking_roundtrip(nd.0);
}

/// The places of a sequence after `x` is put in at place `p`.
proof fn lemma_put_in<A>(t0: Seq<A>, p: int, x: A)
    requires
        0 <= p <= t0.len(),
    ensures
        (t0.take(p) + seq![x] + t0.skip(p)).len() == t0.len() + 1,
        forall|i: int|
            0 <= i < t0.len() + 1 ==> #[trigger] (t0.take(p) + seq![x] + t0.skip(p))[i] == (if i < p {
                t0[i]
            } else if i == p {
                x
            } else {
                t0[i - 1]
            }),
{
}

/// The table written for notes with distinct dates has one entry per note,
/// each written for its note, under distinct keys.
#[verifier::rlimit(40)]
proof fn lemma_table_of_notes(notes: Seq<(NoteDate, NoteData)>)
    requires
        forall|i: int, j: int| 0 <= i < j < notes.len() ==> notes[i].0 != notes[j].0,
    ensures
        notes_table_view(notes).len() == notes.len(),
        forall|i: int|
            0 <= i < notes.len() ==> exists|k: int|
                0 <= k < notes.len() && #[trigger] notes_table_view(notes)[i] == day_entry(
                    notes[k],
                ),
        forall|k: int|
            0 <= k < notes.len() ==> exists|i: int|
                0 <= i < notes.len() && notes_table_view(notes)[i] == day_entry(#[trigger] notes[k]),
        forall|i: int, j: int|
            0 <= i < j < notes.len() ==> (#[trigger] notes_table_view(notes)[i]).0 != (
            #[trigger] notes_table_view(notes)[j]).0,
    decreases notes.len(),
{
    if notes.len() > 0 {
        let n = notes.len() - 1;
        let init = notes.drop_last();
        assert forall|i: int, j: int| 0 <= i < j < init.len() implies init[i].0 != init[j].0 by {
            assert(init[i] == notes[i]);
            assert(init[j] == notes[j]);
        }
        lemma_table_of_notes(init);
        let t0 = notes_table_view(init);
        let last = notes[n];
        let key = date_text(last.0);
        let v = TomlValueView::Table(note_entries(note_view(last.1)));
        assert(notes.last() == last);
        assert forall|i: int| 0 <= i < t0.len() implies (#[trigger] t0[i]).0 != key by {
            let k = choose|k: int| 0 <= k < init.len() && #[trigger] t0[i] == day_entry(init[k]);
            assert(init[k] == notes[k]);
            lemma_date_text_roundtrip(notes[k].0);
            lemma_date_text_roundtrip(last.0);
        }
        let p = crate::toml_doc::lemma_insert_new_key(t0, key, v);
        let t = notes_table_view(notes);
        assert(t == t0.take(p) + seq![(key, v)] + t0.skip(p));
        lemma_put_in(t0, p, (key, v));
        assert(day_entry(last) == (key, v));
        assert forall|i: int| 0 <= i < notes.len() implies exists|k: int|
            0 <= k < notes.len() && #[trigger] t[i] == day_entry(notes[k]) by {
            if i == p {
                assert(t[i] == day_entry(notes[n]));
            } else {
                let i0 = if i < p {
                    i
                } else {
                    i - 1
                };
                assert(t[i] == t0[i0]);
                let k = choose|k: int| 0 <= k < init.len() && #[trigger] t0[i0] == day_entry(init[k]);
                assert(init[k] == notes[k]);
            }
        }
        assert forall|k: int| 0 <= k < notes.len() implies exists|i: int|
            0 <= i < notes.len() && t[i] == day_entry(#[trigger] notes[k]) by {
            if k == n {
                assert(t[p] == day_entry(notes[k]));
            } else {
                assert(init[k] == notes[k]);
                let i0 = choose|i: int| 0 <= i < init.len() && t0[i] == day_entry(#[trigger] init[k]);
                if i0 < p {
                    assert(t[i0] == t0[i0]);
                } else {
                    assert(t[i0 + 1] == t0[i0]);
                }
            }
        }
        assert forall|i: int, j: int| 0 <= i < j < notes.len() implies (#[trigger] t[i]).0 != (
        #[trigger] t[j]).0 by {
            if i == p {
                assert(t[j] == t0[j - 1]);
                assert(t0[j - 1].0 != key);
            } else if j == p {
                assert(t[i] == t0[i]);
                assert(t0[i].0 != key);
            } else {
                let i0 = if i < p {
                    i
                } else {
                    i - 1
                };
                let j0 = if j < p {
                    j
                } else {
                    j - 1
                };
                assert(t[i] == t0[i0]);
                assert(t[j] == t0[j0]);
                assert(i0 < j0);
            }
        }
    }
}

/// The table written for the notes reads back as the same notes: every
/// day's marking and note, and no other day.
#[verifier::rlimit(80)]
pub proof fn lemma_notes_table_round_trip(data: UserCalendarData)
    requires
        data.wf(),
    ensures
        notes_from_view(notes_table_view(data.notes@)) == Some(data@),
{
    let notes = data.notes@;
    assert forall|i: int, j: int| 0 <= i < j < notes.len() implies notes[i].0 != notes[j].0 by {
        assert(date_lt(notes[i].0, notes[j].0));
        lemma_date_order(notes[i].0, notes[j].0, notes[j].0);
    }
    lemma_table_of_notes(notes);
    let t = notes_table_view(notes);
    assert forall|k: int| 0 <= k < notes.len() implies parse_date_spec(
        day_entry(#[trigger] notes[k]).0,
    ) == Some(notes[k].0) && entry_note(day_entry(notes[k])) == Some(note_view(notes[k].1)) by {
        lemma_date_text_roundtrip(notes[k].0);
        lemma_note_entries_decode(note_view(notes[k].1));
    }
    assert forall|i: int| 0 <= i < t.len() implies entry_decodes(#[trigger] t[i]) by {
        let k = choose|k: int| 0 <= k < notes.len() && t[i] == day_entry(notes[k]);
        assert(parse_date_spec(day_entry(notes[k]).0) == Some(notes[k].0));
    }
    assert forall|i: int, j: int| 0 <= i < j < t.len() implies entry_date(#[trigger] t[i])
        != entry_date(#[trigger] t[j]) by {
        let ki = choose|k: int| 0 <= k < notes.len() && t[i] == day_entry(notes[k]);
        let kj = choose|k: int| 0 <= k < notes.len() && t[j] == day_entry(notes[k]);
        assert(parse_date_spec(day_entry(notes[ki]).0) == Some(notes[ki].0));
        assert(parse_date_spec(day_entry(notes[kj]).0) == Some(notes[kj].0));
        assert(t[i].0 != t[j].0);
    }
    lemma_decode_distinct(t);
    let m = notes_from_view(t)->0;
    assert forall|d: NoteDate| m.contains_key(d) <==> data@.contains_key(d) by {
        if m.contains_key(d) {
            let i = choose|i: int| 0 <= i < t.len() && entry_date(#[trigger] t[i]) == d;
            let k = choose|k: int| 0 <= k < notes.len() && t[i] == day_entry(notes[k]);
            assert(parse_date_spec(day_entry(notes[k]).0) == Some(notes[k].0));
            assert(data.has_at(d, k));
        }
        if data@.contains_key(d) {
            let k = choose|k: int| data.has_at(d, k);
            let i = choose|i: int| 0 <= i < notes.len() && t[i] == day_entry(#[trigger] notes[k]);
            assert(parse_date_spec(day_entry(notes[k]).0) == Some(notes[k].0));
            assert(entry_date(t[i]) == d);
            assert(m.contains_key(d));
        }
    }
    assert forall|d: NoteDate| #[trigger] m.contains_key(d) implies m[d] == data@[d] by {
        let k = choose|k: int| data.has_at(d, k);
        lemma_view_at(&data, k);
        let i = choose|i: int| 0 <= i < notes.len() && t[i] == day_entry(#[trigger] notes[k]);
        assert(parse_date_spec(day_entry(notes[k]).0) == Some(notes[k].0));
        assert(entry_date(t[i]) == d);
    }
    assert(m =~= data@);
}

/// Once a prefix of the entries is malformed, so is the whole.
proof fn lemma_notes_prefix_none(es: Seq<(Seq<char>, TomlValueView)>, k: int)
    requires
        0 <= k <= es.len(),
        notes_from_view(es.take(k)) is None,
    ensures
        notes_from_view(es) is None,
    decreases es.len() - k,
{
    if k < es.len() {
        assert(es.take(k + 1).drop_last() =~= es.take(k));
        lemma_notes_prefix_none(es, k + 1);
    } else {
        assert(es.take(k) =~= es);
    }
}

/// The data of `d`, or an unmarked empty note when there is none.
pub open spec fn current_or_default(
    notes: Map<NoteDate, (MarkingType, Seq<char>)>,
    d: NoteDate,
) -> (MarkingType, Seq<char>) {
    if notes.contains_key(d) {
        notes[d]
    } else {
        (MarkingType::Unmarked, Seq::<char>::empty())
    }
}

/// The notes after day `d` got the marking `m`; its note is kept.
pub open spec fn with_marking(
    notes: Map<NoteDate, (MarkingType, Seq<char>)>,
    d: NoteDate,
    m: MarkingType,
) -> Map<NoteDate, (MarkingType, Seq<char>)> {
    notes.insert(d, (m, current_or_default(notes, d).1))
}

/// The notes after day `d` got the note `note`; its marking is kept.
pub open spec fn with_note(
    notes: Map<NoteDate, (MarkingType, Seq<char>)>,
    d: NoteDate,
    note: Seq<char>,
) -> Map<NoteDate, (MarkingType, Seq<char>)> {
    notes.insert(d, (current_or_default(notes, d).0, note))
}

/// A day reads back what was last written to it: after its marking is set
/// it shows that marking with its old note, after its note is set it shows
/// that note with its old marking; every other day reads as before.
pub proof fn lemma_day_read_back(
    notes: Map<NoteDate, (MarkingType, Seq<char>)>,
    d: NoteDate,
    other: NoteDate,
    m: MarkingType,
    note: Seq<char>,
)
    requires
        other != d,
    ensures
        with_marking(notes, d, m).contains_key(d),
        current_or_default(with_marking(notes, d, m), d) == (m, current_or_default(notes, d).1),
        with_note(notes, d, note).contains_key(d),
        current_or_default(with_note(notes, d, note), d) == (current_or_default(notes, d).0, note),
        with_marking(notes, d, m).contains_key(other) == notes.contains_key(other),
        current_or_default(with_marking(notes, d, m), other) == current_or_default(notes, other),
        with_note(notes, d, note).contains_key(other) == notes.contains_key(other),
        current_or_default(with_note(notes, d, note), other) == current_or_default(notes, other),
{
}

/// The text is a notes file: TOML whose entries are well-formed days.
pub open spec fn notes_file_ok(text: Seq<char>) -> bool {
    parse_toml_spec(text) matches Some(es) && notes_from_view(es) is Some
}

/// The hint shown over the notes of a day: editable days invite typing,
/// past days say that nothing was entered.
pub fn overlay_message(editable: bool) -> (message: String)
    ensures
        message@ == (if editable {
            "Type to enter selected day's notes"@
        } else {
            "No note was entered for selected day"@
        }),
{
    if editable {
        String::from_str("Type to enter selected day's notes")
    } else {
        String::from_str("No note was entered for selected day")
    }
}

/// A day's data read from its table in the notes file.
fn note_data_from_table(inner: &toml::Table) -> (data: Option<NoteData>)
    ensures
        match data {
            Some(nd) => note_from_entries(table_view(*inner)) == Some(note_view(nd)),
            None => note_from_entries(table_view(*inner)) is None,
        },
{
    proof {
        reveal_strlit("marking");
        reveal_strlit("note");
        assert("marking"@ =~= marking_key());
        assert("note"@ =~= note_key());
    }
    let marking = match table_get(inner, "marking") {
        None => MarkingType::Unmarked,
        Some(TomlItem::Str(s)) => match MarkingType::try_parse(s.as_str()) {
            Some(m) => m,
            None => {
                return None;
            },
        },
        Some(_) => {
            return None;
        },
    };
    let note = match table_get(inner, "note") {
        None => String::new(),
        Some(TomlItem::Str(s)) => s,
        Some(_) => {
            return None;
        },
    };
    Some(NoteData { marking, note })
}

/// In a well-formed list the data of the entry at `i` is what the view holds.
proof fn lemma_view_at(data: &UserCalendarData, i: int)
    requires
        data.wf(),
        0 <= i < data.notes@.len(),
    ensures
        data@.contains_key(data.notes@[i].0),
        data@[data.notes@[i].0] == note_view(data.notes@[i].1),
{
    let d = data.notes@[i].0;
    assert(data.has_at(d, i));
    let j = choose|j: int| data.has_at(d, j);
    if j != i {
        if j < i {
            assert(date_lt(data.notes@[j].0, data.notes@[i].0));
        } else {
            assert(date_lt(data.notes@[i].0, data.notes@[j].0));
        }
        lemma_date_order(d, d, d);
    }
}

impl UserCalendarData {
    /// No notes at all.
    pub fn new() -> (data: Self)
        ensures
            data.wf(),
            data@ == Map::<NoteDate, (MarkingType, Seq<char>)>::empty(),
    {
        let data = UserCalendarData { notes: Vec::new() };
        assert(data@ =~= Map::<NoteDate, (MarkingType, Seq<char>)>::empty());
        data
    }

    /// The place of `date` in the list, or where it would go, and whether it
    /// is there.
    fn find(&self, date: NoteDate) -> (r: (usize, bool))
        requires
            self.wf(),
        ensures
            r.0 <= self.notes@.len(),
            forall|i: int| 0 <= i < r.0 ==> date_lt(#[trigger] self.notes@[i].0, date),
            r.0 < self.notes@.len() ==> !date_lt(self.notes@[r.0 as int].0, date),
            r.1 <==> (r.0 < self.notes@.len() && self.notes@[r.0 as int].0 == date),
            r.1 <==> self@.contains_key(date),
    {
        let mut pos: usize = 0;
        while pos < self.notes.len()
            invariant
                pos <= self.notes@.len(),
                forall|i: int| 0 <= i < pos ==> date_lt(#[trigger] self.notes@[i].0, date),
            ensures
                pos <= self.notes@.len(),
                forall|i: int| 0 <= i < pos ==> date_lt(#[trigger] self.notes@[i].0, date),
                pos < self.notes@.len() ==> !date_lt(self.notes@[pos as int].0, date),
            decreases self.notes@.len() - pos,
        {
            if !self.notes[pos].0.is_before(&date) {
                break;
            }
            pos += 1;
        }
        let found = pos < self.notes.len() && self.notes[pos].0 == date;
        proof {
            if found {
                lemma_view_at(self, pos as int);
            }
            if self@.contains_key(date) {
                let j = choose|j: int| self.has_at(date, j);
                if j < pos {
                    lemma_date_order(date, date, date);
                } else if j > pos {
                    assert(date_lt(self.notes@[pos as int].0, self.notes@[j].0));
                    lemma_date_order(self.notes@[pos as int].0, date, date);
                }
            }
        }
        (pos, found)
    }

    /// The data kept for `note_date`, if any.
    pub fn get_date_entry(&self, note_date: NoteDate) -> (entry: Option<&NoteData>)
        requires
            self.wf(),
        ensures
            match entry {
                Some(e) => self@.contains_key(note_date) && self@[note_date] == note_view(*e),
                None => !self@.contains_key(note_date),
            },
    {
        let (pos, found) = self.find(note_date);
        if found {
            proof {
                lemma_view_at(self, pos as int);
            }
            Some(&self.notes[pos].1)
        } else {
            None
        }
    }

    /// The note text kept for `note_date`, if any.
    pub fn get_date_notes(&self, note_date: NoteDate) -> (note: Option<&str>)
        requires
            self.wf(),
        ensures
            match note {
                Some(n) => self@.contains_key(note_date) && self@[note_date].1 == n@,
                None => !self@.contains_key(note_date),
            },
    {
        match self.get_date_entry(note_date) {
            Some(entry) => Some(entry.note.as_str()),
            None => None,
        }
    }

    /// The data kept for `note_date`, created empty and unmarked when there
    /// is none; whatever the caller writes through it is kept.
    pub fn get_or_insert_date_entry(&mut self, note_date: NoteDate) -> (entry: &mut NoteData)
        requires
            old(self).wf(),
        ensures
            note_view(*entry) == (if old(self)@.contains_key(note_date) {
                old(self)@[note_date]
            } else {
                (MarkingType::Unmarked, Seq::<char>::empty())
            }),
            final(self).wf(),
            final(self)@ == old(self)@.insert(note_date, note_view(*final(entry))),
    {
        let (pos, found) = self.find(note_date);
        if !found {
            self.upsert(note_date, NoteData::default());
        }
        let (pos, found) = self.find(note_date);
        let ghost mid = *self;
        proof {
            lemma_view_at(self, pos as int);
        }
        let entry = &mut self.notes[pos].1;
        proof {
            lemma_update_view(mid, pos as int, note_date);
        }
        entry
    }

    /// Keeps `note` as the note of `note_date` (creating the day's data
    /// when there is none) and returns whether the note changed, that is,
    /// whether the notes need to be written out.
    pub fn resync_note_changes(&mut self, note_date: NoteDate, note: String) -> (changed: bool)
        requires
            old(self).wf(),
        ensures
            final(self).wf(),
            final(self)@ == with_note(old(self)@, note_date, note@),
            changed == (current_or_default(old(self)@, note_date).1 != note@),
    {
        let entry = self.get_or_insert_date_entry(note_date);
        if entry.note != note {
            entry.note = note;
            true
        } else {
            false
        }
    }

    /// Gives `note_date` the marking `marking` (creating the day's data when
    /// there is none); the note is kept.
    pub fn set_marking(&mut self, note_date: NoteDate, marking: MarkingType)
        requires
            old(self).wf(),
        ensures
            final(self).wf(),
            final(self)@ == with_marking(old(self)@, note_date, marking),
    {
        let entry = self.get_or_insert_date_entry(note_date);
        entry.marking = marking;
    }

    /// A right click on the day showing `displayed`: the marking moves on to
    /// the next one, is kept for the day and returned.
    pub fn toggle_marking(&mut self, note_date: NoteDate, displayed: MarkingType) -> (marking:
        MarkingType)
        requires
            old(self).wf(),
        ensures
            marking == next_marking(displayed),
            final(self).wf(),
            final(self)@ == with_marking(old(self)@, note_date, marking),
    {
        let mut marking = displayed;
        marking.next();
        self.set_marking(note_date, marking);
        marking
    }

    /// How a day box shows `note_date`: its marking, and whether the note
    /// badge is visible (there is a non-empty note).
    pub fn day_decoration(&self, note_date: NoteDate) -> (decoration: (MarkingType, bool))
        requires
            self.wf(),
        ensures
            decoration == (if self@.contains_key(note_date) {
                (self@[note_date].0, self@[note_date].1.len() > 0)
            } else {
                (MarkingType::Unmarked, false)
            }),
    {
        match self.get_date_entry(note_date) {
            Some(entry) => (entry.marking, entry.note.as_str().unicode_len() > 0),
            None => (MarkingType::Unmarked, false),
        }
    }

    /// The notes held by the table of a notes file; `None` when an entry is
    /// not a table under a `YYYY-MM-DD` key, or holds a marking or note that
    /// is not a string, or an unknown marking.
    pub fn notes_from_table(table: &toml::Table) -> (data: Option<UserCalendarData>)
        ensures
            match data {
                Some(d) => d.wf() && notes_from_view(table_view(*table)) == Some(d@),
                None => notes_from_view(table_view(*table)) is None,
            },
    {
        let items = table_items(table);
        let ghost es = items_view(items@);
        let mut data = UserCalendarData::new();
        let mut i: usize = 0;
        proof {
            assert(es.take(0) =~= Seq::<(Seq<char>, TomlValueView)>::empty());
        }
        while i < items.len()
            invariant
                es == items_view(items@),
                es == table_view(*table),
                i <= items@.len(),
                data.wf(),
                notes_from_view(es.take(i as int)) == Some(data@),
            decreases items@.len() - i,
        {
            proof {
                assert(es.take(i + 1).drop_last() =~= es.take(i as int));
                assert(es.take(i + 1).last() == es[i as int]);
                assert(es[i as int] == (items@[i as int].0@, items@[i as int].1.view()));
            }
            match &items[i].1 {
                TomlItem::Table(inner) => {
                    let nd = match note_data_from_table(inner) {
                        Some(nd) => nd,
                        None => {
                            proof {
                                lemma_notes_prefix_none(es, i + 1);
                            }
                            return None;
                        },
                    };
                    let date = match NoteDate::try_parse(items[i].0.as_str()) {
                        Some(d) => d,
                        None => {
                            proof {
                                lemma_notes_prefix_none(es, i + 1);
                            }
                            return None;
                        },
                    };
                    data.upsert(date, nd);
                },
                _ => {
                    proof {
                        lemma_notes_prefix_none(es, i + 1);
                    }
                    return None;
                },
            }
            i += 1;
        }
        proof {
            assert(es.take(i as int) =~= es);
        }
        Some(data)
    }

    /// The notes kept in the text of a notes file. The text must be TOML
    /// whose entries are well-formed days (see `notes_from_table`); no other
    /// text is a notes file.
    pub fn parse_user_file(contents: &str) -> (data: UserCalendarData)
        requires
            notes_file_ok(contents@),
        ensures
            data.wf(),
            notes_from_view(parse_toml_spec(contents@)->0) == Some(data@),
    {
        let table = parse_toml_table(contents).unwrap();
        UserCalendarData::notes_from_table(&table).unwrap()
    }

    /// The notes kept in the text of a notes file, as `parse_user_file` reads
    /// them; `None` when the text is not TOML or its entries are malformed.
    pub fn try_parse_user_file(contents: &str) -> (data: Option<UserCalendarData>)
        ensures
            match data {
                Some(d) => d.wf() && (parse_toml_spec(contents@) matches Some(es)
                    && notes_from_view(es) == Some(d@)),
                None => !notes_file_ok(contents@),
            },
    {
        match parse_toml_table(contents) {
            Ok(table) => match UserCalendarData::notes_from_table(&table) {
                Some(_) => Some(UserCalendarData::parse_user_file(contents)),
                None => None,
            },
            Err(_) => None,
        }
    }

    /// The TOML text of the notes file for these notes (one table per date,
    /// holding the marking name and the note); `None` when the `toml` crate
    /// cannot write it.
    pub fn write_contents(&self) -> (text: Option<String>)
        ensures
            match text {
                Some(t) => toml_render(notes_table_view(self.notes@)) == Some(t@),
                None => toml_render(notes_table_view(self.notes@)) is None,
            },
    {
        let mut table = table_new();
        let mut i: usize = 0;
        proof {
            assert(self.notes@.take(0) =~= Seq::<(NoteDate, NoteData)>::empty());
        }
        while i < self.notes.len()
            invariant
                i <= self.notes@.len(),
                table_view(table) == notes_table_view(self.notes@.take(i as int)),
                only_strings_and_tables(table_view(table)),
            decreases self.notes@.len() - i,
        {
            let mut inner = table_new();
            let marking = self.notes[i].1.marking.to_string();
            let note = self.notes[i].1.note.clone();
            let marking_key_text = String::from_str("marking");
            let note_key_text = String::from_str("note");
            proof {
                reveal_strlit("marking");
                reveal_strlit("note");
                assert(marking_key_text@ =~= marking_key());
                assert(note_key_text@ =~= note_key());
            }
            table_insert_str(&mut inner, marking_key_text, marking);
            table_insert_str(&mut inner, note_key_text, note);
            let ghost nd = note_view(self.notes@[i as int].1);
            proof {
                let e1 = entries_insert(
                    Seq::empty(),
                    marking_key(),
                    TomlValueView::Str(marking_name(nd.0)),
                );
                assert(only_strings_and_tables(Seq::<(Seq<char>, TomlValueView)>::empty()));
                assert(only_strings_and_tables(seq![(marking_key(), TomlValueView::Str(marking_name(nd.0)))]));
                crate::toml_doc::lemma_insert_keeps_strings_and_tables(
                    Seq::empty(),
                    marking_key(),
                    TomlValueView::Str(marking_name(nd.0)),
                );
                assert(only_strings_and_tables(seq![(note_key(), TomlValueView::Str(nd.1))]));
                crate::toml_doc::lemma_insert_keeps_strings_and_tables(
                    e1,
                    note_key(),
                    TomlValueView::Str(nd.1),
                );
                assert(table_view(inner) == note_entries(nd));
            }
            let key = self.notes[i].0.to_string();
            let ghost before = table_view(table);
            table_insert_table(&mut table, key, inner);
            proof {
                let v = TomlValueView::Table(note_entries(nd));
                assert(only_strings_and_tables(seq![(key@, v)])) by {
                    let single = seq![(key@, v)];
                    assert(single[0].1 == v);
                }
                crate::toml_doc::lemma_insert_keeps_strings_and_tables(before, key@, v);
                let taken = self.notes@.take(i + 1);
                assert(taken.drop_last() =~= self.notes@.take(i as int));
                assert(taken.last() == self.notes@[i as int]);
            }
            i += 1;
        }
        proof {
            assert(self.notes@.take(self.notes@.len() as int) =~= self.notes@);
        }
        table_to_string(&table)
    }

    /// What the notes pane shows for `note_date`: the note text (empty when
    /// there is none) and whether the hint overlay is shown, which is when
    /// the note is blank; then the text view takes the focus too.
    pub fn display_day_notes(&self, note_date: NoteDate) -> (shown: (String, bool))
        requires
            self.wf(),
        ensures
            shown.0@ == current_or_default(self@, note_date).1,
            shown.1 == is_blank(current_or_default(self@, note_date).1),
    {
        match self.get_date_notes(note_date) {
            Some(date_note) => {
                let blank = is_blank_str(date_note);
                (String::from_str(date_note), blank)
            },
            None => (String::new(), true),
        }
    }

    /// Stores `data` for `date`, replacing what was there.
    fn upsert(&mut self, date: NoteDate, data: NoteData)
        requires
            old(self).wf(),
        ensures
            final(self).wf(),
            final(self)@ == old(self)@.insert(date, note_view(data)),
    {
        let (pos, found) = self.find(date);
        let ghost old_data = *self;
        if found {
            self.notes.set(pos, (date, data));
        } else {
            self.notes.insert(pos, (date, data));
        }
        proof {
            let new_data = *self;
            let o = old_data.notes@;
            let t = new_data.notes@;
            if found {
                lemma_update_view(old_data, pos as int, date);
                assert(new_data.notes@ == old_data.notes@.update(pos as int, (date, data)));
                assert(new_data@ == old_data@.insert(date, note_view(data)));
            } else {
                assert(t == o.insert(pos as int, (date, data)));
                assert forall|j: int| pos <= j < o.len() implies date_lt(date, #[trigger] o[j].0) by {
                    if j > pos {
                        assert(date_lt(o[pos as int].0, o[j].0));
                        lemma_date_order(date, o[pos as int].0, o[j].0);
                    } else {
                        lemma_date_order(date, o[pos as int].0, o[pos as int].0);
                    }
                }
            }
        }
        proof {
            let new_data = *self;
            let o = old_data.notes@;
            let t = new_data.notes@;
            if !found {
            // the new list is still in date order
            assert forall|i: int, j: int| 0 <= i < j < t.len() implies date_lt(t[i].0, t[j].0) by {
                if found {
                    if i == pos {
                        assert(date_lt(o[i].0, o[j].0));
                    } else if j == pos {
                        assert(date_lt(o[i].0, o[j].0));
                    }
                } else {
                    if j < pos {
                        assert(t[i] == o[i] && t[j] == o[j]);
                    } else if j == pos {
                        assert(t[i] == o[i]);
                    } else if i == pos {
                        assert(t[j] == o[j - 1]);
                    } else if i < pos {
                        assert(t[i] == o[i] && t[j] == o[j - 1]);
                        lemma_date_order(o[i].0, date, o[j - 1].0);
                    } else {
                        assert(t[i] == o[i - 1] && t[j] == o[j - 1]);
                    }
                }
            }
            assert(new_data.wf());
            let expected = old_data@.insert(date, note_view(data));
            assert forall|k: NoteDate| new_data@.contains_key(k) <==> expected.contains_key(k) by {
                if new_data@.contains_key(k) {
                    let j = choose|j: int| new_data.has_at(k, j);
                    if k != date {
                        if found {
                            assert(old_data.has_at(k, j));
                        } else if j < pos {
                            assert(old_data.has_at(k, j));
                        } else {
                            assert(old_data.has_at(k, j - 1));
                        }
                    }
                }
                if expected.contains_key(k) {
                    if k == date {
                        assert(new_data.has_at(k, pos as int));
                    } else {
                        let i = choose|i: int| old_data.has_at(k, i);
                        if found || i < pos {
                            assert(new_data.has_at(k, i));
                        } else {
                            assert(new_data.has_at(k, i + 1));
                        }
                    }
                }
            }
            assert forall|k: NoteDate| #[trigger] new_data@.contains_key(k) implies new_data@[k]
                == expected[k] by {
                let j = choose|j: int| new_data.has_at(k, j);
                lemma_view_at(&new_data, j);
                if k == date {
                    if !found {
                        assert(new_data.has_at(k, pos as int));
                    }
                    lemma_view_at(&new_data, pos as int);
                } else if found || j < pos {
                    lemma_view_at(&old_data, j);
                } else {
                    lemma_view_at(&old_data, j - 1);
                }
            }
            assert(new_data@ =~= expected);
            }
        }
    }
}

} // verus!
