//! The validated draft of a natural-language capture. Only checked values
//! reach the dialog: an invalid value leaves its field empty instead of
//! writing rubbish.

use vstd::prelude::*;
use crate::text::{
    ascii_upper_str, chars_eq_str, chars_of, slice_from, spec_ascii_upper_str, spec_split_whitespace,
    spec_to_lowercase, spec_trim, split_whitespace, string_of, to_lowercase, trim, views,
};
use crate::parsers::{
    due_panics, is_standard_priority, is_valid_recur, parse_due_date, recur_panics, spec_due_intent, spec_due_panics,
    spec_parse_recur, spec_recur_panics,
};

verus! {

/// The `tags` field of a model answer as it was read: an array (each entry
/// a string or not), a single string, or missing / of another type.
#[derive(Debug)]
pub enum TagsFeld {
    Liste(Vec<Option<String>>),
    Text(String),
    Fehlt,
}

/// The schema fields of a model answer as they were read; a field that is
/// missing, `null` or not a string is `None`.
#[derive(Debug)]
pub struct AntwortFelder {
    pub title: Option<String>,
    pub project: Option<String>,
    pub tags: TagsFeld,
    pub due: Option<String>,
    pub priority: Option<String>,
    pub recur: Option<String>,
    pub notes: Option<String>,
}

/// The validated draft `{title, project, tags, due, priority, recur, notes}`;
/// every field may be empty.
#[derive(Debug, PartialEq, Eq)]
pub struct AiDraft {
    pub title: String,
    pub project: String,
    pub tags: Vec<String>,
    pub due: String,
    pub priority: String,
    pub recur: String,
    pub notes: String,
}

impl Default for AiDraft {
    fn default() -> (r: Self)
        ensures
            r.title@.len() == 0,
            r.project@.len() == 0,
            r.tags@.len() == 0,
            r.due@.len() == 0,
            r.priority@.len() == 0,
            r.recur@.len() == 0,
            r.notes@.len() == 0,
    {
        AiDraft {
            title: String::new(),
            project: String::new(),
            tags: Vec::new(),
            due: String::new(),
            priority: String::new(),
            recur: String::new(),
            notes: String::new(),
        }
    }
}

/// A string field, trimmed; empty where it was not a string.
pub open spec fn spec_string_feld(o: Option<Seq<char>>) -> Seq<char> {
    match o {
        Some(s) => spec_trim(s),
        None => Seq::empty(),
    }
}

/// A tag without its leading `+` and `#` marks.
pub open spec fn strip_marks(s: Seq<char>) -> Seq<char>
    decreases s.len(),
{
    if s.len() > 0 && (s[0] == '+' || s[0] == '#') {
        strip_marks(s.drop_first())
    } else {
        s
    }
}

/// The strings among the entries, in order.
pub open spec fn present(es: Seq<Option<Seq<char>>>) -> Seq<Seq<char>>
    decreases es.len(),
{
    if es.len() == 0 {
        Seq::empty()
    } else {
        match es.last() {
            Some(t) => present(es.drop_last()).push(t),
            None => present(es.drop_last()),
        }
    }
}

/// The raw tags: the string entries of an array, or the words of a string.
pub open spec fn raw_tags(f: TagsFeld) -> Seq<Seq<char>> {
    match f {
        TagsFeld::Liste(es) => present(es.deep_view()),
        TagsFeld::Text(s) => spec_split_whitespace(s@),
        TagsFeld::Fehlt => Seq::empty(),
    }
}

/// Each tag trimmed and stripped of leading `+`/`#` (models like to add the
/// capture syntax); empty ones are dropped.
pub open spec fn clean_tags(raw: Seq<Seq<char>>) -> Seq<Seq<char>>
    decreases raw.len(),
{
    if raw.len() == 0 {
        Seq::empty()
    } else {
        let prev = clean_tags(raw.drop_last());
        let t = strip_marks(spec_trim(raw.last()));
        if t.len() > 0 {
            prev.push(t)
        } else {
            prev
        }
    }
}

/// The normalized recurrence of a draft: trimmed and lower-cased.
pub open spec fn draft_recur(f: AntwortFelder) -> Seq<char> {
    spec_to_lowercase(spec_string_feld(f.recur.deep_view()))
}

/// The normalized priority of a draft: trimmed and in ASCII capitals.
pub open spec fn draft_priority(f: AntwortFelder) -> Seq<char> {
    spec_ascii_upper_str(spec_string_feld(f.priority.deep_view()))
}

fn string_feld(o: &Option<String>) -> (r: String)
    ensures
        r@ == spec_string_feld(o.deep_view()),
{
    match o {
        Some(s) => string_of(trim(&chars_of(s.as_str())).as_slice()),
        None => String::new(),
    }
}

fn strip_marks_exec(v: &Vec<char>) -> (r: Vec<char>)
    ensures
        r@ == strip_marks(v@),
{
    let mut k: usize = 0;
    assert(v@.subrange(0, v.len() as int) =~= v@);
    while k < v.len() && (v[k] == '+' || v[k] == '#')
        invariant
            k <= v.len(),
            strip_marks(v@) == strip_marks(v@.subrange(k as int, v.len() as int)),
        decreases v.len() - k,
    {
        assert(v@.subrange(k as int, v.len() as int).drop_first() =~= v@.subrange(
            k + 1,
            v.len() as int,
        ));
        k = k + 1;
    }
    slice_from(v, k)
}

fn tags_feld(f: &TagsFeld) -> (r: Vec<String>)
    ensures
        r.deep_view() == clean_tags(raw_tags(*f)),
{
    let mut raw: Vec<Vec<char>> = Vec::new();
    match f {
        TagsFeld::Liste(es) => {
            let mut i: usize = 0;
            assert(es.deep_view().take(0) =~= Seq::<Option<Seq<char>>>::empty());
            assert(views(raw@) =~= Seq::<Seq<char>>::empty());
            while i < es.len()
                invariant
                    i <= es.len(),
                    views(raw@) == present(es.deep_view().take(i as int)),
                decreases es.len() - i,
            {
                assert(es.deep_view().take(i + 1).drop_last() =~= es.deep_view().take(i as int));
                let ghost before = views(raw@);
                match &es[i] {
                    Some(t) => {
                        raw.push(chars_of(t.as_str()));
                        assert(views(raw@) =~= before.push(t@));
                    },
                    None => {},
                }
                i = i + 1;
            }
            assert(es.deep_view().take(es.len() as int) =~= es.deep_view());
        },
        TagsFeld::Text(s) => {
            raw = split_whitespace(&chars_of(s.as_str()));
        },
        TagsFeld::Fehlt => {
            assert(views(raw@) =~= Seq::<Seq<char>>::empty());
        },
    }
    let ghost rv = views(raw@);
    let mut out: Vec<String> = Vec::new();
    let mut i: usize = 0;
    assert(rv.take(0) =~= Seq::<Seq<char>>::empty());
    while i < raw.len()
        invariant
            i <= raw.len(),
            rv == views(raw@),
            out.deep_view() == clean_tags(rv.take(i as int)),
        decreases raw.len() - i,
    {
        assert(rv.take(i + 1).drop_last() =~= rv.take(i as int));
        assert(rv.take(i + 1).last() == raw@[i as int]@);
        let t = strip_marks_exec(&trim(&raw[i]));
        if t.len() > 0 {
            let ghost before = out.deep_view();
            out.push(string_of(t.as_slice()));
            assert(out.deep_view() =~= before.push(t@));
        }
        i = i + 1;
    }
    assert(rv.take(raw.len() as int) =~= rv);
    out
}

impl AiDraft {
    /// Reads the schema fields of a model answer (already checked to be a
    /// JSON object) and checks each: `due` must read as a due date, `recur`
    /// as a recurrence, `priority` must be H, M or L; tags lose their `+`/`#`
    /// marks. Missing, mistyped or invalid values give empty fields. Whether
    /// a due date resolves depends on local time, so only that field's
    /// choices are stated.
    pub fn aus_feldern(f: &AntwortFelder, now: i64) -> (r: Self)
        requires
            !spec_due_panics(spec_string_feld(f.due.deep_view())),
            !spec_recur_panics(draft_recur(*f)),
        ensures
            r.title@ == spec_string_feld(f.title.deep_view()),
            r.project@ == spec_string_feld(f.project.deep_view()),
            r.notes@ == spec_string_feld(f.notes.deep_view()),
            r.tags.deep_view() == clean_tags(raw_tags(f.tags)),
            r.priority@ == if is_standard_priority(draft_priority(*f)) {
                draft_priority(*f)
            } else {
                Seq::empty()
            },
            r.due@ == spec_string_feld(f.due.deep_view()) || r.due@.len() == 0,
            spec_due_intent(spec_string_feld(f.due.deep_view())) is Invalid ==> r.due@.len() == 0,
            r.recur@ == draft_recur(*f) || r.recur@.len() == 0,
            (draft_recur(*f).len() == 0 || spec_parse_recur(draft_recur(*f)) is None) ==> r.recur@.len()
                == 0,
            spec_parse_recur(draft_recur(*f)) matches Some((n, u)) ==> ((u == 'd' && 1_800_000_000
                + 86400 * n <= 8_000_000_000_000) || (u == 'w' && 1_800_000_000 + 86400 * (7 * n)
                <= 8_000_000_000_000) ==> r.recur@ == draft_recur(*f)),
            spec_due_intent(spec_string_feld(f.due.deep_view())) is Now && -8_000_000_000_000 <= now
                <= 8_000_000_000_000 ==> r.due@ == spec_string_feld(f.due.deep_view()),
    {
        let due = string_feld(&f.due);
        let recur_v = to_lowercase(chars_of(string_feld(&f.recur).as_str()).as_slice());
        let recur = string_of(recur_v.as_slice());
        let prio_v = ascii_upper_str(&chars_of(string_feld(&f.priority).as_str()));
        let priority = if chars_eq_str(&prio_v, "H") || chars_eq_str(&prio_v, "M") || chars_eq_str(
            &prio_v,
            "L",
        ) {
            string_of(prio_v.as_slice())
        } else {
            String::new()
        };
        let due_ok = parse_due_date(due.as_str(), now).is_some();
        let recur_ok = !recur.as_str().is_empty() && is_valid_recur(recur.as_str());
        AiDraft {
            title: string_feld(&f.title),
            project: string_feld(&f.project),
            tags: tags_feld(&f.tags),
            due: if due_ok {
                due
            } else {
                String::new()
            },
            priority,
            recur: if recur_ok {
                recur
            } else {
                String::new()
            },
            notes: string_feld(&f.notes),
        }
    }

    /// [`AiDraft::aus_feldern`] for any answer: `None` where the due date or
    /// the recurrence of the answer cannot be read without overflowing (see
    /// [`due_panics`] and [`recur_panics`]), else the checked draft.
    pub fn aus_feldern_geprueft(f: &AntwortFelder, now: i64) -> (r: Option<Self>)
        ensures
            r is None <==> (spec_due_panics(spec_string_feld(f.due.deep_view())) || spec_recur_panics(
                draft_recur(*f),
            )),
            r matches Some(d) ==> d.title@ == spec_string_feld(f.title.deep_view()) && d.project@
                == spec_string_feld(f.project.deep_view()) && d.notes@ == spec_string_feld(
                f.notes.deep_view(),
            ) && d.tags.deep_view() == clean_tags(raw_tags(f.tags)),
    {
        let due = string_feld(&f.due);
        if due_panics(due.as_str()) {
            return None;
        }
        let recur_v = to_lowercase(chars_of(string_feld(&f.recur).as_str()).as_slice());
        let recur = string_of(recur_v.as_slice());
        if recur_panics(recur.as_str()) {
            return None;
        }
        Some(Self::aus_feldern(f, now))
    }
}

} // verus!
