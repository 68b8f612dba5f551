//! Input parsers: quick-capture token syntax (`+tag project:x due:… priority:H`),
//! `due:` date expressions and `recur:` frequencies.

use vstd::prelude::*;
use crate::text::{
    append_chars, ascii_upper_str, chars_eq_str, chars_of, copy_chars, join, slice_from,
    slice_range, spec_ascii_upper_str, spec_is_whitespace, spec_join, spec_strip_prefix,
    spec_to_lowercase, spec_trim, strip_prefix, string_of, to_lowercase, trim, views,
    is_whitespace, opt_chars,
};
use crate::num::{digits_value, is_digit, parse_i64, spec_parse_i64};
use crate::task::{spec_utc_representable, utc_representable};
use crate::dates::{
    date_add_days, date_pred, date_succ, date_valid, date_weekday, days_in_range, end_of_day,
    local_add_days, local_add_months, local_date, local_weekday, local_parts, local_instant,
    spec_shift_representable, utc_offset, weekday_at, day_of, is_local_date_at, is_local_midnight, months_later, lemma_months_later_is_later, months_shift, years_shift, second_of_day,
    lemma_later_year_later_day, parse_iso_date, spec_date_add_days, spec_date_pred,
    spec_date_succ, spec_date_valid, spec_date_weekday, spec_parse_iso_date, start_of_day,
};

verus! {

// ─── Quick capture ──────────────────────────────────────────────────────────

/// Parsed preview of a quick-capture input.
#[derive(Debug, PartialEq, Eq)]
pub struct QuickCapturePreview {
    pub description: String,
    pub tags: Vec<String>,
    pub project: Option<String>,
    pub due: Option<String>,
    pub priority: Option<String>,
}

/// The abstract content of a [`QuickCapturePreview`].
pub struct PreviewModel {
    pub description: Seq<char>,
    pub tags: Seq<Seq<char>>,
    pub project: Option<Seq<char>>,
    pub due: Option<Seq<char>>,
    pub priority: Option<Seq<char>>,
}

impl View for QuickCapturePreview {
    type V = PreviewModel;

    open spec fn view(&self) -> PreviewModel {
        PreviewModel {
            description: self.description@,
            tags: self.tags.deep_view(),
            project: self.project.deep_view(),
            due: self.due.deep_view(),
            priority: self.priority.deep_view(),
        }
    }
}

impl Default for QuickCapturePreview {
    fn default() -> (r: Self)
        ensures
            r@.description == Seq::<char>::empty(),
            r@.tags == Seq::<Seq<char>>::empty(),
            r@.project is None,
            r@.due is None,
            r@.priority is None,
    {
        let r = QuickCapturePreview {
            description: String::new(),
            tags: Vec::new(),
            project: None,
            due: None,
            priority: None,
        };
        assert(r@.tags =~= Seq::<Seq<char>>::empty());
        r
    }
}

/// Tokens of a quick-capture input, read from position `i` on with the
/// finished tokens `toks` and the token `cur` being built: whitespace
/// separates tokens, a backslash followed by a space is a literal space,
/// any other backslash is kept with the character after it.
pub open spec fn tokens_from(
    s: Seq<char>,
    i: int,
    toks: Seq<Seq<char>>,
    cur: Seq<char>,
) -> Seq<Seq<char>>
    decreases s.len() - i,
{
    if i < 0 || i >= s.len() {
        if cur.len() > 0 {
            toks.push(cur)
        } else {
            toks
        }
    } else if s[i] == '\\' {
        if i + 1 < s.len() {
            if s[i + 1] == ' ' {
                tokens_from(s, i + 2, toks, cur.push(' '))
            } else {
                tokens_from(s, i + 2, toks, cur.push('\\').push(s[i + 1]))
            }
        } else {
            tokens_from(s, i + 1, toks, cur.push('\\'))
        }
    } else if spec_is_whitespace(s[i]) {
        tokens_from(s, i + 1, if cur.len() > 0 { toks.push(cur) } else { toks }, Seq::empty())
    } else {
        tokens_from(s, i + 1, toks, cur.push(s[i]))
    }
}

/// The tokens of a quick-capture input.
pub open spec fn spec_tokenize_escaped(s: Seq<char>) -> Seq<Seq<char>> {
    tokens_from(s, 0, Seq::empty(), Seq::empty())
}

/// Splits the input at whitespace; `\ ` is a literal space inside a token.
pub fn tokenize_escaped(input: &Vec<char>) -> (toks: Vec<Vec<char>>)
    ensures
        views(toks@) == spec_tokenize_escaped(input@),
        forall|k: int| 0 <= k < toks.len() ==> toks@[k]@.len() > 0,
{
    let mut toks: Vec<Vec<char>> = Vec::new();
    let mut cur: Vec<char> = Vec::new();
    let n = input.len();
    let mut i: usize = 0;
    assert(views(toks@) =~= Seq::<Seq<char>>::empty());
    assert(cur@ =~= Seq::<char>::empty());
    while i < n
        invariant
            n == input.len(),
            i <= n,
            spec_tokenize_escaped(input@) == tokens_from(input@, i as int, views(toks@), cur@),
            forall|k: int| 0 <= k < toks.len() ==> toks@[k]@.len() > 0,
        decreases n - i,
    {
        let ch = input[i];
        let ghost t0 = views(toks@);
        let ghost c0 = cur@;
        if ch == '\\' {
            if i + 1 < n {
                let next = input[i + 1];
                if next == ' ' {
                    cur.push(' ');
                } else {
                    cur.push(ch);
                    cur.push(next);
                }
                i = i + 2;
            } else {
                cur.push(ch);
                i = i + 1;
            }
        } else if is_whitespace(ch) {
            if cur.len() > 0 {
                let ghost before = views(toks@);
                let mut done: Vec<char> = Vec::new();
                std::mem::swap(&mut done, &mut cur);
                toks.push(done);
                assert(views(toks@) =~= before.push(done@));
            }
            assert(cur@ =~= Seq::<char>::empty());
            i = i + 1;
        } else {
            cur.push(ch);
            i = i + 1;
        }
    }
    if cur.len() > 0 {
        let ghost before = views(toks@);
        let done = cur;
        toks.push(done);
        assert(views(toks@) =~= before.push(done@));
    }
    toks
}

/// The rest of `token` after `prefix`, if it starts with it and the rest is
/// not empty.
pub open spec fn spec_strip_prefix_nonempty(prefix: Seq<char>, token: Seq<char>) -> Option<
    Seq<char>,
> {
    match spec_strip_prefix(prefix, token) {
        Some(rest) => if rest.len() > 0 {
            Some(rest)
        } else {
            None
        },
        None => None,
    }
}

fn strip_prefix_nonempty(prefix: &str, token: &Vec<char>) -> (r: Option<Vec<char>>)
    ensures
        opt_chars(r) == spec_strip_prefix_nonempty(prefix@, token@),
{
    let p = chars_of(prefix);
    match strip_prefix(&p, token) {
        Some(rest) => if rest.len() > 0 {
            Some(rest)
        } else {
            None
        },
        None => None,
    }
}

/// What a quick-capture token means.
pub enum CaptureToken {
    Project(Seq<char>),
    Due(Seq<char>),
    Priority(Seq<char>),
    Tag(Seq<char>),
    Text,
}

/// Whether a (normalized) priority is one of Taskwarrior's `H`, `M`, `L`.
pub open spec fn is_standard_priority(p: Seq<char>) -> bool {
    p == "H"@ || p == "M"@ || p == "L"@
}

/// Classifies one token: `project:v`, `due:v`, `priority:v` with a
/// case-insensitive H/M/L value, `+tag`; everything else is description text.
pub open spec fn classify_token(t: Seq<char>) -> CaptureToken {
    if let Some(v) = spec_strip_prefix_nonempty("project:"@, t) {
        CaptureToken::Project(v)
    } else if let Some(v) = spec_strip_prefix_nonempty("due:"@, t) {
        CaptureToken::Due(v)
    } else if let Some(v) = spec_strip_prefix_nonempty("priority:"@, t) {
        if is_standard_priority(spec_ascii_upper_str(v)) {
            CaptureToken::Priority(spec_ascii_upper_str(v))
        } else {
            CaptureToken::Text
        }
    } else if t.len() > 1 && t[0] == '+' {
        CaptureToken::Tag(t.subrange(1, t.len() as int))
    } else {
        CaptureToken::Text
    }
}

/// The preview of a token list, before the description tokens are joined.
pub struct CaptureFold {
    pub words: Seq<Seq<char>>,
    pub tags: Seq<Seq<char>>,
    pub project: Option<Seq<char>>,
    pub due: Option<Seq<char>>,
    pub priority: Option<Seq<char>>,
}

/// Reads the tokens in order: description words and tags accumulate, a later
/// `project:`, `due:` or `priority:` replaces an earlier one.
pub open spec fn capture_fold(toks: Seq<Seq<char>>) -> CaptureFold
    decreases toks.len(),
{
    if toks.len() == 0 {
        CaptureFold {
            words: Seq::empty(),
            tags: Seq::empty(),
            project: None,
            due: None,
            priority: None,
        }
    } else {
        let f = capture_fold(toks.drop_last());
        match classify_token(toks.last()) {
            CaptureToken::Project(v) => CaptureFold { project: Some(v), ..f },
            CaptureToken::Due(v) => CaptureFold { due: Some(v), ..f },
            CaptureToken::Priority(v) => CaptureFold { priority: Some(v), ..f },
            CaptureToken::Tag(v) => CaptureFold { tags: f.tags.push(v), ..f },
            CaptureToken::Text => CaptureFold { words: f.words.push(toks.last()), ..f },
        }
    }
}

/// A `priority:` token whose value is `H`, `M` or `L` in any letter case
/// sets the priority to that capital letter and leaves everything else the
/// token list has read (description words, tags, project, due date) as it
/// was.
pub proof fn lemma_priority_token_sets_priority(toks: Seq<Seq<char>>, v: Seq<char>)
    requires
        spec_ascii_upper_str(v) == "H"@ || spec_ascii_upper_str(v) == "M"@ || spec_ascii_upper_str(v)
            == "L"@,
    ensures
        ({
            let before = capture_fold(toks);
            let after = capture_fold(toks.push("priority:"@ + v));
            &&& after.priority == Some(spec_ascii_upper_str(v))
            &&& after.words == before.words
            &&& after.tags == before.tags
            &&& after.project == before.project
            &&& after.due == before.due
        }),
{
    reveal_strlit("priority:");
    reveal_strlit("project:");
    reveal_strlit("due:");
    reveal_strlit("H");
    reveal_strlit("M");
    reveal_strlit("L");
    let t = "priority:"@ + v;
    assert(spec_ascii_upper_str(v).len() == v.len());
    assert(v.len() == 1);
    assert(t.subrange(0, 8)[2] != "project:"@[2]);
    assert(spec_strip_prefix("project:"@, t) is None);
    assert(t.subrange(0, 4)[0] != "due:"@[0]);
    assert(spec_strip_prefix("due:"@, t) is None);
    assert(t.subrange(0, 9) =~= "priority:"@);
    assert(t.subrange(9, t.len() as int) =~= v);
    assert(spec_strip_prefix_nonempty("priority:"@, t) == Some(v));
    assert(classify_token(t) == CaptureToken::Priority(spec_ascii_upper_str(v)));
    let all = toks.push(t);
    assert(all.drop_last() =~= toks);
    assert(all.last() == t);
}

/// The quick-capture preview of an input.
pub open spec fn spec_parse_quick_capture(input: Seq<char>) -> PreviewModel {
    let f = capture_fold(spec_tokenize_escaped(input));
    PreviewModel {
        description: spec_join(f.words, " "@),
        tags: f.tags,
        project: f.project,
        due: f.due,
        priority: f.priority,
    }
}

/// Parses Taskwarrior-like quick-capture input: `+tag`, `project:value`,
/// `due:value`, `priority:value` (H/M/L, case-insensitive, other values stay
/// text) and `\ ` as a literal space; all other tokens form the description
/// in input order.
pub fn parse_quick_capture(input: &str) -> (p: QuickCapturePreview)
    ensures
        p@ == spec_parse_quick_capture(input@),
{
    let chars = chars_of(input);
    let toks = tokenize_escaped(&chars);
    let ghost ts = views(toks@);
    let mut words: Vec<Vec<char>> = Vec::new();
    let mut tags: Vec<String> = Vec::new();
    let mut project: Option<String> = None;
    let mut due: Option<String> = None;
    let mut priority: Option<String> = None;
    let mut i: usize = 0;
    while i < toks.len()
        invariant
            i <= toks.len(),
            ts == views(toks@),
            ({
                let f = capture_fold(ts.take(i as int));
                &&& views(words@) == f.words
                &&& tags.deep_view() == f.tags
                &&& project.deep_view() == f.project
                &&& due.deep_view() == f.due
                &&& priority.deep_view() == f.priority
            }),
        decreases toks.len() - i,
    {
        let tok = &toks[i];
        proof {
            assert(ts.take(i + 1).drop_last() =~= ts.take(i as int));
            assert(ts.take(i + 1).last() == tok@);
        }
        if let Some(v) = strip_prefix_nonempty("project:", tok) {
            project = Some(string_of(v.as_slice()));
            assert(classify_token(tok@) == CaptureToken::Project(v@));
        } else if let Some(v) = strip_prefix_nonempty("due:", tok) {
            due = Some(string_of(v.as_slice()));
        } else if let Some(v) = strip_prefix_nonempty("priority:", tok) {
            let up = ascii_upper_str(&v);
            if chars_eq_str(&up, "H") || chars_eq_str(&up, "M") || chars_eq_str(&up, "L") {
                priority = Some(string_of(up.as_slice()));
            } else {
                let ghost before = views(words@);
                words.push(copy_chars(tok));
                assert(views(words@) =~= before.push(tok@));
            }
        } else if tok.len() > 1 && tok[0] == '+' {
            let ghost before = tags.deep_view();
            let t = slice_from(tok, 1);
            tags.push(string_of(t.as_slice()));
            assert(tags.deep_view() =~= before.push(t@));
        } else {
            let ghost before = views(words@);
            words.push(copy_chars(tok));
            assert(views(words@) =~= before.push(tok@));
        }
        i = i + 1;
    }
    assert(ts.take(toks.len() as int) =~= ts);
    let space = chars_of(" ");
    let description = join(&words, &space);
    QuickCapturePreview {
        description: string_of(description.as_slice()),
        tags,
        project,
        due,
        priority,
    }
}

// ─── Due dates ──────────────────────────────────────────────────────────────

/// Period boundaries of the command line (`sow`, `eom`, …); weeks start on
/// Monday.
#[derive(Debug, Clone, Copy, PartialEq, Eq, Structural)]
pub enum Period {
    StartOfWeek,
    EndOfWeek,
    EndOfWorkWeek,
    StartOfMonth,
    EndOfMonth,
    StartOfQuarter,
    EndOfQuarter,
    StartOfYear,
    EndOfYear,
}

/// What a `due:` value asks for, before the calendar is consulted.
#[derive(Debug, Clone, Copy, PartialEq, Eq, Structural)]
pub enum DueIntent {
    /// Blank, or a malformed `+…` offset.
    Invalid,
    /// End of today (`today`, `heute`, `sod`, `eod`).
    Today,
    /// End of tomorrow (`tomorrow`, `morgen`).
    Tomorrow,
    /// End of yesterday (`yesterday`, `gestern`).
    Yesterday,
    /// The current instant (`now`, `jetzt`).
    Now,
    /// Taskwarrior's "some day" sentinel (`later`, `someday`).
    Later,
    Period(Period),
    /// End of the next such weekday after today (Monday `0` … Sunday `6`).
    NextWeekday(u32),
    /// End of the next day after today with this day of the month.
    NextOrdinal(u32),
    /// End of the day `n` days from today (`+Nd`).
    DaysAhead(i64),
    /// End of the day `n` weeks from today (`+Nw`).
    WeeksAhead(i64),
    /// Anything else: read as an ISO date (`yyyy-mm-dd`).
    IsoDate,
}

/// The period a word names.
pub open spec fn spec_period_word(w: Seq<char>) -> Option<Period> {
    if w == "sow"@ || w == "soww"@ || w == "socw"@ {
        Some(Period::StartOfWeek)
    } else if w == "eow"@ || w == "eocw"@ {
        Some(Period::EndOfWeek)
    } else if w == "eoww"@ {
        Some(Period::EndOfWorkWeek)
    } else if w == "som"@ {
        Some(Period::StartOfMonth)
    } else if w == "eom"@ {
        Some(Period::EndOfMonth)
    } else if w == "soq"@ {
        Some(Period::StartOfQuarter)
    } else if w == "eoq"@ {
        Some(Period::EndOfQuarter)
    } else if w == "soy"@ {
        Some(Period::StartOfYear)
    } else if w == "eoy"@ {
        Some(Period::EndOfYear)
    } else {
        None
    }
}

/// The weekday a word names (English, full or three letters).
pub open spec fn spec_weekday_word(w: Seq<char>) -> Option<u32> {
    if w == "monday"@ || w == "mon"@ {
        Some(0)
    } else if w == "tuesday"@ || w == "tue"@ {
        Some(1)
    } else if w == "wednesday"@ || w == "wed"@ {
        Some(2)
    } else if w == "thursday"@ || w == "thu"@ {
        Some(3)
    } else if w == "friday"@ || w == "fri"@ {
        Some(4)
    } else if w == "saturday"@ || w == "sat"@ {
        Some(5)
    } else if w == "sunday"@ || w == "sun"@ {
        Some(6)
    } else {
        None
    }
}

/// Length of the run of ASCII digits at the start of `w`, from `i` on.
pub open spec fn digit_run(w: Seq<char>, i: int) -> int
    decreases w.len() - i,
{
    if 0 <= i < w.len() && is_digit(w[i]) {
        digit_run(w, i + 1)
    } else {
        i
    }
}

/// The day of an ordinal such as `23rd`: leading digits, then `st`, `nd`,
/// `rd` or `th`, with a value from 1 to 31.
pub open spec fn spec_ordinal_word(w: Seq<char>) -> Option<u32> {
    let k = digit_run(w, 0);
    let suffix = w.subrange(k, w.len() as int);
    let day = digits_value(w.subrange(0, k));
    if k > 0 && (suffix == "st"@ || suffix == "nd"@ || suffix == "rd"@ || suffix == "th"@) && 1
        <= day <= 31 {
        Some(day as u32)
    } else {
        None
    }
}

/// What a `+…` offset asks for: `+Nd` or `+Nw` with a decimal `N`.
pub open spec fn spec_offset_word(rest: Seq<char>) -> DueIntent {
    if rest.len() >= 2 {
        let unit = rest.last();
        match spec_parse_i64(rest.drop_last()) {
            Some(n) => if unit == 'd' {
                DueIntent::DaysAhead(n)
            } else if unit == 'w' {
                DueIntent::WeeksAhead(n)
            } else {
                DueIntent::Invalid
            },
            None => DueIntent::Invalid,
        }
    } else {
        DueIntent::Invalid
    }
}

/// What a normalized (trimmed, lower-cased) `due:` value asks for.
pub open spec fn spec_due_intent_of(w: Seq<char>) -> DueIntent {
    if w.len() == 0 {
        DueIntent::Invalid
    } else if w == "today"@ || w == "heute"@ || w == "sod"@ {
        DueIntent::Today
    } else if w == "tomorrow"@ || w == "morgen"@ {
        DueIntent::Tomorrow
    } else if w == "yesterday"@ || w == "gestern"@ {
        DueIntent::Yesterday
    } else if w == "now"@ || w == "jetzt"@ {
        DueIntent::Now
    } else if w == "eod"@ {
        DueIntent::Today
    } else if w == "later"@ || w == "someday"@ {
        DueIntent::Later
    } else if spec_period_word(w) is Some {
        DueIntent::Period(spec_period_word(w)->0)
    } else if spec_weekday_word(w) is Some {
        DueIntent::NextWeekday(spec_weekday_word(w)->0)
    } else if spec_ordinal_word(w) is Some {
        DueIntent::NextOrdinal(spec_ordinal_word(w)->0)
    } else if w[0] == '+' {
        spec_offset_word(w.drop_first())
    } else {
        DueIntent::IsoDate
    }
}

/// What a `due:` value asks for: the value is trimmed and lower-cased.
pub open spec fn spec_due_intent(value: Seq<char>) -> DueIntent {
    spec_due_intent_of(spec_to_lowercase(spec_trim(value)))
}

/// Inputs that cannot be read as a due date at all and make the reading
/// panic: a `+` offset whose last character is not ASCII (slicing off the
/// unit by bytes falls inside that character), or an offset beyond what a
/// `TimeDelta` holds. Callers test [`due_panics`] first.
pub open spec fn spec_due_panics(value: Seq<char>) -> bool {
    let w = spec_to_lowercase(spec_trim(value));
    ||| (w.len() >= 2 && w[0] == '+' && w.last() as u32 >= 128)
    ||| (spec_due_intent(value) matches DueIntent::DaysAhead(n) && !days_in_range(n as int))
    ||| (spec_due_intent(value) matches DueIntent::WeeksAhead(n) && !days_in_range(7 * n))
}

fn days_ok(k: i64) -> (r: bool)
    ensures
        r == days_in_range(k as int),
{
    let bound: i128 = 9223372036854775i128;
    let s: i128 = (k as i128) * 86400;
    -bound <= s && s <= bound
}

fn weeks_ok(k: i64) -> (r: bool)
    ensures
        r == days_in_range(7 * k),
{
    let bound: i128 = 9223372036854775i128;
    let s: i128 = (k as i128) * 604800;
    -bound <= s && s <= bound
}

/// Whether [`parse_due_date`] must refuse `value` (see [`spec_due_panics`]);
/// callers test this before they call it.
pub fn due_panics(value: &str) -> (r: bool)
    ensures
        r == spec_due_panics(value@),
{
    let w = to_lowercase(trim(&chars_of(value)).as_slice());
    if w.len() >= 2 && w[0] == '+' && (w[w.len() - 1] as u32) >= 128 {
        return true;
    }
    match due_intent(value) {
        DueIntent::DaysAhead(n) => !days_ok(n),
        DueIntent::WeeksAhead(n) => !weeks_ok(n),
        _ => false,
    }
}

fn word_in(w: &Vec<char>, a: &str, b: &str, c: &str) -> (r: bool)
    ensures
        r == (w@ == a@ || w@ == b@ || w@ == c@),
{
    chars_eq_str(w, a) || chars_eq_str(w, b) || chars_eq_str(w, c)
}

fn period_word(w: &Vec<char>) -> (r: Option<Period>)
    ensures
        r == spec_period_word(w@),
{
    if word_in(w, "sow", "soww", "socw") {
        Some(Period::StartOfWeek)
    } else if word_in(w, "eow", "eocw", "eocw") {
        Some(Period::EndOfWeek)
    } else if chars_eq_str(w, "eoww") {
        Some(Period::EndOfWorkWeek)
    } else if chars_eq_str(w, "som") {
        Some(Period::StartOfMonth)
    } else if chars_eq_str(w, "eom") {
        Some(Period::EndOfMonth)
    } else if chars_eq_str(w, "soq") {
        Some(Period::StartOfQuarter)
    } else if chars_eq_str(w, "eoq") {
        Some(Period::EndOfQuarter)
    } else if chars_eq_str(w, "soy") {
        Some(Period::StartOfYear)
    } else if chars_eq_str(w, "eoy") {
        Some(Period::EndOfYear)
    } else {
        None
    }
}

fn weekday_word(w: &Vec<char>) -> (r: Option<u32>)
    ensures
        r == spec_weekday_word(w@),
{
    if word_in(w, "monday", "mon", "mon") {
        Some(0)
    } else if word_in(w, "tuesday", "tue", "tue") {
        Some(1)
    } else if word_in(w, "wednesday", "wed", "wed") {
        Some(2)
    } else if word_in(w, "thursday", "thu", "thu") {
        Some(3)
    } else if word_in(w, "friday", "fri", "fri") {
        Some(4)
    } else if word_in(w, "saturday", "sat", "sat") {
        Some(5)
    } else if word_in(w, "sunday", "sun", "sun") {
        Some(6)
    } else {
        None
    }
}

proof fn lemma_digit_run(w: Seq<char>, i: int)
    requires
        0 <= i <= w.len(),
    ensures
        i <= digit_run(w, i) <= w.len(),
        digit_run(w, i) < w.len() ==> !is_digit(w[digit_run(w, i)]),
        forall|k: int| i <= k < digit_run(w, i) ==> is_digit(#[trigger] w[k]),
    decreases w.len() - i,
{
    if i < w.len() && is_digit(w[i]) {
        lemma_digit_run(w, i + 1);
    }
}

fn ordinal_word(w: &Vec<char>) -> (r: Option<u32>)
    ensures
        r == spec_ordinal_word(w@),
{
    let n = w.len();
    let mut k: usize = 0;
    while k < n && '0' <= w[k] && w[k] <= '9'
        invariant
            k <= n == w.len(),
            digit_run(w@, 0) == digit_run(w@, k as int),
        decreases n - k,
    {
        k = k + 1;
    }
    proof {
        lemma_digit_run(w@, 0);
    }
    if k == 0 {
        return None;
    }
    let suffix = slice_from(w, k);
    if !(chars_eq_str(&suffix, "st") || chars_eq_str(&suffix, "nd") || chars_eq_str(&suffix, "rd")
        || chars_eq_str(&suffix, "th")) {
        return None;
    }
    let mut day: u64 = 0;
    let mut i: usize = 0;
    assert(w@.subrange(0, 0) =~= Seq::<char>::empty());
    while i < k
        invariant
            k <= n == w.len(),
            k == digit_run(w@, 0),
            forall|m: int| 0 <= m < k ==> is_digit(#[trigger] w@[m]),
            i <= k,
            day <= 32,
            day == digits_value(w@.subrange(0, i as int)) || (day == 32 && digits_value(
                w@.subrange(0, i as int),
            ) >= 32),
            digits_value(w@.subrange(0, i as int)) >= 0,
        decreases k - i,
    {
        let d = (w[i] as u32 - 48) as u64;
        assert(w@.subrange(0, i + 1).drop_last() =~= w@.subrange(0, i as int));
        if day < 32 {
            let next = day * 10 + d;
            day = if next > 32 {
                32
            } else {
                next
            };
        }
        i = i + 1;
    }
    if 1 <= day && day <= 31 {
        Some(day as u32)
    } else {
        None
    }
}

fn offset_word(rest: &Vec<char>) -> (r: DueIntent)
    ensures
        r == spec_offset_word(rest@),
{
    if rest.len() < 2 {
        return DueIntent::Invalid;
    }
    let unit = rest[rest.len() - 1];
    let num = slice_range(rest, 0, rest.len() - 1);
    assert(num@ =~= rest@.drop_last());
    let ns = string_of(num.as_slice());
    match parse_i64(ns.as_str()) {
        Some(n) => if unit == 'd' {
            DueIntent::DaysAhead(n)
        } else if unit == 'w' {
            DueIntent::WeeksAhead(n)
        } else {
            DueIntent::Invalid
        },
        None => DueIntent::Invalid,
    }
}

/// Reads what a `due:` value asks for (see [`spec_due_intent`]).
pub fn due_intent(value: &str) -> (r: DueIntent)
    ensures
        r == spec_due_intent(value@),
{
    let v = chars_of(value);
    let t = trim(&v);
    let w = to_lowercase(t.as_slice());
    if w.len() == 0 {
        return DueIntent::Invalid;
    }
    if word_in(&w, "today", "heute", "sod") {
        return DueIntent::Today;
    }
    if word_in(&w, "tomorrow", "morgen", "morgen") {
        return DueIntent::Tomorrow;
    }
    if word_in(&w, "yesterday", "gestern", "gestern") {
        return DueIntent::Yesterday;
    }
    if word_in(&w, "now", "jetzt", "jetzt") {
        return DueIntent::Now;
    }
    if chars_eq_str(&w, "eod") {
        return DueIntent::Today;
    }
    if word_in(&w, "later", "someday", "someday") {
        return DueIntent::Later;
    }
    if let Some(p) = period_word(&w) {
        return DueIntent::Period(p);
    }
    if let Some(d) = weekday_word(&w) {
        return DueIntent::NextWeekday(d);
    }
    if let Some(d) = ordinal_word(&w) {
        return DueIntent::NextOrdinal(d);
    }
    if w[0] == '+' {
        let rest = slice_from(&w, 1);
        assert(rest@ =~= w@.drop_first());
        return offset_word(&rest);
    }
    DueIntent::IsoDate
}

/// The calendar day a due value resolves to, before local time is applied.
#[derive(Debug, Clone, Copy, PartialEq, Eq)]
pub enum DueTarget {
    /// The last second (23:59:59 local) of this date.
    EndOf((i32, u32, u32)),
    /// Local midnight at the start of this date.
    StartOf((i32, u32, u32)),
    /// This instant.
    At(i64),
    /// No date.
    Nothing,
}

/// Whether date `a` comes after date `b` (year, then month, then day).
pub open spec fn date_after(a: (i32, u32, u32), b: (i32, u32, u32)) -> bool {
    a.0 > b.0 || (a.0 == b.0 && (a.1 > b.1 || (a.1 == b.1 && a.2 > b.2)))
}

/// Whether a date is one chrono accepts.
pub open spec fn valid_date(d: (i32, u32, u32)) -> bool {
    spec_date_valid(d.0, d.1, d.2)
}

/// A date `k` days away, if chrono can represent it.
pub open spec fn add_days(d: (i32, u32, u32), k: i64) -> Option<(i32, u32, u32)> {
    spec_date_add_days(d.0, d.1, d.2, k)
}

/// The first of `fuel` consecutive days from `d` on that falls on `target`.
pub open spec fn next_weekday_from(d: (i32, u32, u32), target: u32, fuel: nat) -> Option<
    (i32, u32, u32),
>
    decreases fuel,
{
    if fuel == 0 {
        None
    } else if spec_date_weekday(d.0, d.1, d.2) == target {
        Some(d)
    } else {
        match spec_date_succ(d.0, d.1, d.2) {
            Some(e) => next_weekday_from(e, target, (fuel - 1) as nat),
            None => None,
        }
    }
}

/// The first date with day-of-month `day` after `today`, trying month
/// `(year, month)` and the `fuel - 1` months after it.
pub open spec fn ordinal_from(
    today: (i32, u32, u32),
    year: int,
    month: int,
    day: u32,
    fuel: nat,
) -> Option<(i32, u32, u32)>
    decreases fuel,
{
    if fuel == 0 {
        None
    } else {
        let cand = (year as i32, month as u32, day);
        if valid_date(cand) && date_after(cand, today) {
            Some(cand)
        } else if month == 12 {
            ordinal_from(today, year + 1, 1, day, (fuel - 1) as nat)
        } else {
            ordinal_from(today, year, month + 1, day, (fuel - 1) as nat)
        }
    }
}

/// The first day of the month after `today`'s.
pub open spec fn next_month_first(today: (i32, u32, u32)) -> (i32, u32, u32) {
    if today.1 == 12 {
        ((today.0 + 1) as i32, 1, 1)
    } else {
        (today.0, (today.1 + 1) as u32, 1)
    }
}

/// The first day of the quarter after `today`'s.
pub open spec fn next_quarter_first(today: (i32, u32, u32)) -> (i32, u32, u32) {
    let q_month = ((today.1 - 1) / 3) * 3 + 1;
    if q_month + 3 > 12 {
        ((today.0 + 1) as i32, 1, 1)
    } else {
        (today.0, (q_month + 3) as u32, 1)
    }
}

/// An end-of-day target for an optional date.
pub open spec fn end_of(d: Option<(i32, u32, u32)>) -> DueTarget {
    match d {
        Some(x) => DueTarget::EndOf(x),
        None => DueTarget::Nothing,
    }
}

/// The day before a valid date, as an end-of-day target.
pub open spec fn end_of_pred(d: (i32, u32, u32)) -> DueTarget {
    if valid_date(d) {
        end_of(spec_date_pred(d.0, d.1, d.2))
    } else {
        DueTarget::Nothing
    }
}

/// The target of a period word relative to `today`.
pub open spec fn spec_period_target(p: Period, today: (i32, u32, u32)) -> DueTarget {
    let monday = add_days(today, (-(spec_date_weekday(today.0, today.1, today.2) as int)) as i64);
    match p {
        Period::StartOfWeek => match monday {
            Some(mo) => match add_days(mo, 7) {
                Some(d) => DueTarget::StartOf(d),
                None => DueTarget::Nothing,
            },
            None => DueTarget::Nothing,
        },
        Period::EndOfWeek => match monday {
            Some(mo) => end_of(add_days(mo, 6)),
            None => DueTarget::Nothing,
        },
        Period::EndOfWorkWeek => match monday {
            Some(mo) => end_of(add_days(mo, 4)),
            None => DueTarget::Nothing,
        },
        Period::StartOfMonth => if valid_date(next_month_first(today)) {
            DueTarget::StartOf(next_month_first(today))
        } else {
            DueTarget::Nothing
        },
        Period::EndOfMonth => end_of_pred(next_month_first(today)),
        Period::StartOfQuarter => if valid_date(next_quarter_first(today)) {
            DueTarget::StartOf(next_quarter_first(today))
        } else {
            DueTarget::Nothing
        },
        Period::EndOfQuarter => end_of_pred(next_quarter_first(today)),
        Period::StartOfYear => if valid_date(((today.0 + 1) as i32, 1, 1)) {
            DueTarget::StartOf(((today.0 + 1) as i32, 1, 1))
        } else {
            DueTarget::Nothing
        },
        Period::EndOfYear => if valid_date((today.0, 12, 31)) {
            DueTarget::EndOf((today.0, 12, 31))
        } else {
            DueTarget::Nothing
        },
    }
}

/// The day before a valid date is followed by that date again.
proof fn lemma_succ_of_pred(d: (i32, u32, u32))
    requires
        valid_date(d),
    ensures
        spec_date_pred(d.0, d.1, d.2) matches Some(e) ==> spec_date_succ(e.0, e.1, e.2) == Some(d),
{
}

/// `yesterday` and `gestern` (in any letter case, with any surrounding
/// blanks) ask for the end of the day before today, for every date today
/// that has a day before it.
pub proof fn lemma_yesterday_is_the_day_before(
    value: Seq<char>,
    today: (i32, u32, u32),
    now: i64,
    iso: Option<(i32, u32, u32)>,
)
    requires
        spec_to_lowercase(spec_trim(value)) == "yesterday"@ || spec_to_lowercase(spec_trim(value))
            == "gestern"@,
        valid_date(today),
        spec_date_pred(today.0, today.1, today.2) is Some,
    ensures
        spec_due_intent(value) == DueIntent::Yesterday,
        spec_due_target(spec_due_intent(value), today, now, iso) is EndOf,
        spec_due_target(spec_due_intent(value), today, now, iso) matches DueTarget::EndOf(d)
            ==> spec_date_succ(d.0, d.1, d.2) == Some(today),
{
    reveal_strlit("yesterday");
    reveal_strlit("gestern");
    reveal_strlit("today");
    reveal_strlit("heute");
    reveal_strlit("sod");
    reveal_strlit("tomorrow");
    reveal_strlit("morgen");
    let w = spec_to_lowercase(spec_trim(value));
    assert(w.len() == 9 || w.len() == 7);
    assert(spec_due_intent_of(w) == DueIntent::Yesterday);
    lemma_succ_of_pred(today);
}

/// A period's start comes the day after the end of the one before: the
/// first day of the next month, quarter or year follows the last day of this
/// one, wherever both exist.
pub proof fn lemma_period_start_follows_end(today: (i32, u32, u32))
    requires
        valid_date(today),
    ensures
        spec_period_target(Period::StartOfMonth, today) matches DueTarget::StartOf(s) ==> (
        spec_period_target(Period::EndOfMonth, today) matches DueTarget::EndOf(e) ==> spec_date_succ(
            e.0,
            e.1,
            e.2,
        ) == Some(s)),
        spec_period_target(Period::StartOfQuarter, today) matches DueTarget::StartOf(s) ==> (
        spec_period_target(Period::EndOfQuarter, today) matches DueTarget::EndOf(e) ==> spec_date_succ(
            e.0,
            e.1,
            e.2,
        ) == Some(s)),
        spec_period_target(Period::StartOfYear, today) matches DueTarget::StartOf(s) ==> (
        spec_period_target(Period::EndOfYear, today) matches DueTarget::EndOf(e) ==> spec_date_succ(
            e.0,
            e.1,
            e.2,
        ) == Some(s)),
{
    let m = next_month_first(today);
    assert(spec_period_target(Period::StartOfMonth, today) == (if valid_date(m) {
        DueTarget::StartOf(m)
    } else {
        DueTarget::Nothing
    }));
    assert(spec_period_target(Period::EndOfMonth, today) == end_of_pred(m));
    if valid_date(m) {
        lemma_succ_of_pred(m);
    }
    let q = next_quarter_first(today);
    assert(spec_period_target(Period::StartOfQuarter, today) == (if valid_date(q) {
        DueTarget::StartOf(q)
    } else {
        DueTarget::Nothing
    }));
    assert(spec_period_target(Period::EndOfQuarter, today) == end_of_pred(q));
    if valid_date(q) {
        lemma_succ_of_pred(q);
    }
}

/// The day (or instant) a due intent resolves to, given today's local date,
/// the current instant and what the ISO-date reading of the value gave.
pub open spec fn spec_due_target(
    intent: DueIntent,
    today: (i32, u32, u32),
    now: i64,
    iso: Option<(i32, u32, u32)>,
) -> DueTarget {
    match intent {
        DueIntent::Invalid => DueTarget::Nothing,
        DueIntent::Today => DueTarget::EndOf(today),
        DueIntent::Tomorrow => end_of(spec_date_succ(today.0, today.1, today.2)),
        DueIntent::Yesterday => end_of(spec_date_pred(today.0, today.1, today.2)),
        DueIntent::Now => DueTarget::At(now),
        DueIntent::Later => DueTarget::At(253_402_124_400),
        DueIntent::Period(p) => spec_period_target(p, today),
        DueIntent::NextWeekday(w) => match spec_date_succ(today.0, today.1, today.2) {
            Some(d) => end_of(next_weekday_from(d, w, 7)),
            None => DueTarget::Nothing,
        },
        DueIntent::NextOrdinal(day) => end_of(ordinal_from(today, today.0 as int, today.1 as int, day, 24)),
        DueIntent::DaysAhead(n) => end_of(add_days(today, n)),
        DueIntent::WeeksAhead(n) => end_of(add_days(today, (7 * n) as i64)),
        DueIntent::IsoDate => end_of(iso),
    }
}

fn opt_end(d: Option<(i32, u32, u32)>) -> (r: DueTarget)
    ensures
        r == end_of(d),
        r matches DueTarget::EndOf(x) ==> d == Some(x),
        !(r is StartOf),
{
    match d {
        Some(x) => DueTarget::EndOf(x),
        None => DueTarget::Nothing,
    }
}

fn add_days_exec(d: (i32, u32, u32), k: i64) -> (r: Option<(i32, u32, u32)>)
    requires
        valid_date(d),
        days_in_range(k as int),
    ensures
        r == add_days(d, k),
        r matches Some(v) ==> valid_date(v),
{
    date_add_days(d.0, d.1, d.2, k)
}

fn period_target(p: Period, today: (i32, u32, u32)) -> (r: DueTarget)
    requires
        valid_date(today),
        -262_144 <= today.0 <= 262_143,
        1 <= today.1 <= 12,
    ensures
        r == spec_period_target(p, today),
        r matches DueTarget::EndOf(d) ==> valid_date(d),
        r matches DueTarget::StartOf(d) ==> valid_date(d),
{
    let wd = date_weekday(today.0, today.1, today.2);
    let monday = add_days_exec(today, -(wd as i64));
    let next_month: (i32, u32, u32) = if today.1 == 12 {
        (today.0 + 1, 1, 1)
    } else {
        (today.0, today.1 + 1, 1)
    };
    let q_month = ((today.1 - 1) / 3) * 3 + 1;
    let next_quarter: (i32, u32, u32) = if q_month + 3 > 12 {
        (today.0 + 1, 1, 1)
    } else {
        (today.0, q_month + 3, 1)
    };
    match p {
        Period::StartOfWeek => match monday {
            Some(mo) => match add_days_exec(mo, 7) {
                Some(d) => DueTarget::StartOf(d),
                None => DueTarget::Nothing,
            },
            None => DueTarget::Nothing,
        },
        Period::EndOfWeek => match monday {
            Some(mo) => opt_end(add_days_exec(mo, 6)),
            None => DueTarget::Nothing,
        },
        Period::EndOfWorkWeek => match monday {
            Some(mo) => opt_end(add_days_exec(mo, 4)),
            None => DueTarget::Nothing,
        },
        Period::StartOfMonth => if date_valid(next_month.0, next_month.1, next_month.2) {
            DueTarget::StartOf(next_month)
        } else {
            DueTarget::Nothing
        },
        Period::EndOfMonth => if date_valid(next_month.0, next_month.1, next_month.2) {
            opt_end(date_pred(next_month.0, next_month.1, next_month.2))
        } else {
            DueTarget::Nothing
        },
        Period::StartOfQuarter => if date_valid(next_quarter.0, next_quarter.1, next_quarter.2) {
            DueTarget::StartOf(next_quarter)
        } else {
            DueTarget::Nothing
        },
        Period::EndOfQuarter => if date_valid(next_quarter.0, next_quarter.1, next_quarter.2) {
            opt_end(date_pred(next_quarter.0, next_quarter.1, next_quarter.2))
        } else {
            DueTarget::Nothing
        },
        Period::StartOfYear => if date_valid(today.0 + 1, 1, 1) {
            DueTarget::StartOf((today.0 + 1, 1, 1))
        } else {
            DueTarget::Nothing
        },
        Period::EndOfYear => if date_valid(today.0, 12, 31) {
            DueTarget::EndOf((today.0, 12, 31))
        } else {
            DueTarget::Nothing
        },
    }
}

fn next_weekday(start: (i32, u32, u32), target: u32) -> (r: Option<(i32, u32, u32)>)
    requires
        valid_date(start),
    ensures
        r == next_weekday_from(start, target, 7),
        r matches Some(v) ==> valid_date(v),
{
    let mut d = start;
    let mut fuel: u32 = 7;
    while fuel > 0
        invariant
            valid_date(d),
            fuel <= 7,
            next_weekday_from(start, target, 7) == next_weekday_from(d, target, fuel as nat),
        decreases fuel,
    {
        if date_weekday(d.0, d.1, d.2) == target {
            return Some(d);
        }
        match date_succ(d.0, d.1, d.2) {
            Some(e) => {
                d = e;
            },
            None => {
                return None;
            },
        }
        fuel = fuel - 1;
    }
    None
}

fn next_ordinal(today: (i32, u32, u32), day: u32) -> (r: Option<(i32, u32, u32)>)
    requires
        -262_144 <= today.0 <= 262_143,
        1 <= today.1 <= 12,
    ensures
        r == ordinal_from(today, today.0 as int, today.1 as int, day, 24),
        r matches Some(v) ==> valid_date(v),
{
    let mut year: i32 = today.0;
    let mut month: u32 = today.1;
    let mut fuel: u32 = 24;
    while fuel > 0
        invariant
            fuel <= 24,
            1 <= month <= 12,
            today.0 <= year <= today.0 + (24 - fuel),
            -262_144 <= today.0 <= 262_143,
            ordinal_from(today, today.0 as int, today.1 as int, day, 24) == ordinal_from(
                today,
                year as int,
                month as int,
                day,
                fuel as nat,
            ),
        decreases fuel,
    {
        let cand = (year, month, day);
        let after = year > today.0 || (year == today.0 && (month > today.1 || (month == today.1
            && day > today.2)));
        if date_valid(year, month, day) && after {
            return Some(cand);
        }
        if month == 12 {
            year = year + 1;
            month = 1;
        } else {
            month = month + 1;
        }
        fuel = fuel - 1;
    }
    None
}

/// Resolves a due intent to a calendar target (see [`spec_due_target`]).
pub fn due_target(
    intent: DueIntent,
    today: (i32, u32, u32),
    now: i64,
    iso: Option<(i32, u32, u32)>,
) -> (r: DueTarget)
    requires
        valid_date(today),
        -262_144 <= today.0 <= 262_143,
        1 <= today.1 <= 12,
        intent matches DueIntent::DaysAhead(n) ==> days_in_range(n as int),
        intent matches DueIntent::WeeksAhead(n) ==> days_in_range(7 * n),
        iso matches Some(d) ==> valid_date(d),
    ensures
        r == spec_due_target(intent, today, now, iso),
        r matches DueTarget::EndOf(d) ==> valid_date(d),
        r matches DueTarget::StartOf(d) ==> valid_date(d),
{
    match intent {
        DueIntent::Invalid => DueTarget::Nothing,
        DueIntent::Today => DueTarget::EndOf(today),
        DueIntent::Tomorrow => opt_end(date_succ(today.0, today.1, today.2)),
        DueIntent::Yesterday => opt_end(date_pred(today.0, today.1, today.2)),
        DueIntent::Now => DueTarget::At(now),
        DueIntent::Later => DueTarget::At(253_402_124_400),
        DueIntent::Period(p) => period_target(p, today),
        DueIntent::NextWeekday(w) => match date_succ(today.0, today.1, today.2) {
            Some(d) => opt_end(next_weekday(d, w)),
            None => DueTarget::Nothing,
        },
        DueIntent::NextOrdinal(day) => opt_end(next_ordinal(today, day)),
        DueIntent::DaysAhead(n) => opt_end(add_days_exec(today, n)),
        DueIntent::WeeksAhead(n) => opt_end(add_days_exec(today, 7 * n)),
        DueIntent::IsoDate => opt_end(iso),
    }
}

/// Whether `v` is an instant a due target can resolve to: the last second of
/// its day, its day's first second, or the instant itself, each read in some
/// time zone (see [`is_local_midnight`]).
pub open spec fn target_instant(t: DueTarget, v: int) -> bool {
    match t {
        DueTarget::EndOf(d) => is_local_midnight(v + 1, day_of(d) + 1),
        DueTarget::StartOf(d) => is_local_midnight(v, day_of(d)),
        DueTarget::At(x) => v == x,
        DueTarget::Nothing => false,
    }
}

/// Reads a `due:` value as Unix seconds.
///
/// Accepted (case-insensitive): `today`/`heute`/`sod`/`eod`,
/// `tomorrow`/`morgen`, `yesterday`/`gestern`, `now`/`jetzt`,
/// `later`/`someday` (9999-12-30), the period words `sow`, `eow`, `eoww`,
/// `som`, `eom`, `soq`, `eoq`, `soy`, `eoy`, weekday names, ordinals such as
/// `23rd`, `+Nd`, `+Nw` and ISO dates. Days resolve to their last second in
/// local time, so that "due today" does not turn overdue right after
/// midnight; period starts resolve to local midnight. Local time depends on
/// the machine's time zone, so the calendar days come from
/// [`due_target`] and only what holds in every zone is stated here: the day
/// is [`due_target`]'s for a local date of `now`, and the instant is that
/// day's last second (or, for a period start, its first) read with an
/// offset of less than a day.
pub fn parse_due_date(value: &str, now: i64) -> (r: Option<i64>)
    requires
        !spec_due_panics(value@),
    ensures
        spec_due_intent(value@) is Invalid ==> r is None,
        spec_due_intent(value@) is Now ==> r == (if spec_utc_representable(now) {
            Some(now)
        } else {
            None::<i64>
        }),
        spec_due_intent(value@) is Later ==> r == (if spec_utc_representable(now) {
            Some(253_402_124_400i64)
        } else {
            None::<i64>
        }),
        !(spec_due_intent(value@) is Invalid) && !spec_utc_representable(now) ==> r is None,
        -8_000_000_000_000 <= now <= 8_000_000_000_000 ==> (spec_due_intent(value@) is Now ==> r
            == Some(now)) && (spec_due_intent(value@) is Later ==> r == Some(253_402_124_400i64)),
        !(spec_due_intent(value@) is Now) && !(spec_due_intent(value@) is Later) ==> (r matches Some(
            v,
        ) ==> exists|today: (i32, u32, u32)|
            valid_date(today) && is_local_date_at(now as int, today) && #[trigger] target_instant(
                spec_due_target(
                    spec_due_intent(value@),
                    today,
                    now,
                    spec_parse_iso_date(spec_trim(value@)),
                ),
                v as int,
            )),
{
    let intent = due_intent(value);
    if let DueIntent::Invalid = intent {
        return None;
    }
    if !utc_representable(now) {
        return None;
    }
    if let DueIntent::Now = intent {
        return Some(now);
    }
    if let DueIntent::Later = intent {
        return Some(253_402_124_400);
    }
    let today = match local_date(now) {
        Some(d) => d,
        None => return None,
    };
    let v = chars_of(value);
    let t = trim(&v);
    let ts = string_of(t.as_slice());
    let iso = match intent {
        DueIntent::IsoDate => parse_iso_date(ts.as_str()),
        _ => None,
    };
    proof {
        if !(intent is IsoDate) {
            assert(spec_due_target(intent, today, now, iso) == spec_due_target(
                intent,
                today,
                now,
                spec_parse_iso_date(spec_trim(value@)),
            ));
        }
    }
    let target = due_target(intent, today, now, iso);
    let r = match target {
        DueTarget::EndOf(d) => end_of_day(d.0, d.1, d.2),
        DueTarget::StartOf(d) => {
            assert(valid_date(d));
            start_of_day(d.0, d.1, d.2)
        },
        DueTarget::At(x) => Some(x),
        DueTarget::Nothing => None,
    };
    proof {
        if let Some(v) = r {
            assert(target_instant(target, v as int));
        }
    }
    r
}

// ─── Recurrence ─────────────────────────────────────────────────────────────

/// The unit a recurrence suffix names: days, weeks, months, quarters, years.
pub open spec fn spec_recur_unit(suffix: Seq<char>) -> Option<char> {
    if suffix == "d"@ || suffix == "day"@ || suffix == "days"@ {
        Some('d')
    } else if suffix == "w"@ || suffix == "wk"@ || suffix == "wks"@ || suffix == "week"@ || suffix
        == "weeks"@ {
        Some('w')
    } else if suffix == "m"@ || suffix == "mo"@ || suffix == "mos"@ || suffix == "month"@ || suffix
        == "months"@ {
        Some('m')
    } else if suffix == "q"@ || suffix == "qtr"@ || suffix == "qtrs"@ || suffix == "quarter"@
        || suffix == "quarters"@ {
        Some('q')
    } else if suffix == "y"@ || suffix == "yr"@ || suffix == "yrs"@ || suffix == "year"@ || suffix
        == "years"@ {
        Some('y')
    } else {
        None
    }
}

/// A `N<unit>` recurrence: a positive count of at most `u32::MAX` and a unit.
pub open spec fn spec_counted_recur(t: Seq<char>) -> Option<(u32, char)> {
    let k = digit_run(t, 0);
    let n = digits_value(t.subrange(0, k));
    if k == t.len() || k == 0 || n > u32::MAX || n == 0 {
        None
    } else {
        match spec_recur_unit(t.subrange(k, t.len() as int)) {
            Some(u) => Some((n as u32, u)),
            None => None,
        }
    }
}

/// What a normalized (trimmed, lower-cased) recurrence reads as: a count and
/// a unit (`d`, `w`, `m`, `q` quarter, `y`, `b` next workday).
pub open spec fn spec_recur_of(t: Seq<char>) -> Option<(u32, char)> {
    if t.len() == 0 {
        None
    } else if t == "daily"@ || t == "day"@ {
        Some((1u32, 'd'))
    } else if t == "weekdays"@ {
        Some((1u32, 'b'))
    } else if t == "weekly"@ {
        Some((1u32, 'w'))
    } else if t == "biweekly"@ || t == "fortnight"@ {
        Some((2u32, 'w'))
    } else if t == "monthly"@ || t == "month"@ {
        Some((1u32, 'm'))
    } else if t == "quarterly"@ {
        Some((1u32, 'q'))
    } else if t == "semiannual"@ {
        Some((6u32, 'm'))
    } else if t == "annual"@ || t == "yearly"@ {
        Some((1u32, 'y'))
    } else if t == "biannual"@ || t == "biyearly"@ {
        Some((2u32, 'y'))
    } else {
        spec_counted_recur(t)
    }
}

/// What a recurrence property reads as; it is trimmed and lower-cased first.
pub open spec fn spec_parse_recur(recur: Seq<char>) -> Option<(u32, char)> {
    spec_recur_of(spec_to_lowercase(spec_trim(recur)))
}

/// Every recurrence that reads has a count of at least one.
proof fn lemma_recur_count_positive(recur: Seq<char>)
    ensures
        spec_parse_recur(recur) matches Some((n, u)) ==> n >= 1,
{
    let t = spec_to_lowercase(spec_trim(recur));
    let k = digit_run(t, 0);
    let v = digits_value(t.subrange(0, k));
    lemma_digit_run(t, 0);
    let pre = t.subrange(0, k);
    assert forall|i: int| 0 <= i < pre.len() implies is_digit(#[trigger] pre[i]) by {
        assert(pre[i] == t[i]);
    }
    lemma_digits_value_nonneg(pre);
    if !(k == t.len() || k == 0 || v > u32::MAX || v == 0) {
        assert(1 <= v <= u32::MAX);
        assert((v as u32) as int == v);
    }
}

/// A run of decimal digits has a value of at least zero.
proof fn lemma_digits_value_nonneg(s: Seq<char>)
    requires
        forall|i: int| 0 <= i < s.len() ==> is_digit(#[trigger] s[i]),
    ensures
        digits_value(s) >= 0,
    decreases s.len(),
{
    if s.len() > 0 {
        lemma_digits_value_nonneg(s.drop_last());
    }
}

/// `n as i32`: the count with two's-complement wrap-around.
pub open spec fn wrap_i32(n: u32) -> int {
    if n <= i32::MAX {
        n as int
    } else {
        n - 0x1_0000_0000
    }
}

/// Counts that overflow the date arithmetic and make it panic: a quarter
/// count whose month count exceeds `u32`, or a year offset that can leave
/// `i32` for some local year (chrono's local years, read without panicking,
/// lie within -262 144 ..= 262 143). Callers test [`recur_panics`] first.
pub open spec fn spec_recur_panics(recur: Seq<char>) -> bool {
    ||| (spec_parse_recur(recur) matches Some((n, u)) && u == 'q' && 3 * n > u32::MAX)
    ||| (spec_parse_recur(recur) matches Some((n, u)) && u == 'y' && !(-2_147_221_504 <= wrap_i32(n) <= 2_147_221_504))
}

/// Whether [`next_due_after`] must refuse `recur` (see
/// [`spec_recur_panics`]); callers test this before they call it.
pub fn recur_panics(recur: &str) -> (r: bool)
    ensures
        r == spec_recur_panics(recur@),
{
    match parse_recur(recur) {
        Some((n, u)) => if u == 'q' {
            (n as u64) * 3 > 4294967295u64
        } else if u == 'y' {
            let w = wrap_to_i32(n);
            !(-2_147_221_504 <= w && w <= 2_147_221_504)
        } else {
            false
        },
        None => false,
    }
}

fn recur_unit(suffix: &Vec<char>) -> (r: Option<char>)
    ensures
        r == spec_recur_unit(suffix@),
{
    if word_in(suffix, "d", "day", "days") {
        Some('d')
    } else if word_in(suffix, "w", "wk", "wks") || word_in(suffix, "week", "weeks", "weeks") {
        Some('w')
    } else if word_in(suffix, "m", "mo", "mos") || word_in(suffix, "month", "months", "months") {
        Some('m')
    } else if word_in(suffix, "q", "qtr", "qtrs") || word_in(suffix, "quarter", "quarters", "quarters") {
        Some('q')
    } else if word_in(suffix, "y", "yr", "yrs") || word_in(suffix, "year", "years", "years") {
        Some('y')
    } else {
        None
    }
}

fn counted_recur(t: &Vec<char>) -> (r: Option<(u32, char)>)
    ensures
        r == spec_counted_recur(t@),
{
    let n = t.len();
    let mut k: usize = 0;
    while k < n && '0' <= t[k] && t[k] <= '9'
        invariant
            k <= n == t.len(),
            digit_run(t@, 0) == digit_run(t@, k as int),
        decreases n - k,
    {
        k = k + 1;
    }
    proof {
        lemma_digit_run(t@, 0);
    }
    if k == n || k == 0 {
        return None;
    }
    let limit: u64 = 4294967296;
    let mut value: u64 = 0;
    let mut i: usize = 0;
    assert(t@.subrange(0, 0) =~= Seq::<char>::empty());
    while i < k
        invariant
            k <= n == t.len(),
            k == digit_run(t@, 0),
            forall|m: int| 0 <= m < k ==> is_digit(#[trigger] t@[m]),
            i <= k,
            limit == 4294967296,
            value <= limit,
            value == digits_value(t@.subrange(0, i as int)) || (value == limit && digits_value(
                t@.subrange(0, i as int),
            ) >= limit),
            digits_value(t@.subrange(0, i as int)) >= 0,
        decreases k - i,
    {
        let d = (t[i] as u32 - 48) as u64;
        assert(t@.subrange(0, i + 1).drop_last() =~= t@.subrange(0, i as int));
        if value < limit {
            let next = value * 10 + d;
            value = if next > limit {
                limit
            } else {
                next
            };
        }
        i = i + 1;
    }
    if value >= limit || value == 0 {
        return None;
    }
    let suffix = slice_from(t, k);
    match recur_unit(&suffix) {
        Some(u) => Some((value as u32, u)),
        None => None,
    }
}

/// Reads a recurrence property (see [`spec_parse_recur`]): `daily`,
/// `weekdays`, `weekly`, `biweekly`/`fortnight`, `monthly`, `quarterly`,
/// `semiannual`, `annual`/`yearly`, `biannual`, and `N` followed by a unit
/// such as `3d`, `2wks`, `6mo`, `1qtr`, `2yrs`.
pub fn parse_recur(recur: &str) -> (r: Option<(u32, char)>)
    ensures
        r == spec_parse_recur(recur@),
{
    let v = chars_of(recur);
    let tr = trim(&v);
    let t = to_lowercase(tr.as_slice());
    if t.len() == 0 {
        None
    } else if word_in(&t, "daily", "day", "day") {
        Some((1, 'd'))
    } else if chars_eq_str(&t, "weekdays") {
        Some((1, 'b'))
    } else if chars_eq_str(&t, "weekly") {
        Some((1, 'w'))
    } else if word_in(&t, "biweekly", "fortnight", "fortnight") {
        Some((2, 'w'))
    } else if word_in(&t, "monthly", "month", "month") {
        Some((1, 'm'))
    } else if chars_eq_str(&t, "quarterly") {
        Some((1, 'q'))
    } else if chars_eq_str(&t, "semiannual") {
        Some((6, 'm'))
    } else if word_in(&t, "annual", "yearly", "yearly") {
        Some((1, 'y'))
    } else if word_in(&t, "biannual", "biyearly", "biyearly") {
        Some((2, 'y'))
    } else {
        counted_recur(&t)
    }
}

fn wrap_to_i32(n: u32) -> (r: i32)
    ensures
        r == wrap_i32(n),
{
    if n <= 2147483647 {
        n as i32
    } else {
        let below = (4294967295 - n) as i32;
        -below - 1
    }
}

/// The 1st, 4th and 7th day after `due` are never all on a weekend,
/// whatever UTC offset each is read with (offsets of less than a day move a
/// day by at most one either way): where the first two are, the third is a
/// workday.
proof fn lemma_no_three_weekends(due: int, o1: int, o4: int, o7: int)
    requires
        utc_offset(o1),
        utc_offset(o4),
        utc_offset(o7),
        weekday_at(due + 86400 + o1) >= 5,
        weekday_at(due + 4 * 86400 + o4) >= 5,
    ensures
        weekday_at(due + 7 * 86400 + o7) < 5,
{
    let x1 = due + 86400 + o1;
    let x4 = due + 4 * 86400 + o4;
    let x7 = due + 7 * 86400 + o7;
    let d1 = x1 / 86400;
    let d4 = x4 / 86400;
    let d7 = x7 / 86400;
    vstd::arithmetic::div_mod::lemma_fundamental_div_mod(x1, 86400);
    vstd::arithmetic::div_mod::lemma_fundamental_div_mod(x4, 86400);
    vstd::arithmetic::div_mod::lemma_fundamental_div_mod(x7, 86400);
    assert(1 <= d4 - d1 <= 5);
    assert(1 <= d7 - d4 <= 5);
    assert(d7 - d1 >= 4);
    let m1 = (d1 + 3) % 7;
    let m4 = (d4 + 3) % 7;
    let m7 = (d7 + 3) % 7;
    vstd::arithmetic::div_mod::lemma_fundamental_div_mod(d1 + 3, 7);
    vstd::arithmetic::div_mod::lemma_fundamental_div_mod(d4 + 3, 7);
    vstd::arithmetic::div_mod::lemma_fundamental_div_mod(d7 + 3, 7);
    let q1 = (d1 + 3) / 7;
    let q4 = (d4 + 3) / 7;
    let q7 = (d7 + 3) / 7;
    assert(7 * (q4 - q1) + (m4 - m1) == d4 - d1);
    assert(d4 - d1 == 1) by {
        if q4 - q1 >= 2 {
            assert(7 * (q4 - q1) >= 14);
        }
    }
    if m7 >= 5 {
        assert(7 * (q7 - q4) + (m7 - m4) == d7 - d4);
        assert(d7 - d4 == 1) by {
            if q7 - q4 >= 2 {
                assert(7 * (q7 - q4) >= 14);
            }
        }
    }
}

/// The next workday (Monday to Friday) after `due` in local time, looked for
/// among the next seven days: `due` plus one to seven whole days. Which local
/// day is a workday depends on the machine's time zone; but as a zone's
/// offset is less than a day, seven days in a row always hold one, so within
/// chrono's range there is always an answer.
fn next_workday(due: i64) -> (r: Option<i64>)
    ensures
        r matches Some(v) ==> (v - due) % 86400 == 0 && 86400 <= v - due <= 7 * 86400,
        -8_000_000_000_000 <= due && due + 7 * 86400 <= 8_000_000_000_000 ==> r is Some,
{
    let ghost in_range: bool = -8_000_000_000_000 <= due && due + 7 * 86400 <= 8_000_000_000_000;
    let mut next = match local_add_days(due, 1) {
        Some(t) => t,
        None => return None,
    };
    let ghost mut offs: Seq<int> = Seq::empty();
    let mut fuel: u32 = 7;
    while fuel > 0
        invariant
            fuel <= 7,
            next == due + 86400 * (8 - fuel),
            in_range == (-8_000_000_000_000 <= due && due + 7 * 86400 <= 8_000_000_000_000),
            in_range ==> offs.len() == 7 - fuel && fuel >= 1,
            in_range ==> forall|j: int|
                0 <= j < offs.len() ==> utc_offset(#[trigger] offs[j]) && weekday_at(
                    due + 86400 * (j + 1) + offs[j],
                ) >= 5,
        decreases fuel,
    {
        let wd = match local_weekday(next) {
            Some(w) => w,
            None => return None,
        };
        if wd < 5 {
            return Some(next);
        }
        proof {
            if in_range {
                let o = choose|o: int| #[trigger] utc_offset(o) && wd as int == weekday_at(next + o);
                offs = offs.push(o);
                assert(offs[offs.len() - 1] == o);
                if offs.len() == 7 {
                    assert(utc_offset(offs[0]) && weekday_at(due + 86400 * (0 + 1) + offs[0]) >= 5);
                    assert(utc_offset(offs[3]) && weekday_at(due + 86400 * (3 + 1) + offs[3]) >= 5);
                    lemma_no_three_weekends(due as int, offs[0], offs[3], o);
                }
            }
        }
        next = match local_add_days(next, 1) {
            Some(t) => t,
            None => return None,
        };
        fuel = fuel - 1;
    }
    None
}

/// The next due date after `due` for a recurrence property; `None` for a
/// recurrence that does not read (see [`parse_recur`]), in which case no
/// follow-up task is made. Days and weeks are whole multiples of 86 400
/// seconds; `weekdays` moves to the next local Monday to Friday within a
/// week, and always finds one within chrono's range; months, quarters and
/// years move in the local calendar, a month or quarter landing later than
/// `due`. Which local day is a workday and how long a local month is depend
/// on the machine's time zone, so for those only what holds in every zone
/// is stated. A year step reads the local year and then sets it in a second
/// reading of the zone; nothing chrono promises ties the two readings to
/// one offset, so for years only the refusals are stated.
pub fn next_due_after(recur: &str, due: i64) -> (r: Option<i64>)
    requires
        !spec_recur_panics(recur@),
    ensures
        match spec_parse_recur(recur@) {
            None => r is None,
            Some((n, u)) => {
                &&& u == 'd' ==> r == (if spec_shift_representable(due, 86400 * n) {
                    Some((due + 86400 * n) as i64)
                } else {
                    None::<i64>
                })
                &&& u == 'd' && -8_000_000_000_000 <= due && due + 86400 * n <= 8_000_000_000_000
                    ==> r == Some((due + 86400 * n) as i64)
                &&& u == 'w' ==> r == (if spec_shift_representable(due, 86400 * (7 * n)) {
                    Some((due + 86400 * (7 * n)) as i64)
                } else {
                    None::<i64>
                })
                &&& u == 'w' && -8_000_000_000_000 <= due && due + 86400 * (7 * n)
                    <= 8_000_000_000_000 ==> r == Some((due + 86400 * (7 * n)) as i64)
                &&& u == 'b' ==> (r matches Some(v) ==> (v - due) % 86400 == 0 && 86400 <= v - due
                    <= 7 * 86400)
                &&& u == 'b' && -8_000_000_000_000 <= due && due + 7 * 86400 <= 8_000_000_000_000
                    ==> r is Some
                &&& (u == 'm' || u == 'q') ==> (r matches Some(v) ==> v > due)
                &&& u == 'y' && wrap_i32(n) >= 1 ==> (r matches Some(v) ==> v > due)
                &&& u == 'y' ==> (r matches Some(v) ==> years_shift(due as int, v as int, wrap_i32(n)))
                &&& u == 'm' ==> (r matches Some(v) ==> months_shift(due as int, v as int, n as int))
                &&& u == 'q' ==> (r matches Some(v) ==> months_shift(due as int, v as int, 3 * n))
                &&& u == 'm' ==> (r matches Some(v) ==> months_later(due as int, v as int, n as int))
                &&& u == 'q' ==> (r matches Some(v) ==> months_later(due as int, v as int, 3 * n))
            },
        },
{
    let (n, unit) = match parse_recur(recur) {
        Some(p) => p,
        None => return None,
    };
    proof {
        lemma_recur_count_positive(recur@);
    }
    if unit == 'd' {
        local_add_days(due, n as i64)
    } else if unit == 'b' {
        next_workday(due)
    } else if unit == 'w' {
        local_add_days(due, 7 * (n as i64))
    } else if unit == 'm' {
        let r = local_add_months(due, n);
        proof {
            if let Some(v) = r {
                lemma_months_later_is_later(due as int, v as int, n as int);
            }
        }
        r
    } else if unit == 'q' {
        let r = local_add_months(due, 3 * n);
        proof {
            if let Some(v) = r {
                lemma_months_later_is_later(due as int, v as int, 3 * n);
            }
        }
        r
    } else if unit == 'y' {
        let (y0, m, d, secs) = match local_parts(due) {
            Some(p) => p,
            None => return None,
        };
        let target = y0 + wrap_to_i32(n);
        let r = match local_instant(target, m, d, secs) {
            Some(t) => Some(t),
            None => match local_instant(y0, m, 28, secs) {
                Some(_) => local_instant(target, m, 28, secs),
                None => None,
            },
        };
        proof {
            if let Some(v) = r {
                if wrap_i32(n) >= 1 {
                    lemma_later_year_later_day(y0 as int, target as int, m as int, d as int, d as int);
                    lemma_later_year_later_day(y0 as int, target as int, m as int, d as int, 28);
                }
            }
        }
        r
    } else {
        None
    }
}

/// [`parse_due_date`] for any value: `None` where reading the value would
/// overflow (see [`due_panics`]), else `Some` of its reading. An invalid
/// value reads as `Some(None)`; `now`/`jetzt` within chrono's range as
/// `Some(Some(now))`.
pub fn try_parse_due_date(value: &str, now: i64) -> (r: Option<Option<i64>>)
    ensures
        r is None <==> spec_due_panics(value@),
        r matches Some(x) ==> (spec_due_intent(value@) is Invalid ==> x is None),
        r matches Some(x) ==> (spec_due_intent(value@) is Now && -8_000_000_000_000 <= now
            <= 8_000_000_000_000 ==> x == Some(now)),
{
    if due_panics(value) {
        return None;
    }
    Some(parse_due_date(value, now))
}

/// [`next_due_after`] for any recurrence: `None` where stepping would
/// overflow (see [`recur_panics`]), else `Some` of the next due date. A
/// recurrence that does not read gives `Some(None)`; a step of days, within
/// chrono's range, `Some(Some(due + n days))`.
pub fn try_next_due_after(recur: &str, due: i64) -> (r: Option<Option<i64>>)
    ensures
        r is None <==> spec_recur_panics(recur@),
        r matches Some(x) ==> (spec_parse_recur(recur@) is None ==> x is None),
        r matches Some(x) ==> match spec_parse_recur(recur@) {
            Some((n, u)) => u == 'd' && -8_000_000_000_000 <= due && due + 86400 * n
                <= 8_000_000_000_000 ==> x == Some((due + 86400 * n) as i64),
            None => true,
        },
{
    if recur_panics(recur) {
        return None;
    }
    Some(next_due_after(recur, due))
}

/// [`is_valid_recur`] for any recurrence: `None` where stepping would
/// overflow (see [`recur_panics`]), else `Some` of the answer.
pub fn try_is_valid_recur(recur: &str) -> (r: Option<bool>)
    ensures
        r is None <==> spec_recur_panics(recur@),
        r matches Some(x) ==> (x ==> spec_parse_recur(recur@) is Some),
{
    if recur_panics(recur) {
        return None;
    }
    Some(is_valid_recur(recur))
}

/// How a counted recurrence `<digit><unit>` reads: a single non-zero digit
/// `c` followed by a unit word `w` reads as that count and unit.
proof fn lemma_one_digit_count(c: char, w: Seq<char>)
    requires
        '1' <= c <= '9',
        w.len() > 0,
        !is_digit(w[0]),
        spec_recur_unit(w) is Some,
    ensures
        spec_counted_recur(seq![c] + w) == Some(((c as u32 - 48) as u32, spec_recur_unit(w)->0)),
{
    let t = seq![c] + w;
    assert(is_digit(t[0]));
    assert(t[1] == w[0]);
    assert(digit_run(t, 1) == 1);
    assert(digit_run(t, 0) == 1);
    assert(t.subrange(0, 1) =~= seq![c]);
    assert(seq![c].drop_last() =~= Seq::<char>::empty());
    assert(seq![c].last() == c);
    assert(digits_value(Seq::<char>::empty()) == 0);
    assert(digits_value(seq![c]) == 10 * digits_value(seq![c].drop_last()) + (c as int - 48));
    assert(digits_value(seq![c]) == c as int - 48);
    assert(t.subrange(1, t.len() as int) =~= w);
}

/// The Taskwarrior frequency words read like their counted spellings:
/// `biweekly` and `fortnight` as `2w`, `quarterly` as `1q`, `semiannual`
/// as `6m`, `annual` as `yearly` and `1y`, `biannual` and `biyearly` as
/// `2y`, and the unit words `wks`, `mo`, `qtr`, `yrs` like `w`, `m`, `q`,
/// `y`.
#[verifier::rlimit(40)]
pub proof fn lemma_recur_synonyms()
    ensures
        spec_recur_of("biweekly"@) == spec_recur_of("2w"@),
        spec_recur_of("fortnight"@) == spec_recur_of("2w"@),
        spec_recur_of("quarterly"@) == spec_recur_of("1q"@),
        spec_recur_of("semiannual"@) == spec_recur_of("6m"@),
        spec_recur_of("annual"@) == spec_recur_of("yearly"@),
        spec_recur_of("annual"@) == spec_recur_of("1y"@),
        spec_recur_of("biannual"@) == spec_recur_of("2y"@),
        spec_recur_of("3wks"@) == spec_recur_of("3w"@),
        spec_recur_of("2mo"@) == spec_recur_of("2m"@),
        spec_recur_of("1qtr"@) == spec_recur_of("1q"@),
        spec_recur_of("2yrs"@) == spec_recur_of("2y"@),
{
    reveal_strlit("daily");
    reveal_strlit("day");
    reveal_strlit("weekdays");
    reveal_strlit("weekly");
    reveal_strlit("biweekly");
    reveal_strlit("fortnight");
    reveal_strlit("monthly");
    reveal_strlit("month");
    reveal_strlit("quarterly");
    reveal_strlit("semiannual");
    reveal_strlit("annual");
    reveal_strlit("yearly");
    reveal_strlit("biannual");
    reveal_strlit("biyearly");
    reveal_strlit("2w");
    reveal_strlit("1q");
    reveal_strlit("6m");
    reveal_strlit("1y");
    reveal_strlit("2y");
    reveal_strlit("3wks");
    reveal_strlit("3w");
    reveal_strlit("2mo");
    reveal_strlit("2m");
    reveal_strlit("1qtr");
    reveal_strlit("2yrs");
    reveal_strlit("d");
    reveal_strlit("days");
    reveal_strlit("w");
    reveal_strlit("wk");
    reveal_strlit("wks");
    reveal_strlit("week");
    reveal_strlit("weeks");
    reveal_strlit("m");
    reveal_strlit("mo");
    reveal_strlit("mos");
    reveal_strlit("months");
    reveal_strlit("q");
    reveal_strlit("qtr");
    reveal_strlit("qtrs");
    reveal_strlit("quarter");
    reveal_strlit("quarters");
    reveal_strlit("y");
    reveal_strlit("yr");
    reveal_strlit("yrs");
    reveal_strlit("year");
    reveal_strlit("years");
    assert("biweekly"@[0] != "weekdays"@[0]);
    assert("biannual"@[0] != "weekdays"@[0]);
    assert("biannual"@[2] != "biweekly"@[2]);
    assert("w"@[0] != "d"@[0]);
    assert(spec_recur_unit("w"@) == Some('w'));
    assert("m"@[0] != "d"@[0] && "m"@[0] != "w"@[0]);
    assert(spec_recur_unit("m"@) == Some('m'));
    assert("q"@[0] != "d"@[0] && "q"@[0] != "w"@[0] && "q"@[0] != "m"@[0]);
    assert(spec_recur_unit("q"@) == Some('q'));
    assert("y"@[0] != "d"@[0] && "y"@[0] != "w"@[0] && "y"@[0] != "m"@[0] && "y"@[0] != "q"@[0]);
    assert(spec_recur_unit("y"@) == Some('y'));
    assert("wks"@[0] != "day"@[0]);
    assert(spec_recur_unit("wks"@) == Some('w'));
    assert("mo"@[0] != "wk"@[0]);
    assert(spec_recur_unit("mo"@) == Some('m'));
    assert("qtr"@[0] != "day"@[0] && "qtr"@[0] != "wks"@[0] && "qtr"@[0] != "mos"@[0]);
    assert(spec_recur_unit("qtr"@) == Some('q'));
    assert("yrs"@[0] != "day"@[0] && "yrs"@[0] != "wks"@[0] && "yrs"@[0] != "mos"@[0]
        && "yrs"@[0] != "qtr"@[0]);
    assert(spec_recur_unit("yrs"@) == Some('y'));
    assert("2w"@ =~= seq!['2'] + "w"@);
    lemma_one_digit_count('2', "w"@);
    assert(spec_counted_recur("2w"@) == Some((2u32, 'w')));
    assert(spec_recur_of("2w"@) == Some((2u32, 'w')));
    assert("1q"@ =~= seq!['1'] + "q"@);
    lemma_one_digit_count('1', "q"@);
    assert("6m"@ =~= seq!['6'] + "m"@);
    lemma_one_digit_count('6', "m"@);
    assert("1y"@ =~= seq!['1'] + "y"@);
    lemma_one_digit_count('1', "y"@);
    assert("2y"@ =~= seq!['2'] + "y"@);
    lemma_one_digit_count('2', "y"@);
    assert("3wks"@ =~= seq!['3'] + "wks"@);
    lemma_one_digit_count('3', "wks"@);
    assert("3w"@ =~= seq!['3'] + "w"@);
    lemma_one_digit_count('3', "w"@);
    assert("2mo"@ =~= seq!['2'] + "mo"@);
    lemma_one_digit_count('2', "mo"@);
    assert("2m"@ =~= seq!['2'] + "m"@);
    lemma_one_digit_count('2', "m"@);
    assert("1qtr"@ =~= seq!['1'] + "qtr"@);
    lemma_one_digit_count('1', "qtr"@);
    assert("2yrs"@ =~= seq!['2'] + "yrs"@);
    lemma_one_digit_count('2', "yrs"@);
}

/// Whether a recurrence property reads and gives a next date from a fixed
/// reference instant.
pub fn is_valid_recur(recur: &str) -> (r: bool)
    requires
        !spec_recur_panics(recur@),
    ensures
        r ==> spec_parse_recur(recur@) is Some,
        spec_parse_recur(recur@) matches Some((n, u)) ==> ((u == 'd' && 1_800_000_000 + 86400 * n
            <= 8_000_000_000_000) || (u == 'w' && 1_800_000_000 + 86400 * (7 * n)
            <= 8_000_000_000_000) || u == 'b' ==> r),
{
    next_due_after(recur, 1_800_000_000).is_some()
}

} // verus!
