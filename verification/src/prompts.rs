//! Prompt building for the assistant. Every prompt that resolves dates gets
//! the current date and time; every prompt that assigns projects and tags
//! gets the existing taxonomy. Stable parts come first and the date line
//! last, so that the backend's prefix cache stays valid between requests.

use vstd::prelude::*;
use crate::ai::ChatMessage;
use crate::task::{TaskInfo, TaskStatus, concat};
use crate::text::{append_chars, chars_eq_str, chars_of, join_strings, spec_join, string_of};
use crate::num::digit_char;
use crate::dates::{iso_date_text, is_local_date_at, local_date, spec_iso_date_text};

verus! {

/// The fixed start of the capture prompt: task, answer schema and rules,
/// up to the list of existing projects.
pub const CAPTURE_REGELN: &'static str = "Du wandelst eine natürlichsprachige Aufgabenbeschreibung in eine strukturierte Taskwarrior-Aufgabe um. Antworte mit genau einem JSON-Objekt der Form {\"title\": string, \"project\": string, \"tags\": [string], \"due\": string, \"priority\": string, \"recur\": string, \"notes\": string}.\nRegeln:\n- title: prägnanter Aufgabentitel ohne Datums- und Metadaten-Floskeln.\n- project: passendes Projekt — bevorzugt eines der vorhandenen; ein neuer Name ist erlaubt, wenn keines passt; sonst leer.\n- tags: passende Schlagworte (bevorzugt vorhandene), sonst leeres Array.\n- due: Fälligkeit als Taskwarrior-Ausdruck: today, tomorrow, +Nd, +Nw, ein englischer Wochentag (z. B. friday) oder ein ISO-Datum (JJJJ-MM-TT); sonst leer.\n- priority: \"H\", \"M\" oder \"L\"; sonst leer.\n- recur: Wiederholung als daily, weekly, monthly, quarterly, yearly oder Intervall wie 3d, 2w, 6m, 1y; sonst leer.\n- notes: ergänzende Details, die nicht in den Titel gehören; sonst leer.\nSetze nur, was die Eingabe wirklich hergibt — rate nicht.\nVorhandene Projekte: ";

/// The note that the task list was cut to fit the budget.
pub const KUERZUNG_HINWEIS: &'static str = "\nHinweis: Liste aus Platzgründen gekürzt — die ältesten erledigten Aufgaben wurden weggelassen.";

/// Character budget of the task block (about 31 000 tokens).
pub const AUFGABEN_BUDGET_ZEICHEN: usize = 100_000;

/// How much of the task list a prompt reveals; deleted tasks are on no level.
#[derive(Debug, Clone, Copy, PartialEq, Eq, Structural)]
pub enum Kontextstufe {
    /// Only project and tag names (the default).
    Taxonomie,
    /// Also the titles of all pending tasks.
    OffeneTitel,
    /// All tasks that are not deleted, one compact line each.
    Alle,
}

impl Kontextstufe {
    /// The level a configuration value names; anything unknown falls back to
    /// the most data-saving level.
    pub fn aus_config(wert: &str) -> (r: Self)
        ensures
            r == (if wert@ == "open_titles"@ {
                Kontextstufe::OffeneTitel
            } else if wert@ == "all"@ {
                Kontextstufe::Alle
            } else {
                Kontextstufe::Taxonomie
            }),
    {
        let w = chars_of(wert);
        if chars_eq_str(&w, "open_titles") {
            Kontextstufe::OffeneTitel
        } else if chars_eq_str(&w, "all") {
            Kontextstufe::Alle
        } else {
            Kontextstufe::Taxonomie
        }
    }
}

/// A comma-separated list; an empty one is named as such, so that the model
/// does not guess.
pub open spec fn spec_liste_oder_keine(namen: Seq<Seq<char>>) -> Seq<char> {
    if namen.len() == 0 {
        "(keine)"@
    } else {
        spec_join(namen, ", "@)
    }
}

/// Joins names with `, `, or says `(keine)`.
pub fn liste_oder_keine(namen: &Vec<String>) -> (r: String)
    ensures
        r@ == spec_liste_oder_keine(namen.deep_view()),
{
    if namen.len() == 0 {
        String::from_str("(keine)")
    } else {
        join_strings(namen, ", ")
    }
}

/// The German name of a weekday, Monday `0` to Sunday `6`.
pub open spec fn spec_wochentag(tag: u32) -> Seq<char> {
    if tag == 0 {
        "Montag"@
    } else if tag == 1 {
        "Dienstag"@
    } else if tag == 2 {
        "Mittwoch"@
    } else if tag == 3 {
        "Donnerstag"@
    } else if tag == 4 {
        "Freitag"@
    } else if tag == 5 {
        "Samstag"@
    } else {
        "Sonntag"@
    }
}

/// The German name of a weekday (chrono names weekdays only in English).
pub fn wochentag_deutsch(tag: u32) -> (r: &'static str)
    requires
        tag < 7,
    ensures
        r@ == spec_wochentag(tag),
{
    if tag == 0 {
        "Montag"
    } else if tag == 1 {
        "Dienstag"
    } else if tag == 2 {
        "Mittwoch"
    } else if tag == 3 {
        "Donnerstag"
    } else if tag == 4 {
        "Freitag"
    } else if tag == 5 {
        "Samstag"
    } else {
        "Sonntag"
    }
}

// ─── Task lines ─────────────────────────────────────────────────────────────

/// The status mark of a compact line.
pub open spec fn spec_marker(s: TaskStatus) -> Seq<char> {
    match s {
        TaskStatus::Completed => "erledigt"@,
        TaskStatus::Recurring => "wiederkehrend"@,
        _ => "offen"@,
    }
}

/// The metadata parts of a compact line: project, tags and the due date's
/// local calendar text, each only where present.
pub open spec fn spec_teile(t: TaskInfo, faellig: Option<Seq<char>>) -> Seq<Seq<char>> {
    let a = match t.project {
        Some(p) => seq!["Projekt: "@ + p@],
        None => Seq::empty(),
    };
    let b = if t.tags@.len() > 0 {
        a.push("Schlagworte: "@ + spec_join(t.tags.deep_view(), ", "@))
    } else {
        a
    };
    match faellig {
        Some(d) => b.push("fällig: "@ + d),
        None => b,
    }
}

/// A task as one compact line: status mark, title, and the metadata that is
/// set, in brackets.
pub open spec fn spec_kompakt_zeile(t: TaskInfo, faellig: Option<Seq<char>>) -> Seq<char> {
    let head = "- ["@ + spec_marker(t.status) + "] "@ + t.description@;
    let teile = spec_teile(t, faellig);
    if teile.len() == 0 {
        head
    } else {
        head + " ("@ + spec_join(teile, "; "@) + ")"@
    }
}

/// Whether `f` can be the local calendar text of the due date `due`: none
/// without a due date; otherwise the `yyyy-mm-dd` text of a local date of
/// it in some time zone, which every due date within 8 * 10^12 s of 1970
/// has.
pub open spec fn is_due_text(due: Option<i64>, f: Option<Seq<char>>) -> bool {
    match due {
        None => f is None,
        Some(x) => match f {
            None => !(-8_000_000_000_000 <= x <= 8_000_000_000_000),
            Some(text) => exists|d: (i32, u32, u32)|
                is_local_date_at(x as int, d) && text == #[trigger] spec_iso_date_text(d),
        },
    }
}

/// Whether `z` is the compact line of `t` for a local reading of its due
/// date.
pub open spec fn is_kompakt_zeile(t: TaskInfo, z: Seq<char>) -> bool {
    exists|f: Option<Seq<char>>| is_due_text(t.due, f) && z == #[trigger] spec_kompakt_zeile(t, f)
}

fn marker(s: TaskStatus) -> (r: &'static str)
    ensures
        r@ == spec_marker(s),
{
    match s {
        TaskStatus::Completed => "erledigt",
        TaskStatus::Recurring => "wiederkehrend",
        _ => "offen",
    }
}

/// The compact line of a task, given the local calendar text of its due
/// date (see [`spec_kompakt_zeile`]).
pub fn kompakt_zeile_mit(t: &TaskInfo, faellig: Option<String>) -> (r: String)
    ensures
        r@ == spec_kompakt_zeile(*t, faellig.deep_view()),
{
    let mut teile: Vec<String> = Vec::new();
    match &t.project {
        Some(p) => {
            teile.push(concat("Projekt: ", p.as_str()));
        },
        None => {},
    }
    let ghost a = teile.deep_view();
    assert(a =~= match t.project {
        Some(p) => seq!["Projekt: "@ + p@],
        None => Seq::<Seq<char>>::empty(),
    });
    if t.tags.len() > 0 {
        let joined = join_strings(&t.tags, ", ");
        teile.push(concat("Schlagworte: ", joined.as_str()));
        assert(teile.deep_view() =~= a.push("Schlagworte: "@ + spec_join(t.tags.deep_view(), ", "@)));
    }
    let ghost b = teile.deep_view();
    match &faellig {
        Some(d) => {
            teile.push(concat("fällig: ", d.as_str()));
            assert(teile.deep_view() =~= b.push("fällig: "@ + d@));
        },
        None => {},
    }
    let h1 = concat("- [", marker(t.status));
    let h2 = concat(h1.as_str(), "] ");
    let head = concat(h2.as_str(), t.description.as_str());
    if teile.len() == 0 {
        head
    } else {
        let j = join_strings(&teile, "; ");
        let x1 = concat(head.as_str(), " (");
        let x2 = concat(x1.as_str(), j.as_str());
        concat(x2.as_str(), ")")
    }
}

/// The compact line of a task, its due date read as a local date in
/// `yyyy-mm-dd` form. The local calendar depends on the machine's time
/// zone, so the date is stated up to the zone.
pub fn kompakt_zeile(t: &TaskInfo) -> (r: String)
    ensures
        is_kompakt_zeile(*t, r@),
{
    let faellig = match t.due {
        Some(due) => match local_date(due) {
            Some(d) => {
                let text = iso_date_text(d);
                assert(is_local_date_at(due as int, d) && text@ == spec_iso_date_text(d));
                Some(text)
            },
            None => None,
        },
        None => None,
    };
    assert(is_due_text(t.due, faellig.deep_view()));
    let ghost f = faellig.deep_view();
    let r = kompakt_zeile_mit(t, faellig);
    assert(f is Some ==> t.due is Some);
    assert(r@ == spec_kompakt_zeile(*t, f));
    r
}

// ─── Task blocks ────────────────────────────────────────────────────────────

/// The lines `\n- <title>` of the pending tasks, in order.
pub open spec fn offene_zeilen(ts: Seq<TaskInfo>) -> Seq<char>
    decreases ts.len(),
{
    if ts.len() == 0 {
        Seq::empty()
    } else {
        offene_zeilen(ts.drop_last()) + if ts.last().status == TaskStatus::Pending {
            "\n- "@ + ts.last().description@
        } else {
            Seq::empty()
        }
    }
}

/// The block of level "open titles".
pub open spec fn spec_offene_block(ts: Seq<TaskInfo>) -> Seq<char> {
    let z = offene_zeilen(ts);
    "Offene Aufgaben (Titel):"@ + if z.len() == 0 {
        "\n(keine)"@
    } else {
        z
    }
}

/// Bytes of a character in UTF-8.
pub open spec fn char_utf8_len(c: char) -> int {
    if (c as u32) < 0x80 {
        1
    } else if (c as u32) < 0x800 {
        2
    } else if (c as u32) < 0x10000 {
        3
    } else {
        4
    }
}

/// Bytes of a text in UTF-8 (`str::len`).
pub open spec fn spec_utf8_len(s: Seq<char>) -> int
    decreases s.len(),
{
    if s.len() == 0 {
        0
    } else {
        spec_utf8_len(s.drop_last()) + char_utf8_len(s.last())
    }
}

/// What a line costs in the budget: its bytes and a line feed.
pub open spec fn line_cost(z: Seq<char>) -> int {
    spec_utf8_len(z) + 1
}

/// Cost of the lines of the first `n` tasks that are neither deleted nor
/// completed; these are always shown.
pub open spec fn base_cost(ts: Seq<TaskInfo>, zs: Seq<Seq<char>>, n: int) -> int
    decreases n,
{
    if n <= 0 {
        0
    } else {
        base_cost(ts, zs, n - 1) + if ts[n - 1].status != TaskStatus::Deleted && ts[n - 1].status
            != TaskStatus::Completed {
            line_cost(zs[n - 1])
        } else {
            0
        }
    }
}

/// The age key of a completed task: last modification, else entry, else 0.
pub open spec fn age_key(t: TaskInfo) -> int {
    match t.modified {
        Some(m) => m as int,
        None => match t.entry {
            Some(e) => e as int,
            None => 0,
        },
    }
}

/// Completed task `j` is considered no later than task `i`: newer first,
/// ties in list order.
pub open spec fn precedes(ts: Seq<TaskInfo>, j: int, i: int) -> bool {
    ts[j].status == TaskStatus::Completed && (age_key(ts[j]) > age_key(ts[i]) || (age_key(ts[j])
        == age_key(ts[i]) && j <= i))
}

/// Cost of the completed lines among the first `n` that come no later than
/// task `i`.
pub open spec fn ahead_cost(ts: Seq<TaskInfo>, zs: Seq<Seq<char>>, i: int, n: int) -> int
    decreases n,
{
    if n <= 0 {
        0
    } else {
        ahead_cost(ts, zs, i, n - 1) + if precedes(ts, n - 1, i) {
            line_cost(zs[n - 1])
        } else {
            0
        }
    }
}

/// Whether task `i` is listed: never if deleted; always if not completed;
/// a completed one if it fits the budget together with everything shown
/// anyway and all newer completed ones.
pub open spec fn behalten(ts: Seq<TaskInfo>, zs: Seq<Seq<char>>, budget: int, i: int) -> bool {
    ts[i].status != TaskStatus::Deleted && (ts[i].status != TaskStatus::Completed || base_cost(
        ts,
        zs,
        ts.len() as int,
    ) + ahead_cost(ts, zs, i, ts.len() as int) <= budget)
}

/// The listed lines among the first `n`, each after a line feed.
pub open spec fn kept_text(ts: Seq<TaskInfo>, zs: Seq<Seq<char>>, budget: int, n: int) -> Seq<char>
    decreases n,
{
    if n <= 0 {
        Seq::empty()
    } else {
        kept_text(ts, zs, budget, n - 1) + if behalten(ts, zs, budget, n - 1) {
            seq!['\n'] + zs[n - 1]
        } else {
            Seq::empty()
        }
    }
}

/// Some completed task was left out.
pub open spec fn gekuerzt(ts: Seq<TaskInfo>, zs: Seq<Seq<char>>, budget: int) -> bool {
    exists|i: int|
        0 <= i < ts.len() && ts[i].status == TaskStatus::Completed && !#[trigger] behalten(
            ts,
            zs,
            budget,
            i,
        )
}

/// The block of level "all": the listed lines, `(keine)` if there are none,
/// and a note if completed tasks were left out.
pub open spec fn spec_alle_block(ts: Seq<TaskInfo>, zs: Seq<Seq<char>>, budget: int) -> Seq<char> {
    let k = kept_text(ts, zs, budget, ts.len() as int);
    "Alle Aufgaben (kompakt):"@ + (if k.len() == 0 {
        "\n(keine)"@
    } else {
        k
    }) + if gekuerzt(ts, zs, budget) {
        KUERZUNG_HINWEIS@
    } else {
        Seq::empty()
    }
}

/// The task block of a level, given each task's compact line.
pub open spec fn spec_block_aus(
    stufe: Kontextstufe,
    ts: Seq<TaskInfo>,
    zs: Seq<Seq<char>>,
    budget: int,
) -> Option<Seq<char>> {
    match stufe {
        Kontextstufe::Taxonomie => None,
        Kontextstufe::OffeneTitel => Some(spec_offene_block(ts)),
        Kontextstufe::Alle => Some(spec_alle_block(ts, zs, budget)),
    }
}

/// What the task block of a level may be: exactly [`spec_block_aus`] for
/// the compact lines of the tasks (their due dates read in local time),
/// which only level "all" reads.
pub open spec fn block_ok(stufe: Kontextstufe, ts: Seq<TaskInfo>, budget: int, b: Option<Seq<char>>) -> bool {
    exists|zs: Seq<Seq<char>>|
        zs.len() == ts.len() && (stufe is Alle ==> forall|i: int|
            0 <= i < ts.len() ==> is_kompakt_zeile(ts[i], #[trigger] zs[i])) && b
            == #[trigger] spec_block_aus(stufe, ts, zs, budget)
}

// ─── Laws of the task block ─────────────────────────────────────────────────

/// The budget never drops a task that is not completed, and never lists a
/// deleted one.
pub proof fn lemma_open_tasks_always_listed(ts: Seq<TaskInfo>, zs: Seq<Seq<char>>, budget: int, i: int)
    requires
        0 <= i < ts.len(),
    ensures
        ts[i].status != TaskStatus::Deleted && ts[i].status != TaskStatus::Completed ==> behalten(
            ts,
            zs,
            budget,
            i,
        ),
        ts[i].status == TaskStatus::Deleted ==> !behalten(ts, zs, budget, i),
{
}

proof fn lemma_utf8_len_nonneg(s: Seq<char>)
    ensures
        spec_utf8_len(s) >= 0,
    decreases s.len(),
{
    if s.len() > 0 {
        lemma_utf8_len_nonneg(s.drop_last());
    }
}

proof fn lemma_ahead_cost_monotone(ts: Seq<TaskInfo>, zs: Seq<Seq<char>>, j: int, i: int, n: int)
    requires
        0 <= j < ts.len(),
        0 <= i < ts.len(),
        n <= ts.len(),
        n <= zs.len(),
        precedes(ts, j, i),
    ensures
        ahead_cost(ts, zs, j, n) <= ahead_cost(ts, zs, i, n),
    decreases n,
{
    if n > 0 {
        lemma_ahead_cost_monotone(ts, zs, j, i, n - 1);
        lemma_utf8_len_nonneg(zs[n - 1]);
    }
}

/// The budget drops the oldest completed tasks first: if a completed task is
/// listed, so is every completed task that is newer (or as old and earlier
/// in the list).
pub proof fn lemma_oldest_completed_dropped_first(
    ts: Seq<TaskInfo>,
    zs: Seq<Seq<char>>,
    budget: int,
    i: int,
    j: int,
)
    requires
        zs.len() == ts.len(),
        0 <= i < ts.len(),
        0 <= j < ts.len(),
        ts[i].status == TaskStatus::Completed,
        precedes(ts, j, i),
        behalten(ts, zs, budget, i),
    ensures
        behalten(ts, zs, budget, j),
{
    lemma_ahead_cost_monotone(ts, zs, j, i, ts.len() as int);
}

proof fn lemma_offene_zeilen_ignore_deleted(ts: Seq<TaskInfo>, i: int, t2: TaskInfo)
    requires
        0 <= i < ts.len(),
        ts[i].status == TaskStatus::Deleted,
        t2.status == TaskStatus::Deleted,
    ensures
        offene_zeilen(ts.update(i, t2)) == offene_zeilen(ts),
    decreases ts.len(),
{
    let u = ts.update(i, t2);
    if i < ts.len() - 1 {
        assert(u.drop_last() =~= ts.drop_last().update(i, t2));
        lemma_offene_zeilen_ignore_deleted(ts.drop_last(), i, t2);
    } else {
        assert(u.drop_last() =~= ts.drop_last());
    }
}

proof fn lemma_base_cost_ignores_deleted(
    ts: Seq<TaskInfo>,
    zs: Seq<Seq<char>>,
    i: int,
    t2: TaskInfo,
    z2: Seq<char>,
    n: int,
)
    requires
        zs.len() == ts.len(),
        0 <= i < ts.len(),
        n <= ts.len(),
        ts[i].status == TaskStatus::Deleted,
        t2.status == TaskStatus::Deleted,
    ensures
        base_cost(ts.update(i, t2), zs.update(i, z2), n) == base_cost(ts, zs, n),
    decreases n,
{
    if n > 0 {
        lemma_base_cost_ignores_deleted(ts, zs, i, t2, z2, n - 1);
    }
}

proof fn lemma_ahead_cost_ignores_deleted(
    ts: Seq<TaskInfo>,
    zs: Seq<Seq<char>>,
    i: int,
    t2: TaskInfo,
    z2: Seq<char>,
    k: int,
    n: int,
)
    requires
        zs.len() == ts.len(),
        0 <= i < ts.len(),
        0 <= k < ts.len(),
        k != i,
        n <= ts.len(),
        ts[i].status == TaskStatus::Deleted,
        t2.status == TaskStatus::Deleted,
    ensures
        ahead_cost(ts.update(i, t2), zs.update(i, z2), k, n) == ahead_cost(ts, zs, k, n),
    decreases n,
{
    if n > 0 {
        lemma_ahead_cost_ignores_deleted(ts, zs, i, t2, z2, k, n - 1);
    }
}

proof fn lemma_behalten_ignores_deleted(
    ts: Seq<TaskInfo>,
    zs: Seq<Seq<char>>,
    budget: int,
    i: int,
    t2: TaskInfo,
    z2: Seq<char>,
    k: int,
)
    requires
        zs.len() == ts.len(),
        0 <= i < ts.len(),
        0 <= k < ts.len(),
        ts[i].status == TaskStatus::Deleted,
        t2.status == TaskStatus::Deleted,
    ensures
        behalten(ts.update(i, t2), zs.update(i, z2), budget, k) == behalten(ts, zs, budget, k),
{
    if k != i {
        lemma_base_cost_ignores_deleted(ts, zs, i, t2, z2, ts.len() as int);
        lemma_ahead_cost_ignores_deleted(ts, zs, i, t2, z2, k, ts.len() as int);
    }
}

proof fn lemma_kept_text_ignores_deleted(
    ts: Seq<TaskInfo>,
    zs: Seq<Seq<char>>,
    budget: int,
    i: int,
    t2: TaskInfo,
    z2: Seq<char>,
    n: int,
)
    requires
        zs.len() == ts.len(),
        0 <= i < ts.len(),
        n <= ts.len(),
        ts[i].status == TaskStatus::Deleted,
        t2.status == TaskStatus::Deleted,
    ensures
        kept_text(ts.update(i, t2), zs.update(i, z2), budget, n) == kept_text(ts, zs, budget, n),
    decreases n,
{
    if n > 0 {
        lemma_kept_text_ignores_deleted(ts, zs, budget, i, t2, z2, n - 1);
        lemma_behalten_ignores_deleted(ts, zs, budget, i, t2, z2, n - 1);
    }
}

/// Deleted tasks never reach a prompt, on any level: what a deleted task
/// holds (title, project, tags, dates) has no influence on the task block;
/// putting any other deleted task in its place leaves the block as it was.
pub proof fn lemma_deleted_tasks_never_reach_prompt(
    stufe: Kontextstufe,
    ts: Seq<TaskInfo>,
    zs: Seq<Seq<char>>,
    budget: int,
    i: int,
    t2: TaskInfo,
    z2: Seq<char>,
)
    requires
        zs.len() == ts.len(),
        0 <= i < ts.len(),
        ts[i].status == TaskStatus::Deleted,
        t2.status == TaskStatus::Deleted,
    ensures
        spec_block_aus(stufe, ts.update(i, t2), zs.update(i, z2), budget) == spec_block_aus(
            stufe,
            ts,
            zs,
            budget,
        ),
{
    let u = ts.update(i, t2);
    let w = zs.update(i, z2);
    lemma_offene_zeilen_ignore_deleted(ts, i, t2);
    lemma_kept_text_ignores_deleted(ts, zs, budget, i, t2, z2, ts.len() as int);
    assert(gekuerzt(u, w, budget) == gekuerzt(ts, zs, budget)) by {
        if gekuerzt(u, w, budget) {
            let k = choose|k: int|
                0 <= k < u.len() && u[k].status == TaskStatus::Completed && !#[trigger] behalten(
                    u,
                    w,
                    budget,
                    k,
                );
            lemma_behalten_ignores_deleted(ts, zs, budget, i, t2, z2, k);
            assert(ts[k].status == TaskStatus::Completed && !behalten(ts, zs, budget, k));
        }
        if gekuerzt(ts, zs, budget) {
            let k = choose|k: int|
                0 <= k < ts.len() && ts[k].status == TaskStatus::Completed && !#[trigger] behalten(
                    ts,
                    zs,
                    budget,
                    k,
                );
            lemma_behalten_ignores_deleted(ts, zs, budget, i, t2, z2, k);
            assert(u[k].status == TaskStatus::Completed && !behalten(u, w, budget, k));
        }
    }
}

/// Sums are kept capped: every budget is far below this.
pub open spec fn cap(x: int) -> int {
    if x > 0x1_0000_0000_0000_0000_0000_0000 {
        0x1_0000_0000_0000_0000_0000_0000
    } else {
        x
    }
}

fn capped_add(a: u128, b: u128) -> (r: u128)
    requires
        a <= 0x1_0000_0000_0000_0000_0000_0000,
        b <= 0x1_0000_0000_0000_0000_0000_0000,
    ensures
        r == cap(a + b),
{
    let s = a + b;
    if s > 0x1_0000_0000_0000_0000_0000_0000 {
        0x1_0000_0000_0000_0000_0000_0000
    } else {
        s
    }
}

fn utf8_len(v: &Vec<char>) -> (r: u128)
    ensures
        r == spec_utf8_len(v@),
        r <= 4 * v.len(),
{
    let mut acc: u128 = 0;
    let mut i: usize = 0;
    assert(v@.subrange(0, 0) =~= Seq::<char>::empty());
    while i < v.len()
        invariant
            i <= v.len(),
            acc == spec_utf8_len(v@.subrange(0, i as int)),
            acc <= 4 * i,
        decreases v.len() - i,
    {
        let c = v[i];
        let w: u128 = if (c as u32) < 0x80 {
            1
        } else if (c as u32) < 0x800 {
            2
        } else if (c as u32) < 0x10000 {
            3
        } else {
            4
        };
        assert(v@.subrange(0, i + 1).drop_last() =~= v@.subrange(0, i as int));
        acc = acc + w;
        i = i + 1;
    }
    assert(v@.subrange(0, v.len() as int) =~= v@);
    acc
}

fn offene_block(ts: &[TaskInfo]) -> (r: String)
    ensures
        r@ == spec_offene_block(ts@),
{
    let mut z: Vec<char> = Vec::new();
    let mut i: usize = 0;
    assert(ts@.take(0) =~= Seq::<TaskInfo>::empty());
    while i < ts.len()
        invariant
            i <= ts.len(),
            z@ == offene_zeilen(ts@.take(i as int)),
        decreases ts.len() - i,
    {
        assert(ts@.take(i + 1).drop_last() =~= ts@.take(i as int));
        if ts[i].status == TaskStatus::Pending {
            let line = chars_of("\n- ");
            append_chars(&mut z, &line);
            let d = chars_of(ts[i].description.as_str());
            append_chars(&mut z, &d);
            assert(z@ =~= offene_zeilen(ts@.take(i as int)) + ("\n- "@ + ts@[i as int].description@));
        } else {
            assert(z@ =~= offene_zeilen(ts@.take(i as int)) + Seq::<char>::empty());
        }
        i = i + 1;
    }
    assert(ts@.take(ts.len() as int) =~= ts@);
    let mut out = chars_of("Offene Aufgaben (Titel):");
    if z.len() == 0 {
        let k = chars_of("\n(keine)");
        append_chars(&mut out, &k);
    } else {
        append_chars(&mut out, &z);
    }
    string_of(out.as_slice())
}

proof fn lemma_cap_step(x: int, c: int)
    requires
        x >= 0,
        0 <= c <= 0x1_0000_0000_0000_0000_0000_0000,
    ensures
        cap(x + c) == cap(cap(x) + c),
{
}

proof fn lemma_base_nonneg(ts: Seq<TaskInfo>, zs: Seq<Seq<char>>, n: int)
    ensures
        base_cost(ts, zs, n) >= 0,
    decreases n,
{
    if n > 0 {
        lemma_base_nonneg(ts, zs, n - 1);
        lemma_utf8_nonneg(zs[n - 1]);
    }
}

proof fn lemma_ahead_nonneg(ts: Seq<TaskInfo>, zs: Seq<Seq<char>>, i: int, n: int)
    ensures
        ahead_cost(ts, zs, i, n) >= 0,
    decreases n,
{
    if n > 0 {
        lemma_ahead_nonneg(ts, zs, i, n - 1);
        lemma_utf8_nonneg(zs[n - 1]);
    }
}

proof fn lemma_utf8_nonneg(s: Seq<char>)
    ensures
        spec_utf8_len(s) >= 0,
    decreases s.len(),
{
    if s.len() > 0 {
        lemma_utf8_nonneg(s.drop_last());
    }
}

fn line_costs(zs: &Vec<String>) -> (r: Vec<u128>)
    ensures
        r@.len() == zs@.len(),
        forall|i: int| 0 <= i < zs@.len() ==> #[trigger] r@[i] == line_cost(zs.deep_view()[i]),
        forall|i: int| 0 <= i < zs@.len() ==> r@[i] <= 0x1_0000_0000_0000_0000_0000_0000,
{
    let mut out: Vec<u128> = Vec::new();
    let mut i: usize = 0;
    while i < zs.len()
        invariant
            i <= zs.len(),
            out@.len() == i,
            forall|k: int| 0 <= k < i ==> #[trigger] out@[k] == line_cost(zs.deep_view()[k]),
            forall|k: int| 0 <= k < i ==> out@[k] <= 0x1_0000_0000_0000_0000_0000_0000,
        decreases zs.len() - i,
    {
        let v = chars_of(zs[i].as_str());
        let n = utf8_len(&v);
        out.push(n + 1);
        i = i + 1;
    }
    out
}

/// The task block of a level, given each task's compact line (see
/// [`spec_block_aus`]); `None` for the taxonomy level.
pub fn aufgaben_block_aus(
    stufe: Kontextstufe,
    aufgaben: &[TaskInfo],
    zeilen: &Vec<String>,
    budget: usize,
) -> (r: Option<String>)
    requires
        zeilen@.len() == aufgaben@.len(),
    ensures
        r.deep_view() == spec_block_aus(stufe, aufgaben@, zeilen.deep_view(), budget as int),
{
    match stufe {
        Kontextstufe::Taxonomie => None,
        Kontextstufe::OffeneTitel => Some(offene_block(aufgaben)),
        Kontextstufe::Alle => Some(alle_block(aufgaben, zeilen, budget)),
    }
}

fn alle_block(ts: &[TaskInfo], zeilen: &Vec<String>, budget: usize) -> (r: String)
    requires
        zeilen@.len() == ts@.len(),
    ensures
        r@ == spec_alle_block(ts@, zeilen.deep_view(), budget as int),
{
    let ghost zs = zeilen.deep_view();
    let n = ts.len();
    let costs = line_costs(zeilen);
    let mut base: u128 = 0;
    let mut i: usize = 0;
    while i < n
        invariant
            n == ts.len() == zeilen@.len() == costs@.len(),
            zs == zeilen.deep_view(),
            forall|k: int| 0 <= k < n ==> #[trigger] costs@[k] == line_cost(zs[k]),
            forall|k: int| 0 <= k < n ==> costs@[k] <= 0x1_0000_0000_0000_0000_0000_0000,
            i <= n,
            base == cap(base_cost(ts@, zs, i as int)),
        decreases n - i,
    {
        proof {
            lemma_base_nonneg(ts@, zs, i as int);
        }
        if ts[i].status != TaskStatus::Deleted && ts[i].status != TaskStatus::Completed {
            proof {
                lemma_cap_step(base_cost(ts@, zs, i as int), costs@[i as int] as int);
            }
            base = capped_add(base, costs[i]);
        }
        i = i + 1;
    }
    let mut kept: Vec<char> = Vec::new();
    let mut cut = false;
    let mut i: usize = 0;
    while i < n
        invariant
            n == ts.len() == zeilen@.len() == costs@.len(),
            zs == zeilen.deep_view(),
            forall|k: int| 0 <= k < n ==> #[trigger] costs@[k] == line_cost(zs[k]),
            forall|k: int| 0 <= k < n ==> costs@[k] <= 0x1_0000_0000_0000_0000_0000_0000,
            base == cap(base_cost(ts@, zs, n as int)),
            i <= n,
            kept@ == kept_text(ts@, zs, budget as int, i as int),
            cut == exists|k: int|
                0 <= k < i && ts@[k].status == TaskStatus::Completed && !#[trigger] behalten(
                    ts@,
                    zs,
                    budget as int,
                    k,
                ),
        decreases n - i,
    {
        let st = ts[i].status;
        let mut keep = st != TaskStatus::Deleted;
        if st == TaskStatus::Completed {
            let mut ahead: u128 = 0;
            let mut j: usize = 0;
            while j < n
                invariant
                    n == ts.len() == costs@.len(),
                    forall|k: int| 0 <= k < n ==> #[trigger] costs@[k] == line_cost(zs[k]),
                    forall|k: int| 0 <= k < n ==> costs@[k] <= 0x1_0000_0000_0000_0000_0000_0000,
                    i < n,
                    j <= n,
                    ahead == cap(ahead_cost(ts@, zs, i as int, j as int)),
                decreases n - j,
            {
                proof {
                    lemma_ahead_nonneg(ts@, zs, i as int, j as int);
                }
                let kj = age_of(&ts[j]);
                let ki = age_of(&ts[i]);
                if ts[j].status == TaskStatus::Completed && (kj > ki || (kj == ki && j <= i)) {
                    proof {
                        lemma_cap_step(ahead_cost(ts@, zs, i as int, j as int), costs@[j as int] as int);
                    }
                    ahead = capped_add(ahead, costs[j]);
                }
                j = j + 1;
            }
            proof {
                lemma_base_nonneg(ts@, zs, n as int);
                lemma_ahead_nonneg(ts@, zs, i as int, n as int);
            }
            keep = base + ahead <= budget as u128;
            if !keep {
                cut = true;
            }
        }
        assert(keep == behalten(ts@, zs, budget as int, i as int));
        if keep {
            let line = chars_of(zeilen[i].as_str());
            kept.push('\n');
            append_chars(&mut kept, &line);
            assert(line@ == zs[i as int]);
            assert(kept@ =~= kept_text(ts@, zs, budget as int, i as int) + (seq!['\n'] + zs[i as int]));
        } else {
            assert(kept@ =~= kept_text(ts@, zs, budget as int, i as int) + Seq::<char>::empty());
        }
        i = i + 1;
    }
    let mut out = chars_of("Alle Aufgaben (kompakt):");
    if kept.len() == 0 {
        let k = chars_of("\n(keine)");
        append_chars(&mut out, &k);
    } else {
        append_chars(&mut out, &kept);
    }
    if cut {
        let h = chars_of(KUERZUNG_HINWEIS);
        append_chars(&mut out, &h);
    }
    string_of(out.as_slice())
}

fn age_of(t: &TaskInfo) -> (r: i64)
    ensures
        r == age_key(*t),
{
    match t.modified {
        Some(m) => m,
        None => match t.entry {
            Some(e) => e,
            None => 0,
        },
    }
}

/// The task block of a level: `None` for the taxonomy level; the pending
/// titles for level "open titles"; for level "all" every task that is not
/// deleted as a compact line, where pending tasks and templates always stay
/// and completed ones go oldest first once the `budget` (bytes) is used up,
/// which the block then says. Deleted tasks reach no level.
pub fn aufgaben_block(stufe: Kontextstufe, aufgaben: &[TaskInfo], budget: usize) -> (r: Option<
    String,
>)
    ensures
        block_ok(stufe, aufgaben@, budget as int, r.deep_view()),
{
    let mut zeilen: Vec<String> = Vec::new();
    if let Kontextstufe::Alle = stufe {
        let mut i: usize = 0;
        while i < aufgaben.len()
            invariant
                i <= aufgaben.len(),
                zeilen@.len() == i,
                forall|k: int| 0 <= k < i ==> is_kompakt_zeile(aufgaben@[k], #[trigger] zeilen.deep_view()[k]),
            decreases aufgaben.len() - i,
        {
            let z = kompakt_zeile(&aufgaben[i]);
            let ghost before = zeilen.deep_view();
            zeilen.push(z);
            assert(zeilen.deep_view() =~= before.push(z@));
            i = i + 1;
        }
    } else {
        let mut i: usize = 0;
        while i < aufgaben.len()
            invariant
                i <= aufgaben.len(),
                zeilen@.len() == i,
            decreases aufgaben.len() - i,
        {
            let z = kompakt_zeile_mit(&aufgaben[i], None);
            let ghost before = zeilen.deep_view();
            zeilen.push(z);
            assert(zeilen.deep_view() =~= before.push(z@));
            i = i + 1;
        }
    }
    let r = aufgaben_block_aus(stufe, aufgaben, &zeilen, budget);
    assert(block_ok(stufe, aufgaben@, budget as int, r.deep_view())) by {
        let zs = zeilen.deep_view();
        assert(zs.len() == aufgaben@.len());
        assert(r.deep_view() == spec_block_aus(stufe, aufgaben@, zs, budget as int));
    }
    r
}

// ─── Capture prompt ─────────────────────────────────────────────────────────

/// The current local time as the prompt shows it.
pub struct Zeitpunkt {
    /// Weekday, Monday `0` to Sunday `6`.
    pub wochentag: u32,
    /// The date as `yyyy-mm-dd`.
    pub datum: String,
    pub stunde: u32,
    pub minute: u32,
}

/// Two decimal digits of a number below 100.
pub open spec fn two_digits(n: u32) -> Seq<char> {
    seq![digit_char((n / 10) as int), digit_char((n % 10) as int)]
}

fn two_digit_text(n: u32) -> (r: Vec<char>)
    requires
        n < 100,
    ensures
        r@ == two_digits(n),
{
    let mut v: Vec<char> = Vec::new();
    let a = ((n / 10) + 48) as u8;
    let b = ((n % 10) + 48) as u8;
    v.push(a as char);
    v.push(b as char);
    assert(v@ =~= two_digits(n));
    v
}

/// The date line: `\nAktuelles Datum: <Wochentag>, <yyyy-mm-dd>, <hh>:<mm> Uhr.`
pub open spec fn spec_datumszeile(z: (u32, Seq<char>, u32, u32)) -> Seq<char> {
    "\nAktuelles Datum: "@ + spec_wochentag(z.0) + ", "@ + z.1 + ", "@ + two_digits(z.2) + ":"@
        + two_digits(z.3) + " Uhr."@
}

/// The system message of a capture request: rules and answer schema, the
/// existing projects and tags, the task block if any, and the date line last.
pub open spec fn spec_capture_system(
    projekte: Seq<Seq<char>>,
    tags: Seq<Seq<char>>,
    block: Option<Seq<char>>,
    zeit: (u32, Seq<char>, u32, u32),
) -> Seq<char> {
    let stabil = CAPTURE_REGELN@ + spec_liste_oder_keine(projekte) + ".\nVorhandene Schlagworte: "@
        + spec_liste_oder_keine(tags) + "."@;
    let mit_block = match block {
        Some(b) => stabil + seq!['\n'] + b,
        None => stabil,
    };
    mit_block + spec_datumszeile(zeit)
}

/// The view of a point in time.
pub open spec fn zeit_view(z: Zeitpunkt) -> (u32, Seq<char>, u32, u32) {
    (z.wochentag, z.datum@, z.stunde, z.minute)
}

fn append_str(v: &mut Vec<char>, s: &str)
    ensures
        final(v)@ == old(v)@ + s@,
{
    let w = chars_of(s);
    append_chars(v, &w);
}

/// The messages of a capture request with the given task block: the system
/// message (see [`spec_capture_system`]) and the raw input as user message.
pub fn capture_nachrichten_mit_block(
    eingabe: &str,
    jetzt: &Zeitpunkt,
    projekte: &Vec<String>,
    tags: &Vec<String>,
    block: Option<String>,
) -> (r: Vec<ChatMessage>)
    requires
        jetzt.wochentag < 7,
        jetzt.stunde < 100,
        jetzt.minute < 100,
    ensures
        r@.len() == 2,
        r@[0]@ == ("system"@, spec_capture_system(projekte.deep_view(), tags.deep_view(), block.deep_view(), zeit_view(*jetzt))),
        r@[1]@ == ("user"@, eingabe@),
{
    let mut sys = chars_of(CAPTURE_REGELN);
    let p = liste_oder_keine(projekte);
    append_str(&mut sys, p.as_str());
    append_str(&mut sys, ".\nVorhandene Schlagworte: ");
    let t = liste_oder_keine(tags);
    append_str(&mut sys, t.as_str());
    append_str(&mut sys, ".");
    let ghost stabil = sys@;
    match &block {
        Some(b) => {
            sys.push('\n');
            append_str(&mut sys, b.as_str());
            assert(sys@ =~= stabil + seq!['\n'] + b@);
        },
        None => {},
    }
    let ghost mit_block = sys@;
    append_str(&mut sys, "\nAktuelles Datum: ");
    append_str(&mut sys, wochentag_deutsch(jetzt.wochentag));
    append_str(&mut sys, ", ");
    append_str(&mut sys, jetzt.datum.as_str());
    append_str(&mut sys, ", ");
    let hh = two_digit_text(jetzt.stunde);
    append_chars(&mut sys, &hh);
    append_str(&mut sys, ":");
    let mm = two_digit_text(jetzt.minute);
    append_chars(&mut sys, &mm);
    append_str(&mut sys, " Uhr.");
    assert(sys@ =~= mit_block + spec_datumszeile(zeit_view(*jetzt)));
    let system = string_of(sys.as_slice());
    let mut out: Vec<ChatMessage> = Vec::new();
    out.push(ChatMessage::system(system.as_str()));
    out.push(ChatMessage::user(eingabe));
    out
}

/// The messages for "interpret with the assistant": the system message with
/// schema, rules, taxonomy, the task block of the level and the current date
/// last; the raw input as user message. The JSON enforcement is added when
/// the request is sent.
pub fn capture_nachrichten(
    eingabe: &str,
    jetzt: &Zeitpunkt,
    projekte: &Vec<String>,
    tags: &Vec<String>,
    stufe: Kontextstufe,
    aufgaben: &[TaskInfo],
) -> (r: Vec<ChatMessage>)
    requires
        jetzt.wochentag < 7,
        jetzt.stunde < 100,
        jetzt.minute < 100,
    ensures
        r@.len() == 2,
        exists|b: Option<Seq<char>>|
            block_ok(stufe, aufgaben@, AUFGABEN_BUDGET_ZEICHEN as int, b) && r@[0]@ == (
                "system"@,
                #[trigger] spec_capture_system(projekte.deep_view(), tags.deep_view(), b, zeit_view(*jetzt)),
            ),
        r@[1]@ == ("user"@, eingabe@),
{
    let block = aufgaben_block(stufe, aufgaben, AUFGABEN_BUDGET_ZEICHEN);
    let ghost b = block.deep_view();
    let r = capture_nachrichten_mit_block(eingabe, jetzt, projekte, tags, block);
    assert(r@[0]@ == ("system"@, spec_capture_system(projekte.deep_view(), tags.deep_view(), b, zeit_view(*jetzt))));
    r
}

} // verus!
