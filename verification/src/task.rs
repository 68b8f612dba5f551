//! The task records handed between the store and the user interface, the
//! store's error type, and the checks the store makes before it touches a
//! replica: sync-server URLs, UUIDs and Unix timestamps.

use vstd::prelude::*;
use crate::text::{append_chars, chars_eq_str, chars_of, string_of};
use crate::num::{i64_to_string, parse_i64, spec_i64_decimal, spec_parse_i64};

verus! {

// ─── Records ────────────────────────────────────────────────────────────────

/// Lifecycle state of a task.
#[derive(Debug, Clone, Copy, PartialEq, Eq, Structural)]
pub enum TaskStatus {
    Pending,
    Completed,
    Deleted,
    Recurring,
}

/// One annotation of a task.
#[derive(Debug, Clone)]
pub struct AnnotationInfo {
    /// Entry time of the annotation in Unix seconds; also its key for removal.
    pub entry: i64,
    pub description: String,
}

/// A task as the user interface sees it.
#[derive(Debug, Clone)]
pub struct TaskInfo {
    pub uuid: String,
    pub description: String,
    /// The `project` property; `None` when unset or empty.
    pub project: Option<String>,
    /// User tags (synthetic tags such as PENDING are filtered out).
    pub tags: Vec<String>,
    /// Due date in Unix seconds.
    pub due: Option<i64>,
    pub status: TaskStatus,
    /// Entry (creation) time in Unix seconds.
    pub entry: Option<i64>,
    /// Working-set id; only pending tasks have one.
    pub working_set_id: Option<u32>,
    /// Raw priority (usually `H`, `M` or `L`); `None` when unset or empty.
    pub priority: Option<String>,
    pub annotations: Vec<AnnotationInfo>,
    /// Wait (snooze) time in Unix seconds.
    pub wait: Option<i64>,
    /// Raw recurrence (`daily`, `2w`, …); `None` when unset or empty.
    pub recur: Option<String>,
    /// Scheduled (start/defer) time in Unix seconds.
    pub scheduled: Option<i64>,
    /// UUIDs of all tasks this one depends on.
    pub depends: Vec<String>,
    /// Depends on at least one pending task.
    pub is_blocked: bool,
    /// At least one pending task depends on this one.
    pub is_blocking: bool,
    /// Instance generated from a recurring template (`parent` or `imask` set).
    pub is_recurring_child: bool,
    /// Start time in Unix seconds; set while the task is active.
    pub start: Option<i64>,
    /// Expiry time in Unix seconds.
    pub until: Option<i64>,
    /// Last modification in Unix seconds.
    pub modified: Option<i64>,
    /// Foreign and user-defined properties (key, raw value), for display.
    pub udas: Vec<(String, String)>,
}

/// Raw form of a task: its UUID and all its property pairs.
pub type RawTask = (String, Vec<(String, String)>);

// ─── Smoke test ─────────────────────────────────────────────────────────────

/// Answers `"pong"`.
pub fn ping() -> (r: String)
    ensures
        r@ == "pong"@,
{
    String::from_str("pong")
}

// ─── Errors ─────────────────────────────────────────────────────────────────

/// Errors of the task store.
#[derive(Debug)]
pub enum VmError {
    Storage { msg: String },
    Conversion { msg: String },
    NotFound { uuid: String },
    Sync { msg: String },
    Internal { msg: String },
}

/// The text of an error: its kind, a colon and its detail.
pub open spec fn spec_vm_error_message(e: VmError) -> Seq<char> {
    match e {
        VmError::Storage { msg } => "Storage: "@ + msg@,
        VmError::Conversion { msg } => "Conversion: "@ + msg@,
        VmError::NotFound { uuid } => "Not found: "@ + uuid@,
        VmError::Sync { msg } => "Sync: "@ + msg@,
        VmError::Internal { msg } => "Internal: "@ + msg@,
    }
}

/// `a + b` for strings.
pub fn concat(a: &str, b: &str) -> (r: String)
    ensures
        r@ == a@ + b@,
{
    let mut v = chars_of(a);
    let w = chars_of(b);
    append_chars(&mut v, &w);
    string_of(v.as_slice())
}

impl VmError {
    /// The error's text, e.g. `Sync: server_url has no host: "http://"`.
    pub fn message(&self) -> (r: String)
        ensures
            r@ == spec_vm_error_message(*self),
    {
        match self {
            VmError::Storage { msg } => concat("Storage: ", msg.as_str()),
            VmError::Conversion { msg } => concat("Conversion: ", msg.as_str()),
            VmError::NotFound { uuid } => concat("Not found: ", uuid.as_str()),
            VmError::Sync { msg } => concat("Sync: ", msg.as_str()),
            VmError::Internal { msg } => concat("Internal: ", msg.as_str()),
        }
    }
}

// ─── Sync URL ───────────────────────────────────────────────────────────────

/// What `{:?}` prints for a string: the text in double quotes, with quotes,
/// backslashes and control characters escaped.
pub uninterp spec fn spec_debug_quoted(s: Seq<char>) -> Seq<char>;

/// The `Debug` rendering of a string slice (`format!("{s:?}")`).
#[verifier::external_body]
fn debug_quoted(s: &str) -> (r: String)
    ensures
        r@ == spec_debug_quoted(s@),
{
    format!("{s:?}")
}

/// The part of a URL after `http://` or `https://`, if it has either scheme.
pub open spec fn spec_after_scheme(url: Seq<char>) -> Option<Seq<char>> {
    if url.len() >= 7 && url.subrange(0, 7) == "http://"@ {
        Some(url.subrange(7, url.len() as int))
    } else if url.len() >= 8 && url.subrange(0, 8) == "https://"@ {
        Some(url.subrange(8, url.len() as int))
    } else {
        None
    }
}

/// Whether the host name is not empty. The host name is what precedes the
/// first `/`, and of that what precedes the first `:`; it is empty exactly
/// when the rest is empty or begins with `/` or `:`.
pub open spec fn spec_has_host(rest: Seq<char>) -> bool {
    rest.len() > 0 && rest[0] != '/' && rest[0] != ':'
}

/// The outcome of validating a sync-server URL.
pub open spec fn spec_validate_sync_url(url: Seq<char>) -> Result<(), Seq<char>> {
    match spec_after_scheme(url) {
        None => Err(
            "server_url must start with http:// or https://, got: "@ + spec_debug_quoted(url),
        ),
        Some(rest) => if spec_has_host(rest) {
            Ok(())
        } else {
            Err("server_url has no host: "@ + spec_debug_quoted(url))
        },
    }
}

/// Whether `v` starts with `lit`.
fn starts_with_str(v: &Vec<char>, lit: &str) -> (r: bool)
    ensures
        r == (lit@.len() <= v@.len() && v@.subrange(0, lit@.len() as int) == lit@),
{
    let p = chars_of(lit);
    if p.len() > v.len() {
        return false;
    }
    let mut i: usize = 0;
    while i < p.len()
        invariant
            p@ == lit@,
            p.len() <= v.len(),
            i <= p.len(),
            forall|k: int| 0 <= k < i ==> v@[k] == p@[k],
        decreases p.len() - i,
    {
        if v[i] != p[i] {
            assert(v@.subrange(0, p.len() as int)[i as int] != p@[i as int]);
            return false;
        }
        i = i + 1;
    }
    assert(v@.subrange(0, p.len() as int) =~= p@);
    true
}

/// Checks a sync-server URL before any network work: the scheme must be
/// `http` or `https` and the host name must not be empty. A failure is a
/// `VmError::Sync` whose message quotes the URL.
pub fn validate_sync_url(url: &str) -> (r: Result<(), VmError>)
    ensures
        match (r, spec_validate_sync_url(url@)) {
            (Ok(()), Ok(())) => true,
            (Err(VmError::Sync { msg }), Err(m)) => msg@ == m,
            _ => false,
        },
{
    let v = chars_of(url);
    proof {
        reveal_strlit("http://");
        reveal_strlit("https://");
    }
    let skip: usize = if starts_with_str(&v, "http://") {
        7
    } else if starts_with_str(&v, "https://") {
        8
    } else {
        let q = debug_quoted(url);
        return Err(
            VmError::Sync {
                msg: concat("server_url must start with http:// or https://, got: ", q.as_str()),
            },
        );
    };
    let has_host = skip < v.len() && v[skip] != '/' && v[skip] != ':';
    if !has_host {
        let q = debug_quoted(url);
        return Err(VmError::Sync { msg: concat("server_url has no host: ", q.as_str()) });
    }
    Ok(())
}

// ─── UUIDs ──────────────────────────────────────────────────────────────────

/// What `Uuid::parse_str` gives for a text: the UUID's 128-bit value, or the
/// text of its error.
pub uninterp spec fn spec_uuid_parse(s: Seq<char>) -> Result<u128, Seq<char>>;

/// `uuid::Uuid::parse_str`, with the UUID as its big-endian 128-bit value
/// and the error as its display text.
#[verifier::external_body]
fn uuid_parse_str(s: &str) -> (r: Result<u128, String>)
    ensures
        match r {
            Ok(v) => spec_uuid_parse(s@) == Ok::<u128, Seq<char>>(v),
            Err(m) => spec_uuid_parse(s@) == Err::<u128, Seq<char>>(m@),
        },
{
    match uuid::Uuid::parse_str(s) {
        Ok(u) => Ok(u.as_u128()),
        Err(e) => Err(e.to_string()),
    }
}

/// Parses a UUID string into its 128-bit value; a malformed UUID is a
/// `VmError::Conversion` carrying the parser's message.
pub fn parse_uuid(uuid: &str) -> (r: Result<u128, VmError>)
    ensures
        match (r, spec_uuid_parse(uuid@)) {
            (Ok(v), Ok(w)) => v == w,
            (Err(VmError::Conversion { msg }), Err(m)) => msg@ == m,
            _ => false,
        },
{
    match uuid_parse_str(uuid) {
        Ok(v) => Ok(v),
        Err(m) => Err(VmError::Conversion { msg: m }),
    }
}

// ─── Timestamps ─────────────────────────────────────────────────────────────

/// Whether chrono can represent the given Unix second as a UTC date-time:
/// its day lies from 1 January 262 144 BCE (year -262 143) to 31 December
/// 262 142, chrono's first and last dates.
pub open spec fn spec_utc_representable(secs: i64) -> bool {
    -8_334_601_228_800 <= secs <= 8_210_266_876_799
}

/// `chrono::DateTime::<Utc>::from_timestamp(secs, 0)`, told apart by whether
/// it gives a date-time: it gives none exactly when the second's day is out
/// of chrono's dates (see [`spec_utc_representable`]).
#[verifier::external_body]
pub(crate) fn utc_representable(secs: i64) -> (r: bool)
    ensures
        r == spec_utc_representable(secs),
        -8_000_000_000_000 <= secs <= 8_000_000_000_000 ==> r,
{
    match chrono::DateTime::<chrono::Utc>::from_timestamp(secs, 0) {
        Some(_) => true,
        None => false,
    }
}

/// The message of an out-of-range timestamp.
pub open spec fn spec_timestamp_error(secs: i64) -> Seq<char> {
    "due timestamp out of range: "@ + spec_i64_decimal(secs as int)
}

/// Checks that Unix seconds convert into a UTC date-time and hands them on;
/// a second out of chrono's range is a `VmError::Conversion` instead of a
/// panic. The store builds the date-time from the seconds this accepts.
pub fn timestamp_from_secs(secs: i64) -> (r: Result<i64, VmError>)
    ensures
        r is Ok <==> spec_utc_representable(secs),
        -8_000_000_000_000 <= secs <= 8_000_000_000_000 ==> r is Ok,
        r matches Ok(v) ==> v == secs,
        r matches Err(e) ==> (e matches VmError::Conversion { msg } && msg@ == spec_timestamp_error(
            secs,
        )),
{
    if utc_representable(secs) {
        Ok(secs)
    } else {
        let digits = i64_to_string(secs);
        Err(VmError::Conversion { msg: concat("due timestamp out of range: ", digits.as_str()) })
    }
}

// ─── Building task records ─────────────────────────────────────────────────

/// A task's status as the replica stores it; `Unknown` stands for any value
/// this library does not know.
#[derive(Debug, Clone, Copy, PartialEq, Eq, Structural)]
pub enum RawStatus {
    Pending,
    Completed,
    Deleted,
    Recurring,
    Unknown,
}

/// A tag as the store lists it: its name, and whether the user set it
/// (the store also lists synthetic tags such as `PENDING`).
#[derive(Debug, Clone)]
pub struct RecordTag {
    pub name: String,
    pub user: bool,
}

/// The names of the user tags, in order.
pub open spec fn user_tag_names(ts: Seq<RecordTag>) -> Seq<String>
    decreases ts.len(),
{
    if ts.len() == 0 {
        Seq::empty()
    } else if ts.last().user {
        user_tag_names(ts.drop_last()).push(ts.last().name)
    } else {
        user_tag_names(ts.drop_last())
    }
}

fn user_tags(ts: Vec<RecordTag>) -> (r: Vec<String>)
    ensures
        r@ == user_tag_names(ts@),
{
    let mut out: Vec<String> = Vec::new();
    let mut i: usize = 0;
    while i < ts.len()
        invariant
            i <= ts.len(),
            out@ == user_tag_names(ts@.take(i as int)),
        decreases ts.len() - i,
    {
        assert(ts@.take(i + 1).drop_last() =~= ts@.take(i as int));
        if ts[i].user {
            out.push(ts[i].name.clone());
        }
        i = i + 1;
    }
    assert(ts@.take(ts.len() as int) =~= ts@);
    out
}

/// What the store reads from one task of the replica, as plain values.
#[derive(Debug)]
pub struct TaskRecord {
    pub description: String,
    /// Raw `project` property.
    pub project: Option<String>,
    /// The tags the store lists, in the replica's order.
    pub tags: Vec<RecordTag>,
    pub due: Option<i64>,
    pub entry: Option<i64>,
    /// Raw priority; empty when unset.
    pub priority: String,
    pub annotations: Vec<AnnotationInfo>,
    pub wait: Option<i64>,
    /// Raw `recur` property.
    pub recur: Option<String>,
    /// Raw `scheduled` property (decimal Unix seconds).
    pub scheduled: Option<String>,
    /// UUIDs of the dependencies.
    pub depends: Vec<String>,
    /// Raw `parent` property.
    pub parent: Option<String>,
    /// Raw `imask` property.
    pub imask: Option<String>,
    /// Raw `start` property (decimal Unix seconds).
    pub start: Option<String>,
    /// Raw `until` property (decimal Unix seconds).
    pub until: Option<String>,
    pub modified: Option<i64>,
    /// Property namespace, key and value of every user-defined property.
    pub udas: Vec<(String, String, String)>,
    pub status: RawStatus,
}

/// The value, unless it is missing or empty.
pub open spec fn spec_non_empty(o: Option<Seq<char>>) -> Option<Seq<char>> {
    match o {
        Some(s) => if s.len() > 0 {
            Some(s)
        } else {
            None
        },
        None => None,
    }
}

/// `o.filter(|s| !s.is_empty())`.
pub fn non_empty(o: Option<String>) -> (r: Option<String>)
    ensures
        r.deep_view() == spec_non_empty(o.deep_view()),
        r matches Some(s) ==> o == Some(s),
{
    match o {
        Some(s) => if s.as_str().is_empty() {
            None
        } else {
            Some(s)
        },
        None => None,
    }
}

/// An optional raw property read as decimal Unix seconds.
pub open spec fn spec_parse_opt(o: Option<Seq<char>>) -> Option<i64> {
    match o {
        Some(s) => spec_parse_i64(s),
        None => None,
    }
}

fn parse_opt(o: &Option<String>) -> (r: Option<i64>)
    ensures
        r == spec_parse_opt(o.deep_view()),
{
    match o {
        Some(s) => parse_i64(s.as_str()),
        None => None,
    }
}

/// The status shown for a stored status; unknown ones count as deleted, so
/// that nothing unexpected is shown.
pub open spec fn spec_task_status(s: RawStatus) -> TaskStatus {
    match s {
        RawStatus::Pending => TaskStatus::Pending,
        RawStatus::Completed => TaskStatus::Completed,
        RawStatus::Deleted => TaskStatus::Deleted,
        RawStatus::Recurring => TaskStatus::Recurring,
        RawStatus::Unknown => TaskStatus::Deleted,
    }
}

/// The flat key of a property: `ns.key`, or `key` without a namespace.
pub open spec fn spec_flat_key(ns: Seq<char>, key: Seq<char>) -> Seq<char> {
    if ns.len() == 0 {
        key
    } else {
        ns + "."@ + key
    }
}

/// Keys that are typed attributes, known to the app, or recurrence and
/// mirror bookkeeping; they are not shown as foreign properties.
pub open spec fn is_bookkeeping_key(k: Seq<char>) -> bool {
    ||| k == "project"@
    ||| k == "recur"@
    ||| k == "scheduled"@
    ||| k == "until"@
    ||| k == "rtype"@
    ||| k == "mask"@
    ||| k == "parent"@
    ||| k == "imask"@
    ||| k == "tags"@
    ||| k == "depends"@
}

/// The foreign properties shown for a task, in order: each flattened, the
/// bookkeeping ones left out.
pub open spec fn spec_visible_udas(raw: Seq<(Seq<char>, Seq<char>, Seq<char>)>) -> Seq<
    (Seq<char>, Seq<char>),
>
    decreases raw.len(),
{
    if raw.len() == 0 {
        Seq::empty()
    } else {
        let prev = spec_visible_udas(raw.drop_last());
        let (ns, key, value) = raw.last();
        let flat = spec_flat_key(ns, key);
        if is_bookkeeping_key(flat) {
            prev
        } else {
            prev.push((flat, value))
        }
    }
}

fn is_bookkeeping(k: &Vec<char>) -> (r: bool)
    ensures
        r == is_bookkeeping_key(k@),
{
    chars_eq_str(k, "project") || chars_eq_str(k, "recur") || chars_eq_str(k, "scheduled")
        || chars_eq_str(k, "until") || chars_eq_str(k, "rtype") || chars_eq_str(k, "mask")
        || chars_eq_str(k, "parent") || chars_eq_str(k, "imask") || chars_eq_str(k, "tags")
        || chars_eq_str(k, "depends")
}

fn visible_udas(raw: &Vec<(String, String, String)>) -> (r: Vec<(String, String)>)
    ensures
        r.deep_view() == spec_visible_udas(raw.deep_view()),
{
    let mut out: Vec<(String, String)> = Vec::new();
    let mut i: usize = 0;
    while i < raw.len()
        invariant
            i <= raw.len(),
            out.deep_view() == spec_visible_udas(raw.deep_view().take(i as int)),
        decreases raw.len() - i,
    {
        let ghost before = out.deep_view();
        let (ns, key, value) = &raw[i];
        let flat: Vec<char> = if ns.as_str().is_empty() {
            chars_of(key.as_str())
        } else {
            let mut f = chars_of(ns.as_str());
            f.push('.');
            let k = chars_of(key.as_str());
            append_chars(&mut f, &k);
            f
        };
        proof {
            reveal_strlit(".");
            assert(raw.deep_view().take(i + 1).drop_last() =~= raw.deep_view().take(i as int));
            assert(raw.deep_view().take(i + 1).last() == raw.deep_view()[i as int]);
            assert(flat@ =~= spec_flat_key(ns@, key@));
        }
        if !is_bookkeeping(&flat) {
            out.push((string_of(flat.as_slice()), value.clone()));
            assert(out.deep_view() =~= before.push((flat@, value@)));
        }
        i = i + 1;
    }
    assert(raw.deep_view().take(raw.len() as int) =~= raw.deep_view());
    out
}

/// Builds the record shown for a task from what the store read of it, its
/// UUID and working-set id, and whether the dependency graph has it blocked
/// or blocking. Only user tags are kept; empty `project`, `priority` and
/// `recur` values count as unset; `scheduled`, `start` and `until` are read as decimal seconds.
pub fn build_task_info(
    rec: TaskRecord,
    uuid: String,
    working_set_id: Option<u32>,
    is_blocked: bool,
    is_blocking: bool,
) -> (r: TaskInfo)
    ensures
        r.uuid == uuid,
        r.description == rec.description,
        r.project.deep_view() == spec_non_empty(rec.project.deep_view()),
        r.tags@ == user_tag_names(rec.tags@),
        r.due == rec.due,
        r.status == spec_task_status(rec.status),
        r.entry == rec.entry,
        r.working_set_id == working_set_id,
        r.priority.deep_view() == spec_non_empty(Some(rec.priority@)),
        r.annotations == rec.annotations,
        r.wait == rec.wait,
        r.recur.deep_view() == spec_non_empty(rec.recur.deep_view()),
        r.scheduled == spec_parse_opt(rec.scheduled.deep_view()),
        r.depends == rec.depends,
        r.is_blocked == is_blocked,
        r.is_blocking == is_blocking,
        r.is_recurring_child == (rec.parent is Some || rec.imask is Some),
        r.start == spec_parse_opt(rec.start.deep_view()),
        r.until == spec_parse_opt(rec.until.deep_view()),
        r.modified == rec.modified,
        r.udas.deep_view() == spec_visible_udas(rec.udas.deep_view()),
{
    let scheduled = parse_opt(&rec.scheduled);
    let start = parse_opt(&rec.start);
    let until = parse_opt(&rec.until);
    let udas = visible_udas(&rec.udas);
    let status = match rec.status {
        RawStatus::Pending => TaskStatus::Pending,
        RawStatus::Completed => TaskStatus::Completed,
        RawStatus::Deleted => TaskStatus::Deleted,
        RawStatus::Recurring => TaskStatus::Recurring,
        RawStatus::Unknown => TaskStatus::Deleted,
    };
    let is_recurring_child = rec.parent.is_some() || rec.imask.is_some();
    let tags = user_tags(rec.tags);
    TaskInfo {
        uuid,
        description: rec.description,
        project: non_empty(rec.project),
        tags,
        due: rec.due,
        status,
        entry: rec.entry,
        working_set_id,
        priority: non_empty(Some(rec.priority)),
        annotations: rec.annotations,
        wait: rec.wait,
        recur: non_empty(rec.recur),
        scheduled,
        depends: rec.depends,
        is_blocked,
        is_blocking,
        is_recurring_child,
        start,
        until,
        modified: rec.modified,
        udas,
    }
}

// ─── Store plans ────────────────────────────────────────────────────────────

/// What a follow-up instance of a recurring task gets.
#[derive(Debug)]
pub struct FollowupPlan {
    pub description: String,
    /// Written only where not empty.
    pub project: Option<String>,
    pub tags: Vec<String>,
    pub due: i64,
    /// Written only where not empty.
    pub priority: Option<String>,
    pub recur: String,
}

/// Whether completing a task makes a follow-up instance, and with what: only
/// where `recur` is set (not empty) and a new due date is given. The
/// description, project, tags and priority are copied; annotations are not,
/// as they belong to their moment.
pub fn followup_plan(
    new_due: Option<i64>,
    recur: Option<String>,
    priority: Option<String>,
    project: Option<String>,
    tags: Vec<String>,
    description: String,
) -> (r: Option<FollowupPlan>)
    ensures
        r is Some <==> (spec_non_empty(recur.deep_view()) is Some && new_due is Some),
        r matches Some(p) ==> ({
            &&& p.description == description
            &&& p.project.deep_view() == spec_non_empty(project.deep_view())
            &&& p.tags == tags
            &&& Some(p.due) == new_due
            &&& p.priority.deep_view() == spec_non_empty(priority.deep_view())
            &&& Some(p.recur@) == spec_non_empty(recur.deep_view())
        }),
{
    let r = non_empty(recur);
    match (r, new_due) {
        (Some(rec), Some(due)) => Some(
            FollowupPlan {
                description,
                project: non_empty(project),
                tags,
                due,
                priority: non_empty(priority),
                recur: rec,
            },
        ),
        _ => None,
    }
}

/// The pending tasks of the working set in its order, each with its id.
pub open spec fn ws_pending(ws: Seq<(u32, u128, RawStatus)>) -> Seq<(u128, Option<u32>)>
    decreases ws.len(),
{
    if ws.len() == 0 {
        Seq::empty()
    } else {
        let prev = ws_pending(ws.drop_last());
        let (idx, uuid, st) = ws.last();
        if st == RawStatus::Pending {
            prev.push((uuid, Some(idx)))
        } else {
            prev
        }
    }
}

/// Whether a UUID is among the pending working-set entries.
pub open spec fn seen_pending(ws: Seq<(u32, u128, RawStatus)>, uuid: u128) -> bool {
    exists|i: int| 0 <= i < ws.len() && #[trigger] ws[i].1 == uuid && ws[i].2 == RawStatus::Pending
}

/// The further tasks listed with completed ones: completed tasks, recurring
/// templates, and pending tasks missing from the working set, in the given
/// order, without id.
pub open spec fn rest_listed(all: Seq<(u128, RawStatus)>, ws: Seq<(u32, u128, RawStatus)>) -> Seq<
    (u128, Option<u32>),
>
    decreases all.len(),
{
    if all.len() == 0 {
        Seq::empty()
    } else {
        let prev = rest_listed(all.drop_last(), ws);
        let (uuid, st) = all.last();
        if st == RawStatus::Completed || st == RawStatus::Recurring || (st == RawStatus::Pending
            && !seen_pending(ws, uuid)) {
            prev.push((uuid, None::<u32>))
        } else {
            prev
        }
    }
}

/// Whether tasks are in ascending UUID order.
pub open spec fn by_uuid(s: Seq<(u128, RawStatus)>) -> bool {
    forall|k: int| 0 <= k && k + 1 < s.len() ==> #[trigger] s[k].0 <= s[k + 1].0
}

/// The listing: pending working-set tasks first, with ids; with
/// `include_completed`, then the further tasks (see [`rest_listed`]) in UUID
/// order, so the order is the same across starts. Deleted tasks never show.
pub open spec fn is_listing(
    r: Seq<(u128, Option<u32>)>,
    ws: Seq<(u32, u128, RawStatus)>,
    all: Seq<(u128, RawStatus)>,
    include_completed: bool,
) -> bool {
    if include_completed {
        exists|s: Seq<(u128, RawStatus)>|
            s.to_multiset() == all.to_multiset() && by_uuid(s) && r == ws_pending(ws) + rest_listed(
                s,
                ws,
            )
    } else {
        r == ws_pending(ws)
    }
}

/// Whether a listed entry stands for a task that is not deleted: a pending
/// working-set task with its id, or a completed, recurring or pending task
/// of the replica without id.
pub open spec fn listed_alive(
    e: (u128, Option<u32>),
    ws: Seq<(u32, u128, RawStatus)>,
    all: Seq<(u128, RawStatus)>,
) -> bool {
    match e.1 {
        Some(idx) => ws.contains((idx, e.0, RawStatus::Pending)),
        None => all.contains((e.0, RawStatus::Completed)) || all.contains((e.0, RawStatus::Recurring))
            || all.contains((e.0, RawStatus::Pending)),
    }
}

proof fn lemma_ws_pending_alive(ws: Seq<(u32, u128, RawStatus)>, all: Seq<(u128, RawStatus)>)
    ensures
        forall|e: (u128, Option<u32>)| #[trigger] ws_pending(ws).contains(e) ==> listed_alive(e, ws, all),
    decreases ws.len(),
{
    if ws.len() > 0 {
        let d = ws.drop_last();
        lemma_ws_pending_alive(d, all);
        assert forall|e: (u128, Option<u32>)| #[trigger] ws_pending(ws).contains(e) implies listed_alive(
            e,
            ws,
            all,
        ) by {
            let prev = ws_pending(d);
            if prev.contains(e) {
                assert(listed_alive(e, d, all));
                if let Some(idx) = e.1 {
                    let k = choose|k: int| 0 <= k < d.len() && d[k] == (idx, e.0, RawStatus::Pending);
                    assert(ws[k] == d[k]);
                }
            } else {
                assert(ws.last().2 == RawStatus::Pending);
                assert(e == (ws.last().1, Some(ws.last().0)));
                assert(ws[ws.len() - 1] == (ws.last().0, e.0, RawStatus::Pending));
            }
        }
    }
}

proof fn lemma_rest_listed_alive(
    s: Seq<(u128, RawStatus)>,
    ws: Seq<(u32, u128, RawStatus)>,
    all: Seq<(u128, RawStatus)>,
)
    requires
        forall|x: (u128, RawStatus)| s.contains(x) ==> all.contains(x),
    ensures
        forall|e: (u128, Option<u32>)| #[trigger] rest_listed(s, ws).contains(e) ==> listed_alive(e, ws, all),
    decreases s.len(),
{
    if s.len() > 0 {
        let d = s.drop_last();
        assert forall|x: (u128, RawStatus)| d.contains(x) implies all.contains(x) by {
            let k = choose|k: int| 0 <= k < d.len() && d[k] == x;
            assert(s[k] == x);
        }
        lemma_rest_listed_alive(d, ws, all);
        assert forall|e: (u128, Option<u32>)| #[trigger] rest_listed(s, ws).contains(e) implies listed_alive(
            e,
            ws,
            all,
        ) by {
            if !rest_listed(d, ws).contains(e) {
                let (uuid, st) = s.last();
                assert(s[s.len() - 1] == s.last());
                assert(s.contains(s.last()));
                assert(e == (uuid, None::<u32>));
                assert(all.contains((uuid, st)));
            }
        }
    }
}

/// Deleted tasks never show: every entry of a listing is a pending task of
/// the working set (with its id) or a completed, recurring or pending task
/// of the replica.
pub proof fn lemma_listing_hides_deleted(
    r: Seq<(u128, Option<u32>)>,
    ws: Seq<(u32, u128, RawStatus)>,
    all: Seq<(u128, RawStatus)>,
    include_completed: bool,
)
    requires
        is_listing(r, ws, all, include_completed),
    ensures
        forall|k: int| 0 <= k < r.len() ==> listed_alive(#[trigger] r[k], ws, all),
{
    lemma_ws_pending_alive(ws, all);
    if include_completed {
        let s = choose|s: Seq<(u128, RawStatus)>|
            s.to_multiset() == all.to_multiset() && by_uuid(s) && r == ws_pending(ws) + rest_listed(
                s,
                ws,
            );
        assert forall|x: (u128, RawStatus)| s.contains(x) implies all.contains(x) by {
            vstd::seq_lib::to_multiset_contains(s, x);
            vstd::seq_lib::to_multiset_contains(all, x);
        }
        lemma_rest_listed_alive(s, ws, all);
        let a = ws_pending(ws);
        let b = rest_listed(s, ws);
        assert forall|k: int| 0 <= k < r.len() implies listed_alive(#[trigger] r[k], ws, all) by {
            if k < a.len() {
                assert(r[k] == a[k]);
                assert(a.contains(a[k]));
            } else {
                assert(r[k] == b[k - a.len()]);
                assert(b.contains(b[k - a.len()]));
            }
        }
    } else {
        assert forall|k: int| 0 <= k < r.len() implies listed_alive(#[trigger] r[k], ws, all) by {
            assert(r.contains(r[k]));
        }
    }
}

fn sort_by_uuid(v: &mut Vec<(u128, RawStatus)>)
    ensures
        final(v)@.to_multiset() == old(v)@.to_multiset(),
        by_uuid(final(v)@),
{
    broadcast use vstd::seq_lib::group_to_multiset_ensures;
    let n = v.len();
    if n < 2 {
        return;
    }
    let mut i: usize = 1;
    while i < n
        invariant
            1 <= i <= n,
            v@.len() == n,
            v@.to_multiset() == old(v)@.to_multiset(),
            forall|k: int| 0 <= k && k + 1 < i ==> #[trigger] v@[k].0 <= v@[k + 1].0,
        decreases n - i,
    {
        let ghost s0 = v@;
        let x = v.remove(i);
        let ghost s1 = v@;
        proof {
            vstd::seq_lib::to_multiset_remove(s0, i as int);
        }
        let mut j: usize = i;
        while j > 0 && v[j - 1].0 > x.0
            invariant
                j <= i,
                i < n,
                v@ == s1,
                s1.len() == n - 1,
                j < i ==> s1[j as int].0 > x.0,
            decreases j,
        {
            j = j - 1;
        }
        v.insert(j, x);
        proof {
            vstd::seq_lib::to_multiset_insert(s1, j as int, x);
            assert(s0[i as int] == x);
            assert(s0.contains(x));
            vstd::seq_lib::to_multiset_contains(s0, x);
            broadcast use vstd::multiset::group_multiset_axioms;
            assert(s0.to_multiset().remove(x).insert(x) =~= s0.to_multiset());
            let t = v@;
            assert forall|k: int| 0 <= k && k + 1 < i + 1 implies #[trigger] t[k].0 <= t[k + 1].0 by {
                if k + 1 < j {
                    assert(t[k] == s0[k] && t[k + 1] == s0[k + 1]);
                } else if k + 1 == j {
                    assert(t[k] == s1[k] && t[k + 1] == x);
                } else if k == j {
                    assert(t[k] == x && t[k + 1] == s1[j as int]);
                } else {
                    assert(t[k] == s0[k - 1] && t[k + 1] == s0[k]);
                }
            }
        }
        i = i + 1;
    }
}

fn is_seen(ws: &Vec<(u32, u128, RawStatus)>, uuid: u128) -> (r: bool)
    ensures
        r == seen_pending(ws@, uuid),
{
    let mut i: usize = 0;
    while i < ws.len()
        invariant
            i <= ws.len(),
            forall|k: int| 0 <= k < i ==> !(#[trigger] ws@[k].1 == uuid && ws@[k].2 == RawStatus::Pending),
        decreases ws.len() - i,
    {
        if ws[i].1 == uuid && ws[i].2 == RawStatus::Pending {
            assert(ws@[i as int].1 == uuid);
            return true;
        }
        i = i + 1;
    }
    false
}

/// Which tasks a listing shows, in which order and with which working-set
/// id (see [`is_listing`]): `ws` holds the working set as (id, UUID, status),
/// `all` every task of the replica as (UUID, status).
pub fn listing_plan(
    ws: &Vec<(u32, u128, RawStatus)>,
    all: Vec<(u128, RawStatus)>,
    include_completed: bool,
) -> (r: Vec<(u128, Option<u32>)>)
    ensures
        is_listing(r@, ws@, all@, include_completed),
{
    let mut out: Vec<(u128, Option<u32>)> = Vec::new();
    let mut i: usize = 0;
    assert(ws@.take(0) =~= Seq::<(u32, u128, RawStatus)>::empty());
    while i < ws.len()
        invariant
            i <= ws.len(),
            out@ == ws_pending(ws@.take(i as int)),
        decreases ws.len() - i,
    {
        assert(ws@.take(i + 1).drop_last() =~= ws@.take(i as int));
        let (idx, uuid, st) = ws[i];
        if st == RawStatus::Pending {
            out.push((uuid, Some(idx)));
        }
        i = i + 1;
    }
    assert(ws@.take(ws.len() as int) =~= ws@);
    if !include_completed {
        return out;
    }
    let ghost first = out@;
    let ghost all0 = all@;
    let mut sorted = all;
    sort_by_uuid(&mut sorted);
    let ghost s = sorted@;
    let mut k: usize = 0;
    assert(s.take(0) =~= Seq::<(u128, RawStatus)>::empty());
    assert(first + rest_listed(s.take(0), ws@) =~= first);
    while k < sorted.len()
        invariant
            k <= sorted.len(),
            s == sorted@,
            out@ == first + rest_listed(s.take(k as int), ws@),
        decreases sorted.len() - k,
    {
        assert(s.take(k + 1).drop_last() =~= s.take(k as int));
        let (uuid, st) = sorted[k];
        let ghost before = out@;
        if st == RawStatus::Completed || st == RawStatus::Recurring || (st == RawStatus::Pending
            && !is_seen(ws, uuid)) {
            out.push((uuid, None));
            assert(out@ =~= first + rest_listed(s.take(k + 1), ws@));
        } else {
            assert(out@ =~= first + rest_listed(s.take(k + 1), ws@));
        }
        k = k + 1;
    }
    assert(s.take(sorted.len() as int) =~= s);
    assert(s.to_multiset() == all0.to_multiset());
    out
}

} // verus!
