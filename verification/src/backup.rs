//! Backup naming, rotation and listing rules. Backups are consistent copies
//! of the replica database named `<prefix>-<yyyymmdd-hhmmss>.sqlite3`, so
//! that their names sort chronologically; per prefix only the newest ten are
//! kept. Copying and renaming files is the caller's.

use vstd::prelude::*;
use crate::task::concat;
use crate::text::{
    chars_of, contains_sub, lemma_lex_order_antisymmetric, lemma_lex_order_transitive,
    lemma_lex_order_zero, lex_order, spec_contains_sub,
    spec_lex_order, strip_prefix, spec_strip_prefix,
};

verus! {

/// File name of the replica database.
pub const DB_FILENAME: &'static str = "taskchampion.sqlite3";

/// How many backups of one prefix are kept.
pub const MAX_ROTATED: usize = 10;

/// The replica database inside the replica directory.
pub fn db_path(replica_dir: &std::path::PathBuf) -> (r: std::path::PathBuf)
    ensures
        r == crate::config::spec_path_join(*replica_dir, DB_FILENAME@),
{
    crate::config::path_join(replica_dir, DB_FILENAME)
}

/// One backup as the restore dialog lists it.
#[derive(Debug, Clone)]
pub struct BackupEntry {
    pub filename: String,
    pub size_bytes: u64,
    pub modified: i64,
}

/// The file name of a backup: `<prefix>-<stamp>.sqlite3`.
pub fn backup_file_name(prefix: &str, stamp: &str) -> (r: String)
    ensures
        r@ == prefix@ + "-"@ + stamp@ + ".sqlite3"@,
{
    let a = concat(prefix, "-");
    let b = concat(a.as_str(), stamp);
    concat(b.as_str(), ".sqlite3")
}

/// The local time now as chrono formats it with `%Y%m%d-%H%M%S`
/// (`chrono::Local::now().format(..)`). It depends on the clock and the
/// machine's time zone, so nothing is stated of it.
#[verifier::external_body]
fn local_now_stamp() -> (r: String) {
    chrono::Local::now().format("%Y%m%d-%H%M%S").to_string()
}

/// The file name of a new backup: `<prefix>-<local time now>.sqlite3`.
pub fn timestamp_name(prefix: &str) -> (r: String)
    ensures
        exists|stamp: Seq<char>| r@ == prefix@ + "-"@ + stamp + ".sqlite3"@,
{
    let stamp = local_now_stamp();
    backup_file_name(prefix, stamp.as_str())
}

/// Whether `s` ends with `suffix`.
pub open spec fn spec_ends_with(s: Seq<char>, suffix: Seq<char>) -> bool {
    suffix.len() <= s.len() && s.subrange(s.len() - suffix.len(), s.len() as int) == suffix
}

fn ends_with(v: &Vec<char>, suffix: &str) -> (r: bool)
    ensures
        r == spec_ends_with(v@, suffix@),
{
    let s = chars_of(suffix);
    if s.len() > v.len() {
        return false;
    }
    let off = v.len() - s.len();
    let mut i: usize = 0;
    while i < s.len()
        invariant
            s@ == suffix@,
            off + s.len() == v.len(),
            i <= s.len(),
            forall|k: int| 0 <= k < i ==> v@[off + k] == s@[k],
        decreases s.len() - i,
    {
        if v[off + i] != s[i] {
            assert(v@.subrange(off as int, v.len() as int)[i as int] != s@[i as int]);
            return false;
        }
        i = i + 1;
    }
    assert(v@.subrange(off as int, v.len() as int) =~= s@);
    true
}

/// Whether a name is a backup file (`*.sqlite3`).
pub fn is_backup_file(name: &str) -> (r: bool)
    ensures
        r == spec_ends_with(name@, ".sqlite3"@),
{
    ends_with(&chars_of(name), ".sqlite3")
}

/// Whether a backup file belongs to the rotation of `prefix`:
/// `<prefix>-….sqlite3`.
pub open spec fn spec_in_rotation(name: Seq<char>, prefix: Seq<char>) -> bool {
    spec_strip_prefix(prefix + "-"@, name) is Some && spec_ends_with(name, ".sqlite3"@)
}

fn in_rotation(name: &String, prefix: &str) -> (r: bool)
    ensures
        r == spec_in_rotation(name@, prefix@),
{
    let v = chars_of(name.as_str());
    let p = chars_of(concat(prefix, "-").as_str());
    match strip_prefix(&p, &v) {
        Some(_) => ends_with(&v, ".sqlite3"),
        None => false,
    }
}

/// Whether a restore may use the name: a bare file name, without `/` and
/// without `..`, so that no path leaves the backup directory.
pub open spec fn spec_safe_backup_name(name: Seq<char>) -> bool {
    !spec_contains_sub(name, "/"@) && !spec_contains_sub(name, ".."@)
}

/// Rejects path traversal in a backup name given to a restore.
pub fn is_safe_backup_name(filename: &str) -> (r: bool)
    ensures
        r == spec_safe_backup_name(filename@),
{
    let v = chars_of(filename);
    !contains_sub(&v, &chars_of("/")) && !contains_sub(&v, &chars_of(".."))
}

/// The names that belong to the rotation of `prefix`, in their order.
pub open spec fn rotation_names(names: Seq<Seq<char>>, prefix: Seq<char>) -> Seq<Seq<char>>
    decreases names.len(),
{
    if names.len() == 0 {
        Seq::empty()
    } else {
        let prev = rotation_names(names.drop_last(), prefix);
        if spec_in_rotation(names.last(), prefix) {
            prev.push(names.last())
        } else {
            prev
        }
    }
}

/// Whether neighbouring names are in ascending code-point order.
pub open spec fn lex_sorted(s: Seq<Seq<char>>) -> bool {
    forall|k: int| 0 <= k && k + 1 < s.len() ==> spec_lex_order(#[trigger] s[k], s[k + 1]) <= 0
}

/// Sorts names in ascending code-point order (the order of the timestamps
/// in backup names).
fn sort_names(v: &mut Vec<String>)
    ensures
        final(v).deep_view().to_multiset() == old(v).deep_view().to_multiset(),
        lex_sorted(final(v).deep_view()),
{
    broadcast use vstd::seq_lib::group_to_multiset_ensures;
    let n = v.len();
    if n < 2 {
        return;
    }
    let mut i: usize = 1;
    while i < n
        invariant
            1 <= i <= n,
            v@.len() == n,
            v.deep_view().to_multiset() == old(v).deep_view().to_multiset(),
            forall|k: int|
                0 <= k && k + 1 < i ==> spec_lex_order(#[trigger] v.deep_view()[k], v.deep_view()[k + 1])
                    <= 0,
        decreases n - i,
    {
        let ghost d0 = v.deep_view();
        let x = v.remove(i);
        let ghost d1 = v.deep_view();
        proof {
            assert(d1 =~= d0.remove(i as int));
            vstd::seq_lib::to_multiset_remove(d0, i as int);
        }
        let xv = chars_of(x.as_str());
        let mut j: usize = i;
        while j > 0 && lex_order(&chars_of(v[j - 1].as_str()), &xv) > 0
            invariant
                j <= i,
                i < n,
                xv@ == x@,
                v.deep_view() == d1,
                d1.len() == n - 1,
                j < i ==> spec_lex_order(d1[j as int], x@) > 0,
            decreases j,
        {
            j = j - 1;
        }
        v.insert(j, x);
        proof {
            let d2 = v.deep_view();
            assert(d2 =~= d1.insert(j as int, x@));
            vstd::seq_lib::to_multiset_insert(d1, j as int, x@);
            assert(d0[i as int] == x@);
            assert(d0.contains(x@));
            vstd::seq_lib::to_multiset_contains(d0, x@);
            broadcast use vstd::multiset::group_multiset_axioms;
            assert(d0.to_multiset().remove(x@).insert(x@) =~= d0.to_multiset());
            assert forall|k: int| 0 <= k && k + 1 < i + 1 implies spec_lex_order(
                #[trigger] d2[k],
                d2[k + 1],
            ) <= 0 by {
                if k + 1 < j {
                    assert(d2[k] == d0[k] && d2[k + 1] == d0[k + 1]);
                } else if k + 1 == j {
                    assert(d2[k] == d1[k] && d2[k + 1] == x@);
                } else if k == j {
                    assert(d2[k] == x@ && d2[k + 1] == d1[j as int]);
                    lemma_lex_order_antisymmetric(d1[j as int], x@);
                } else {
                    assert(d2[k] == d0[k - 1] && d2[k + 1] == d0[k]);
                }
            }
        }
        i = i + 1;
    }
}

/// The backups of `prefix` that rotation deletes: all but the newest
/// [`MAX_ROTATED`], that is the oldest names in sorted order.
pub open spec fn is_rotation_victims(
    r: Seq<Seq<char>>,
    names: Seq<Seq<char>>,
    prefix: Seq<char>,
) -> bool {
    exists|s: Seq<Seq<char>>|
        s.to_multiset() == rotation_names(names, prefix).to_multiset() && lex_sorted(s) && r == (
        if s.len() > 10 {
            s.take(s.len() - 10)
        } else {
            Seq::<Seq<char>>::empty()
        })
}

proof fn lemma_lex_sorted_pairs(s: Seq<Seq<char>>, a: int, b: int)
    requires
        lex_sorted(s),
        0 <= a <= b < s.len(),
    ensures
        spec_lex_order(s[a], s[b]) <= 0,
    decreases b - a,
{
    if a == b {
        lemma_lex_order_zero(s[a], s[b]);
    } else {
        lemma_lex_sorted_pairs(s, a, b - 1);
        assert(spec_lex_order(s[b - 1], s[b]) <= 0);
        lemma_lex_order_transitive(s[a], s[b - 1], s[b]);
    }
}

/// Rotation keeps the newest [`MAX_ROTATED`] backups of its prefix: it
/// deletes all others, and no deleted one sorts after a kept one.
pub proof fn lemma_rotation_keeps_newest_ten(
    r: Seq<Seq<char>>,
    names: Seq<Seq<char>>,
    prefix: Seq<char>,
)
    requires
        is_rotation_victims(r, names, prefix),
    ensures
        ({
            let rot = rotation_names(names, prefix);
            &&& r.len() == if rot.len() > 10 {
                rot.len() - 10
            } else {
                0
            }
            &&& r.to_multiset().subset_of(rot.to_multiset())
            &&& forall|v: Seq<char>, k: Seq<char>|
                r.contains(v) && rot.to_multiset().sub(r.to_multiset()).contains(k) ==> spec_lex_order(
                    v,
                    k,
                ) <= 0
        }),
{
    broadcast use vstd::multiset::group_multiset_axioms;
    broadcast use vstd::seq_lib::group_to_multiset_ensures;
    let rot = rotation_names(names, prefix);
    let s = choose|s: Seq<Seq<char>>|
        s.to_multiset() == rot.to_multiset() && lex_sorted(s) && r == (if s.len() > 10 {
            s.take(s.len() - 10)
        } else {
            Seq::<Seq<char>>::empty()
        });
    vstd::seq_lib::to_multiset_len(s);
    vstd::seq_lib::to_multiset_len(rot);
    let m: int = if s.len() > 10 {
        s.len() - 10
    } else {
        0
    };
    let front = s.take(m);
    let back = s.skip(m);
    assert(r == front);
    assert(s =~= front + back);
    vstd::seq_lib::lemma_multiset_commutative(front, back);
    assert(rot.to_multiset().sub(r.to_multiset()) =~= back.to_multiset());
    assert(r.to_multiset().subset_of(rot.to_multiset()));
    assert forall|v: Seq<char>, k: Seq<char>|
        r.contains(v) && rot.to_multiset().sub(r.to_multiset()).contains(k) implies spec_lex_order(
        v,
        k,
    ) <= 0 by {
        vstd::seq_lib::to_multiset_contains(back, k);
        let a = choose|a: int| 0 <= a < front.len() && front[a] == v;
        let b = choose|b: int| 0 <= b < back.len() && back[b] == k;
        assert(s[a] == v && s[m + b] == k);
        lemma_lex_sorted_pairs(s, a, m + b);
    }
}

/// Picks the backups that rotation deletes from the names in the backup
/// directory (see [`is_rotation_victims`]).
pub fn rotation_victims(names: &Vec<String>, prefix: &str) -> (r: Vec<String>)
    ensures
        is_rotation_victims(r.deep_view(), names.deep_view(), prefix@),
{
    let mut cands: Vec<String> = Vec::new();
    let mut i: usize = 0;
    let ghost nv = names.deep_view();
    assert(nv.take(0) =~= Seq::<Seq<char>>::empty());
    while i < names.len()
        invariant
            i <= names.len(),
            nv == names.deep_view(),
            cands.deep_view() == rotation_names(nv.take(i as int), prefix@),
        decreases names.len() - i,
    {
        assert(nv.take(i + 1).drop_last() =~= nv.take(i as int));
        if in_rotation(&names[i], prefix) {
            let ghost before = cands.deep_view();
            cands.push(names[i].clone());
            assert(cands.deep_view() =~= before.push(nv[i as int]));
        }
        i = i + 1;
    }
    assert(nv.take(names.len() as int) =~= nv);
    let ghost collected = cands.deep_view();
    sort_names(&mut cands);
    let mut out: Vec<String> = Vec::new();
    if cands.len() > MAX_ROTATED {
        let cut = cands.len() - MAX_ROTATED;
        let mut k: usize = 0;
        while k < cut
            invariant
                k <= cut,
                cut == cands@.len() - 10,
                out.deep_view() =~= cands.deep_view().take(k as int),
            decreases cut - k,
        {
            out.push(cands[k].clone());
            assert(cands.deep_view().take(k + 1) =~= cands.deep_view().take(k as int).push(
                cands.deep_view()[k as int],
            ));
            k = k + 1;
        }
    }
    assert(out.deep_view() == if cands.deep_view().len() > 10 {
        cands.deep_view().take(cands.deep_view().len() - 10)
    } else {
        Seq::<Seq<char>>::empty()
    });
    out
}

/// Whether backups are listed newest first (descending names).
pub open spec fn newest_first(s: Seq<BackupEntry>) -> bool {
    forall|k: int|
        0 <= k && k + 1 < s.len() ==> spec_lex_order(#[trigger] s[k].filename@, s[k + 1].filename@)
            >= 0
}

/// Orders backups newest first for the restore dialog.
pub fn sort_backups_newest_first(v: &mut Vec<BackupEntry>)
    ensures
        final(v)@.to_multiset() == old(v)@.to_multiset(),
        newest_first(final(v)@),
{
    broadcast use vstd::seq_lib::group_to_multiset_ensures;
    let n = v.len();
    if n < 2 {
        return;
    }
    let mut i: usize = 1;
    while i < n
        invariant
            1 <= i <= n,
            v@.len() == n,
            v@.to_multiset() == old(v)@.to_multiset(),
            forall|k: int|
                0 <= k && k + 1 < i ==> spec_lex_order(#[trigger] v@[k].filename@, v@[k + 1].filename@)
                    >= 0,
        decreases n - i,
    {
        let ghost s0 = v@;
        let x = v.remove(i);
        let ghost s1 = v@;
        proof {
            vstd::seq_lib::to_multiset_remove(s0, i as int);
        }
        let xv = chars_of(x.filename.as_str());
        let mut j: usize = i;
        while j > 0 && lex_order(&chars_of(v[j - 1].filename.as_str()), &xv) < 0
            invariant
                j <= i,
                i < n,
                xv@ == x.filename@,
                v@ == s1,
                s1.len() == n - 1,
                j < i ==> spec_lex_order(s1[j as int].filename@, x.filename@) < 0,
            decreases j,
        {
            j = j - 1;
        }
        v.insert(j, x);
        proof {
            vstd::seq_lib::to_multiset_insert(s1, j as int, x);
            assert(s0[i as int] == x);
            assert(s0.contains(x));
            vstd::seq_lib::to_multiset_contains(s0, x);
            broadcast use vstd::multiset::group_multiset_axioms;
            assert(s0.to_multiset().remove(x).insert(x) =~= s0.to_multiset());
            let t = v@;
            assert forall|k: int| 0 <= k && k + 1 < i + 1 implies spec_lex_order(
                #[trigger] t[k].filename@,
                t[k + 1].filename@,
            ) >= 0 by {
                if k + 1 < j {
                    assert(t[k] == s0[k] && t[k + 1] == s0[k + 1]);
                } else if k + 1 == j {
                    assert(t[k] == s1[k] && t[k + 1] == x);
                } else if k == j {
                    assert(t[k] == x && t[k + 1] == s1[j as int]);
                    lemma_lex_order_antisymmetric(s1[j as int].filename@, x.filename@);
                } else {
                    assert(t[k] == s0[k - 1] && t[k + 1] == s0[k]);
                }
            }
        }
        i = i + 1;
    }
}

} // verus!
