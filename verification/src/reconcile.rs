//! The directory index reconciler.
//!
//! At startup the dataset tree is scanned for sample files. Whatever they
//! were named, each directory's samples are renumbered to the contiguous
//! sequence `0.png .. <n-1>.png` in two phases: every file is first renamed
//! to a staged name `<i>.png_`, whose trailing marker keeps it distinct
//! from every name a sample can start or end with, and the staged files are
//! then committed by stripping the marker. The per-directory counters
//! reached while staging become the index map the capture session starts
//! from.
//!
//! This module builds the rename plans and the index map from the scan
//! results; performing the renames, like the scan itself, is filesystem
//! work left to the surrounding program.

use crate::index_map::IndexMap;
use crate::names::{
    commit_name, final_name_of, is_sample_name, lemma_staged_name_injective,
    lemma_staged_name_not_sample, staged_name, staged_name_of, PathError,
};
use vstd::prelude::*;

verus! {

/// One file found by the scan: its canonical parent directory and its name
/// within that directory.
#[derive(Debug)]
pub struct ScanEntry {
    pub dir: String,
    pub name: String,
}

/// One rename to perform: within `dir`, the file `from` becomes `to`.
#[derive(Debug)]
pub struct Rename {
    pub dir: String,
    pub from: String,
    pub to: String,
}

/// How many of the first `upto` entries lie in directory `d`.
pub open spec fn count_in_dir(entries: Seq<ScanEntry>, d: Seq<char>, upto: int) -> nat
    decreases upto,
{
    if upto <= 0 {
        0
    } else {
        count_in_dir(entries, d, upto - 1) + if entries[upto - 1].dir@ == d {
            1nat
        } else {
            0nat
        }
    }
}

/// The staged index the reconciler assigns to entry `k`: how many earlier
/// entries share its directory.
pub open spec fn stage_index(entries: Seq<ScanEntry>, k: int) -> nat {
    count_in_dir(entries, entries[k].dir@, k)
}

pub proof fn lemma_count_monotonic(entries: Seq<ScanEntry>, d: Seq<char>, a: int, b: int)
    requires
        a <= b,
    ensures
        count_in_dir(entries, d, a) <= count_in_dir(entries, d, b),
    decreases b - a,
{
    if a < b {
        lemma_count_monotonic(entries, d, a, b - 1);
    }
}

/// Counting stops caring about entries past `upto`, so two scans that
/// agree on their first `upto` entries count alike.
pub proof fn lemma_count_prefix(
    e1: Seq<ScanEntry>,
    e2: Seq<ScanEntry>,
    d: Seq<char>,
    upto: int,
)
    requires
        upto <= e1.len(),
        upto <= e2.len(),
        forall|k: int| 0 <= k < upto ==> e1[k] == e2[k],
    ensures
        count_in_dir(e1, d, upto) == count_in_dir(e2, d, upto),
    decreases upto,
{
    if upto > 0 {
        lemma_count_prefix(e1, e2, d, upto - 1);
    }
}

/// Entries of the same directory get strictly growing staged indices, in
/// scan order.
pub proof fn lemma_stage_index_increases(entries: Seq<ScanEntry>, k1: int, k2: int)
    requires
        0 <= k1 < k2 <= entries.len(),
        entries[k1].dir@ == entries[k2].dir@,
    ensures
        stage_index(entries, k1) < stage_index(entries, k2),
{
    let d = entries[k1].dir@;
    assert(count_in_dir(entries, d, k1 + 1) == count_in_dir(entries, d, k1) + 1);
    lemma_count_monotonic(entries, d, k1 + 1, k2);
}

/// The staged indices assigned in directory `d`, in scan order.
pub open spec fn stage_indices(entries: Seq<ScanEntry>, d: Seq<char>) -> Seq<nat>
    decreases entries.len(),
{
    if entries.len() == 0 {
        Seq::empty()
    } else if entries.last().dir@ == d {
        stage_indices(entries.drop_last(), d).push(stage_index(entries, entries.len() - 1))
    } else {
        stage_indices(entries.drop_last(), d)
    }
}

/// Contiguity: whatever the scanned files were named, the staged indices
/// in each directory are exactly `0, 1, .., n - 1`, where `n` is the
/// directory's file count.
pub proof fn lemma_contiguity(entries: Seq<ScanEntry>, d: Seq<char>)
    ensures
        stage_indices(entries, d) == Seq::new(
            count_in_dir(entries, d, entries.len() as int),
            |i: int| i as nat,
        ),
    decreases entries.len(),
{
    let n = entries.len() as int;
    if n == 0 {
        assert(stage_indices(entries, d) =~= Seq::new(0nat, |i: int| i as nat));
    } else {
        let prefix = entries.drop_last();
        lemma_contiguity(prefix, d);
        assert(forall|k: int| 0 <= k < prefix.len() ==> prefix[k] == entries[k]);
        lemma_count_prefix(prefix, entries, d, n - 1);
        let c = count_in_dir(entries, d, n - 1);
        if entries.last().dir@ == d {
            assert(count_in_dir(entries, d, n) == c + 1);
            assert(stage_index(entries, n - 1) == c);
            assert(Seq::new((c + 1) as nat, |i: int| i as nat) =~= Seq::new(
                c,
                |i: int| i as nat,
            ).push(c));
        } else {
            assert(count_in_dir(entries, d, n) == c);
        }
    }
}

/// After the commit phase, a directory the scan found `n` samples in holds
/// exactly the names `0.png` through `<n-1>.png`.
pub proof fn lemma_reconciled_layout(entries: Seq<ScanEntry>, d: Seq<char>)
    ensures
        stage_indices(entries, d).map_values(|i: nat| final_name_of(i)) == reconciled_names(
            count_in_dir(entries, d, entries.len() as int),
        ),
{
    lemma_contiguity(entries, d);
    assert(stage_indices(entries, d).map_values(|i: nat| final_name_of(i)) =~= reconciled_names(
        count_in_dir(entries, d, entries.len() as int),
    ));
}

/// Stage phase: assign each scanned file its staged name and count each
/// directory's files. The plan renames entry `k` to `<i>.png_`, where `i`
/// is the number of earlier entries in the same directory; the returned
/// map gives each scanned directory its file count. No two renames in a
/// directory share a target, and no target collides with a scanned name,
/// so the renames cannot overwrite one another in any order.
pub fn build_stage_plan(entries: &Vec<ScanEntry>) -> (r: (Vec<Rename>, IndexMap))
    requires
        entries@.len() <= u32::MAX,
        forall|k: int| 0 <= k < entries@.len() ==> is_sample_name((#[trigger] entries@[k].name)@),
    ensures
        r.1.wf(),
        r.0@.len() == entries@.len(),
        forall|k: int|
            0 <= k < entries@.len() ==> {
                &&& (#[trigger] r.0@[k]).dir@ == entries@[k].dir@
                &&& r.0@[k].from@ == entries@[k].name@
                &&& r.0@[k].to@ == staged_name_of(stage_index(entries@, k))
            },
        forall|d: Seq<char>|
            #[trigger] r.1@.contains_key(d) <==> count_in_dir(entries@, d, entries@.len() as int)
                > 0,
        forall|d: Seq<char>|
            r.1@.contains_key(d) ==> r.1@[d] == count_in_dir(entries@, d, entries@.len() as int),
        forall|k1: int, k2: int|
            0 <= k1 < k2 < entries@.len() && entries@[k1].dir@ == entries@[k2].dir@ ==> (
            #[trigger] r.0@[k1]).to@ != (#[trigger] r.0@[k2]).to@,
        forall|k1: int, k2: int|
            0 <= k1 < entries@.len() && 0 <= k2 < entries@.len() && entries@[k1].dir@
                == entries@[k2].dir@ ==> (#[trigger] r.0@[k1]).to@ != (
            #[trigger] entries@[k2].name)@,
{
    let mut plan: Vec<Rename> = Vec::new();
    let mut map = IndexMap::new();
    let n = entries.len();
    let mut k: usize = 0;
    while k < n
        invariant
            n == entries@.len(),
            n <= u32::MAX,
            k <= n,
            map.wf(),
            plan@.len() == k,
            forall|j: int|
                0 <= j < k ==> {
                    &&& (#[trigger] plan@[j]).dir@ == entries@[j].dir@
                    &&& plan@[j].from@ == entries@[j].name@
                    &&& plan@[j].to@ == staged_name_of(stage_index(entries@, j))
                },
            forall|d: Seq<char>|
                #[trigger] map@.contains_key(d) <==> count_in_dir(entries@, d, k as int) > 0,
            forall|d: Seq<char>|
                map@.contains_key(d) ==> map@[d] == count_in_dir(entries@, d, k as int),
        decreases n - k,
    {
        let e = &entries[k];
        proof {
            if map@.contains_key(e.dir@) {
                assert(map@[e.dir@] == count_in_dir(entries@, e.dir@, k as int));
                assert(count_in_dir(entries@, e.dir@, k as int) <= k) by {
                    lemma_count_le(entries@, e.dir@, k as int);
                }
            }
        }
        let i = map.take_next(&e.dir);
        proof {
            assert(i == stage_index(entries@, k as int));
            assert(count_in_dir(entries@, e.dir@, k as int + 1) == count_in_dir(
                entries@,
                e.dir@,
                k as int,
            ) + 1);
            assert forall|d: Seq<char>| #[trigger] map@.contains_key(d) <==> count_in_dir(
                entries@,
                d,
                k as int + 1,
            ) > 0 by {
                assert(count_in_dir(entries@, d, k as int + 1) == count_in_dir(entries@, d, k as int)
                    + if entries@[k as int].dir@ == d {
                    1nat
                } else {
                    0nat
                });
            }
            assert forall|d: Seq<char>| map@.contains_key(d) implies map@[d] == count_in_dir(
                entries@,
                d,
                k as int + 1,
            ) by {
                assert(count_in_dir(entries@, d, k as int + 1) == count_in_dir(entries@, d, k as int)
                    + if entries@[k as int].dir@ == d {
                    1nat
                } else {
                    0nat
                });
            }
        }
        let to = staged_name(i);
        plan.push(Rename { dir: e.dir.clone(), from: e.name.clone(), to });
        k += 1;
    }
    proof {
        assert forall|k1: int, k2: int|
            0 <= k1 < k2 < entries@.len() && entries@[k1].dir@ == entries@[k2].dir@ implies (
        #[trigger] plan@[k1]).to@ != (#[trigger] plan@[k2]).to@ by {
            lemma_stage_index_increases(entries@, k1, k2);
            if plan@[k1].to@ == plan@[k2].to@ {
                lemma_staged_name_injective(stage_index(entries@, k1), stage_index(entries@, k2));
            }
        }
        assert forall|k1: int, k2: int|
            0 <= k1 < entries@.len() && 0 <= k2 < entries@.len() && entries@[k1].dir@
                == entries@[k2].dir@ implies (#[trigger] plan@[k1]).to@ != (
        #[trigger] entries@[k2].name)@ by {
            lemma_staged_name_not_sample(stage_index(entries@, k1), entries@[k2].name@);
        }
    }
    (plan, map)
}

proof fn lemma_count_le(entries: Seq<ScanEntry>, d: Seq<char>, upto: int)
    requires
        0 <= upto,
    ensures
        count_in_dir(entries, d, upto) <= upto,
    decreases upto,
{
    if upto > 0 {
        lemma_count_le(entries, d, upto - 1);
    }
}

/// The names the scan found in directory `d`, in scan order.
pub open spec fn names_in_dir(entries: Seq<ScanEntry>, d: Seq<char>) -> Seq<Seq<char>>
    decreases entries.len(),
{
    if entries.len() == 0 {
        Seq::empty()
    } else if entries.last().dir@ == d {
        names_in_dir(entries.drop_last(), d).push(entries.last().name@)
    } else {
        names_in_dir(entries.drop_last(), d)
    }
}

/// The names a reconciled directory with `n` samples holds: `0.png`
/// through `<n-1>.png`.
pub open spec fn reconciled_names(n: nat) -> Seq<Seq<char>> {
    Seq::new(n, |i: int| final_name_of(i as nat))
}

/// A directory's file count equals the number of names scanned in it.
pub proof fn lemma_names_count(entries: Seq<ScanEntry>, d: Seq<char>)
    ensures
        names_in_dir(entries, d).len() == count_in_dir(entries, d, entries.len() as int),
    decreases entries.len(),
{
    if entries.len() > 0 {
        let prefix = entries.drop_last();
        lemma_names_count(prefix, d);
        assert(forall|k: int| 0 <= k < prefix.len() ==> prefix[k] == entries[k]);
        lemma_count_prefix(prefix, entries, d, entries.len() - 1);
    }
}

/// Idempotence: a rescan of a reconciled directory, finding exactly the
/// names the first reconciliation laid down (in any order), is assigned
/// the same file count, so reconciling again yields the same layout and
/// the same index map entry.
pub proof fn lemma_reconcile_idempotent(
    prev: Seq<ScanEntry>,
    rescan: Seq<ScanEntry>,
    d: Seq<char>,
)
    requires
        names_in_dir(rescan, d).to_multiset() == reconciled_names(
            count_in_dir(prev, d, prev.len() as int),
        ).to_multiset(),
    ensures
        count_in_dir(rescan, d, rescan.len() as int) == count_in_dir(prev, d, prev.len() as int),
        reconciled_names(count_in_dir(rescan, d, rescan.len() as int)) == reconciled_names(
            count_in_dir(prev, d, prev.len() as int),
        ),
{
    let s1 = names_in_dir(rescan, d);
    let s2 = reconciled_names(count_in_dir(prev, d, prev.len() as int));
    s1.to_multiset_ensures();
    s2.to_multiset_ensures();
    assert(s1.len() == s2.len());
    lemma_names_count(rescan, d);
}

/// Commit phase: strip the marker from every staged name found by the
/// rescan. Fails only when a scanned name is empty.
pub fn build_commit_plan(staged: &Vec<ScanEntry>) -> (r: Result<Vec<Rename>, PathError>)
    ensures
        (r is Ok) <==> (forall|k: int|
            0 <= k < staged@.len() ==> (#[trigger] staged@[k].name)@.len() > 0),
        r matches Ok(plan) ==> {
            &&& plan@.len() == staged@.len()
            &&& forall|k: int|
                0 <= k < staged@.len() ==> {
                    &&& (#[trigger] plan@[k]).dir@ == staged@[k].dir@
                    &&& plan@[k].from@ == staged@[k].name@
                    &&& plan@[k].to@ == staged@[k].name@.drop_last()
                }
        },
{
    let mut plan: Vec<Rename> = Vec::new();
    let n = staged.len();
    let mut k: usize = 0;
    while k < n
        invariant
            n == staged@.len(),
            k <= n,
            plan@.len() == k,
            forall|j: int|
                0 <= j < k ==> {
                    &&& (#[trigger] plan@[j]).dir@ == staged@[j].dir@
                    &&& plan@[j].from@ == staged@[j].name@
                    &&& plan@[j].to@ == staged@[j].name@.drop_last()
                },
            forall|j: int| 0 <= j < k ==> (#[trigger] staged@[j].name)@.len() > 0,
        decreases n - k,
    {
        let e = &staged[k];
        match commit_name(e.name.as_str()) {
            Ok(to) => {
                plan.push(Rename { dir: e.dir.clone(), from: e.name.clone(), to });
            },
            Err(err) => {
                return Err(err);
            },
        }
        k += 1;
    }
    Ok(plan)
}

} // verus!
