//! The change tracker as mathematics: which descriptors of a scan count as
//! changed, what the tracker remembers afterwards, and what it runs.
//!
//! The tracker remembers, for each path it has seen, the descriptor that
//! last counted as a change. A descriptor is eligible when its path is new,
//! or when the remembered descriptor is older than it on either timestamp.
//! Only an eligible descriptor replaces the remembered one.

use super::grammar::Rule;
use super::run_mode::RunMode;
use super::template::rendered;
use crate::types::FileView;
use vstd::prelude::*;

verus! {

/// Whether every remembered descriptor is stored under its own path.
pub open spec fn consistent(known: Map<Seq<char>, FileView>) -> bool {
    forall|p: Seq<char>| #[trigger] known.contains_key(p) ==> known[p].path == p
}

/// Whether a descriptor counts as a change against what is remembered.
pub open spec fn eligible(known: Map<Seq<char>, FileView>, d: FileView) -> bool {
    known.contains_key(d.path) ==> known[d.path].is_older(d)
}

/// What is remembered after one descriptor has been observed.
pub open spec fn observed(known: Map<Seq<char>, FileView>, d: FileView) -> Map<
    Seq<char>,
    FileView,
> {
    if eligible(known, d) {
        known.insert(d.path, d)
    } else {
        known
    }
}

/// What is remembered after a scan has been observed, descriptor by
/// descriptor, in the order of the scan.
pub open spec fn observed_all(known: Map<Seq<char>, FileView>, scan: Seq<FileView>) -> Map<
    Seq<char>,
    FileView,
>
    decreases scan.len(),
{
    if scan.len() == 0 {
        known
    } else {
        observed(observed_all(known, scan.drop_last()), scan.last())
    }
}

/// The descriptors of a scan that were eligible when their turn came, in the
/// order of the scan.
pub open spec fn triggered(known: Map<Seq<char>, FileView>, scan: Seq<FileView>) -> Seq<
    FileView,
>
    decreases scan.len(),
{
    if scan.len() == 0 {
        Seq::empty()
    } else {
        let before = triggered(known, scan.drop_last());
        if eligible(observed_all(known, scan.drop_last()), scan.last()) {
            before.push(scan.last())
        } else {
            before
        }
    }
}

/// One command line for each descriptor, rendered with that descriptor.
pub open spec fn rendered_each(rule: Rule, files: Seq<FileView>) -> Seq<Seq<char>> {
    files.map_values(|d: FileView| rendered(rule, Some(d)))
}

/// The command lines that a scan makes a rule run, in the order in which
/// they are run.
///
/// A rule per file runs once for each triggered descriptor, rendered with
/// that descriptor. A rule per directory runs once, rendered without a file,
/// if anything was triggered at all.
pub open spec fn dispatches(
    rule: Rule,
    known: Map<Seq<char>, FileView>,
    scan: Seq<FileView>,
) -> Seq<Seq<char>> {
    let changed = triggered(known, scan);
    match rule.run_mode {
        RunMode::File => rendered_each(rule, changed),
        RunMode::Directory => if changed.len() > 0 {
            seq![rendered(rule, None)]
        } else {
            Seq::empty()
        },
    }
}

/// Whether no two descriptors of a scan share a path.
pub open spec fn distinct_paths(scan: Seq<FileView>) -> bool {
    forall|i: int, j: int|
        0 <= i < j < scan.len() ==> (#[trigger] scan[i]).path != (#[trigger] scan[j]).path
}

/// A scan of one descriptor observes that descriptor, and triggers it if it
/// is eligible.
pub proof fn lemma_scan_of_one(known: Map<Seq<char>, FileView>, d: FileView)
    ensures
        observed_all(known, seq![d]) == observed(known, d),
        triggered(known, seq![d]) == if eligible(known, d) {
            seq![d]
        } else {
            Seq::<FileView>::empty()
        },
{
    let scan = seq![d];
    assert(scan.drop_last() =~= Seq::<FileView>::empty());
    assert(scan.last() == d);
    assert(observed_all(known, scan.drop_last()) == known);
    assert(triggered(known, scan.drop_last()) =~= Seq::<FileView>::empty());
    assert(Seq::<FileView>::empty().push(d) =~= seq![d]);
}

/// A path that was never seen is eligible whatever its timestamps, and is
/// remembered from then on.
pub proof fn lemma_unseen_path_is_eligible(known: Map<Seq<char>, FileView>, d: FileView)
    requires
        !known.contains_key(d.path),
    ensures
        eligible(known, d),
        triggered(known, seq![d]) == seq![d],
        observed_all(known, seq![d]) == known.insert(d.path, d),
{
    lemma_scan_of_one(known, d);
}

/// A descriptor that is later on the modification timestamp than the
/// remembered one is eligible and replaces it. So does one that is later on
/// the creation timestamp.
pub proof fn lemma_later_descriptor_is_eligible(known: Map<Seq<char>, FileView>, d: FileView)
    requires
        known.contains_key(d.path),
        known[d.path].modified_at < d.modified_at || known[d.path].created_at < d.created_at,
    ensures
        eligible(known, d),
        triggered(known, seq![d]) == seq![d],
        observed_all(known, seq![d]) == known.insert(d.path, d),
{
    lemma_scan_of_one(known, d);
}

/// A descriptor that is later on neither timestamp than the remembered one
/// is not eligible, and nothing changes: time that stands still or runs
/// backwards never triggers.
pub proof fn lemma_not_later_descriptor_is_ignored(known: Map<Seq<char>, FileView>, d: FileView)
    requires
        known.contains_key(d.path),
        d.created_at <= known[d.path].created_at,
        d.modified_at <= known[d.path].modified_at,
    ensures
        !eligible(known, d),
        triggered(known, seq![d]) == Seq::<FileView>::empty(),
        observed_all(known, seq![d]) == known,
{
    lemma_scan_of_one(known, d);
}

/// Observing the same descriptor a second time triggers nothing and changes
/// nothing, whether or not the first observation did.
pub proof fn lemma_same_descriptor_twice(known: Map<Seq<char>, FileView>, d: FileView)
    ensures
        !eligible(observed_all(known, seq![d]), d),
        triggered(observed_all(known, seq![d]), seq![d]) == Seq::<FileView>::empty(),
        observed_all(observed_all(known, seq![d]), seq![d]) == observed_all(known, seq![d]),
{
    lemma_scan_of_one(known, d);
    lemma_scan_of_one(observed(known, d), d);
}

/// One observation never forgets a path, and never puts a descriptor in the
/// place of one that is not older than it.
pub proof fn lemma_observed_never_regresses(
    known: Map<Seq<char>, FileView>,
    d: FileView,
    p: Seq<char>,
)
    requires
        known.contains_key(p),
    ensures
        observed(known, d).contains_key(p),
        observed(known, d)[p] == known[p] || known[p].is_older(observed(known, d)[p]),
{
}

/// Observing a scan keeps every descriptor under its own path.
pub proof fn lemma_observed_all_consistent(known: Map<Seq<char>, FileView>, scan: Seq<FileView>)
    requires
        consistent(known),
    ensures
        consistent(observed_all(known, scan)),
    decreases scan.len(),
{
    if scan.len() > 0 {
        lemma_observed_all_consistent(known, scan.drop_last());
    }
}

/// After a scan, exactly the paths known before and the paths of the scan
/// are remembered.
pub proof fn lemma_observed_all_paths(
    known: Map<Seq<char>, FileView>,
    scan: Seq<FileView>,
    p: Seq<char>,
)
    ensures
        observed_all(known, scan).contains_key(p) <==> known.contains_key(p) || exists|i: int|
            0 <= i < scan.len() && (#[trigger] scan[i]).path == p,
    decreases scan.len(),
{
    if scan.len() > 0 {
        let front = scan.drop_last();
        lemma_observed_all_paths(known, front, p);
        if exists|i: int| 0 <= i < front.len() && (#[trigger] front[i]).path == p {
            let i = choose|i: int| 0 <= i < front.len() && (#[trigger] front[i]).path == p;
            assert(scan[i].path == p);
        }
        if exists|i: int| 0 <= i < scan.len() && (#[trigger] scan[i]).path == p {
            let i = choose|i: int| 0 <= i < scan.len() && (#[trigger] scan[i]).path == p;
            if i < front.len() {
                assert(front[i].path == p);
            } else {
                assert(scan.last().path == p);
            }
        }
    }
}

/// A scan leaves alone what is remembered for a path that it does not
/// hold.
pub proof fn lemma_observed_all_elsewhere(
    known: Map<Seq<char>, FileView>,
    scan: Seq<FileView>,
    p: Seq<char>,
)
    requires
        forall|i: int| 0 <= i < scan.len() ==> (#[trigger] scan[i]).path != p,
    ensures
        observed_all(known, scan).contains_key(p) == known.contains_key(p),
        known.contains_key(p) ==> observed_all(known, scan)[p] == known[p],
    decreases scan.len(),
{
    if scan.len() > 0 {
        let front = scan.drop_last();
        assert forall|i: int| 0 <= i < front.len() implies (#[trigger] front[i]).path != p by {
            assert(front[i] == scan[i]);
        }
        lemma_observed_all_elsewhere(known, front, p);
        assert(scan.last() == scan[scan.len() - 1]);
    }
}

/// Over a scan that names each path once, no path is forgotten and no
/// descriptor gives way to one that it is not older than.
pub proof fn lemma_scan_never_regresses(
    known: Map<Seq<char>, FileView>,
    scan: Seq<FileView>,
    p: Seq<char>,
)
    requires
        distinct_paths(scan),
        known.contains_key(p),
    ensures
        observed_all(known, scan).contains_key(p),
        observed_all(known, scan)[p] == known[p] || known[p].is_older(
            observed_all(known, scan)[p],
        ),
    decreases scan.len(),
{
    if scan.len() > 0 {
        let front = scan.drop_last();
        let last = scan.last();
        lemma_distinct_paths_front(scan);
        lemma_scan_never_regresses(known, front, p);
        if last.path == p {
            assert forall|i: int| 0 <= i < front.len() implies (#[trigger] front[i]).path
                != p by {
                assert(front[i] == scan[i]);
                assert(scan[i].path != scan[scan.len() - 1].path);
            }
            lemma_observed_all_elsewhere(known, front, p);
        }
    }
}

/// In a scan that names each path once, every descriptor that counts as a
/// change against what was known before the scan is triggered: the
/// triggered descriptors are those, in the order of the scan.
pub proof fn lemma_triggered_is_filter(known: Map<Seq<char>, FileView>, scan: Seq<FileView>)
    requires
        distinct_paths(scan),
    ensures
        triggered(known, scan) == scan.filter(|d: FileView| eligible(known, d)),
    decreases scan.len(),
{
    let changed = |d: FileView| eligible(known, d);
    if scan.len() == 0 {
        assert(scan.filter(changed) =~= Seq::<FileView>::empty()) by {
            reveal(Seq::filter);
        }
    } else {
        let front = scan.drop_last();
        let last = scan.last();
        lemma_distinct_paths_front(scan);
        lemma_triggered_is_filter(known, front);
        assert forall|i: int| 0 <= i < front.len() implies (#[trigger] front[i]).path
            != last.path by {
            assert(front[i] == scan[i]);
            assert(scan[i].path != scan[scan.len() - 1].path);
        }
        lemma_observed_all_elsewhere(known, front, last.path);
        assert(eligible(observed_all(known, front), last) == eligible(known, last));
        assert(scan.filter(changed) == if changed(last) {
            front.filter(changed).push(last)
        } else {
            front.filter(changed)
        }) by {
            reveal(Seq::filter);
        }
    }
}

/// Where every descriptor of a scan counts as a change and no path comes
/// twice, a rule per file runs once for each descriptor, in the order of the
/// scan and each with its own descriptor, and a rule per directory runs
/// exactly once unless the scan is empty.
pub proof fn lemma_all_changed(rule: Rule, known: Map<Seq<char>, FileView>, scan: Seq<FileView>)
    requires
        distinct_paths(scan),
        forall|i: int| 0 <= i < scan.len() ==> eligible(known, #[trigger] scan[i]),
    ensures
        triggered(known, scan) == scan,
        rule.run_mode == RunMode::File ==> dispatches(rule, known, scan) == rendered_each(
            rule,
            scan,
        ),
        rule.run_mode == RunMode::File ==> dispatches(rule, known, scan).len() == scan.len(),
        rule.run_mode == RunMode::Directory && scan.len() > 0 ==> dispatches(rule, known, scan)
            == seq![rendered(rule, None)],
        rule.run_mode == RunMode::Directory && scan.len() == 0 ==> dispatches(rule, known, scan)
            == Seq::<Seq<char>>::empty(),
{
    lemma_triggered_is_filter(known, scan);
    lemma_filter_all(scan, |d: FileView| eligible(known, d));
}

/// A rule per directory runs at most once for a scan, and once exactly
/// when something was triggered; a rule per file runs once for each
/// triggered descriptor.
pub proof fn lemma_dispatch_count(rule: Rule, known: Map<Seq<char>, FileView>, scan: Seq<FileView>)
    ensures
        rule.run_mode == RunMode::Directory ==> dispatches(rule, known, scan).len() == (
        if triggered(known, scan).len() > 0 {
            1nat
        } else {
            0nat
        }),
        rule.run_mode == RunMode::File ==> dispatches(rule, known, scan).len() == triggered(
            known,
            scan,
        ).len(),
        triggered(known, scan).len() <= scan.len(),
{
    lemma_triggered_len(known, scan);
}

/// Observing once more a scan that names each path once triggers nothing,
/// runs nothing and changes nothing.
pub proof fn lemma_rescan_is_quiet(rule: Rule, known: Map<Seq<char>, FileView>, scan: Seq<FileView>)
    requires
        distinct_paths(scan),
    ensures
        triggered(observed_all(known, scan), scan) == Seq::<FileView>::empty(),
        observed_all(observed_all(known, scan), scan) == observed_all(known, scan),
        dispatches(rule, observed_all(known, scan), scan) == Seq::<Seq<char>>::empty(),
{
    let after = observed_all(known, scan);
    lemma_settled_after_scan(known, scan);
    lemma_settled_scan_is_quiet(after, scan);
    assert(rendered_each(rule, Seq::<FileView>::empty()) =~= Seq::<Seq<char>>::empty());
}

proof fn lemma_distinct_paths_front(scan: Seq<FileView>)
    requires
        distinct_paths(scan),
        scan.len() > 0,
    ensures
        distinct_paths(scan.drop_last()),
{
    let front = scan.drop_last();
    assert forall|i: int, j: int| 0 <= i < j < front.len() implies (#[trigger] front[i]).path != (
    #[trigger] front[j]).path by {
        assert(front[i] == scan[i]);
        assert(front[j] == scan[j]);
    }
}

proof fn lemma_triggered_len(known: Map<Seq<char>, FileView>, scan: Seq<FileView>)
    ensures
        triggered(known, scan).len() <= scan.len(),
    decreases scan.len(),
{
    if scan.len() > 0 {
        lemma_triggered_len(known, scan.drop_last());
    }
}

proof fn lemma_filter_all(scan: Seq<FileView>, keep: spec_fn(FileView) -> bool)
    requires
        forall|i: int| 0 <= i < scan.len() ==> keep(#[trigger] scan[i]),
    ensures
        scan.filter(keep) == scan,
    decreases scan.len(),
{
    reveal(Seq::filter);
    if scan.len() > 0 {
        let front = scan.drop_last();
        assert forall|i: int| 0 <= i < front.len() implies keep(#[trigger] front[i]) by {
            assert(front[i] == scan[i]);
        }
        lemma_filter_all(front, keep);
        assert(front.push(scan.last()) =~= scan);
    }
}

/// After a scan that names each path once, none of its descriptors counts
/// as a change any more.
proof fn lemma_settled_after_scan(known: Map<Seq<char>, FileView>, scan: Seq<FileView>)
    requires
        distinct_paths(scan),
    ensures
        forall|i: int|
            0 <= i < scan.len() ==> !eligible(observed_all(known, scan), #[trigger] scan[i]),
    decreases scan.len(),
{
    if scan.len() > 0 {
        let front = scan.drop_last();
        let last = scan.last();
        let before = observed_all(known, front);
        lemma_distinct_paths_front(scan);
        lemma_settled_after_scan(known, front);
        assert forall|i: int| 0 <= i < scan.len() implies !eligible(
            observed_all(known, scan),
            #[trigger] scan[i],
        ) by {
            if i < front.len() {
                assert(front[i] == scan[i]);
                assert(!eligible(before, front[i]));
                assert(scan[i].path != scan[scan.len() - 1].path);
            }
        }
    }
}

/// A scan of which no descriptor counts as a change triggers nothing and
/// changes nothing.
proof fn lemma_settled_scan_is_quiet(known: Map<Seq<char>, FileView>, scan: Seq<FileView>)
    requires
        forall|i: int| 0 <= i < scan.len() ==> !eligible(known, #[trigger] scan[i]),
    ensures
        observed_all(known, scan) == known,
        triggered(known, scan) == Seq::<FileView>::empty(),
    decreases scan.len(),
{
    if scan.len() > 0 {
        let front = scan.drop_last();
        assert forall|i: int| 0 <= i < front.len() implies !eligible(
            known,
            #[trigger] front[i],
        ) by {
            assert(front[i] == scan[i]);
        }
        lemma_settled_scan_is_quiet(known, front);
        assert(scan.last() == scan[scan.len() - 1]);
    }
}

} // verus!
