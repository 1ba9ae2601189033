//! Batch ingestion: candidate selection, batch-fatal checks, and the fold
//! of per-file outcomes into one aggregate table.
//!
//! Selection and the fold are pure; the caller performs the directory
//! listing, existence probes and per-file decoding, and hands their
//! results in as plain values.  A failing file is recorded and excluded
//! without aborting the batch; an absent directory, an empty candidate
//! set and a batch in which every file failed are fatal.

use vstd::prelude::*;

use crate::errors::IngestionError;
use crate::paths::{basename, has_fits_extension, spec_basename, spec_has_fits_ext};
use crate::table::{merge, spec_merge, str_views, Table, TableV};

verus! {

/// What the outside glob matcher returns for a pattern and a candidate
/// string; the result depends on the two strings alone.
pub uninterp spec fn glob_matches(pattern: Seq<char>, name: Seq<char>) -> bool;

/// Relies on glob_match::glob_match: whether the shell-style glob pattern
/// (`*`, `?`, character classes) matches the whole candidate string.
#[verifier::external_body]
fn glob_match_exec(pattern: &str, name: &str) -> (r: bool)
    ensures
        r == glob_matches(pattern@, name@),
{
    glob_match::glob_match(pattern, name)
}

/// The names of `s` that satisfy `pred`, in order.
pub open spec fn keep_names(s: Seq<Seq<char>>, pred: spec_fn(Seq<char>) -> bool) -> Seq<
    Seq<char>,
>
    decreases s.len(),
{
    if s.len() == 0 {
        Seq::empty()
    } else if pred(s.first()) {
        seq![s.first()] + keep_names(s.drop_first(), pred)
    } else {
        keep_names(s.drop_first(), pred)
    }
}

/// `keep_names` distributes over concatenation.
pub proof fn lemma_keep_names_concat(
    s1: Seq<Seq<char>>,
    s2: Seq<Seq<char>>,
    pred: spec_fn(Seq<char>) -> bool,
)
    ensures
        keep_names(s1 + s2, pred) == keep_names(s1, pred) + keep_names(s2, pred),
    decreases s1.len(),
{
    if s1.len() == 0 {
        assert(s1 + s2 =~= s2);
        assert(keep_names(s1, pred) + keep_names(s2, pred) =~= keep_names(s2, pred));
    } else {
        assert((s1 + s2).len() > 0);
        assert((s1 + s2).first() == s1.first());
        assert((s1 + s2).drop_first() =~= s1.drop_first() + s2);
        lemma_keep_names_concat(s1.drop_first(), s2, pred);
        if pred(s1.first()) {
            assert(seq![s1.first()] + (keep_names(s1.drop_first(), pred) + keep_names(s2, pred))
                =~= (seq![s1.first()] + keep_names(s1.drop_first(), pred)) + keep_names(
                s2,
                pred,
            ));
        }
    }
}

/// `keep_names` of a one-element sequence.
pub proof fn lemma_keep_names_singleton(n: Seq<char>, pred: spec_fn(Seq<char>) -> bool)
    ensures
        keep_names(seq![n], pred) == if pred(n) {
            seq![n]
        } else {
            Seq::<Seq<char>>::empty()
        },
{
    assert(seq![n].first() == n);
    let e = Seq::<Seq<char>>::empty();
    assert(seq![n].drop_first() =~= e);
    assert(seq![n].drop_first() == e);
    assert(keep_names(e, pred) == e);
    if pred(n) {
        assert(seq![n] + e =~= seq![n]);
    }
}

/// What `keep_names` keeps: exactly the names satisfying the predicate.
pub proof fn lemma_keep_names_membership(
    s: Seq<Seq<char>>,
    pred: spec_fn(Seq<char>) -> bool,
    n: Seq<char>,
)
    ensures
        keep_names(s, pred).contains(n) <==> (s.contains(n) && pred(n)),
    decreases s.len(),
{
    if s.len() == 0 {
    } else {
        lemma_keep_names_membership(s.drop_first(), pred, n);
        assert(s.contains(n) <==> (s.first() == n || s.drop_first().contains(n))) by {
            if s.contains(n) {
                let i = choose|i: int| 0 <= i < s.len() && s[i] == n;
                if i == 0 {
                } else {
                    assert(s.drop_first()[i - 1] == n);
                }
            }
            if s.drop_first().contains(n) {
                let i = choose|i: int| 0 <= i < s.drop_first().len() && s.drop_first()[i] == n;
                assert(s[i + 1] == n);
            }
            if s.first() == n {
                assert(s[0] == n);
            }
        }
        if pred(s.first()) {
            crate::table::lemma_concat_contains(
                seq![s.first()],
                keep_names(s.drop_first(), pred),
                n,
            );
            assert(seq![s.first()].contains(n) <==> s.first() == n) by {
                if seq![s.first()].contains(n) {
                    let i = choose|i: int| 0 <= i < 1 && seq![s.first()][i] == n;
                    assert(seq![s.first()][0] == s.first());
                }
                if s.first() == n {
                    assert(seq![s.first()][0] == n);
                }
            }
        }
    }
}

/// Glob scope: membership in a pattern-mode selection depends on the
/// path's file-name component alone — a path is kept exactly when it was
/// offered, its name carries the `fits` extension, and the pattern
/// matches that name; a path in a matching subdirectory whose own name
/// does not match is never kept.
pub proof fn lemma_pattern_selects_by_name(
    entries: Seq<Seq<char>>,
    pattern: Seq<char>,
    p: Seq<char>,
)
    ensures
        keep_names(
            entries,
            |n: Seq<char>| spec_has_fits_ext(n) && glob_matches(pattern, spec_basename(n)),
        ).contains(p) <==> (entries.contains(p) && spec_has_fits_ext(p) && glob_matches(
            pattern,
            spec_basename(p),
        )),
{
    lemma_keep_names_membership(
        entries,
        |n: Seq<char>| spec_has_fits_ext(n) && glob_matches(pattern, spec_basename(n)),
        p,
    );
}

/// Selection in directory mode: keeps exactly the paths whose file name
/// carries the `fits` extension, in their given order.
pub fn select_fits_files(entries: &Vec<String>) -> (r: Vec<String>)
    ensures
        str_views(r@) == keep_names(
            str_views(entries@),
            |n: Seq<char>| spec_has_fits_ext(n),
        ),
{
    let ghost ev = str_views(entries@);
    let ghost pred = |n: Seq<char>| spec_has_fits_ext(n);
    let mut r: Vec<String> = Vec::new();
    let n = entries.len();
    assert(ev.take(0) =~= Seq::<Seq<char>>::empty());
    assert(str_views(r@) =~= keep_names(ev.take(0), pred));
    for i in 0..n
        invariant
            n == entries@.len(),
            ev == str_views(entries@),
            pred == (|n: Seq<char>| spec_has_fits_ext(n)),
            str_views(r@) == keep_names(ev.take(i as int), pred),
    {
        proof {
            assert(ev[i as int] == entries@[i as int]@);
            assert(ev.take(i + 1) =~= ev.take(i as int) + seq![ev[i as int]]);
            lemma_keep_names_concat(ev.take(i as int), seq![ev[i as int]], pred);
            lemma_keep_names_singleton(ev[i as int], pred);
        }
        if has_fits_extension(entries[i].as_str()) {
            let ghost r_old = r@;
            r.push(entries[i].clone());
            proof {
                assert(str_views(r@) =~= str_views(r_old) + seq![ev[i as int]]);
                assert(str_views(r@) =~= keep_names(ev.take(i + 1), pred));
            }
        } else {
            proof {
                assert(str_views(r@) =~= keep_names(ev.take(i + 1), pred));
            }
        }
    }
    proof {
        assert(ev.take(n as int) =~= ev);
    }
    r
}

/// Selection in pattern mode: a path is kept exactly when its file name
/// carries the `fits` extension and the glob pattern matches the file-name
/// component alone — a path whose directory part matches but whose file
/// name does not is never selected.
pub fn select_fits_files_pattern(entries: &Vec<String>, pattern: &String) -> (r: Vec<String>)
    ensures
        str_views(r@) == keep_names(
            str_views(entries@),
            |n: Seq<char>| spec_has_fits_ext(n) && glob_matches(pattern@, spec_basename(n)),
        ),
{
    let ghost ev = str_views(entries@);
    let ghost pred = |n: Seq<char>|
        spec_has_fits_ext(n) && glob_matches(pattern@, spec_basename(n));
    let mut r: Vec<String> = Vec::new();
    let n = entries.len();
    assert(ev.take(0) =~= Seq::<Seq<char>>::empty());
    assert(str_views(r@) =~= keep_names(ev.take(0), pred));
    for i in 0..n
        invariant
            n == entries@.len(),
            ev == str_views(entries@),
            pred == (|n: Seq<char>|
                spec_has_fits_ext(n) && glob_matches(pattern@, spec_basename(n))),
            str_views(r@) == keep_names(ev.take(i as int), pred),
    {
        proof {
            assert(ev[i as int] == entries@[i as int]@);
            assert(ev.take(i + 1) =~= ev.take(i as int) + seq![ev[i as int]]);
            lemma_keep_names_concat(ev.take(i as int), seq![ev[i as int]], pred);
            lemma_keep_names_singleton(ev[i as int], pred);
        }
        let keep = if has_fits_extension(entries[i].as_str()) {
            let name = basename(entries[i].as_str());
            glob_match_exec(pattern.as_str(), name.as_str())
        } else {
            false
        };
        if keep {
            let ghost r_old = r@;
            r.push(entries[i].clone());
            proof {
                assert(str_views(r@) =~= str_views(r_old) + seq![ev[i as int]]);
                assert(str_views(r@) =~= keep_names(ev.take(i + 1), pred));
            }
        } else {
            proof {
                assert(!pred(ev[i as int]));
                assert(str_views(r@) =~= keep_names(ev.take(i + 1), pred));
            }
        }
    }
    proof {
        assert(ev.take(n as int) =~= ev);
    }
    r
}

/// Directory-mode batch planning: an absent directory and an empty
/// selection are fatal; otherwise the candidates are returned in order.
pub fn plan_directory(dir: &String, dir_exists: bool, entries: &Vec<String>) -> (r: Result<
    Vec<String>,
    IngestionError,
>)
    ensures
        ({
            let sel = keep_names(str_views(entries@), |n: Seq<char>| spec_has_fits_ext(n));
            match r {
                Ok(v) => dir_exists && sel.len() > 0 && str_views(v@) == sel,
                Err(e) => if !dir_exists {
                    e matches IngestionError::DirectoryNotFound(d) && d@ == dir@
                } else {
                    sel.len() == 0 && (e matches IngestionError::NoFilesMatched(d) && d@
                        == dir@)
                },
            }
        }),
        r matches Err(e) ==> !e.is_per_file(),
{
    if !dir_exists {
        return Err(IngestionError::DirectoryNotFound(dir.clone()));
    }
    let sel = select_fits_files(entries);
    if sel.len() == 0 {
        return Err(IngestionError::NoFilesMatched(dir.clone()));
    }
    Ok(sel)
}

/// Pattern-mode batch planning: as in directory mode, with the pattern
/// matched against file names and named by the empty-selection error.
pub fn plan_directory_pattern(
    dir: &String,
    dir_exists: bool,
    pattern: &String,
    entries: &Vec<String>,
) -> (r: Result<Vec<String>, IngestionError>)
    ensures
        ({
            let sel = keep_names(
                str_views(entries@),
                |n: Seq<char>| spec_has_fits_ext(n) && glob_matches(
                    pattern@,
                    spec_basename(n),
                ),
            );
            match r {
                Ok(v) => dir_exists && sel.len() > 0 && str_views(v@) == sel,
                Err(e) => if !dir_exists {
                    e matches IngestionError::DirectoryNotFound(d) && d@ == dir@
                } else {
                    sel.len() == 0 && (e matches IngestionError::NoFilesMatched(p) && p@
                        == pattern@)
                },
            }
        }),
        r matches Err(e) ==> !e.is_per_file(),
{
    if !dir_exists {
        return Err(IngestionError::DirectoryNotFound(dir.clone()));
    }
    let sel = select_fits_files_pattern(entries, pattern);
    if sel.len() == 0 {
        return Err(IngestionError::NoFilesMatched(pattern.clone()));
    }
    Ok(sel)
}

/// Explicit-list planning: the list must be non-empty and every listed
/// file must exist; the first absent entry is named.
pub fn check_file_list(paths: &Vec<String>, exists: &Vec<bool>) -> (r: Result<
    (),
    IngestionError,
>)
    requires
        paths@.len() == exists@.len(),
    ensures
        match r {
            Ok(_) => paths@.len() > 0 && forall|i: int|
                0 <= i < exists@.len() ==> exists@[i],
            Err(e) => if paths@.len() == 0 {
                e matches IngestionError::NoFilesMatched(_)
            } else {
                e matches IngestionError::FileNotFound(p) && exists|ix: int|
                    0 <= ix < exists@.len() && !exists@[ix] && p@ == paths@[ix]@ && forall|
                        j: int,
                    | 0 <= j < ix ==> exists@[j]
            },
        },
        r matches Err(e) ==> !e.is_per_file(),
{
    if paths.len() == 0 {
        return Err(IngestionError::NoFilesMatched(String::from_str("an empty file list")));
    }
    let n = paths.len();
    for i in 0..n
        invariant
            n == paths@.len(),
            n == exists@.len(),
            forall|j: int| 0 <= j < i ==> exists@[j],
    {
        if !exists[i] {
            return Err(IngestionError::FileNotFound(paths[i].clone()));
        }
    }
    Ok(())
}

/// The models of the successful outcomes, in order.
pub open spec fn ok_views(s: Seq<Result<Table, IngestionError>>) -> Seq<TableV>
    decreases s.len(),
{
    if s.len() == 0 {
        Seq::empty()
    } else {
        let rest = ok_views(s.drop_first());
        match s.first() {
            Ok(t) => seq![t@] + rest,
            Err(_) => rest,
        }
    }
}

/// The failed outcomes, in order.
pub open spec fn err_views(s: Seq<Result<Table, IngestionError>>) -> Seq<IngestionError>
    decreases s.len(),
{
    if s.len() == 0 {
        Seq::empty()
    } else {
        let rest = err_views(s.drop_first());
        match s.first() {
            Ok(_) => rest,
            Err(e) => seq![e] + rest,
        }
    }
}

/// Successes and failures partition the outcomes.
pub proof fn lemma_outcome_partition(s: Seq<Result<Table, IngestionError>>)
    ensures
        ok_views(s).len() + err_views(s).len() == s.len(),
    decreases s.len(),
{
    if s.len() == 0 {
    } else {
        lemma_outcome_partition(s.drop_first());
    }
}

/// The left-to-right fold of tables under the schema-reconciling merge.
pub open spec fn fold_tables(ts: Seq<TableV>) -> TableV
    decreases ts.len(),
{
    if ts.len() == 0 {
        TableV { cols: Seq::empty() }
    } else if ts.len() == 1 {
        ts[0]
    } else {
        spec_merge(fold_tables(ts.drop_last()), ts.last())
    }
}

/// The total number of rows of a table sequence.
pub open spec fn sum_heights(ts: Seq<TableV>) -> nat
    decreases ts.len(),
{
    if ts.len() == 0 {
        0
    } else {
        sum_heights(ts.drop_last()) + ts.last().height()
    }
}

/// A fold of well-formed tables is well formed and loses no row.
pub proof fn lemma_fold_tables_wf(ts: Seq<TableV>)
    requires
        forall|i: int| 0 <= i < ts.len() ==> (#[trigger] ts[i]).wf(),
        ts.len() > 0,
    ensures
        fold_tables(ts).wf(),
        fold_tables(ts).height() == sum_heights(ts),
    decreases ts.len(),
{
    if ts.len() == 1 {
        assert(ts.drop_last().len() == 0);
        assert(sum_heights(ts.drop_last()) == 0);
        assert(ts.last() == ts[0]);
    } else {
        assert(forall|i: int|
            0 <= i < ts.drop_last().len() ==> (#[trigger] ts.drop_last()[i]).wf());
        lemma_fold_tables_wf(ts.drop_last());
        assert(ts[ts.len() - 1].wf());
        crate::table::lemma_merge_model(fold_tables(ts.drop_last()), ts.last());
    }
}

/// Failure isolation: the recorded failures and the contributed rows
/// partition a batch of single-row outcomes — with `k` failures among `n`
/// outcomes, the fold carries exactly `n - k` rows.
pub proof fn lemma_failure_isolation(s: Seq<Result<Table, IngestionError>>)
    requires
        forall|i: int|
            0 <= i < s.len() ==> ((#[trigger] s[i]) matches Ok(t) ==> t@.wf() && t@.height()
                == 1),
    ensures
        ok_views(s).len() + err_views(s).len() == s.len(),
        sum_heights(ok_views(s)) == ok_views(s).len(),
    decreases s.len(),
{
    lemma_outcome_partition(s);
    lemma_sum_heights_ones(s);
}

/// With every table a single row, the total height is the count.
proof fn lemma_sum_heights_ones(s: Seq<Result<Table, IngestionError>>)
    requires
        forall|i: int|
            0 <= i < s.len() ==> ((#[trigger] s[i]) matches Ok(t) ==> t@.wf() && t@.height()
                == 1),
    ensures
        sum_heights(ok_views(s)) == ok_views(s).len(),
    decreases s.len(),
{
    if s.len() == 0 {
    } else {
        assert(forall|i: int|
            0 <= i < s.drop_first().len() ==> ((#[trigger] s.drop_first()[i]) matches Ok(t)
                ==> t@.wf() && t@.height() == 1)) by {
            assert(forall|i: int|
                0 <= i < s.drop_first().len() ==> s.drop_first()[i] == s[i + 1]);
        }
        lemma_sum_heights_ones(s.drop_first());
        match s.first() {
            Ok(t) => {
                assert(s[0] == s.first());
                assert(t@.height() == 1);
                let oks = ok_views(s);
                assert(oks =~= seq![t@] + ok_views(s.drop_first()));
                lemma_sum_heights_prepend_one(t@, ok_views(s.drop_first()));
            },
            Err(_) => {},
        }
    }
}

/// Prepending a single-row table adds one to the total height.
proof fn lemma_sum_heights_prepend_one(t: TableV, ts: Seq<TableV>)
    requires
        t.height() == 1,
    ensures
        sum_heights(seq![t] + ts) == 1 + sum_heights(ts),
    decreases ts.len(),
{
    if ts.len() == 0 {
        assert(seq![t] + ts =~= seq![t]);
        assert(seq![t].drop_last() =~= Seq::<TableV>::empty());
        assert(seq![t].drop_last() == Seq::<TableV>::empty());
        assert(sum_heights(Seq::<TableV>::empty()) == 0);
        assert(seq![t].last() == t);
        assert(sum_heights(seq![t]) == 1);
    } else {
        assert((seq![t] + ts).last() == ts.last());
        assert((seq![t] + ts).drop_last() =~= seq![t] + ts.drop_last());
        lemma_sum_heights_prepend_one(t, ts.drop_last());
    }
}

/// Folds per-file outcomes into the aggregate table.
///
/// Every failure is recorded, in order, and excluded from the table; every
/// success contributes its rows through the left-to-right fold of the
/// schema-reconciling merge; a batch in which every outcome failed is the
/// fatal all-files-failed error instead.
pub fn assemble(outcomes: Vec<Result<Table, IngestionError>>) -> (r: Result<
    (Table, Vec<IngestionError>),
    IngestionError,
>)
    requires
        outcomes@.len() > 0,
        forall|i: int|
            0 <= i < outcomes@.len() ==> ((#[trigger] outcomes@[i]) matches Ok(t) ==> t@.wf()),
    ensures
        ({
            let oks = ok_views(outcomes@);
            let errs = err_views(outcomes@);
            match r {
                Ok(p) => oks.len() > 0 && p.0@ == fold_tables(oks) && p.0@.wf() && p.0@.height()
                    == sum_heights(oks) && p.1@ == errs,
                Err(e) => oks.len() == 0 && e matches IngestionError::AllFilesFailed,
            }
        }),
{
    let ghost orig = outcomes@;
    let mut rest = outcomes;
    let mut acc: Option<Table> = None;
    let mut errs: Vec<IngestionError> = Vec::new();
    let ghost mut oks_seen: Seq<TableV> = Seq::empty();
    let ghost mut i: int = 0;
    assert(orig.skip(0) =~= orig);
    assert(ok_views(orig) =~= oks_seen + ok_views(orig.skip(0)));
    assert(err_views(orig) =~= errs@ + err_views(orig.skip(0)));
    while rest.len() > 0
        invariant
            0 <= i <= orig.len(),
            rest@ == orig.skip(i),
            forall|j: int|
                0 <= j < orig.len() ==> ((#[trigger] orig[j]) matches Ok(t) ==> t@.wf()),
            ok_views(orig) == oks_seen + ok_views(orig.skip(i)),
            err_views(orig) == errs@ + err_views(orig.skip(i)),
            match acc {
                Some(t) => oks_seen.len() > 0 && t@ == fold_tables(oks_seen) && t@.wf(),
                None => oks_seen.len() == 0,
            },
            forall|j: int| 0 <= j < oks_seen.len() ==> (#[trigger] oks_seen[j]).wf(),
        decreases rest@.len(),
    {
        let o = rest.remove(0);
        proof {
            assert(rest@ =~= orig.skip(i).drop_first());
            assert(orig.skip(i).first() == o);
            assert(orig.skip(i).drop_first() =~= orig.skip(i + 1));
            assert(o == orig[i]);
        }
        match o {
            Ok(t) => {
                proof {
                    assert(ok_views(orig.skip(i)) =~= seq![t@] + ok_views(orig.skip(i + 1)));
                    assert(err_views(orig.skip(i)) =~= err_views(orig.skip(i + 1)));
                    assert(t@.wf());
                }
                let next: Table = match acc {
                    None => t,
                    Some(a) => {
                        proof {
                            assert(oks_seen.push(t@).drop_last() =~= oks_seen);
                            assert(oks_seen.push(t@).last() == t@);
                        }
                        merge(&a, &t)
                    },
                };
                proof {
                    oks_seen = oks_seen.push(t@);
                    assert(oks_seen + ok_views(orig.skip(i + 1)) =~= ok_views(orig));
                    if oks_seen.len() == 1 {
                        assert(fold_tables(oks_seen) == oks_seen[0]);
                    }
                }
                acc = Some(next);
            },
            Err(e) => {
                proof {
                    assert(ok_views(orig.skip(i)) =~= ok_views(orig.skip(i + 1)));
                    assert(err_views(orig.skip(i)) =~= seq![e] + err_views(orig.skip(i + 1)));
                }
                let ghost errs_old = errs@;
                errs.push(e);
                proof {
                    assert(errs@ =~= errs_old.push(e));
                    assert(errs@ + err_views(orig.skip(i + 1)) =~= err_views(orig));
                }
            },
        }
        proof {
            i = i + 1;
        }
    }
    proof {
        assert(orig.skip(i) =~= Seq::<Result<Table, IngestionError>>::empty());
        assert(ok_views(orig) =~= oks_seen);
        assert(err_views(orig) =~= errs@);
    }
    match acc {
        Some(t) => {
            proof {
                lemma_fold_tables_wf(oks_seen);
            }
            Ok((t, errs))
        },
        None => Err(IngestionError::AllFilesFailed),
    }
}

} // verus!
