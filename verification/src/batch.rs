//! The batch orchestrator.
//!
//! A batch takes an ordered list of at least two paths; the last is the
//! destination.  When the destination is not an existing directory the
//! batch is a single rename of the first path onto the second; otherwise
//! every other path is relocated into the destination directory under its
//! own final component, strictly in input order, one outcome per entry.
//! A collision is decided by the resolver; a backup, where one is called
//! for, precedes the transfer and its failure does not stop the move.

use vstd::prelude::*;

use crate::engine::perform_backup;
use crate::engine::spec_backup;
use crate::engine::spec_transfer;
use crate::engine::transfer_entry;
use crate::fsmodel::EntryView;
use crate::fsmodel::ModelFs;
use crate::options::BackupPolicy;
use crate::options::FailReason;
use crate::options::MoveOptions;
use crate::options::MoveOptionsView;
use crate::options::MvError;
use crate::options::Resolution;
use crate::options::SkipReason;
use crate::options::TransferOutcome;
use crate::options::UserDecision;
use crate::options::resolve_collision;
use crate::options::spec_resolve;
use crate::pathops::final_component;
use crate::pathops::join_path;
use crate::pathops::spec_final_component;
use crate::pathops::spec_join;
use crate::pathops::spec_strip_trailing;
use crate::pathops::strip_trailing_separators;

verus! {

/// What happened to one entry of a batch.
pub struct EntryResult {
    pub source: String,
    pub dest: Option<String>,
    pub outcome: TransferOutcome,
    pub cleanup_failed: bool,
    pub backup_attempted: bool,
    pub backup: Option<String>,
}

/// Mathematical image of an [`EntryResult`].
pub struct EntryResultView {
    pub source: Seq<char>,
    pub dest: Option<Seq<char>>,
    pub outcome: TransferOutcome,
    pub cleanup_failed: bool,
    pub backup_attempted: bool,
    pub backup: Option<Seq<char>>,
}

impl View for EntryResult {
    type V = EntryResultView;

    open spec fn view(&self) -> EntryResultView {
        EntryResultView {
            source: self.source@,
            dest: match self.dest {
                Some(d) => Some(d@),
                None => None,
            },
            outcome: self.outcome,
            cleanup_failed: self.cleanup_failed,
            backup_attempted: self.backup_attempted,
            backup: match self.backup {
                Some(b) => Some(b@),
                None => None,
            },
        }
    }
}

/// The views of a list of entry results.
pub open spec fn results_of(entries: Seq<EntryResult>) -> Seq<EntryResultView> {
    entries.map_values(|e: EntryResult| e@)
}

/// The answer the operator gives to the `i`-th prompt; `None` once the
/// prepared answers run out (an unreadable answer).
pub open spec fn spec_answer(answers: Seq<UserDecision>, i: nat) -> Option<UserDecision> {
    if i < answers.len() {
        Some(answers[i as int])
    } else {
        None
    }
}

/// What processing one entry leaves behind.
pub struct EntrySpec {
    pub fs: Map<Seq<char>, EntryView>,
    pub result: EntryResultView,
    pub next_answer: nat,
    pub crossed: bool,
}

/// What relocating one source into the destination directory does: a
/// source without a final component fails as an invalid path and touches
/// nothing; a pre-existing destination is decided by the resolver (a skip
/// touches nothing); a proceeding entry is preceded by a backup when the
/// policy asks for one, and then transferred, skipping the rename attempt
/// once the batch has seen a cross-device failure.
pub open spec fn spec_process_entry(
    m: Map<Seq<char>, EntryView>,
    opts: MoveOptionsView,
    source: Seq<char>,
    target: Seq<char>,
    answers: Seq<UserDecision>,
    ai: nat,
    crossed: bool,
) -> EntrySpec {
    let fc = spec_final_component(source);
    if fc.len() == 0 {
        EntrySpec {
            fs: m,
            result: EntryResultView {
                source,
                dest: None,
                outcome: TransferOutcome::Failed(FailReason::InvalidPath),
                cleanup_failed: false,
                backup_attempted: false,
                backup: None,
            },
            next_answer: ai,
            crossed,
        }
    } else {
        let dest = spec_join(target, fc);
        if m.contains_key(dest) {
            let answer = if opts.interactive {
                spec_answer(answers, ai)
            } else {
                None
            };
            let ai1 = if opts.interactive && ai < answers.len() {
                ai + 1
            } else {
                ai
            };
            match spec_resolve(opts.interactive, opts.no_clobber, answer) {
                Resolution::Skip(reason) => EntrySpec {
                    fs: m,
                    result: EntryResultView {
                        source,
                        dest: Some(dest),
                        outcome: TransferOutcome::Skipped(reason),
                        cleanup_failed: false,
                        backup_attempted: false,
                        backup: None,
                    },
                    next_answer: ai1,
                    crossed,
                },
                Resolution::Proceed => {
                    let backup_attempted = !(opts.backup is NoBackup);
                    let m1 = if backup_attempted {
                        spec_backup(m, dest, opts.backup).fs
                    } else {
                        m
                    };
                    let bname = if backup_attempted {
                        spec_backup(m, dest, opts.backup).name
                    } else {
                        None
                    };
                    let t = spec_transfer(m1, source, dest, crossed);
                    EntrySpec {
                        fs: t.fs,
                        result: EntryResultView {
                            source,
                            dest: Some(dest),
                            outcome: t.outcome,
                            cleanup_failed: t.cleanup_failed,
                            backup_attempted,
                            backup: bname,
                        },
                        next_answer: ai1,
                        crossed: crossed || t.crossed,
                    }
                },
            }
        } else {
            let t = spec_transfer(m, source, dest, crossed);
            EntrySpec {
                fs: t.fs,
                result: EntryResultView {
                    source,
                    dest: Some(dest),
                    outcome: t.outcome,
                    cleanup_failed: t.cleanup_failed,
                    backup_attempted: false,
                    backup: None,
                },
                next_answer: ai,
                crossed: crossed || t.crossed,
            }
        }
    }
}

/// Relocates one source into the destination directory on the model, per
/// [`spec_process_entry`].
pub fn process_entry(
    fs: &mut ModelFs,
    opts: &MoveOptions,
    source: &String,
    target: &String,
    answers: &Vec<UserDecision>,
    next_answer: &mut usize,
    crossed: &mut bool,
) -> (r: EntryResult)
    requires
        old(fs).wf(),
    ensures
        final(fs).wf(),
        ({
            let e = spec_process_entry(
                old(fs)@,
                opts@,
                source@,
                target@,
                answers@,
                *old(next_answer) as nat,
                *old(crossed),
            );
            &&& final(fs)@ == e.fs
            &&& r@ == e.result
            &&& *final(next_answer) as nat == e.next_answer
            &&& *final(crossed) == e.crossed
        }),
{
    let fc = match final_component(source) {
        Some(fc) => fc,
        None => {
            return EntryResult {
                source: source.clone(),
                dest: None,
                outcome: TransferOutcome::Failed(FailReason::InvalidPath),
                cleanup_failed: false,
                backup_attempted: false,
                backup: None,
            };
        },
    };
    let dest = join_path(target, &fc);
    if fs.contains(&dest) {
        let answer: Option<UserDecision> = if opts.interactive {
            if *next_answer < answers.len() {
                let a = answers[*next_answer];
                *next_answer = *next_answer + 1;
                Some(a)
            } else {
                None
            }
        } else {
            None
        };
        match resolve_collision(opts, answer) {
            Resolution::Skip(reason) => {
                return EntryResult {
                    source: source.clone(),
                    dest: Some(dest),
                    outcome: TransferOutcome::Skipped(reason),
                    cleanup_failed: false,
                    backup_attempted: false,
                    backup: None,
                };
            },
            Resolution::Proceed => {},
        }
        let backup_attempted = !matches!(&opts.backup, BackupPolicy::NoBackup);
        let bname: Option<String> = if backup_attempted {
            perform_backup(fs, &dest, &opts.backup)
        } else {
            None
        };
        let t = transfer_entry(fs, source, &dest, *crossed);
        *crossed = *crossed || t.crossed;
        EntryResult {
            source: source.clone(),
            dest: Some(dest),
            outcome: t.outcome,
            cleanup_failed: t.cleanup_failed,
            backup_attempted,
            backup: bname,
        }
    } else {
        let t = transfer_entry(fs, source, &dest, *crossed);
        *crossed = *crossed || t.crossed;
        EntryResult {
            source: source.clone(),
            dest: Some(dest),
            outcome: t.outcome,
            cleanup_failed: t.cleanup_failed,
            backup_attempted: false,
            backup: None,
        }
    }
}

/// What processing a whole list of sources leaves behind.
pub struct BatchSpec {
    pub fs: Map<Seq<char>, EntryView>,
    pub results: Seq<EntryResultView>,
    pub next_answer: nat,
    pub crossed: bool,
}

/// The sources processed one after the other, strictly in input order,
/// each through [`spec_process_entry`].
pub open spec fn spec_run_entries(
    m: Map<Seq<char>, EntryView>,
    opts: MoveOptionsView,
    sources: Seq<Seq<char>>,
    target: Seq<char>,
    answers: Seq<UserDecision>,
    ai: nat,
    crossed: bool,
) -> BatchSpec
    decreases sources.len(),
{
    if sources.len() == 0 {
        BatchSpec { fs: m, results: Seq::empty(), next_answer: ai, crossed }
    } else {
        let e = spec_process_entry(m, opts, sources[0], target, answers, ai, crossed);
        let rest = spec_run_entries(
            e.fs,
            opts,
            sources.drop_first(),
            target,
            answers,
            e.next_answer,
            e.crossed,
        );
        BatchSpec {
            fs: rest.fs,
            results: seq![e.result] + rest.results,
            next_answer: rest.next_answer,
            crossed: rest.crossed,
        }
    }
}

/// The views of a list of paths.
pub open spec fn path_views(paths: Seq<String>) -> Seq<Seq<char>> {
    paths.map_values(|p: String| p@)
}

/// The paths as the batch sees them: with `strip` every trailing
/// separator is removed first.
pub open spec fn spec_stripped(paths: Seq<Seq<char>>, strip: bool) -> Seq<Seq<char>> {
    if strip {
        paths.map_values(|p: Seq<char>| spec_strip_trailing(p))
    } else {
        paths
    }
}

/// What a whole batch leaves behind.  `ok` is false exactly when fewer
/// than two paths were supplied, and then nothing happened.
pub struct MvSpec {
    pub ok: bool,
    pub fs: Map<Seq<char>, EntryView>,
    pub too_many_for_rename: bool,
    pub results: Seq<EntryResultView>,
}

/// What a batch does: fewer than two paths is an error before any
/// mutation; with the (possibly stripped) last path not an existing
/// directory the batch is one direct transfer of the first path onto the
/// second, warning when more than two paths were supplied; otherwise every
/// path but the last is relocated into the destination directory.
pub open spec fn spec_mv(
    m: Map<Seq<char>, EntryView>,
    opts: MoveOptionsView,
    paths: Seq<Seq<char>>,
    answers: Seq<UserDecision>,
) -> MvSpec {
    if paths.len() < 2 {
        MvSpec { ok: false, fs: m, too_many_for_rename: false, results: Seq::empty() }
    } else {
        let ps = spec_stripped(paths, opts.strip_trailing_separators);
        let target = ps.last();
        if !(m.contains_key(target) && m[target].is_dir) {
            let t = spec_transfer(m, ps[0], ps[1], false);
            MvSpec {
                ok: true,
                fs: t.fs,
                too_many_for_rename: ps.len() > 2,
                results: seq![
                    EntryResultView {
                        source: ps[0],
                        dest: Some(ps[1]),
                        outcome: t.outcome,
                        cleanup_failed: t.cleanup_failed,
                        backup_attempted: false,
                        backup: None,
                    },
                ],
            }
        } else {
            let b = spec_run_entries(m, opts, ps.drop_last(), target, answers, 0, false);
            MvSpec { ok: true, fs: b.fs, too_many_for_rename: false, results: b.results }
        }
    }
}

/// What one batch reported: a non-fatal warning that too many paths were
/// supplied for a rename, and one result per processed entry, in input
/// order.
pub struct BatchReport {
    pub too_many_for_rename: bool,
    pub entries: Vec<EntryResult>,
}

/// Runs a whole batch on the model, per [`spec_mv`].
pub fn mv(
    fs: &mut ModelFs,
    opts: &MoveOptions,
    paths: &Vec<String>,
    answers: &Vec<UserDecision>,
) -> (r: Result<BatchReport, MvError>)
    requires
        old(fs).wf(),
    ensures
        final(fs).wf(),
        ({
            let s = spec_mv(old(fs)@, opts@, path_views(paths@), answers@);
            match r {
                Ok(rep) => s.ok && final(fs)@ == s.fs && rep.too_many_for_rename
                    == s.too_many_for_rename && results_of(rep.entries@) == s.results,
                Err(e) => !s.ok && e == MvError::InsufficientArguments && final(fs)@ == old(fs)@,
            }
        }),
{
    if paths.len() < 2 {
        return Err(MvError::InsufficientArguments);
    }
    let ghost pv = path_views(paths@);
    let mut ps: Vec<String> = Vec::new();
    let mut i: usize = 0;
    while i < paths.len()
        invariant
            i <= paths@.len(),
            ps@.len() == i,
            pv == path_views(paths@),
            forall|j: int|
                0 <= j < i ==> (#[trigger] ps@[j])@ == (if opts.strip_trailing_separators {
                    spec_strip_trailing(paths@[j]@)
                } else {
                    paths@[j]@
                }),
        decreases paths@.len() - i,
    {
        if opts.strip_trailing_separators {
            ps.push(strip_trailing_separators(&paths[i]));
        } else {
            ps.push(paths[i].clone());
        }
        i = i + 1;
    }
    let ghost psv = spec_stripped(pv, opts.strip_trailing_separators);
    proof {
        assert(path_views(ps@) =~= psv);
    }
    let n = ps.len();
    let target = &ps[n - 1];
    proof {
        assert(target@ == psv.last());
    }
    if !fs.is_dir(target) {
        let tr = transfer_entry(fs, &ps[0], &ps[1], false);
        let entry = EntryResult {
            source: ps[0].clone(),
            dest: Some(ps[1].clone()),
            outcome: tr.outcome,
            cleanup_failed: tr.cleanup_failed,
            backup_attempted: false,
            backup: None,
        };
        let mut entries: Vec<EntryResult> = Vec::new();
        entries.push(entry);
        let too_many = n > 2;
        proof {
            assert(results_of(entries@) =~= spec_mv(
                old(fs)@,
                opts@,
                pv,
                answers@,
            ).results);
        }
        return Ok(BatchReport { too_many_for_rename: too_many, entries });
    }
    let ghost srcs = psv.drop_last();
    let ghost whole = spec_run_entries(old(fs)@, opts@, srcs, target@, answers@, 0, false);
    let mut entries: Vec<EntryResult> = Vec::new();
    let mut ai: usize = 0;
    let mut crossed: bool = false;
    let mut k: usize = 0;
    proof {
        assert(srcs.skip(0) =~= srcs);
        assert(results_of(entries@) =~= Seq::<EntryResultView>::empty());
        assert(results_of(entries@) + whole.results =~= whole.results);
    }
    while k < n - 1
        invariant
            fs.wf(),
            k <= n - 1,
            n == ps@.len(),
            n == srcs.len() + 1,
            n >= 2,
            target@ == psv.last(),
            path_views(ps@) == psv,
            srcs == psv.drop_last(),
            entries@.len() == k,
            whole == spec_run_entries(old(fs)@, opts@, srcs, target@, answers@, 0, false),
            ({
                let rest = spec_run_entries(
                    fs@,
                    opts@,
                    srcs.skip(k as int),
                    target@,
                    answers@,
                    ai as nat,
                    crossed,
                );
                &&& rest.fs == whole.fs
                &&& results_of(entries@) + rest.results == whole.results
            }),
        decreases n - 1 - k,
    {
        let ghost rest_before = spec_run_entries(
            fs@,
            opts@,
            srcs.skip(k as int),
            target@,
            answers@,
            ai as nat,
            crossed,
        );
        proof {
            assert(srcs.skip(k as int)[0] == ps@[k as int]@);
        }
        let er = process_entry(fs, opts, &ps[k], target, answers, &mut ai, &mut crossed);
        let ghost entries0 = entries@;
        entries.push(er);
        proof {
            assert(srcs.skip(k as int).drop_first() =~= srcs.skip(k as int + 1));
            assert(results_of(entries@) =~= results_of(entries0).push(er@));
            let rest_after = spec_run_entries(
                fs@,
                opts@,
                srcs.skip(k as int + 1),
                target@,
                answers@,
                ai as nat,
                crossed,
            );
            assert(results_of(entries@) + rest_after.results =~= results_of(entries0)
                + rest_before.results);
        }
        k = k + 1;
    }
    proof {
        assert(srcs.skip(k as int) =~= Seq::<Seq<char>>::empty());
        assert(results_of(entries@) + Seq::<EntryResultView>::empty() =~= results_of(entries@));
        assert(results_of(entries@) == whole.results);
    }
    Ok(BatchReport { too_many_for_rename: false, entries })
}

/// Single-rename law: with the (possibly stripped) destination not an
/// existing directory, a valid batch is exactly one direct transfer of the
/// first path onto the second; no backup is attempted and no prompt is
/// consumed, and more than two paths only raises the non-fatal warning.
pub proof fn lemma_single_rename(
    m: Map<Seq<char>, EntryView>,
    opts: MoveOptionsView,
    paths: Seq<Seq<char>>,
    answers: Seq<UserDecision>,
)
    requires
        paths.len() >= 2,
        ({
            let ps = spec_stripped(paths, opts.strip_trailing_separators);
            !(m.contains_key(ps.last()) && m[ps.last()].is_dir)
        }),
    ensures
        ({
            let ps = spec_stripped(paths, opts.strip_trailing_separators);
            let s = spec_mv(m, opts, paths, answers);
            let t = spec_transfer(m, ps[0], ps[1], false);
            &&& s.ok
            &&& s.results.len() == 1
            &&& s.results[0].source == ps[0]
            &&& s.results[0].dest == Some(ps[1])
            &&& !s.results[0].backup_attempted
            &&& s.results[0].backup is None
            &&& s.results[0].outcome == t.outcome
            &&& s.fs == t.fs
            &&& s.too_many_for_rename == (paths.len() > 2)
        }),
{
    if opts.strip_trailing_separators {
        let ps = spec_stripped(paths, opts.strip_trailing_separators);
        assert(ps.len() == paths.len());
    }
}

/// Fan-in law: one outcome per source, in input order; each source with a
/// final component is aimed at `target / final_component(source)`, and one
/// without fails as an invalid path.
pub proof fn lemma_fan_in_destinations(
    m: Map<Seq<char>, EntryView>,
    opts: MoveOptionsView,
    sources: Seq<Seq<char>>,
    target: Seq<char>,
    answers: Seq<UserDecision>,
    ai: nat,
    crossed: bool,
)
    ensures
        ({
            let b = spec_run_entries(m, opts, sources, target, answers, ai, crossed);
            &&& b.results.len() == sources.len()
            &&& forall|i: int|
                0 <= i < sources.len() ==> {
                    let rv = #[trigger] b.results[i];
                    &&& rv.source == sources[i]
                    &&& (spec_final_component(sources[i]).len() > 0 ==> rv.dest == Some(
                        spec_join(target, spec_final_component(sources[i])),
                    ))
                    &&& (spec_final_component(sources[i]).len() == 0 ==> rv.dest is None
                        && rv.outcome == TransferOutcome::Failed(FailReason::InvalidPath))
                }
        }),
    decreases sources.len(),
{
    if sources.len() > 0 {
        let e = spec_process_entry(m, opts, sources[0], target, answers, ai, crossed);
        lemma_fan_in_destinations(
            e.fs,
            opts,
            sources.drop_first(),
            target,
            answers,
            e.next_answer,
            e.crossed,
        );
        let b = spec_run_entries(m, opts, sources, target, answers, ai, crossed);
        let rest = spec_run_entries(
            e.fs,
            opts,
            sources.drop_first(),
            target,
            answers,
            e.next_answer,
            e.crossed,
        );
        assert forall|i: int| 0 <= i < sources.len() implies {
            let rv = #[trigger] b.results[i];
            &&& rv.source == sources[i]
            &&& (spec_final_component(sources[i]).len() > 0 ==> rv.dest == Some(
                spec_join(target, spec_final_component(sources[i])),
            ))
            &&& (spec_final_component(sources[i]).len() == 0 ==> rv.dest is None
                && rv.outcome == TransferOutcome::Failed(FailReason::InvalidPath))
        } by {
            if i > 0 {
                assert(b.results[i] == rest.results[i - 1]);
                assert(sources.drop_first()[i - 1] == sources[i]);
            }
        }
    }
}

/// No-clobber law: with `no_clobber` set (and not interactive), an entry
/// whose destination already exists is skipped with the no-clobber reason
/// and the filesystem is left exactly as it was: source in place,
/// destination unmodified.
pub proof fn lemma_no_clobber_skip(
    m: Map<Seq<char>, EntryView>,
    opts: MoveOptionsView,
    source: Seq<char>,
    target: Seq<char>,
    answers: Seq<UserDecision>,
    ai: nat,
    crossed: bool,
)
    requires
        !opts.interactive,
        opts.no_clobber,
        spec_final_component(source).len() > 0,
        m.contains_key(spec_join(target, spec_final_component(source))),
    ensures
        ({
            let e = spec_process_entry(m, opts, source, target, answers, ai, crossed);
            &&& e.fs == m
            &&& e.result.outcome == TransferOutcome::Skipped(SkipReason::NoClobber)
            &&& e.next_answer == ai
            &&& e.crossed == crossed
        }),
{
}

/// Interactive-decline law: in interactive mode, any answer that is not an
/// affirmative one (a missing answer included) skips the entry and leaves
/// the filesystem exactly as it was: both source and destination
/// unchanged.
pub proof fn lemma_interactive_decline(
    m: Map<Seq<char>, EntryView>,
    opts: MoveOptionsView,
    source: Seq<char>,
    target: Seq<char>,
    answers: Seq<UserDecision>,
    ai: nat,
    crossed: bool,
)
    requires
        opts.interactive,
        spec_final_component(source).len() > 0,
        m.contains_key(spec_join(target, spec_final_component(source))),
        spec_answer(answers, ai) != Some(UserDecision::Yes),
    ensures
        ({
            let e = spec_process_entry(m, opts, source, target, answers, ai, crossed);
            &&& e.fs == m
            &&& e.result.outcome == TransferOutcome::Skipped(SkipReason::Declined)
            &&& e.crossed == crossed
        }),
{
}

} // verus!
