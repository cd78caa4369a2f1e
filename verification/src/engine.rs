//! The transfer engine and the backup namer, verified on the filesystem
//! model.
//!
//! A transfer attempts an atomic rename and falls back to copy-then-remove
//! exactly on the distinguished cross-device failure.  A backup relocates
//! the pre-existing destination entry to its backup name with the same
//! rename-then-copy discipline; after a successful copy fallback the
//! pre-existing entry is removed, mirroring a real move.

use vstd::prelude::*;

use crate::backup::backup_file_name;
use crate::backup::spec_backup_name;
use crate::backup::spec_found_simple;
use crate::backup::spec_is_numbered;
use crate::backup::spec_is_scan_max;
use crate::backup::spec_numbered_name;
use crate::backup::spec_numbered_value;
use crate::backup::spec_scan_max;
use crate::backup::views_of;
use crate::fsmodel::EntryView;
use crate::fsmodel::FsError;
use crate::fsmodel::ModelFs;
use crate::fsmodel::spec_copy;
use crate::fsmodel::spec_device_target;
use crate::fsmodel::spec_is_child_name;
use crate::fsmodel::spec_remove;
use crate::fsmodel::spec_rename;
use crate::options::BackupPolicy;
use crate::options::BackupPolicyView;
use crate::options::FailReason;
use crate::options::TransferOutcome;
use crate::pathops::final_component;
use crate::pathops::join_path;
use crate::pathops::parent_of;
use crate::pathops::spec_final_component;
use crate::pathops::spec_join;
use crate::pathops::spec_parent;

verus! {

/// What one transfer attempt leaves behind.
pub struct TransferSpec {
    pub fs: Map<Seq<char>, EntryView>,
    pub outcome: TransferOutcome,
    pub cleanup_failed: bool,
    pub crossed: bool,
}

/// The copy-then-remove phase of a transfer: a failed copy leaves
/// everything untouched; after a successful copy, a failed removal leaves
/// the source behind and must be reported as a cleanup failure.
pub open spec fn spec_copy_phase(
    m: Map<Seq<char>, EntryView>,
    src: Seq<char>,
    dst: Seq<char>,
    crossed: bool,
) -> TransferSpec {
    match spec_copy(m, src, dst) {
        Err(_) => TransferSpec {
            fs: m,
            outcome: TransferOutcome::Failed(FailReason::CopyFailed),
            cleanup_failed: false,
            crossed,
        },
        Ok(m1) => match spec_remove(m1, src) {
            Ok(m2) => TransferSpec {
                fs: m2,
                outcome: TransferOutcome::Copied,
                cleanup_failed: false,
                crossed,
            },
            Err(_) => TransferSpec {
                fs: m1,
                outcome: TransferOutcome::Copied,
                cleanup_failed: true,
                crossed,
            },
        },
    }
}

/// What moving one entry does: an atomic rename; on the distinguished
/// cross-device failure (or with the rename attempt skipped) the copy
/// phase; any other rename failure stops the entry with no fallback.
pub open spec fn spec_transfer(
    m: Map<Seq<char>, EntryView>,
    src: Seq<char>,
    dst: Seq<char>,
    skip_rename: bool,
) -> TransferSpec {
    if skip_rename {
        spec_copy_phase(m, src, dst, false)
    } else {
        match spec_rename(m, src, dst) {
            Ok(m1) => TransferSpec {
                fs: m1,
                outcome: TransferOutcome::Renamed,
                cleanup_failed: false,
                crossed: false,
            },
            Err(FsError::CrossDevice) => spec_copy_phase(m, src, dst, true),
            Err(_) => TransferSpec {
                fs: m,
                outcome: TransferOutcome::Failed(FailReason::RenameFailed),
                cleanup_failed: false,
                crossed: false,
            },
        }
    }
}

/// What one transfer attempt reported.
pub struct TransferResult {
    pub outcome: TransferOutcome,
    pub cleanup_failed: bool,
    pub crossed: bool,
}

/// Moves `src` to `dst` on the model, per [`spec_transfer`].  With
/// `skip_rename` the rename attempt is skipped and the copy phase entered
/// directly (the batch-scoped cross-device shortcut).
pub fn transfer_entry(fs: &mut ModelFs, src: &String, dst: &String, skip_rename: bool) -> (r:
    TransferResult)
    requires
        old(fs).wf(),
    ensures
        final(fs).wf(),
        ({
            let t = spec_transfer(old(fs)@, src@, dst@, skip_rename);
            &&& final(fs)@ == t.fs
            &&& r.outcome == t.outcome
            &&& r.cleanup_failed == t.cleanup_failed
            &&& r.crossed == t.crossed
        }),
{
    if !skip_rename {
        match fs.rename(src, dst) {
            Ok(()) => {
                return TransferResult {
                    outcome: TransferOutcome::Renamed,
                    cleanup_failed: false,
                    crossed: false,
                };
            },
            Err(FsError::CrossDevice) => {},
            Err(_) => {
                return TransferResult {
                    outcome: TransferOutcome::Failed(FailReason::RenameFailed),
                    cleanup_failed: false,
                    crossed: false,
                };
            },
        }
    }
    let crossed = !skip_rename;
    match fs.copy_file(src, dst) {
        Err(_) => TransferResult {
            outcome: TransferOutcome::Failed(FailReason::CopyFailed),
            cleanup_failed: false,
            crossed,
        },
        Ok(()) => match fs.remove_file(src) {
            Ok(()) => TransferResult {
                outcome: TransferOutcome::Copied,
                cleanup_failed: false,
                crossed,
            },
            Err(_) => TransferResult {
                outcome: TransferOutcome::Copied,
                cleanup_failed: true,
                crossed,
            },
        },
    }
}

/// Cross-device fallback law: when the source is an unlocked file on
/// another device than the destination, and the destination is neither a
/// directory nor locked, the transfer degrades to copy-then-remove and
/// ends with the destination holding the source's original bytes and the
/// source gone.
pub proof fn lemma_cross_device_fallback(
    m: Map<Seq<char>, EntryView>,
    src: Seq<char>,
    dst: Seq<char>,
)
    requires
        m.contains_key(src),
        !m[src].is_dir,
        !m[src].locked,
        m[src].device != spec_device_target(m, dst),
        !(m.contains_key(dst) && m[dst].is_dir),
        !(m.contains_key(dst) && m[dst].locked),
    ensures
        ({
            let t = spec_transfer(m, src, dst, false);
            &&& t.outcome == TransferOutcome::Copied
            &&& !t.cleanup_failed
            &&& t.crossed
            &&& t.fs.contains_key(dst)
            &&& t.fs[dst].data == m[src].data
            &&& !t.fs.contains_key(src)
        }),
{
    assert(src != dst);
    let m1 = spec_copy(m, src, dst)->Ok_0;
    assert(m1.contains_key(src) && m1[src] == m[src]);
}

/// Does some child of `parent` carry the numbered-backup value `v` for
/// `orig`?
pub open spec fn spec_has_numbered_child(
    m: Map<Seq<char>, EntryView>,
    parent: Seq<char>,
    orig: Seq<char>,
    v: nat,
) -> bool {
    exists|n: Seq<char>|
        #[trigger] spec_is_child_name(m, parent, n) && spec_is_numbered(n, orig)
            && spec_numbered_value(n, orig) == v && v <= u64::MAX as nat
}

/// Is `v` the largest numbered-backup value any child of `parent` carries
/// for `orig` (0 when none does)?
pub open spec fn spec_is_child_scan_max(
    m: Map<Seq<char>, EntryView>,
    parent: Seq<char>,
    orig: Seq<char>,
    v: nat,
) -> bool {
    (forall|w: nat| #[trigger] spec_has_numbered_child(m, parent, orig, w) ==> w <= v) && (v == 0
        || spec_has_numbered_child(m, parent, orig, v))
}

/// The largest numbered-backup value any child of `parent` carries.
pub open spec fn spec_child_scan_max(
    m: Map<Seq<char>, EntryView>,
    parent: Seq<char>,
    orig: Seq<char>,
) -> nat {
    if exists|v: nat| spec_is_child_scan_max(m, parent, orig, v) {
        choose|v: nat| spec_is_child_scan_max(m, parent, orig, v)
    } else {
        0
    }
}

/// The largest value is unique.
pub proof fn lemma_child_scan_max_unique(
    m: Map<Seq<char>, EntryView>,
    parent: Seq<char>,
    orig: Seq<char>,
    v1: nat,
    v2: nat,
)
    requires
        spec_is_child_scan_max(m, parent, orig, v1),
        spec_is_child_scan_max(m, parent, orig, v2),
    ensures
        v1 == v2,
{
    if v1 != 0 && v2 != 0 {
        assert(v1 <= v2 && v2 <= v1);
    } else if v1 == 0 && v2 != 0 {
        assert(v2 <= v1);
    } else if v2 == 0 && v1 != 0 {
        assert(v1 <= v2);
    }
}

/// A sound and complete listing of the children of `parent` scans to the
/// same result as the map itself.
pub proof fn lemma_scan_bridge(
    m: Map<Seq<char>, EntryView>,
    parent: Seq<char>,
    orig: Seq<char>,
    names: Seq<String>,
    v: nat,
    simple: Seq<char>,
)
    requires
        forall|j: int| 0 <= j < names.len() ==> spec_is_child_name(m, parent, (#[trigger] names[j])@),
        forall|n: Seq<char>|
            spec_is_child_name(m, parent, n) ==> exists|j: int|
                0 <= j < names.len() && (#[trigger] names[j])@ == n,
        spec_is_scan_max(views_of(names), orig, v),
    ensures
        spec_is_child_scan_max(m, parent, orig, v),
        spec_child_scan_max(m, parent, orig) == v,
        spec_found_simple(views_of(names), simple) == spec_is_child_name(m, parent, simple),
{
    let vs = views_of(names);
    assert(vs.len() == names.len());
    assert(forall|j: int| 0 <= j < names.len() ==> vs[j] == (#[trigger] names[j])@);
    assert forall|w: nat| #[trigger] spec_has_numbered_child(m, parent, orig, w) implies w <= v by {
        let n = choose|n: Seq<char>|
            #[trigger] spec_is_child_name(m, parent, n) && spec_is_numbered(n, orig)
                && spec_numbered_value(n, orig) == w && w <= u64::MAX as nat;
        let j = choose|j: int| 0 <= j < names.len() && (#[trigger] names[j])@ == n;
        assert(spec_is_numbered(vs[j], orig));
    }
    if v != 0 {
        let i = choose|i: int|
            0 <= i < vs.len() && spec_is_numbered(#[trigger] vs[i], orig) && spec_numbered_value(
                vs[i],
                orig,
            ) == v && v <= u64::MAX as nat;
        assert(spec_is_child_name(m, parent, names[i]@));
        assert(spec_has_numbered_child(m, parent, orig, v));
    }
    assert(spec_is_child_scan_max(m, parent, orig, v));
    assert(exists|w: nat| spec_is_child_scan_max(m, parent, orig, w));
    lemma_child_scan_max_unique(m, parent, orig, v, spec_child_scan_max(m, parent, orig));
    if spec_found_simple(vs, simple) {
        let i = choose|i: int| 0 <= i < vs.len() && vs[i] == simple;
        assert(spec_is_child_name(m, parent, names[i]@));
    }
    if spec_is_child_name(m, parent, simple) {
        let j = choose|j: int| 0 <= j < names.len() && (#[trigger] names[j])@ == simple;
        assert(vs[j] == simple);
    }
}

/// The backup name the policy chooses for the entry at `dest`, read off
/// the model: `None` for a directory, for a path without a final
/// component, under `NoBackup`, and when the next backup number would not
/// be representable.
pub open spec fn spec_backup_target(
    m: Map<Seq<char>, EntryView>,
    dest: Seq<char>,
    policy: BackupPolicyView,
) -> Option<Seq<char>> {
    let orig = spec_final_component(dest);
    let parent = spec_parent(dest);
    if m.contains_key(dest) && m[dest].is_dir {
        None
    } else if orig.len() == 0 {
        None
    } else {
        match policy {
            BackupPolicyView::NoBackup => None,
            BackupPolicyView::Simple(sfx) => Some(orig + sfx),
            BackupPolicyView::Numbered => {
                let v = spec_child_scan_max(m, parent, orig);
                if v < u64::MAX as nat {
                    Some(spec_numbered_name(orig, v + 1))
                } else {
                    None
                }
            },
            BackupPolicyView::Existing(sfx) => {
                let v = spec_child_scan_max(m, parent, orig);
                if v > 0 || spec_is_child_name(m, parent, orig + sfx) {
                    if v < u64::MAX as nat {
                        Some(spec_numbered_name(orig, v + 1))
                    } else {
                        None
                    }
                } else {
                    Some(orig + sfx)
                }
            },
        }
    }
}

/// What one backup attempt leaves behind.
pub struct BackupSpec {
    pub fs: Map<Seq<char>, EntryView>,
    pub name: Option<Seq<char>>,
}

/// What preserving the entry at `dest` does: the chosen backup name, the
/// pre-existing entry relocated to it by rename, or by copy-then-remove
/// when the rename fails; `None` (and an untouched filesystem) when no
/// backup is chosen or the relocation fails outright.
pub open spec fn spec_backup(
    m: Map<Seq<char>, EntryView>,
    dest: Seq<char>,
    policy: BackupPolicyView,
) -> BackupSpec {
    match spec_backup_target(m, dest, policy) {
        None => BackupSpec { fs: m, name: None },
        Some(name) => {
            let b = spec_join(spec_parent(dest), name);
            match spec_rename(m, dest, b) {
                Ok(m1) => BackupSpec { fs: m1, name: Some(name) },
                Err(_) => match spec_copy(m, dest, b) {
                    Err(_) => BackupSpec { fs: m, name: None },
                    Ok(m1) => match spec_remove(m1, dest) {
                        Ok(m2) => BackupSpec { fs: m2, name: Some(name) },
                        Err(_) => BackupSpec { fs: m1, name: Some(name) },
                    },
                },
            }
        },
    }
}

/// Preserves the entry at `dest` under its backup name, per
/// [`spec_backup`].  Returns the backup's final name, or `None` when no
/// backup was made.
pub fn perform_backup(fs: &mut ModelFs, dest: &String, policy: &BackupPolicy) -> (r: Option<String>)
    requires
        old(fs).wf(),
    ensures
        final(fs).wf(),
        ({
            let b = spec_backup(old(fs)@, dest@, policy@);
            &&& final(fs)@ == b.fs
            &&& match r {
                Some(n) => b.name == Some(n@),
                None => b.name is None,
            }
        }),
        (policy@ is Numbered || policy@ is Existing) && !(old(fs)@.contains_key(dest@)
            && old(fs)@[dest@].is_dir) && spec_final_component(dest@).len() > 0
            ==> spec_is_child_scan_max(
            old(fs)@,
            spec_parent(dest@),
            spec_final_component(dest@),
            spec_child_scan_max(old(fs)@, spec_parent(dest@), spec_final_component(dest@)),
        ),
{
    if fs.is_dir(dest) {
        return None;
    }
    let orig = match final_component(dest) {
        Some(o) => o,
        None => {
            return None;
        },
    };
    let parent = parent_of(dest);
    let name = match policy {
        BackupPolicy::NoBackup => {
            return None;
        },
        BackupPolicy::Simple(sfx) => orig.clone().concat(sfx.as_str()),
        _ => {
            let names = fs.dir_entry_names(&parent);
            let named = backup_file_name(policy, &orig, &names);
            proof {
                let vs = views_of(names@);
                let ghost sfx_view = match policy@ {
                    BackupPolicyView::Existing(sfx) => sfx,
                    _ => Seq::<char>::empty(),
                };
                lemma_scan_bridge(
                    fs@,
                    parent@,
                    orig@,
                    names@,
                    spec_scan_max(vs, orig@),
                    orig@ + sfx_view,
                );
                assert(spec_backup_name(policy@, orig@, vs) == spec_backup_target(
                    fs@,
                    dest@,
                    policy@,
                ));
            }
            match named {
                Some(n) => n,
                None => {
                    return None;
                },
            }
        },
    };
    let bpath = join_path(&parent, &name);
    match fs.rename(dest, &bpath) {
        Ok(()) => Some(name),
        Err(_) => {
            match fs.copy_file(dest, &bpath) {
                Err(_) => None,
                Ok(()) => {
                    let _ = fs.remove_file(dest);
                    Some(name)
                },
            }
        },
    }
}

/// Numbered-backup law on the model: with `v` the largest number among the
/// existing numbered backups of `dest`'s name (0 when there is none, and
/// the numbers need not be contiguous), the next numbered backup is
/// exactly `name.~(v+1)~`, strictly newer than every existing one.
pub proof fn lemma_numbered_backup_next(
    m: Map<Seq<char>, EntryView>,
    dest: Seq<char>,
    v: nat,
)
    requires
        spec_is_child_scan_max(m, spec_parent(dest), spec_final_component(dest), v),
        v < u64::MAX as nat,
        !(m.contains_key(dest) && m[dest].is_dir),
        spec_final_component(dest).len() > 0,
    ensures
        spec_backup_target(m, dest, BackupPolicyView::Numbered) == Some(
            spec_numbered_name(spec_final_component(dest), v + 1),
        ),
        spec_numbered_value(
            spec_numbered_name(spec_final_component(dest), v + 1),
            spec_final_component(dest),
        ) == v + 1,
        forall|w: nat|
            #[trigger] spec_has_numbered_child(m, spec_parent(dest), spec_final_component(dest), w)
                ==> w < v + 1,
{
    let orig = spec_final_component(dest);
    let parent = spec_parent(dest);
    assert(exists|w: nat| spec_is_child_scan_max(m, parent, orig, w));
    lemma_child_scan_max_unique(m, parent, orig, v, spec_child_scan_max(m, parent, orig));
    crate::backup::lemma_numbered_name_parses(orig, v + 1);
}

/// `Existing`-policy law on the model: with no numbered backup and no
/// plain-suffix backup beside `dest`, `Existing` chooses the very name
/// `Simple` would; once any numbered backup is present, it chooses a
/// numbered name, never the plain suffix again.
pub proof fn lemma_existing_escalation(
    m: Map<Seq<char>, EntryView>,
    dest: Seq<char>,
    sfx: Seq<char>,
    v: nat,
)
    requires
        spec_is_child_scan_max(m, spec_parent(dest), spec_final_component(dest), v),
        !(m.contains_key(dest) && m[dest].is_dir),
        spec_final_component(dest).len() > 0,
    ensures
        (forall|w: nat|
            !(#[trigger] spec_has_numbered_child(
                m,
                spec_parent(dest),
                spec_final_component(dest),
                w,
            ))) && !spec_is_child_name(m, spec_parent(dest), spec_final_component(dest) + sfx)
            ==> spec_backup_target(m, dest, BackupPolicyView::Existing(sfx)) == spec_backup_target(
            m,
            dest,
            BackupPolicyView::Simple(sfx),
        ),
        (exists|w: nat|
            1 <= w && #[trigger] spec_has_numbered_child(
                m,
                spec_parent(dest),
                spec_final_component(dest),
                w,
            )) && v < u64::MAX as nat ==> spec_backup_target(
            m,
            dest,
            BackupPolicyView::Existing(sfx),
        ) == Some(spec_numbered_name(spec_final_component(dest), v + 1)),
{
    let orig = spec_final_component(dest);
    let parent = spec_parent(dest);
    assert(exists|w: nat| spec_is_child_scan_max(m, parent, orig, w));
    lemma_child_scan_max_unique(m, parent, orig, v, spec_child_scan_max(m, parent, orig));
    if (forall|w: nat| !(#[trigger] spec_has_numbered_child(m, parent, orig, w)))
        && !spec_is_child_name(m, parent, orig + sfx) {
        if v != 0 {
            assert(spec_has_numbered_child(m, parent, orig, v));
            assert(false);
        }
    }
    if (exists|w: nat| 1 <= w && #[trigger] spec_has_numbered_child(m, parent, orig, w)) {
        let w = choose|w: nat| 1 <= w && #[trigger] spec_has_numbered_child(m, parent, orig, w);
        assert(w <= v);
    }
}

} // verus!
