//! Backup names.
//!
//! An entry about to be overwritten may first be preserved under a backup
//! name.  A plain (simple) backup appends the configured suffix to the
//! original name; a numbered backup is `name.~N~` where `N` is one more
//! than the largest number any existing backup of that name carries.

use vstd::prelude::*;

use crate::numerals::lemma_digits_val_prefix;
use crate::numerals::spec_all_digits;
use crate::numerals::spec_dec_digits;
use crate::numerals::spec_digits_val;
use crate::numerals::spec_is_digit;
use crate::numerals::digit_value;
use crate::numerals::lemma_dec_digits;
use crate::numerals::u64_to_string;
use crate::options::BackupPolicy;
use crate::options::BackupPolicyView;

verus! {

/// The name of the `n`-th numbered backup of `orig`.
pub open spec fn spec_numbered_name(orig: Seq<char>, n: nat) -> Seq<char> {
    orig + seq!['.', '~'] + spec_dec_digits(n) + seq!['~']
}

/// Does `entry` look like a numbered backup of `orig`: the original name,
/// then `.~`, then at least one decimal digit, then `~`?
pub open spec fn spec_is_numbered(entry: Seq<char>, orig: Seq<char>) -> bool {
    &&& entry.len() >= orig.len() + 4
    &&& entry.subrange(0, orig.len() as int) == orig
    &&& entry[orig.len() as int] == '.'
    &&& entry[orig.len() as int + 1] == '~'
    &&& entry.last() == '~'
    &&& spec_all_digits(entry.subrange(orig.len() as int + 2, entry.len() as int - 1))
}

/// The number a numbered backup name carries.
pub open spec fn spec_numbered_value(entry: Seq<char>, orig: Seq<char>) -> nat {
    spec_digits_val(entry.subrange(orig.len() as int + 2, entry.len() as int - 1))
}

/// A canonical numbered name is a numbered backup of `orig` and carries
/// exactly the number it was made from.
pub proof fn lemma_numbered_name_parses(orig: Seq<char>, n: nat)
    ensures
        spec_is_numbered(spec_numbered_name(orig, n), orig),
        spec_numbered_value(spec_numbered_name(orig, n), orig) == n,
{
    lemma_dec_digits(n);
    let e = spec_numbered_name(orig, n);
    assert(e.subrange(0, orig.len() as int) =~= orig);
    assert(e.subrange(orig.len() as int + 2, e.len() as int - 1) =~= spec_dec_digits(n));
    assert(e[orig.len() as int] == '.');
    assert(e[orig.len() as int + 1] == '~');
    assert(e.last() == '~');
}

/// Reads `entry` as a numbered backup of `orig`.  `Some(n)` exactly when
/// the pattern matches and the number fits a `u64`; a value too large to
/// represent is ignored, like any other entry that does not match.
pub fn parse_numbered(entry: &String, orig: &String) -> (r: Option<u64>)
    ensures
        match r {
            Some(n) => spec_is_numbered(entry@, orig@) && n as nat == spec_numbered_value(
                entry@,
                orig@,
            ),
            None => !spec_is_numbered(entry@, orig@) || spec_numbered_value(entry@, orig@)
                > u64::MAX as nat,
        },
{
    let elen = entry.as_str().unicode_len();
    let olen = orig.as_str().unicode_len();
    if elen < olen {
        return None;
    }
    if elen - olen < 4 {
        return None;
    }
    let mut i: usize = 0;
    while i < olen
        invariant
            i <= olen == orig@.len(),
            olen + 4 <= elen == entry@.len(),
            forall|j: int| 0 <= j < i ==> entry@[j] == orig@[j],
        decreases olen - i,
    {
        if entry.as_str().get_char(i) != orig.as_str().get_char(i) {
            proof {
                assert(entry@.subrange(0, olen as int)[i as int] != orig@[i as int]);
            }
            return None;
        }
        i = i + 1;
    }
    proof {
        assert(entry@.subrange(0, olen as int) =~= orig@);
    }
    if entry.as_str().get_char(olen) != '.' {
        return None;
    }
    if entry.as_str().get_char(olen + 1) != '~' {
        return None;
    }
    if entry.as_str().get_char(elen - 1) != '~' {
        return None;
    }
    let ghost d = entry@.subrange(olen + 2, elen - 1);
    let mut acc: u64 = 0;
    let mut i = olen + 2;
    while i < elen - 1
        invariant
            olen + 2 <= i <= elen - 1,
            olen + 4 <= elen == entry@.len(),
            olen == orig@.len(),
            entry@.subrange(0, olen as int) == orig@,
            entry@[olen as int] == '.',
            entry@[olen as int + 1] == '~',
            entry@[elen - 1] == '~',
            d == entry@.subrange(olen + 2, elen - 1),
            acc as nat == spec_digits_val(entry@.subrange(olen + 2, i as int)),
            forall|j: int| olen + 2 <= j < i ==> spec_is_digit(#[trigger] entry@[j]),
        decreases elen - i,
    {
        let c = entry.as_str().get_char(i);
        let dv = match digit_value(c) {
            Some(dv) => dv,
            None => {
                proof {
                    assert(d[i - olen - 2] == entry@[i as int]);
                }
                return None;
            },
        };
        if acc > (u64::MAX - dv) / 10 {
            proof {
                let pre = entry@.subrange(olen + 2, i + 1);
                assert(pre.drop_last() =~= entry@.subrange(olen + 2, i as int));
                assert(pre.last() == entry@[i as int]);
                assert(spec_digits_val(pre) == acc as nat * 10 + dv as nat);
                assert(acc as nat * 10 + dv as nat > u64::MAX as nat) by (nonlinear_arith)
                    requires
                        acc > (u64::MAX - dv) / 10,
                        dv <= 9,
                ;
                assert(d.subrange(0, i + 1 - olen - 2) =~= pre);
                lemma_digits_val_prefix(d, i + 1 - olen - 2);
            }
            return None;
        }
        proof {
            let pre = entry@.subrange(olen + 2, i + 1);
            assert(pre.drop_last() =~= entry@.subrange(olen + 2, i as int));
            assert(pre.last() == entry@[i as int]);
            assert(acc as nat * 10 + dv as nat <= u64::MAX as nat) by (nonlinear_arith)
                requires
                    acc <= (u64::MAX - dv) / 10,
                    dv <= 9,
            ;
        }
        acc = acc * 10 + dv;
        i = i + 1;
    }
    proof {
        assert(entry@.subrange(olen + 2, i as int) =~= d);
        assert(entry@.last() == entry@[elen - 1]);
        assert(spec_is_numbered(entry@, orig@));
    }
    Some(acc)
}

/// The views of a list of names.
pub open spec fn views_of(names: Seq<String>) -> Seq<Seq<char>> {
    names.map_values(|s: String| s@)
}

/// Is `simple` among the names?
pub open spec fn spec_found_simple(vs: Seq<Seq<char>>, simple: Seq<char>) -> bool {
    exists|i: int| 0 <= i < vs.len() && vs[i] == simple
}

/// Is `v` an upper bound on every representable numbered-backup value
/// among the names?
pub open spec fn spec_scan_ub(vs: Seq<Seq<char>>, orig: Seq<char>, v: nat) -> bool {
    forall|i: int|
        0 <= i < vs.len() && spec_is_numbered(#[trigger] vs[i], orig) && spec_numbered_value(
            vs[i],
            orig,
        ) <= u64::MAX as nat ==> spec_numbered_value(vs[i], orig) <= v
}

/// Does some name carry exactly the (representable) value `v`?
pub open spec fn spec_scan_hit(vs: Seq<Seq<char>>, orig: Seq<char>, v: nat) -> bool {
    exists|i: int|
        0 <= i < vs.len() && spec_is_numbered(#[trigger] vs[i], orig) && spec_numbered_value(
            vs[i],
            orig,
        ) == v && v <= u64::MAX as nat
}

/// Is `v` the largest representable numbered-backup value among the names
/// (0 when there is none)?
pub open spec fn spec_is_scan_max(vs: Seq<Seq<char>>, orig: Seq<char>, v: nat) -> bool {
    spec_scan_ub(vs, orig, v) && (v == 0 || spec_scan_hit(vs, orig, v))
}

/// The largest representable numbered-backup value among the names.
pub open spec fn spec_scan_max(vs: Seq<Seq<char>>, orig: Seq<char>) -> nat {
    if exists|v: nat| spec_is_scan_max(vs, orig, v) {
        choose|v: nat| spec_is_scan_max(vs, orig, v)
    } else {
        0
    }
}

/// The largest value is unique.
pub proof fn lemma_scan_max_unique(vs: Seq<Seq<char>>, orig: Seq<char>, v1: nat, v2: nat)
    requires
        spec_is_scan_max(vs, orig, v1),
        spec_is_scan_max(vs, orig, v2),
    ensures
        v1 == v2,
{
    if v1 != 0 && v2 != 0 {
        assert(v1 <= v2 && v2 <= v1);
    } else if v1 == 0 && v2 != 0 {
        assert(v2 <= v1);
    } else if v2 == 0 && v1 != 0 {
        assert(v1 <= v2);
    }
}

/// Scans a directory listing for backups of `orig`: the largest number any
/// numbered backup carries (0 when none does), and whether the plain
/// suffixed name is present.
pub fn scan_backups(names: &Vec<String>, orig: &String, suffix: &String) -> (r: (u64, bool))
    ensures
        spec_is_scan_max(views_of(names@), orig@, r.0 as nat),
        spec_scan_max(views_of(names@), orig@) == r.0 as nat,
        r.1 == spec_found_simple(views_of(names@), orig@ + suffix@),
{
    let expected = orig.clone().concat(suffix.as_str());
    let ghost vs = views_of(names@);
    proof {
        assert(vs.len() == names@.len());
    }
    let mut max: u64 = 0;
    let mut found: bool = false;
    let mut i: usize = 0;
    while i < names.len()
        invariant
            i <= names@.len(),
            vs == views_of(names@),
            expected@ == orig@ + suffix@,
            forall|j: int|
                0 <= j < i && spec_is_numbered(#[trigger] vs[j], orig@) && spec_numbered_value(
                    vs[j],
                    orig@,
                ) <= u64::MAX as nat ==> spec_numbered_value(vs[j], orig@) <= max as nat,
            max as nat > 0 ==> exists|j: int|
                0 <= j < i && spec_is_numbered(#[trigger] vs[j], orig@) && spec_numbered_value(
                    vs[j],
                    orig@,
                ) == max as nat,
            found == exists|j: int| 0 <= j < i && #[trigger] vs[j] == orig@ + suffix@,
        decreases names@.len() - i,
    {
        let name = &names[i];
        proof {
            assert(vs[i as int] == name@);
        }
        match parse_numbered(name, orig) {
            Some(n) => {
                if n > max {
                    max = n;
                }
            },
            None => {},
        }
        if *name == expected {
            found = true;
        }
        i = i + 1;
    }
    proof {
        assert(vs.len() == names@.len());
        assert(spec_is_scan_max(vs, orig@, max as nat));
        assert(exists|v: nat| spec_is_scan_max(vs, orig@, v));
        lemma_scan_max_unique(
            vs,
            orig@,
            max as nat,
            choose|v: nat| spec_is_scan_max(vs, orig@, v),
        );
    }
    (max, found)
}

/// The backup name the policy chooses, given the listing of the directory
/// the target lives in.  `None` when no backup is to be made (policy
/// `NoBackup`) or none can be (the next backup number would not be
/// representable).
pub open spec fn spec_backup_name(
    policy: BackupPolicyView,
    orig: Seq<char>,
    vs: Seq<Seq<char>>,
) -> Option<Seq<char>> {
    match policy {
        BackupPolicyView::NoBackup => None,
        BackupPolicyView::Simple(sfx) => Some(orig + sfx),
        BackupPolicyView::Numbered => {
            let m = spec_scan_max(vs, orig);
            if m < u64::MAX as nat {
                Some(spec_numbered_name(orig, m + 1))
            } else {
                None
            }
        },
        BackupPolicyView::Existing(sfx) => {
            let m = spec_scan_max(vs, orig);
            if m > 0 || spec_found_simple(vs, orig + sfx) {
                if m < u64::MAX as nat {
                    Some(spec_numbered_name(orig, m + 1))
                } else {
                    None
                }
            } else {
                Some(orig + sfx)
            }
        },
    }
}

/// Computes the backup name for `orig` under `policy`, scanning `names`
/// (the listing of the directory the target lives in) for existing
/// backups.
pub fn backup_file_name(policy: &BackupPolicy, orig: &String, names: &Vec<String>) -> (r: Option<
    String,
>)
    ensures
        match r {
            Some(name) => spec_backup_name(policy@, orig@, views_of(names@)) == Some(name@),
            None => spec_backup_name(policy@, orig@, views_of(names@)) is None,
        },
        policy@ is Numbered || policy@ is Existing ==> spec_is_scan_max(
            views_of(names@),
            orig@,
            spec_scan_max(views_of(names@), orig@),
        ),
{
    match policy {
        BackupPolicy::NoBackup => None,
        BackupPolicy::Simple(sfx) => Some(orig.clone().concat(sfx.as_str())),
        BackupPolicy::Numbered => {
            let suffix = String::new();
            let (m, _f) = scan_backups(names, orig, &suffix);
            if m == u64::MAX {
                None
            } else {
                Some(numbered_backup_name(orig, m + 1))
            }
        },
        BackupPolicy::Existing(sfx) => {
            let (m, f) = scan_backups(names, orig, sfx);
            if m > 0 || f {
                if m == u64::MAX {
                    None
                } else {
                    Some(numbered_backup_name(orig, m + 1))
                }
            } else {
                Some(orig.clone().concat(sfx.as_str()))
            }
        },
    }
}

/// Numbered-backup law: when the largest number carried by an existing
/// numbered backup among the names is `v` (0 when there is none, and the
/// numbers need not be contiguous), the next numbered backup is exactly
/// `orig.~(v+1)~`, whose number is strictly greater than that of every
/// existing numbered backup.
pub proof fn lemma_numbered_backup_fresh(vs: Seq<Seq<char>>, orig: Seq<char>, v: nat)
    requires
        spec_is_scan_max(vs, orig, v),
        v < u64::MAX as nat,
    ensures
        spec_backup_name(BackupPolicyView::Numbered, orig, vs) == Some(
            spec_numbered_name(orig, v + 1),
        ),
        spec_is_numbered(spec_numbered_name(orig, v + 1), orig),
        spec_numbered_value(spec_numbered_name(orig, v + 1), orig) == v + 1,
        forall|i: int|
            0 <= i < vs.len() && spec_is_numbered(#[trigger] vs[i], orig) && spec_numbered_value(
                vs[i],
                orig,
            ) <= u64::MAX as nat ==> spec_numbered_value(vs[i], orig) < v + 1,
{
    lemma_numbered_name_parses(orig, v + 1);
    assert(exists|w: nat| spec_is_scan_max(vs, orig, w));
    lemma_scan_max_unique(vs, orig, v, spec_scan_max(vs, orig));
}

/// `Existing`-policy law: with no numbered backup and no plain-suffix
/// backup among the names, `Existing` chooses the very name `Simple`
/// would; once any numbered backup is present, `Existing` chooses a
/// numbered name, never the plain suffix again.
pub proof fn lemma_existing_policy(vs: Seq<Seq<char>>, orig: Seq<char>, sfx: Seq<char>, v: nat)
    requires
        spec_is_scan_max(vs, orig, v),
    ensures
        (forall|i: int|
            0 <= i < vs.len() ==> !(spec_is_numbered(#[trigger] vs[i], orig) && 1
                <= spec_numbered_value(vs[i], orig) <= u64::MAX as nat)) && !spec_found_simple(
            vs,
            orig + sfx,
        ) ==> spec_backup_name(BackupPolicyView::Existing(sfx), orig, vs) == spec_backup_name(
            BackupPolicyView::Simple(sfx),
            orig,
            vs,
        ),
        (exists|i: int|
            0 <= i < vs.len() && spec_is_numbered(#[trigger] vs[i], orig) && 1
                <= spec_numbered_value(vs[i], orig) <= u64::MAX as nat) && v < u64::MAX as nat
            ==> spec_backup_name(BackupPolicyView::Existing(sfx), orig, vs) == Some(
            spec_numbered_name(orig, v + 1),
        ),
{
    assert(exists|w: nat| spec_is_scan_max(vs, orig, w));
    lemma_scan_max_unique(vs, orig, v, spec_scan_max(vs, orig));
    if (forall|i: int|
        0 <= i < vs.len() ==> !(spec_is_numbered(#[trigger] vs[i], orig) && 1
            <= spec_numbered_value(vs[i], orig) <= u64::MAX as nat)) {
        if v != 0 {
            assert(spec_scan_hit(vs, orig, v));
            let i = choose|i: int|
                0 <= i < vs.len() && spec_is_numbered(#[trigger] vs[i], orig)
                    && spec_numbered_value(vs[i], orig) == v && v <= u64::MAX as nat;
            assert(false);
        }
    }
}

/// Builds the name of the `n`-th numbered backup of `orig`.
pub fn numbered_backup_name(orig: &String, n: u64) -> (r: String)
    ensures
        r@ == spec_numbered_name(orig@, n as nat),
{
    let mut r = orig.clone();
    r.append(".~");
    let digits = u64_to_string(n);
    r.append(digits.as_str());
    r.append("~");
    proof {
        reveal_strlit(".~");
        reveal_strlit("~");
        assert(r@ =~= orig@ + seq!['.', '~'] + spec_dec_digits(n as nat) + seq!['~']);
    }
    r
}

} // verus!
