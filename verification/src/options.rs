//! Configuration of a move, per-entry outcomes, the yes/no answer parser,
//! and the collision resolver.

use vstd::prelude::*;

verus! {

/// An operator's answer to a confirmation prompt.
#[derive(Clone, Copy, PartialEq, Eq, Structural, Debug)]
pub enum UserDecision {
    Yes,
    No,
}

/// How an entry about to be overwritten is preserved.
///
/// `Existing` behaves as `Numbered` once any numbered backup (or the plain
/// suffixed name) already exists for the target, else as `Simple`.
#[derive(Debug)]
pub enum BackupPolicy {
    NoBackup,
    Simple(String),
    Existing(String),
    Numbered,
}

/// Mathematical image of a [`BackupPolicy`].
pub enum BackupPolicyView {
    NoBackup,
    Simple(Seq<char>),
    Existing(Seq<char>),
    Numbered,
}

impl View for BackupPolicy {
    type V = BackupPolicyView;

    open spec fn view(&self) -> BackupPolicyView {
        match self {
            BackupPolicy::NoBackup => BackupPolicyView::NoBackup,
            BackupPolicy::Simple(s) => BackupPolicyView::Simple(s@),
            BackupPolicy::Existing(s) => BackupPolicyView::Existing(s@),
            BackupPolicy::Numbered => BackupPolicyView::Numbered,
        }
    }
}

/// Immutable configuration of one batch, built once at startup.
///
/// `force` records that the operator suppressed the default confirmation;
/// the resolver consults `interactive` first and `no_clobber` second, so
/// `force` itself never decides a collision.
#[derive(Debug)]
pub struct MoveOptions {
    pub backup: BackupPolicy,
    pub force: bool,
    pub interactive: bool,
    pub no_clobber: bool,
    pub strip_trailing_separators: bool,
    pub verbose: bool,
    pub debug: bool,
}

/// Mathematical image of [`MoveOptions`].
pub struct MoveOptionsView {
    pub backup: BackupPolicyView,
    pub force: bool,
    pub interactive: bool,
    pub no_clobber: bool,
    pub strip_trailing_separators: bool,
    pub verbose: bool,
    pub debug: bool,
}

impl View for MoveOptions {
    type V = MoveOptionsView;

    open spec fn view(&self) -> MoveOptionsView {
        MoveOptionsView {
            backup: self.backup@,
            force: self.force,
            interactive: self.interactive,
            no_clobber: self.no_clobber,
            strip_trailing_separators: self.strip_trailing_separators,
            verbose: self.verbose,
            debug: self.debug,
        }
    }
}

/// Why an entry was skipped.
#[derive(Clone, Copy, PartialEq, Eq, Structural, Debug)]
pub enum SkipReason {
    Declined,
    NoClobber,
}

/// Why an entry failed.
#[derive(Clone, Copy, PartialEq, Eq, Structural, Debug)]
pub enum FailReason {
    InvalidPath,
    RenameFailed,
    CopyFailed,
}

/// The outcome of moving one entry.
#[derive(Clone, Copy, PartialEq, Eq, Structural, Debug)]
pub enum TransferOutcome {
    Renamed,
    Copied,
    Skipped(SkipReason),
    Failed(FailReason),
}

/// What the collision resolver decides for a pre-existing destination.
#[derive(Clone, Copy, PartialEq, Eq, Structural, Debug)]
pub enum Resolution {
    Proceed,
    Skip(SkipReason),
}

/// A batch-level error: fewer than two paths were supplied.
#[derive(Clone, Copy, PartialEq, Eq, Structural, Debug)]
pub enum MvError {
    InsufficientArguments,
}

/// Is `c` blank space, as the answer parser understands it?
pub open spec fn spec_is_space(c: char) -> bool {
    c == ' ' || c == '\t' || c == '\n' || c == '\r'
}

/// `s` with trailing blank space removed.
pub open spec fn spec_trim_end(s: Seq<char>) -> Seq<char>
    decreases s.len(),
{
    if s.len() > 0 && spec_is_space(s.last()) {
        spec_trim_end(s.drop_last())
    } else {
        s
    }
}

/// `s` with leading blank space removed.
pub open spec fn spec_trim_start(s: Seq<char>) -> Seq<char>
    decreases s.len(),
{
    if s.len() > 0 && spec_is_space(s.first()) {
        spec_trim_start(s.drop_first())
    } else {
        s
    }
}

/// `s` with blank space removed at both ends.
pub open spec fn spec_trim(s: Seq<char>) -> Seq<char> {
    spec_trim_start(spec_trim_end(s))
}

/// Folds the upper-case letters of "YES" onto their lower-case forms and
/// leaves every other character alone.
pub open spec fn spec_answer_norm(c: char) -> char {
    if c == 'Y' {
        'y'
    } else if c == 'E' {
        'e'
    } else if c == 'S' {
        's'
    } else {
        c
    }
}

/// Does `s` case-insensitively equal `y`, `ye` or `yes`?
pub open spec fn spec_is_affirmative(s: Seq<char>) -> bool {
    let t = s.map_values(|c: char| spec_answer_norm(c));
    t == seq!['y'] || t == seq!['y', 'e'] || t == seq!['y', 'e', 's']
}

/// What a prompt answer means: the line is trimmed and accepted exactly
/// when what remains case-insensitively equals `y`, `ye` or `yes`; an
/// unreadable line (`None`) is a refusal.
pub open spec fn spec_prompt(line: Option<Seq<char>>) -> bool {
    match line {
        Some(s) => spec_is_affirmative(spec_trim(s)),
        None => false,
    }
}

fn trim(s: &String) -> (r: String)
    ensures
        r@ == spec_trim(s@),
{
    let len = s.as_str().unicode_len();
    let mut b = len;
    proof {
        assert(s@.subrange(0, len as int) =~= s@);
    }
    while b > 0 && is_space(s.as_str().get_char(b - 1))
        invariant
            b <= len == s@.len(),
            spec_trim_end(s@) == spec_trim_end(s@.subrange(0, b as int)),
        decreases b,
    {
        proof {
            assert(s@.subrange(0, b as int).last() == s@[b - 1]);
            assert(s@.subrange(0, b as int).drop_last() =~= s@.subrange(0, b - 1));
        }
        b = b - 1;
    }
    proof {
        if b > 0 {
            assert(s@.subrange(0, b as int).last() == s@[b - 1]);
        }
        assert(spec_trim_end(s@) == s@.subrange(0, b as int));
    }
    let mut a: usize = 0;
    while a < b && is_space(s.as_str().get_char(a))
        invariant
            a <= b <= s@.len(),
            spec_trim_end(s@) == s@.subrange(0, b as int),
            spec_trim_start(s@.subrange(0, b as int)) == spec_trim_start(
                s@.subrange(a as int, b as int),
            ),
        decreases b - a,
    {
        proof {
            assert(s@.subrange(a as int, b as int).first() == s@[a as int]);
            assert(s@.subrange(a as int, b as int).drop_first() =~= s@.subrange(a + 1, b as int));
        }
        a = a + 1;
    }
    proof {
        if a < b {
            assert(s@.subrange(a as int, b as int).first() == s@[a as int]);
        }
        assert(spec_trim_start(s@.subrange(a as int, b as int)) == s@.subrange(a as int, b as int));
    }
    s.as_str().substring_char(a, b).to_owned()
}

fn is_space(c: char) -> (r: bool)
    ensures
        r == spec_is_space(c),
{
    c == ' ' || c == '\t' || c == '\n' || c == '\r'
}

fn answer_norm(c: char) -> (r: char)
    ensures
        r == spec_answer_norm(c),
{
    if c == 'Y' {
        'y'
    } else if c == 'E' {
        'e'
    } else if c == 'S' {
        's'
    } else {
        c
    }
}

/// Reads a confirmation out of one line of operator input: `Some(line)` is
/// accepted exactly when the trimmed line case-insensitively equals `y`,
/// `ye` or `yes`; `None` (the line could not be read) is a refusal.
pub fn prompt(line: Option<String>) -> (r: bool)
    ensures
        r == spec_prompt(match line {
            Some(s) => Some(s@),
            None => None,
        }),
{
    let s = match line {
        Some(s) => s,
        None => {
            return false;
        },
    };
    let t = trim(&s);
    let ghost tn = t@.map_values(|c: char| spec_answer_norm(c));
    proof {
        assert(tn.len() == t@.len());
    }
    let n = t.as_str().unicode_len();
    if n == 0 || n > 3 {
        return false;
    }
    let c0 = answer_norm(t.as_str().get_char(0));
    if c0 != 'y' {
        proof {
            assert(tn[0] == spec_answer_norm(t@[0]));
        }
        return false;
    }
    if n == 1 {
        proof {
            assert(tn =~= seq!['y']);
        }
        return true;
    }
    let c1 = answer_norm(t.as_str().get_char(1));
    if c1 != 'e' {
        proof {
            assert(tn[1] == spec_answer_norm(t@[1]));
        }
        return false;
    }
    if n == 2 {
        proof {
            assert(tn =~= seq!['y', 'e']);
        }
        return true;
    }
    let c2 = answer_norm(t.as_str().get_char(2));
    proof {
        assert(tn[2] == spec_answer_norm(t@[2]));
        if c2 == 's' {
            assert(tn =~= seq!['y', 'e', 's']);
        }
    }
    c2 == 's'
}

/// What the resolver decides when the computed destination already exists:
/// interactive mode asks and anything but an affirmative answer skips the
/// entry; otherwise `no_clobber` skips it; otherwise it is overwritten.
pub open spec fn spec_resolve(
    interactive: bool,
    no_clobber: bool,
    answer: Option<UserDecision>,
) -> Resolution {
    if interactive {
        if answer == Some(UserDecision::Yes) {
            Resolution::Proceed
        } else {
            Resolution::Skip(SkipReason::Declined)
        }
    } else if no_clobber {
        Resolution::Skip(SkipReason::NoClobber)
    } else {
        Resolution::Proceed
    }
}

/// Decides a collision.  Invoked only for a destination that already
/// exists; `answer` is the operator's decision where one was asked for
/// (`None` when none was, or when the answer could not be read).
pub fn resolve_collision(opts: &MoveOptions, answer: Option<UserDecision>) -> (r: Resolution)
    ensures
        r == spec_resolve(opts.interactive, opts.no_clobber, answer),
{
    if opts.interactive {
        match answer {
            Some(UserDecision::Yes) => Resolution::Proceed,
            _ => Resolution::Skip(SkipReason::Declined),
        }
    } else if opts.no_clobber {
        Resolution::Skip(SkipReason::NoClobber)
    } else {
        Resolution::Proceed
    }
}

} // verus!
