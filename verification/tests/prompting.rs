use mvcore::options::prompt;
use mvcore::options::resolve_collision;
use mvcore::options::BackupPolicy;
use mvcore::options::MoveOptions;
use mvcore::options::Resolution;
use mvcore::options::SkipReason;
use mvcore::options::UserDecision;

fn s(x: &str) -> String {
    x.to_string()
}

fn opts(interactive: bool, no_clobber: bool) -> MoveOptions {
    MoveOptions {
        backup: BackupPolicy::NoBackup,
        force: false,
        interactive,
        no_clobber,
        strip_trailing_separators: false,
        verbose: false,
        debug: false,
    }
}

#[test]
fn affirmative_answers() {
    assert!(prompt(Some(s("y"))));
    assert!(prompt(Some(s("Y"))));
    assert!(prompt(Some(s("ye"))));
    assert!(prompt(Some(s("YE"))));
    assert!(prompt(Some(s("yes"))));
    assert!(prompt(Some(s("YES"))));
    assert!(prompt(Some(s("Yes"))));
    assert!(prompt(Some(s("  yes \n"))));
}

#[test]
fn negative_answers() {
    assert!(!prompt(Some(s("n"))));
    assert!(!prompt(Some(s("no"))));
    assert!(!prompt(Some(s(""))));
    assert!(!prompt(Some(s("  \n"))));
    assert!(!prompt(Some(s("yess"))));
    assert!(!prompt(Some(s("yeah"))));
    assert!(!prompt(Some(s("y e s"))));
    assert!(!prompt(None));
}

#[test]
fn resolver_asks_interactive_first() {
    let o = opts(true, true);
    assert_eq!(
        resolve_collision(&o, Some(UserDecision::Yes)),
        Resolution::Proceed
    );
    assert_eq!(
        resolve_collision(&o, Some(UserDecision::No)),
        Resolution::Skip(SkipReason::Declined)
    );
    assert_eq!(
        resolve_collision(&o, None),
        Resolution::Skip(SkipReason::Declined)
    );
}

#[test]
fn resolver_honours_no_clobber() {
    let o = opts(false, true);
    assert_eq!(resolve_collision(&o, None), Resolution::Skip(SkipReason::NoClobber));
}

#[test]
fn resolver_overwrites_by_default() {
    let o = opts(false, false);
    assert_eq!(resolve_collision(&o, None), Resolution::Proceed);
}
