//! Profile construction against the platform classifier, and the policy
//! decision a profile makes for concrete requests.

use gaol::profile::{
    Address, AddressPattern, Operation, OperationSupportLevel, PathPattern, Profile, ProfileError,
    Request,
};

#[test]
fn classifier_is_total_and_conservative() {
    let read = Operation::FileReadAll(PathPattern::Subpath(b"/tmp".to_vec()));
    let stat = Operation::FileReadMetadata(PathPattern::Literal(b"/tmp/f".to_vec()));
    let net = Operation::NetworkOutbound(AddressPattern::All);
    let info = Operation::SystemInfoRead;
    let other = Operation::PlatformSpecific(42);
    assert_eq!(read.support(), OperationSupportLevel::AlwaysAllowed);
    assert_eq!(stat.support(), OperationSupportLevel::AlwaysAllowed);
    assert_eq!(net.support(), OperationSupportLevel::AlwaysAllowed);
    assert_eq!(info.support(), OperationSupportLevel::AlwaysAllowed);
    assert_eq!(other.support(), OperationSupportLevel::NeverAllowed);
}

#[test]
fn never_allowed_operation_fails_whole_construction() {
    let ops = vec![
        Operation::FileReadAll(PathPattern::Subpath(b"/tmp".to_vec())),
        Operation::PlatformSpecific(7),
        Operation::SystemInfoRead,
    ];
    let err = Profile::new(ops).err().expect("construction must fail");
    let ProfileError::OperationNotSupported(o) = err;
    assert!(o.eq_op(&Operation::PlatformSpecific(7)));
}

#[test]
fn never_allowed_alone_fails_too() {
    let err = Profile::new(vec![Operation::PlatformSpecific(0)])
        .err()
        .expect("construction must fail");
    let ProfileError::OperationNotSupported(o) = err;
    assert!(o.eq_op(&Operation::PlatformSpecific(0)));
}

#[test]
fn each_supported_operation_builds_and_is_granted() {
    let candidates = vec![
        Operation::FileReadAll(PathPattern::Literal(b"/etc/hosts".to_vec())),
        Operation::FileReadMetadata(PathPattern::Subpath(b"/etc".to_vec())),
        Operation::NetworkOutbound(AddressPattern::Tcp(443)),
        Operation::SystemInfoRead,
    ];
    for op in candidates {
        let probe = match &op {
            Operation::FileReadAll(PathPattern::Literal(p)) => {
                Operation::FileReadAll(PathPattern::Literal(p.clone()))
            }
            Operation::FileReadMetadata(PathPattern::Subpath(p)) => {
                Operation::FileReadMetadata(PathPattern::Subpath(p.clone()))
            }
            Operation::NetworkOutbound(AddressPattern::Tcp(n)) => {
                Operation::NetworkOutbound(AddressPattern::Tcp(*n))
            }
            _ => Operation::SystemInfoRead,
        };
        let profile = Profile::new(vec![op]).expect("supported operation must build");
        assert!(profile.grants(&probe));
    }
}

#[test]
fn empty_profile_is_valid_and_denies_everything() {
    let profile = Profile::new(vec![]).expect("empty profile is valid");
    assert!(!profile.allows(&Request::FileRead(b"/etc/hosts".to_vec())));
    assert!(!profile.allows(&Request::FileStat(b"/etc/hosts".to_vec())));
    assert!(!profile.allows(&Request::NetworkConnect(Address::Tcp(80))));
    assert!(!profile.allows(&Request::NetworkConnect(Address::LocalSocket(
        b"/run/x.sock".to_vec()
    ))));
    assert!(!profile.allows(&Request::SystemInfo));
}

#[test]
fn duplicates_collapse_to_one_logical_grant() {
    let profile = Profile::new(vec![
        Operation::SystemInfoRead,
        Operation::SystemInfoRead,
        Operation::SystemInfoRead,
    ])
    .expect("duplicates are permitted");
    assert!(profile.grants(&Operation::SystemInfoRead));
    assert!(profile.allows(&Request::SystemInfo));
    assert!(!profile.allows(&Request::FileRead(b"/etc/hosts".to_vec())));
}

#[test]
fn network_all_profile_allows_any_outbound_connection() {
    let profile = Profile::new(vec![Operation::NetworkOutbound(AddressPattern::All)])
        .expect("profile must build");
    assert!(profile.allows(&Request::NetworkConnect(Address::Tcp(1))));
    assert!(profile.allows(&Request::NetworkConnect(Address::Tcp(65535))));
    assert!(profile.allows(&Request::NetworkConnect(Address::LocalSocket(
        b"/run/x.sock".to_vec()
    ))));
    assert!(!profile.allows(&Request::FileRead(b"/etc/hosts".to_vec())));
}

#[test]
fn scoped_file_grant_allows_exactly_its_scope() {
    let profile = Profile::new(vec![Operation::FileReadAll(PathPattern::Subpath(
        b"/data".to_vec(),
    ))])
    .expect("profile must build");
    assert!(profile.allows(&Request::FileRead(b"/data".to_vec())));
    assert!(profile.allows(&Request::FileRead(b"/data/a/b".to_vec())));
    assert!(!profile.allows(&Request::FileRead(b"/database".to_vec())));
    // a read grant is not a stat grant
    assert!(!profile.allows(&Request::FileStat(b"/data/a/b".to_vec())));
}

#[test]
fn no_grant_is_imprecise_on_this_backend() {
    let op = Operation::FileReadAll(PathPattern::Subpath(b"/tmp".to_vec()));
    let probe = Operation::FileReadAll(PathPattern::Subpath(b"/tmp".to_vec()));
    let profile = Profile::new(vec![op]).expect("profile must build");
    assert!(profile.grants(&probe));
    assert!(!profile.grants_imprecisely(&probe));
}

#[test]
fn operations_are_kept_in_given_order() {
    let profile = Profile::new(vec![
        Operation::SystemInfoRead,
        Operation::NetworkOutbound(AddressPattern::Tcp(80)),
    ])
    .expect("profile must build");
    let ops = profile.operations();
    assert_eq!(ops.len(), 2);
    assert!(ops[0].eq_op(&Operation::SystemInfoRead));
    assert!(ops[1].eq_op(&Operation::NetworkOutbound(AddressPattern::Tcp(80))));
}
