//! The profile-transport codec: exact encodings and the round trip.

use gaol::profile::{AddressPattern, Operation, PathPattern, Profile};
use gaol::transport::{encode_profile, parse_profile};

fn ops_equal(a: &Profile, b: &Profile) -> bool {
    let (x, y) = (a.operations(), b.operations());
    x.len() == y.len() && x.iter().zip(y.iter()).all(|(p, q)| p.eq_op(q))
}

#[test]
fn encode_system_info_record() {
    let profile = Profile::new(vec![Operation::SystemInfoRead]).unwrap();
    assert_eq!(encode_profile(&profile), "si;");
}

#[test]
fn encode_literal_file_read_record() {
    // "/a" is the two bytes 0x2f 0x61, hex-escaped
    let profile = Profile::new(vec![Operation::FileReadAll(PathPattern::Literal(
        b"/a".to_vec(),
    ))])
    .unwrap();
    assert_eq!(encode_profile(&profile), "frl2f61;");
}

#[test]
fn encode_subpath_metadata_record() {
    let profile = Profile::new(vec![Operation::FileReadMetadata(PathPattern::Subpath(
        b"/a".to_vec(),
    ))])
    .unwrap();
    assert_eq!(encode_profile(&profile), "fms2f61;");
}

#[test]
fn encode_network_records() {
    let profile = Profile::new(vec![
        Operation::NetworkOutbound(AddressPattern::All),
        // 7357 is 0x1cbd: little-endian bytes bd 1c
        Operation::NetworkOutbound(AddressPattern::Tcp(7357)),
        Operation::NetworkOutbound(AddressPattern::LocalSocket(b"/a".to_vec())),
    ])
    .unwrap();
    assert_eq!(encode_profile(&profile), "noa;notbd1c;nol2f61;");
}

#[test]
fn empty_profile_encodes_to_empty_string() {
    let profile = Profile::new(vec![]).unwrap();
    assert_eq!(encode_profile(&profile), "");
    let back = parse_profile("").expect("empty transport value is a valid profile");
    assert_eq!(back.operations().len(), 0);
}

#[test]
fn round_trip_preserves_operations_exactly() {
    // paths holding separators, NUL and non-ASCII bytes survive unharmed
    let profile = Profile::new(vec![
        Operation::FileReadAll(PathPattern::Literal(vec![0x2f, 0x00, 0x3b, 0xff])),
        Operation::FileReadMetadata(PathPattern::Subpath(b"/etc".to_vec())),
        Operation::NetworkOutbound(AddressPattern::All),
        Operation::NetworkOutbound(AddressPattern::Tcp(65535)),
        Operation::NetworkOutbound(AddressPattern::LocalSocket(b"/run/s;ck".to_vec())),
        Operation::SystemInfoRead,
    ])
    .unwrap();
    let encoded = encode_profile(&profile);
    let back = parse_profile(&encoded).expect("encoded profile must parse");
    assert!(ops_equal(&profile, &back));
}

#[test]
fn parse_rejects_malformed_transport_values() {
    // no terminator
    assert!(parse_profile("si").is_none());
    // unknown record tag
    assert!(parse_profile("zz;").is_none());
    // odd number of hex digits in a path
    assert!(parse_profile("frl2f6;").is_none());
    // non-digit inside the hex spelling
    assert!(parse_profile("frlzz;").is_none());
    // wrong port width
    assert!(parse_profile("notbd;").is_none());
    // trailing garbage after a valid record
    assert!(parse_profile("si;x").is_none());
}

#[test]
fn parse_revalidates_against_the_classifier() {
    // a platform-specific record is well-formed but never grantable here:
    // 5 is 0500000000000000 little-endian
    assert!(parse_profile("ps0500000000000000;").is_none());
}
