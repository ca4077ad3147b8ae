//! Structural matching of path and address patterns.

use gaol::profile::{Address, AddressPattern, PathPattern};

#[test]
fn literal_matches_only_byte_identical_path() {
    let pat = PathPattern::Literal(b"/etc/hosts".to_vec());
    assert!(pat.matches(b"/etc/hosts"));
    assert!(!pat.matches(b"/etc/host"));
    assert!(!pat.matches(b"/etc/hosts/"));
    assert!(!pat.matches(b"/etc/hostsX"));
}

#[test]
fn subpath_matches_base_itself() {
    let pat = PathPattern::Subpath(b"/a/b".to_vec());
    assert!(pat.matches(b"/a/b"));
}

#[test]
fn subpath_matches_descendants() {
    let pat = PathPattern::Subpath(b"/a/b".to_vec());
    assert!(pat.matches(b"/a/b/c"));
    assert!(pat.matches(b"/a/b/c/d.txt"));
}

#[test]
fn subpath_rejects_sibling_sharing_string_prefix() {
    let pat = PathPattern::Subpath(b"/a/b".to_vec());
    assert!(!pat.matches(b"/a/bc"));
    assert!(!pat.matches(b"/a/bc/d"));
}

#[test]
fn subpath_rejects_parent_and_unrelated() {
    let pat = PathPattern::Subpath(b"/a/b".to_vec());
    assert!(!pat.matches(b"/a"));
    assert!(!pat.matches(b"/x/y"));
}

#[test]
fn address_all_matches_every_endpoint() {
    let pat = AddressPattern::All;
    assert!(pat.matches(&Address::Tcp(80)));
    assert!(pat.matches(&Address::Tcp(7357)));
    assert!(pat.matches(&Address::LocalSocket(b"/run/x.sock".to_vec())));
}

#[test]
fn address_tcp_matches_only_its_port() {
    let pat = AddressPattern::Tcp(7357);
    assert!(pat.matches(&Address::Tcp(7357)));
    assert!(!pat.matches(&Address::Tcp(7358)));
    assert!(!pat.matches(&Address::LocalSocket(b"/run/x.sock".to_vec())));
}

#[test]
fn address_local_socket_matches_only_its_path() {
    let pat = AddressPattern::LocalSocket(b"/run/x.sock".to_vec());
    assert!(pat.matches(&Address::LocalSocket(b"/run/x.sock".to_vec())));
    assert!(!pat.matches(&Address::LocalSocket(b"/run/y.sock".to_vec())));
    assert!(!pat.matches(&Address::Tcp(80)));
}
