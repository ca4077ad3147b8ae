//! The policy model: restrictable operations, the path and address patterns
//! that scope them, the platform capability classifier, and validated
//! profiles.
//!
//! Patterns match purely structurally: no filesystem access and no symlink
//! resolution happens here. Callers canonicalise paths before building a
//! pattern. Paths are byte strings whose component separator is `/`.

use vstd::prelude::*;

verus! {

/// Byte value of the path-component separator `/`.
pub const PATH_SEPARATOR: u8 = 47;

/// Scopes a file operation: an exact path, or a path and everything beneath it.
#[derive(Debug, Clone)]
pub enum PathPattern {
    Literal(Vec<u8>),
    Subpath(Vec<u8>),
}

/// Mathematical model of a `PathPattern`.
pub enum PathPatternView {
    Literal(Seq<u8>),
    Subpath(Seq<u8>),
}

impl View for PathPattern {
    type V = PathPatternView;

    open spec fn view(&self) -> PathPatternView {
        match self {
            PathPattern::Literal(p) => PathPatternView::Literal(p@),
            PathPattern::Subpath(p) => PathPatternView::Subpath(p@),
        }
    }
}

/// `base` and every path for which `base` is a proper prefix ending at a
/// component boundary: `/a/b` covers `/a/b` and `/a/b/c`, never `/a/bc`.
pub open spec fn subpath_matches(base: Seq<u8>, path: Seq<u8>) -> bool {
    path == base || (base.len() < path.len() && path.subrange(0, base.len() as int) == base
        && path[base.len() as int] == PATH_SEPARATOR)
}

pub open spec fn path_pattern_matches(pat: PathPatternView, path: Seq<u8>) -> bool {
    match pat {
        PathPatternView::Literal(p) => path == p,
        PathPatternView::Subpath(p) => subpath_matches(p, path),
    }
}

/// Byte-for-byte equality of two slices.
pub fn bytes_eq(a: &[u8], b: &[u8]) -> (r: bool)
    ensures
        r == (a@ == b@),
{
    if a.len() != b.len() {
        return false;
    }
    let mut i: usize = 0;
    while i < a.len()
        invariant
            i <= a.len(),
            a.len() == b.len(),
            forall|j: int| 0 <= j < i ==> a@[j] == b@[j],
        decreases a.len() - i,
    {
        if a[i] != b[i] {
            return false;
        }
        i = i + 1;
    }
    proof {
        assert(a@ =~= b@);
    }
    true
}

/// Whether `a` is a prefix of `b`.
fn bytes_prefix(a: &[u8], b: &[u8]) -> (r: bool)
    ensures
        r == (a@.len() <= b@.len() && b@.subrange(0, a@.len() as int) == a@),
{
    if a.len() > b.len() {
        return false;
    }
    let mut i: usize = 0;
    while i < a.len()
        invariant
            i <= a.len(),
            a.len() <= b.len(),
            forall|j: int| 0 <= j < i ==> a@[j] == b@[j],
        decreases a.len() - i,
    {
        if a[i] != b[i] {
            proof {
                assert(b@.subrange(0, a@.len() as int)[i as int] == b@[i as int]);
            }
            return false;
        }
        i = i + 1;
    }
    proof {
        assert(b@.subrange(0, a@.len() as int) =~= a@);
    }
    true
}

impl PathPattern {
    /// Structural match of a candidate path against this pattern.
    pub fn matches(&self, path: &[u8]) -> (r: bool)
        ensures
            r == path_pattern_matches(self@, path@),
    {
        match self {
            PathPattern::Literal(p) => bytes_eq(p.as_slice(), path),
            PathPattern::Subpath(p) => {
                if bytes_eq(p.as_slice(), path) {
                    true
                } else if p.len() < path.len() {
                    bytes_prefix(p.as_slice(), path) && path[p.len()] == PATH_SEPARATOR
                } else {
                    false
                }
            },
        }
    }
}

/// A concrete outbound endpoint, as an enforcement check sees it.
#[derive(Debug, Clone)]
pub enum Address {
    Tcp(u16),
    LocalSocket(Vec<u8>),
}

/// Mathematical model of an `Address`.
pub enum AddressView {
    Tcp(u16),
    LocalSocket(Seq<u8>),
}

impl View for Address {
    type V = AddressView;

    open spec fn view(&self) -> AddressView {
        match self {
            Address::Tcp(p) => AddressView::Tcp(*p),
            Address::LocalSocket(p) => AddressView::LocalSocket(p@),
        }
    }
}

/// Scopes a network operation: every endpoint, one TCP destination port, or
/// one well-known local socket path.
#[derive(Debug, Clone)]
pub enum AddressPattern {
    All,
    Tcp(u16),
    LocalSocket(Vec<u8>),
}

/// Mathematical model of an `AddressPattern`.
pub enum AddressPatternView {
    All,
    Tcp(u16),
    LocalSocket(Seq<u8>),
}

impl View for AddressPattern {
    type V = AddressPatternView;

    open spec fn view(&self) -> AddressPatternView {
        match self {
            AddressPattern::All => AddressPatternView::All,
            AddressPattern::Tcp(p) => AddressPatternView::Tcp(*p),
            AddressPattern::LocalSocket(p) => AddressPatternView::LocalSocket(p@),
        }
    }
}

pub open spec fn address_pattern_matches(pat: AddressPatternView, addr: AddressView) -> bool {
    match pat {
        AddressPatternView::All => true,
        AddressPatternView::Tcp(port) => addr == AddressView::Tcp(port),
        AddressPatternView::LocalSocket(p) => match addr {
            AddressView::LocalSocket(q) => q == p,
            _ => false,
        },
    }
}

impl AddressPattern {
    /// Structural match of a concrete endpoint against this pattern.
    pub fn matches(&self, addr: &Address) -> (r: bool)
        ensures
            r == address_pattern_matches(self@, addr@),
    {
        match self {
            AddressPattern::All => true,
            AddressPattern::Tcp(port) => match addr {
                Address::Tcp(q) => *port == *q,
                _ => false,
            },
            AddressPattern::LocalSocket(p) => match addr {
                Address::LocalSocket(q) => bytes_eq(p.as_slice(), q.as_slice()),
                _ => false,
            },
        }
    }
}

/// One restrictable capability, carrying the scope it is granted at.
#[derive(Debug, Clone)]
pub enum Operation {
    /// Read file contents within the pattern's scope.
    FileReadAll(PathPattern),
    /// Stat-only access within the pattern's scope.
    FileReadMetadata(PathPattern),
    /// Open outbound connections to endpoints within the pattern's scope.
    NetworkOutbound(AddressPattern),
    /// Query host and system information.
    SystemInfoRead,
    /// Escape hatch for a capability only one backend understands.
    PlatformSpecific(u64),
}

/// Mathematical model of an `Operation`.
pub enum OperationView {
    FileReadAll(PathPatternView),
    FileReadMetadata(PathPatternView),
    NetworkOutbound(AddressPatternView),
    SystemInfoRead,
    PlatformSpecific(u64),
}

impl View for Operation {
    type V = OperationView;

    open spec fn view(&self) -> OperationView {
        match self {
            Operation::FileReadAll(p) => OperationView::FileReadAll(p@),
            Operation::FileReadMetadata(p) => OperationView::FileReadMetadata(p@),
            Operation::NetworkOutbound(a) => OperationView::NetworkOutbound(a@),
            Operation::SystemInfoRead => OperationView::SystemInfoRead,
            Operation::PlatformSpecific(v) => OperationView::PlatformSpecific(*v),
        }
    }
}

/// How precisely the running platform's backend can grant one operation.
#[derive(Debug, Clone, Copy, PartialEq, Eq, Structural)]
pub enum OperationSupportLevel {
    /// The platform cannot restrict this; granting it is a no-op.
    AlwaysAllowed,
    /// The platform can grant exactly the requested scope.
    CanBeAllowed,
    /// The platform can only grant a coarser superset of the requested scope.
    CannotBeAllowedPrecisely,
    /// The platform cannot grant this capability at all.
    NeverAllowed,
}

/// The capability classification of this build's backend.
///
/// This backend installs no operating-system restriction, so the four
/// cross-platform operations are unrestricted no-op grants, and a
/// backend-specific capability is something it cannot grant: claiming
/// support for an unknown payload would be treated as a safety guarantee
/// downstream, so the conservative answer is `NeverAllowed`.
pub open spec fn classify(op: OperationView) -> OperationSupportLevel {
    match op {
        OperationView::PlatformSpecific(_) => OperationSupportLevel::NeverAllowed,
        _ => OperationSupportLevel::AlwaysAllowed,
    }
}

impl Operation {
    /// The support level the platform classifier assigns to this operation.
    pub fn support(&self) -> (r: OperationSupportLevel)
        ensures
            r == classify(self@),
    {
        match self {
            Operation::PlatformSpecific(_) => OperationSupportLevel::NeverAllowed,
            _ => OperationSupportLevel::AlwaysAllowed,
        }
    }
}

/// A concrete attempt by the sandboxed process, as an enforcement check
/// sees it: which capability, at which concrete target.
#[derive(Debug, Clone)]
pub enum Request {
    FileRead(Vec<u8>),
    FileStat(Vec<u8>),
    NetworkConnect(Address),
    SystemInfo,
}

/// Mathematical model of a `Request`.
pub enum RequestView {
    FileRead(Seq<u8>),
    FileStat(Seq<u8>),
    NetworkConnect(AddressView),
    SystemInfo,
}

impl View for Request {
    type V = RequestView;

    open spec fn view(&self) -> RequestView {
        match self {
            Request::FileRead(p) => RequestView::FileRead(p@),
            Request::FileStat(p) => RequestView::FileStat(p@),
            Request::NetworkConnect(a) => RequestView::NetworkConnect(a@),
            Request::SystemInfo => RequestView::SystemInfo,
        }
    }
}

/// Whether one granted operation covers one concrete request.
pub open spec fn operation_permits(op: OperationView, req: RequestView) -> bool {
    match (op, req) {
        (OperationView::FileReadAll(pat), RequestView::FileRead(p)) => path_pattern_matches(
            pat,
            p,
        ),
        (OperationView::FileReadMetadata(pat), RequestView::FileStat(p)) => path_pattern_matches(
            pat,
            p,
        ),
        (
            OperationView::NetworkOutbound(ap),
            RequestView::NetworkConnect(a),
        ) => address_pattern_matches(ap, a),
        (OperationView::SystemInfoRead, RequestView::SystemInfo) => true,
        _ => false,
    }
}

impl Operation {
    /// Whether this granted operation covers the concrete request.
    pub fn permits(&self, req: &Request) -> (r: bool)
        ensures
            r == operation_permits(self@, req@),
    {
        match (self, req) {
            (Operation::FileReadAll(pat), Request::FileRead(p)) => pat.matches(p.as_slice()),
            (Operation::FileReadMetadata(pat), Request::FileStat(p)) => pat.matches(p.as_slice()),
            (Operation::NetworkOutbound(ap), Request::NetworkConnect(a)) => ap.matches(a),
            (Operation::SystemInfoRead, Request::SystemInfo) => true,
            _ => false,
        }
    }
}

/// The failure of profile construction: the named operation cannot be
/// granted on this platform.
#[derive(Debug)]
pub enum ProfileError {
    OperationNotSupported(Operation),
}

/// The views of a sequence of operations.
pub open spec fn op_views(ops: Seq<Operation>) -> Seq<OperationView> {
    ops.map_values(|o: Operation| o@)
}

/// Every operation in the sequence has a support level other than
/// `NeverAllowed` under this platform's classifier.
pub open spec fn all_supported(ops: Seq<OperationView>) -> bool {
    forall|i: int| 0 <= i < ops.len() ==> #[trigger] classify(ops[i]) != OperationSupportLevel::NeverAllowed
}

/// Whether some operation of the granted set covers the concrete request.
/// This is the decision an enforcing backend installs at activation; only
/// requests covered by an explicitly granted operation are ever permitted.
pub open spec fn profile_allows(ops: Seq<OperationView>, req: RequestView) -> bool {
    exists|i: int| 0 <= i < ops.len() && #[trigger] operation_permits(ops[i], req)
}

/// An immutable set of operations one sandboxed execution is permitted to
/// perform. A value of this type exists only if every operation it holds
/// was classified grantable (not `NeverAllowed`) on this platform.
pub struct Profile {
    ops: Vec<Operation>,
}

impl View for Profile {
    type V = Seq<OperationView>;

    closed spec fn view(&self) -> Seq<OperationView> {
        op_views(self.ops@)
    }
}

impl Profile {
    /// Validates the requested operations against the platform classifier.
    /// Construction is all-or-nothing: if any operation is classified
    /// `NeverAllowed` the whole profile is refused, naming the first such
    /// operation — a grant that could never be honored must not silently
    /// degrade into a denial the caller did not ask for. Duplicates are
    /// retained; granting is set-like, so they collapse to one logical grant.
    pub fn new(operations: Vec<Operation>) -> (r: Result<Profile, ProfileError>)
        ensures
            all_supported(op_views(operations@)) <==> r is Ok,
            match r {
                Ok(p) => p@ == op_views(operations@),
                Err(e) => match e {
                    ProfileError::OperationNotSupported(o) => exists|i: int|
                        0 <= i < operations@.len() && o@ == op_views(operations@)[i]
                            && classify(o@) == OperationSupportLevel::NeverAllowed && (forall|
                            j: int,
                        |
                            0 <= j < i ==> #[trigger] classify(op_views(operations@)[j])
                                != OperationSupportLevel::NeverAllowed),
                },
            },
    {
        let mut items = operations;
        let mut idx: usize = 0;
        while idx < items.len()
            invariant
                items@ == operations@,
                idx <= operations@.len(),
                forall|j: int|
                    0 <= j < idx ==> #[trigger] classify(op_views(operations@)[j])
                        != OperationSupportLevel::NeverAllowed,
            decreases items.len() - idx,
        {
            proof {
                assert(op_views(operations@)[idx as int] == operations@[idx as int]@);
            }
            let level = items[idx].support();
            if level == OperationSupportLevel::NeverAllowed {
                let o = items.remove(idx);
                proof {
                    let ghost vi = idx as int;
                    assert(o@ == op_views(operations@)[vi]);
                    assert(classify(op_views(operations@)[vi]) == OperationSupportLevel::NeverAllowed);
                    assert(!all_supported(op_views(operations@)));
                    assert(exists|i: int|
                        0 <= i < operations@.len() && o@ == op_views(operations@)[i] && classify(o@)
                            == OperationSupportLevel::NeverAllowed && (forall|j: int|
                            0 <= j < i ==> #[trigger] classify(op_views(operations@)[j])
                                != OperationSupportLevel::NeverAllowed)) by {
                        assert(0 <= vi < operations@.len() && o@ == op_views(operations@)[vi] && classify(o@)
                            == OperationSupportLevel::NeverAllowed && (forall|j: int|
                            0 <= j < vi ==> #[trigger] classify(op_views(operations@)[j])
                                != OperationSupportLevel::NeverAllowed));
                    }
                }
                return Err(ProfileError::OperationNotSupported(o));
            }
            idx = idx + 1;
        }
        Ok(Profile { ops: items })
    }

    /// The granted operations, in the order they were given.
    pub fn operations(&self) -> (r: &Vec<Operation>)
        ensures
            op_views(r@) == self@,
    {
        &self.ops
    }

    /// Whether the profile grants this operation (as one of its members).
    pub fn grants(&self, op: &Operation) -> (r: bool)
        ensures
            r == self@.contains(op@),
    {
        let mut i: usize = 0;
        while i < self.ops.len()
            invariant
                i <= self.ops@.len(),
                self@ == op_views(self.ops@),
                forall|j: int| 0 <= j < i ==> self@[j] != op@,
            decreases self.ops@.len() - i,
        {
            proof {
                assert(self@[i as int] == self.ops@[i as int]@);
            }
            if self.ops[i].eq_op(op) {
                proof {
                    assert(self@.contains(op@)) by {
                        assert(self@[i as int] == op@);
                    }
                }
                return true;
            }
            i = i + 1;
        }
        false
    }

    /// Whether the profile grants this operation only at a coarser scope
    /// than requested: the operation is a member, but the platform can
    /// enforce nothing finer than a superset of its pattern. Policy authors
    /// must treat such a grant as broader than it reads.
    pub fn grants_imprecisely(&self, op: &Operation) -> (r: bool)
        ensures
            r == (self@.contains(op@) && classify(op@)
                == OperationSupportLevel::CannotBeAllowedPrecisely),
    {
        let level = op.support();
        if level == OperationSupportLevel::CannotBeAllowedPrecisely {
            self.grants(op)
        } else {
            false
        }
    }

    /// The decision an enforcing backend makes for one concrete request:
    /// permitted exactly when some granted operation covers it. An empty
    /// profile therefore denies every restrictable request.
    pub fn allows(&self, req: &Request) -> (r: bool)
        ensures
            r == profile_allows(self@, req@),
    {
        let mut i: usize = 0;
        while i < self.ops.len()
            invariant
                i <= self.ops@.len(),
                self@ == op_views(self.ops@),
                forall|j: int| 0 <= j < i ==> !#[trigger] operation_permits(self@[j], req@),
            decreases self.ops@.len() - i,
        {
            proof {
                assert(self@[i as int] == self.ops@[i as int]@);
            }
            if self.ops[i].permits(req) {
                proof {
                    assert(profile_allows(self@, req@)) by {
                        assert(operation_permits(self@[i as int], req@));
                    }
                }
                return true;
            }
            i = i + 1;
        }
        false
    }
}

impl PathPattern {
    /// Structural equality of two path patterns.
    pub fn eq_pat(&self, other: &PathPattern) -> (r: bool)
        ensures
            r == (self@ == other@),
    {
        match (self, other) {
            (PathPattern::Literal(a), PathPattern::Literal(b)) => bytes_eq(
                a.as_slice(),
                b.as_slice(),
            ),
            (PathPattern::Subpath(a), PathPattern::Subpath(b)) => bytes_eq(
                a.as_slice(),
                b.as_slice(),
            ),
            _ => false,
        }
    }
}

impl AddressPattern {
    /// Structural equality of two address patterns.
    pub fn eq_pat(&self, other: &AddressPattern) -> (r: bool)
        ensures
            r == (self@ == other@),
    {
        match (self, other) {
            (AddressPattern::All, AddressPattern::All) => true,
            (AddressPattern::Tcp(a), AddressPattern::Tcp(b)) => *a == *b,
            (AddressPattern::LocalSocket(a), AddressPattern::LocalSocket(b)) => bytes_eq(
                a.as_slice(),
                b.as_slice(),
            ),
            _ => false,
        }
    }
}

impl Operation {
    /// Structural equality of two operations.
    pub fn eq_op(&self, other: &Operation) -> (r: bool)
        ensures
            r == (self@ == other@),
    {
        match (self, other) {
            (Operation::FileReadAll(a), Operation::FileReadAll(b)) => a.eq_pat(b),
            (Operation::FileReadMetadata(a), Operation::FileReadMetadata(b)) => a.eq_pat(b),
            (Operation::NetworkOutbound(a), Operation::NetworkOutbound(b)) => a.eq_pat(b),
            (Operation::SystemInfoRead, Operation::SystemInfoRead) => true,
            (Operation::PlatformSpecific(a), Operation::PlatformSpecific(b)) => *a == *b,
            _ => false,
        }
    }
}

/// A list holding an operation the platform can never grant is not all
/// supported, so by `Profile::new`'s contract its construction fails with
/// `OperationNotSupported` naming an unsupported operation — whatever else
/// the list holds.
pub proof fn lemma_profile_rejects_unsupported(ops: Seq<OperationView>, i: int)
    requires
        0 <= i < ops.len(),
        classify(ops[i]) == OperationSupportLevel::NeverAllowed,
    ensures
        !all_supported(ops),
{
}

/// A one-operation list whose operation the platform can grant is all
/// supported, so by `Profile::new`'s contract construction succeeds and the
/// profile reports the operation as granted.
pub proof fn lemma_singleton_supported_profile(op: OperationView)
    requires
        classify(op) != OperationSupportLevel::NeverAllowed,
    ensures
        all_supported(seq![op]),
        seq![op].contains(op),
{
    assert(seq![op][0] == op);
}

/// An empty profile denies every restrictable request: nothing is granted,
/// so nothing covers any request.
pub proof fn lemma_empty_profile_denies_all(req: RequestView)
    ensures
        !profile_allows(Seq::<OperationView>::empty(), req),
{
}

/// A subpath pattern matches its own base path.
pub proof fn lemma_subpath_matches_base(base: Seq<u8>)
    ensures
        subpath_matches(base, base),
{
}

/// A subpath pattern matches every descendant of its base path.
pub proof fn lemma_subpath_matches_descendant(base: Seq<u8>, rest: Seq<u8>)
    ensures
        subpath_matches(base, base + seq![PATH_SEPARATOR] + rest),
{
    let path = base + seq![PATH_SEPARATOR] + rest;
    assert(path.subrange(0, base.len() as int) =~= base);
    assert(path[base.len() as int] == PATH_SEPARATOR);
}

/// A subpath pattern never matches a longer path that does not continue
/// with a component separator right after the base — a sibling sharing only
/// a string prefix of the base's last component is not matched.
pub proof fn lemma_subpath_rejects_sibling(base: Seq<u8>, path: Seq<u8>)
    requires
        base.len() < path.len(),
        path[base.len() as int] != PATH_SEPARATOR,
    ensures
        !subpath_matches(base, path),
{
    assert(path != base) by {
        assert(path.len() != base.len());
    }
}

/// The all-addresses pattern matches every endpoint.
pub proof fn lemma_all_matches_every_address(addr: AddressView)
    ensures
        address_pattern_matches(AddressPatternView::All, addr),
{
}

/// A TCP port pattern matches exactly the connections to that port.
pub proof fn lemma_tcp_matches_exactly_port(port: u16, addr: AddressView)
    ensures
        address_pattern_matches(AddressPatternView::Tcp(port), addr) <==> addr
            == AddressView::Tcp(port),
{
}

/// A profile granting outbound network access to all addresses permits a
/// connection to every endpoint.
pub proof fn lemma_network_all_allows_any_connection(ops: Seq<OperationView>, addr: AddressView)
    requires
        ops.contains(OperationView::NetworkOutbound(AddressPatternView::All)),
    ensures
        profile_allows(ops, RequestView::NetworkConnect(addr)),
{
    let i = choose|i: int|
        0 <= i < ops.len() && ops[i] == OperationView::NetworkOutbound(AddressPatternView::All);
    assert(operation_permits(ops[i], RequestView::NetworkConnect(addr)));
}

} // verus!
