//! The records that the sandbox keeps: environments, circuits, route candidates, plans and
//! transactions.
use vstd::prelude::*;

use crate::clock::{utc_now, Timestamp};
use crate::identity::{random_id, EnvironmentId};
use crate::order::{
    pick, ranks, sort_positions, sorted_by, stable_order, stable_sort, OrderedMap, Ranked,
};
use crate::path::{path_texts, spelled, FsPath, PathPart};
use crate::text::{copy_option, copy_texts, opt_text, same_option, same_text, texts};

verus! {

/// The version of the records.
pub const STATE_VERSION: u32 = 1;

/// What the members of a sequence show.
pub open spec fn views<T: View>(v: Seq<T>) -> Seq<T::V> {
    Seq::new(v.len(), |i: int| v[i]@)
}

/// Values that can be copied without losing anything that they show.
pub trait Duplicate: View + Sized {
    fn duplicate(&self) -> (r: Self)
        ensures
            r@ == self@,
    ;
}

pub fn duplicate_all<T: Duplicate>(v: &Vec<T>) -> (r: Vec<T>)
    ensures
        views(r@) == views(v@),
{
    let mut r: Vec<T> = Vec::new();
    let mut i: usize = 0;
    while i < v.len()
        invariant
            i <= v.len(),
            r@.len() == i,
            forall|k: int| 0 <= k < i ==> (#[trigger] r@[k])@ == v@[k]@,
        decreases v.len() - i,
    {
        r.push(v[i].duplicate());
        i += 1;
    }
    assert(views(r@) =~= views(v@));
    r
}

/// Sorts by rank; what the result shows is what the input shows, in that order.
pub fn sort_shown<T: Ranked + View>(items: Vec<T>) -> (r: Vec<T>)
    ensures
        views(r@) == sorted_by::<T, T::V>(ranks(items@), views(items@)),
        stable_order::<T>(ranks(items@), sort_positions::<T>(ranks(items@))),
{
    let ghost input = items@;
    let r = stable_sort(items);
    proof {
        let p = sort_positions::<T>(ranks(input));
        assert(views(r@) =~= pick(views(input), p)) by {
            assert forall|i: int| 0 <= i < p.len() implies #[trigger] views(r@)[i] == pick(
                views(input),
                p,
            )[i] by {
                assert(0 <= p[i] < input.len());
                assert(r@[i] == input[p[i]]);
            }
        }
    }
    r
}

#[derive(Debug, Clone, Copy, PartialEq, Eq, Structural)]
pub enum EnvironmentStatus {
    Created,
    Running,
    Ready,
    ValidationFailed,
    Applied,
    Discarded,
}

impl EnvironmentStatus {
    pub open spec fn name(self) -> Seq<char> {
        match self {
            EnvironmentStatus::Created => "created"@,
            EnvironmentStatus::Running => "running"@,
            EnvironmentStatus::Ready => "ready"@,
            EnvironmentStatus::ValidationFailed => "validation_failed"@,
            EnvironmentStatus::Applied => "applied"@,
            EnvironmentStatus::Discarded => "discarded"@,
        }
    }

    pub fn label(&self) -> (r: &'static str)
        ensures
            r@ == self.name(),
    {
        match self {
            EnvironmentStatus::Created => "created",
            EnvironmentStatus::Running => "running",
            EnvironmentStatus::Ready => "ready",
            EnvironmentStatus::ValidationFailed => "validation_failed",
            EnvironmentStatus::Applied => "applied",
            EnvironmentStatus::Discarded => "discarded",
        }
    }
}

/// What a failed validation means for an apply.
#[derive(Debug, Clone, Copy, PartialEq, Eq, Structural)]
pub enum FailurePolicy {
    Warn,
    BlockApply,
    Stop,
}

impl FailurePolicy {
    /// The policy of a name.
    pub open spec fn named(name: Seq<char>) -> Option<FailurePolicy> {
        if name == "warn"@ {
            Some(FailurePolicy::Warn)
        } else if name == "block-apply"@ {
            Some(FailurePolicy::BlockApply)
        } else if name == "stop"@ {
            Some(FailurePolicy::Stop)
        } else {
            None
        }
    }

    pub fn from_str(value: &str) -> (r: Result<FailurePolicy, String>)
        ensures
            match r {
                Ok(policy) => FailurePolicy::named(value@) == Some(policy),
                Err(e) => FailurePolicy::named(value@) is None && e@
                    == "expected warn, block-apply, or stop"@,
            },
    {
        if same_text(value, "warn") {
            Ok(FailurePolicy::Warn)
        } else if same_text(value, "block-apply") {
            Ok(FailurePolicy::BlockApply)
        } else if same_text(value, "stop") {
            Ok(FailurePolicy::Stop)
        } else {
            Err("expected warn, block-apply, or stop".to_owned())
        }
    }
}

#[derive(Debug, Clone, Copy, PartialEq, Eq, Structural)]
pub struct EnvironmentPolicy {
    pub on_failure: FailurePolicy,
    pub auto_rollback: bool,
}

impl Default for EnvironmentPolicy {
    fn default() -> (r: EnvironmentPolicy)
        ensures
            r.on_failure == FailurePolicy::BlockApply,
            r.auto_rollback,
    {
        EnvironmentPolicy { on_failure: FailurePolicy::BlockApply, auto_rollback: true }
    }
}

#[derive(Debug, Clone, Copy, PartialEq, Eq, Structural)]
pub enum Direction {
    Inbound,
    Outbound,
    Unknown,
}

impl Direction {
    pub open spec fn name(self) -> Seq<char> {
        match self {
            Direction::Inbound => "inbound"@,
            Direction::Outbound => "outbound"@,
            Direction::Unknown => "unknown"@,
        }
    }

    pub fn label(&self) -> (r: &'static str)
        ensures
            r@ == self.name(),
    {
        match self {
            Direction::Inbound => "inbound",
            Direction::Outbound => "outbound",
            Direction::Unknown => "unknown",
        }
    }
}

#[derive(Debug, Clone, Copy, PartialEq, Eq, Structural)]
pub enum ValidationState {
    Pending,
    Preserved,
    Lost,
    Degraded,
    New,
    Unverifiable,
    Ignored,
}

impl ValidationState {
    pub open spec fn name(self) -> Seq<char> {
        match self {
            ValidationState::Pending => "Pending"@,
            ValidationState::Preserved => "Preserved"@,
            ValidationState::Lost => "Lost"@,
            ValidationState::Degraded => "Degraded"@,
            ValidationState::New => "New"@,
            ValidationState::Unverifiable => "Unverifiable"@,
            ValidationState::Ignored => "Ignored"@,
        }
    }

    pub fn label(&self) -> (r: &'static str)
        ensures
            r@ == self.name(),
    {
        match self {
            ValidationState::Pending => "Pending",
            ValidationState::Preserved => "Preserved",
            ValidationState::Lost => "Lost",
            ValidationState::Degraded => "Degraded",
            ValidationState::New => "New",
            ValidationState::Unverifiable => "Unverifiable",
            ValidationState::Ignored => "Ignored",
        }
    }
}

/// How a circuit is checked.
pub enum ProbeSpec {
    Tcp { endpoint: String, interface: Option<String> },
    Command { argv: Vec<String> },
    External { description: String },
    Unknown,
}

#[verifier::ext_equal]
pub enum ProbeView {
    Tcp { endpoint: Seq<char>, interface: Option<Seq<char>> },
    Command { argv: Seq<Seq<char>> },
    External { description: Seq<char> },
    Unknown,
}

impl View for ProbeSpec {
    type V = ProbeView;

    open spec fn view(&self) -> ProbeView {
        match self {
            ProbeSpec::Tcp { endpoint, interface } => ProbeView::Tcp {
                endpoint: endpoint@,
                interface: opt_text(*interface),
            },
            ProbeSpec::Command { argv } => ProbeView::Command { argv: texts(argv@) },
            ProbeSpec::External { description } => ProbeView::External {
                description: description@,
            },
            ProbeSpec::Unknown => ProbeView::Unknown,
        }
    }
}

impl Duplicate for ProbeSpec {
    fn duplicate(&self) -> (r: ProbeSpec) {
        match self {
            ProbeSpec::Tcp { endpoint, interface } => ProbeSpec::Tcp {
                endpoint: endpoint.clone(),
                interface: copy_option(interface),
            },
            ProbeSpec::Command { argv } => ProbeSpec::Command { argv: copy_texts(argv) },
            ProbeSpec::External { description } => ProbeSpec::External {
                description: description.clone(),
            },
            ProbeSpec::Unknown => ProbeSpec::Unknown,
        }
    }
}

impl Default for ProbeSpec {
    fn default() -> (r: ProbeSpec)
        ensures
            r@ == ProbeView::Unknown,
    {
        ProbeSpec::Unknown
    }
}

/// One circuit: a connection that has to survive, and how that is checked.
pub struct Capability {
    pub id: String,
    pub name: Option<String>,
    pub protocol: String,
    pub direction: Direction,
    pub local: String,
    pub remote: String,
    pub process: Option<String>,
    pub probe: ProbeSpec,
    pub required: bool,
    pub validation: ValidationState,
    pub detail: Option<String>,
    pub last_checked_at: Option<Timestamp>,
}

#[verifier::ext_equal]
pub struct CapabilityView {
    pub id: Seq<char>,
    pub name: Option<Seq<char>>,
    pub protocol: Seq<char>,
    pub direction: Direction,
    pub local: Seq<char>,
    pub remote: Seq<char>,
    pub process: Option<Seq<char>>,
    pub probe: ProbeView,
    pub required: bool,
    pub validation: ValidationState,
    pub detail: Option<Seq<char>>,
    pub last_checked_at: Option<Timestamp>,
}

impl View for Capability {
    type V = CapabilityView;

    open spec fn view(&self) -> CapabilityView {
        CapabilityView {
            id: self.id@,
            name: opt_text(self.name),
            protocol: self.protocol@,
            direction: self.direction,
            local: self.local@,
            remote: self.remote@,
            process: opt_text(self.process),
            probe: self.probe@,
            required: self.required,
            validation: self.validation,
            detail: opt_text(self.detail),
            last_checked_at: self.last_checked_at,
        }
    }
}

impl Duplicate for Capability {
    fn duplicate(&self) -> (r: Capability) {
        Capability {
            id: self.id.clone(),
            name: copy_option(&self.name),
            protocol: self.protocol.clone(),
            direction: self.direction,
            local: self.local.clone(),
            remote: self.remote.clone(),
            process: copy_option(&self.process),
            probe: self.probe.duplicate(),
            required: self.required,
            validation: self.validation,
            detail: copy_option(&self.detail),
            last_checked_at: self.last_checked_at,
        }
    }
}

/// The route that the system takes to a destination.
pub struct RouteObservation {
    pub destination: String,
    pub gateway: Option<String>,
    pub interface: Option<String>,
    pub ifscope: Option<String>,
    pub flags: Vec<String>,
}

#[verifier::ext_equal]
pub struct RouteObservationView {
    pub destination: Seq<char>,
    pub gateway: Option<Seq<char>>,
    pub interface: Option<Seq<char>>,
    pub ifscope: Option<Seq<char>>,
    pub flags: Seq<Seq<char>>,
}

impl View for RouteObservation {
    type V = RouteObservationView;

    open spec fn view(&self) -> RouteObservationView {
        RouteObservationView {
            destination: self.destination@,
            gateway: opt_text(self.gateway),
            interface: opt_text(self.interface),
            ifscope: opt_text(self.ifscope),
            flags: texts(self.flags@),
        }
    }
}

impl Duplicate for RouteObservation {
    fn duplicate(&self) -> (r: RouteObservation) {
        RouteObservation {
            destination: self.destination.clone(),
            gateway: copy_option(&self.gateway),
            interface: copy_option(&self.interface),
            ifscope: copy_option(&self.ifscope),
            flags: copy_texts(&self.flags),
        }
    }
}

impl Default for RouteObservation {
    fn default() -> (r: RouteObservation)
        ensures
            r@ == (RouteObservationView {
                destination: Seq::empty(),
                gateway: None,
                interface: None,
                ifscope: None,
                flags: Seq::empty(),
            }),
    {
        RouteObservation {
            destination: String::new(),
            gateway: None,
            interface: None,
            ifscope: None,
            flags: Vec::new(),
        }
    }
}

/// A route that is staged but not installed.
pub struct RouteCandidate {
    pub id: String,
    pub destination: String,
    pub interface: String,
    pub gateway: Option<String>,
    pub ports: Vec<u16>,
    pub created_at: Timestamp,
    pub observed_route: RouteObservation,
    pub capability_ids: Vec<String>,
}

#[verifier::ext_equal]
pub struct RouteCandidateView {
    pub id: Seq<char>,
    pub destination: Seq<char>,
    pub interface: Seq<char>,
    pub gateway: Option<Seq<char>>,
    pub ports: Seq<u16>,
    pub created_at: Timestamp,
    pub observed_route: RouteObservationView,
    pub capability_ids: Seq<Seq<char>>,
}

impl View for RouteCandidate {
    type V = RouteCandidateView;

    open spec fn view(&self) -> RouteCandidateView {
        RouteCandidateView {
            id: self.id@,
            destination: self.destination@,
            interface: self.interface@,
            gateway: opt_text(self.gateway),
            ports: self.ports@,
            created_at: self.created_at,
            observed_route: self.observed_route@,
            capability_ids: texts(self.capability_ids@),
        }
    }
}

pub fn copy_ports(v: &Vec<u16>) -> (r: Vec<u16>)
    ensures
        r@ == v@,
{
    let mut r: Vec<u16> = Vec::new();
    let mut i: usize = 0;
    while i < v.len()
        invariant
            i <= v.len(),
            r@ == v@.take(i as int),
        decreases v.len() - i,
    {
        r.push(v[i]);
        i += 1;
    }
    assert(r@ =~= v@);
    r
}

impl Duplicate for RouteCandidate {
    fn duplicate(&self) -> (r: RouteCandidate) {
        RouteCandidate {
            id: self.id.clone(),
            destination: self.destination.clone(),
            interface: self.interface.clone(),
            gateway: copy_option(&self.gateway),
            ports: copy_ports(&self.ports),
            created_at: self.created_at,
            observed_route: self.observed_route.duplicate(),
            capability_ids: copy_texts(&self.capability_ids),
        }
    }
}

/// What stood at a path of the host when it was first looked at.
pub struct Origin {
    pub existed: bool,
    pub kind: Option<String>,
    pub digest: Option<String>,
}

#[verifier::ext_equal]
pub struct OriginView {
    pub existed: bool,
    pub kind: Option<Seq<char>>,
    pub digest: Option<Seq<char>>,
}

impl View for Origin {
    type V = OriginView;

    open spec fn view(&self) -> OriginView {
        OriginView {
            existed: self.existed,
            kind: opt_text(self.kind),
            digest: opt_text(self.digest),
        }
    }
}

impl Duplicate for Origin {
    fn duplicate(&self) -> (r: Origin) {
        Origin {
            existed: self.existed,
            kind: copy_option(&self.kind),
            digest: copy_option(&self.digest),
        }
    }
}

impl Origin {
    /// What a path that holds nothing is recorded as.
    pub open spec fn nothing() -> OriginView {
        OriginView { existed: false, kind: None, digest: None }
    }

    pub fn absent() -> (r: Origin)
        ensures
            r@ == Origin::nothing(),
    {
        Origin { existed: false, kind: None, digest: None }
    }

    pub fn same(&self, other: &Origin) -> (r: bool)
        ensures
            r == (self@ == other@),
    {
        self.existed == other.existed && same_option(&self.kind, &other.kind) && same_option(
            &self.digest,
            &other.digest,
        )
    }
}

/// A change in the writable layer of a Linux image.
pub struct LinuxImageChange {
    pub kind: String,
    pub path: FsPath,
    pub is_tracked: bool,
}

#[verifier::ext_equal]
pub struct LinuxImageChangeView {
    pub kind: Seq<char>,
    pub path: Seq<char>,
    pub is_tracked: bool,
}

impl View for LinuxImageChange {
    type V = LinuxImageChangeView;

    open spec fn view(&self) -> LinuxImageChangeView {
        LinuxImageChangeView { kind: self.kind@, path: self.path@, is_tracked: self.is_tracked }
    }
}

impl Ranked for LinuxImageChange {
    type Rank = Seq<PathPart>;

    open spec fn rank(&self) -> Seq<PathPart> {
        self.path.rank()
    }

    open spec fn rank_before(a: Seq<PathPart>, b: Seq<PathPart>) -> bool {
        FsPath::rank_before(a, b)
    }

    proof fn rank_irreflexive(a: Seq<PathPart>) {
        FsPath::rank_irreflexive(a);
    }

    proof fn rank_total(a: Seq<PathPart>, b: Seq<PathPart>) {
        FsPath::rank_total(a, b);
    }

    proof fn rank_transitive(a: Seq<PathPart>, b: Seq<PathPart>, c: Seq<PathPart>) {
        FsPath::rank_transitive(a, b, c);
    }

    fn is_before(&self, other: &Self) -> (r: bool) {
        self.path.is_before(&other.path)
    }
}

#[derive(Debug, Clone, Copy, PartialEq, Eq, Structural)]
pub enum ChangeKind {
    Added,
    Modified,
    Deleted,
    TypeChanged,
}

impl ChangeKind {
    pub open spec fn name(self) -> Seq<char> {
        match self {
            ChangeKind::Added => "added"@,
            ChangeKind::Modified => "modified"@,
            ChangeKind::Deleted => "deleted"@,
            ChangeKind::TypeChanged => "type_changed"@,
        }
    }

    pub fn label(&self) -> (r: &'static str)
        ensures
            r@ == self.name(),
    {
        match self {
            ChangeKind::Added => "added",
            ChangeKind::Modified => "modified",
            ChangeKind::Deleted => "deleted",
            ChangeKind::TypeChanged => "type_changed",
        }
    }
}

/// A difference between the sandbox and the host at one path.
pub struct Change {
    pub path: FsPath,
    pub kind: ChangeKind,
    pub original_digest: Option<String>,
    pub sandbox_digest: Option<String>,
    pub binary: bool,
}

#[verifier::ext_equal]
pub struct ChangeView {
    pub path: Seq<char>,
    pub kind: ChangeKind,
    pub original_digest: Option<Seq<char>>,
    pub sandbox_digest: Option<Seq<char>>,
    pub binary: bool,
}

impl View for Change {
    type V = ChangeView;

    open spec fn view(&self) -> ChangeView {
        ChangeView {
            path: self.path@,
            kind: self.kind,
            original_digest: opt_text(self.original_digest),
            sandbox_digest: opt_text(self.sandbox_digest),
            binary: self.binary,
        }
    }
}

impl Duplicate for Change {
    fn duplicate(&self) -> (r: Change) {
        Change {
            path: self.path.copy(),
            kind: self.kind,
            original_digest: copy_option(&self.original_digest),
            sandbox_digest: copy_option(&self.sandbox_digest),
            binary: self.binary,
        }
    }
}

impl Ranked for Change {
    type Rank = Seq<PathPart>;

    open spec fn rank(&self) -> Seq<PathPart> {
        self.path.rank()
    }

    open spec fn rank_before(a: Seq<PathPart>, b: Seq<PathPart>) -> bool {
        FsPath::rank_before(a, b)
    }

    proof fn rank_irreflexive(a: Seq<PathPart>) {
        FsPath::rank_irreflexive(a);
    }

    proof fn rank_total(a: Seq<PathPart>, b: Seq<PathPart>) {
        FsPath::rank_total(a, b);
    }

    proof fn rank_transitive(a: Seq<PathPart>, b: Seq<PathPart>, c: Seq<PathPart>) {
        FsPath::rank_transitive(a, b, c);
    }

    fn is_before(&self, other: &Self) -> (r: bool) {
        self.path.is_before(&other.path)
    }
}

/// A sandbox: what it is called, what it differs in, and what has to keep working.
pub struct Environment {
    pub version: u32,
    pub id: EnvironmentId,
    pub name: String,
    pub description: Option<String>,
    pub created_at: Timestamp,
    pub updated_at: Timestamp,
    pub status: EnvironmentStatus,
    pub base_root: FsPath,
    pub policy: EnvironmentPolicy,
    pub baseline: Vec<Capability>,
    pub ignored_paths: Vec<FsPath>,
    pub applied_transaction: Option<String>,
    pub route_candidates: Vec<RouteCandidate>,
    pub origins: OrderedMap<FsPath, Origin>,
    pub deleted_paths: Vec<FsPath>,
    pub tracked_paths: Vec<FsPath>,
    pub metadata: OrderedMap<String, String>,
}

#[verifier::ext_equal]
pub struct EnvironmentView {
    pub version: u32,
    pub id: Seq<u8>,
    pub name: Seq<char>,
    pub description: Option<Seq<char>>,
    pub created_at: Timestamp,
    pub updated_at: Timestamp,
    pub status: EnvironmentStatus,
    pub base_root: Seq<char>,
    pub policy: EnvironmentPolicy,
    pub baseline: Seq<CapabilityView>,
    pub ignored_paths: Seq<Seq<char>>,
    pub applied_transaction: Option<Seq<char>>,
    pub route_candidates: Seq<RouteCandidateView>,
    pub origins: Map<Seq<PathPart>, OriginView>,
    /// How the path of each origin is written.
    pub origin_paths: Map<Seq<PathPart>, Seq<char>>,
    pub deleted_paths: Seq<Seq<char>>,
    pub tracked_paths: Seq<Seq<char>>,
    pub metadata: Map<Seq<char>, Seq<char>>,
}

impl View for Environment {
    type V = EnvironmentView;

    open spec fn view(&self) -> EnvironmentView {
        EnvironmentView {
            version: self.version,
            id: self.id@,
            name: self.name@,
            description: opt_text(self.description),
            created_at: self.created_at,
            updated_at: self.updated_at,
            status: self.status,
            base_root: self.base_root@,
            policy: self.policy,
            baseline: views(self.baseline@),
            ignored_paths: path_texts(self.ignored_paths@),
            applied_transaction: opt_text(self.applied_transaction),
            route_candidates: views(self.route_candidates@),
            origins: self.origins@,
            origin_paths: spelled(self.origins.keys()),
            deleted_paths: path_texts(self.deleted_paths@),
            tracked_paths: path_texts(self.tracked_paths@),
            metadata: self.metadata@,
        }
    }
}

/// The paths that are never part of a difference.
pub open spec fn default_ignored() -> Seq<Seq<char>> {
    seq!["proc"@, "sys"@, "dev"@, "run"@, "tmp"@]
}

/// A new environment.
pub open spec fn fresh_environment(
    id: Seq<u8>,
    now: Timestamp,
    name: Seq<char>,
    description: Option<Seq<char>>,
    base_root: Seq<char>,
    policy: EnvironmentPolicy,
    baseline: Seq<CapabilityView>,
) -> EnvironmentView {
    EnvironmentView {
        version: STATE_VERSION,
        id,
        name,
        description,
        created_at: now,
        updated_at: now,
        status: EnvironmentStatus::Created,
        base_root,
        policy,
        baseline,
        ignored_paths: default_ignored(),
        applied_transaction: None,
        route_candidates: Seq::empty(),
        origins: Map::empty(),
        origin_paths: Map::empty(),
        deleted_paths: Seq::empty(),
        tracked_paths: Seq::empty(),
        metadata: Map::empty(),
    }
}

impl Environment {
    /// A new environment with a given identifier, made at a given time.
    pub fn with_identity(
        id: EnvironmentId,
        now: Timestamp,
        name: String,
        description: Option<String>,
        base_root: FsPath,
        policy: EnvironmentPolicy,
        baseline: Vec<Capability>,
    ) -> (r: Environment)
        ensures
            r@ == fresh_environment(
                id@,
                now,
                name@,
                opt_text(description),
                base_root@,
                policy,
                views(baseline@),
            ),
    {
        let ignored_paths = vec![
            FsPath::new("proc"),
            FsPath::new("sys"),
            FsPath::new("dev"),
            FsPath::new("run"),
            FsPath::new("tmp"),
        ];
        assert(path_texts(ignored_paths@) =~= default_ignored());
        let r = Environment {
            version: STATE_VERSION,
            id,
            name,
            description,
            created_at: now,
            updated_at: now,
            status: EnvironmentStatus::Created,
            base_root,
            policy,
            baseline,
            ignored_paths,
            applied_transaction: None,
            route_candidates: Vec::new(),
            origins: OrderedMap::new(),
            deleted_paths: Vec::new(),
            tracked_paths: Vec::new(),
            metadata: OrderedMap::new(),
        };
        assert(r@.route_candidates =~= Seq::empty());
        assert(r@.deleted_paths =~= Seq::empty());
        assert(r@.tracked_paths =~= Seq::empty());
        assert(r@.origin_paths =~= Map::empty());
        r
    }

    /// A new environment with a random identifier, made now.
    pub fn new(
        name: String,
        description: Option<String>,
        base_root: FsPath,
        policy: EnvironmentPolicy,
        baseline: Vec<Capability>,
    ) -> (r: Environment)
        ensures
            r@ == fresh_environment(
                r@.id,
                r@.created_at,
                name@,
                opt_text(description),
                base_root@,
                policy,
                views(baseline@),
            ),
            r@.id.len() == 16,
            r@.id[6] / 16 == 4,
            r@.id[8] / 64 == 2,
    {
        let now = utc_now();
        let id = random_id();
        Environment::with_identity(id, now, name, description, base_root, policy, baseline)
    }
}

impl Ranked for Environment {
    type Rank = Seq<char>;

    open spec fn rank(&self) -> Seq<char> {
        self.name@
    }

    open spec fn rank_before(a: Seq<char>, b: Seq<char>) -> bool {
        String::rank_before(a, b)
    }

    proof fn rank_irreflexive(a: Seq<char>) {
        String::rank_irreflexive(a);
    }

    proof fn rank_total(a: Seq<char>, b: Seq<char>) {
        String::rank_total(a, b);
    }

    proof fn rank_transitive(a: Seq<char>, b: Seq<char>, c: Seq<char>) {
        String::rank_transitive(a, b, c);
    }

    fn is_before(&self, other: &Self) -> (r: bool) {
        self.name.is_before(&other.name)
    }
}

/// What an apply would do, and whether it may.
pub struct ApplyPlan {
    pub environment: String,
    pub generated_at: Timestamp,
    pub changes: Vec<Change>,
    pub route_candidates: Vec<RouteCandidate>,
    pub lost_required: Vec<String>,
    pub unverifiable_required: Vec<String>,
    pub conflicts: Vec<FsPath>,
    pub route_conflicts: Vec<String>,
    pub guarded_trial: bool,
    pub deferred_required: Vec<String>,
    pub allowed: bool,
}

#[verifier::ext_equal]
pub struct ApplyPlanView {
    pub environment: Seq<char>,
    pub generated_at: Timestamp,
    pub changes: Seq<ChangeView>,
    pub route_candidates: Seq<RouteCandidateView>,
    pub lost_required: Seq<Seq<char>>,
    pub unverifiable_required: Seq<Seq<char>>,
    pub conflicts: Seq<Seq<char>>,
    pub route_conflicts: Seq<Seq<char>>,
    pub guarded_trial: bool,
    pub deferred_required: Seq<Seq<char>>,
    pub allowed: bool,
}

impl View for ApplyPlan {
    type V = ApplyPlanView;

    open spec fn view(&self) -> ApplyPlanView {
        ApplyPlanView {
            environment: self.environment@,
            generated_at: self.generated_at,
            changes: views(self.changes@),
            route_candidates: views(self.route_candidates@),
            lost_required: texts(self.lost_required@),
            unverifiable_required: texts(self.unverifiable_required@),
            conflicts: path_texts(self.conflicts@),
            route_conflicts: texts(self.route_conflicts@),
            guarded_trial: self.guarded_trial,
            deferred_required: texts(self.deferred_required@),
            allowed: self.allowed,
        }
    }
}

/// What stood at a path before an apply.
pub struct BackupEntry {
    pub path: FsPath,
    pub existed: bool,
    pub kind: Option<String>,
}

#[verifier::ext_equal]
pub struct BackupEntryView {
    pub path: Seq<char>,
    pub existed: bool,
    pub kind: Option<Seq<char>>,
}

impl View for BackupEntry {
    type V = BackupEntryView;

    open spec fn view(&self) -> BackupEntryView {
        BackupEntryView { path: self.path@, existed: self.existed, kind: opt_text(self.kind) }
    }
}

#[derive(Debug, Clone, Copy, PartialEq, Eq, Structural)]
pub enum RouteChangeState {
    Prepared,
    Applying,
    Applied,
    RolledBack,
}

/// A route that an apply installs, and the route that it replaces.
pub struct RouteChange {
    pub candidate_id: String,
    pub destination: String,
    pub interface: String,
    pub gateway: Option<String>,
    pub original: RouteObservation,
    pub state: RouteChangeState,
}

#[verifier::ext_equal]
pub struct RouteChangeView {
    pub candidate_id: Seq<char>,
    pub destination: Seq<char>,
    pub interface: Seq<char>,
    pub gateway: Option<Seq<char>>,
    pub original: RouteObservationView,
    pub state: RouteChangeState,
}

impl View for RouteChange {
    type V = RouteChangeView;

    open spec fn view(&self) -> RouteChangeView {
        RouteChangeView {
            candidate_id: self.candidate_id@,
            destination: self.destination@,
            interface: self.interface@,
            gateway: opt_text(self.gateway),
            original: self.original@,
            state: self.state,
        }
    }
}

impl Duplicate for RouteChange {
    fn duplicate(&self) -> (r: RouteChange) {
        RouteChange {
            candidate_id: self.candidate_id.clone(),
            destination: self.destination.clone(),
            interface: self.interface.clone(),
            gateway: copy_option(&self.gateway),
            original: self.original.duplicate(),
            state: self.state,
        }
    }
}

/// The journal of one apply.
pub struct Transaction {
    pub version: u32,
    pub id: String,
    pub environment: String,
    pub created_at: Timestamp,
    pub rolled_back_at: Option<Timestamp>,
    pub base_root: FsPath,
    pub changes: Vec<Change>,
    pub backups: Vec<BackupEntry>,
    pub route_changes: Vec<RouteChange>,
}

#[verifier::ext_equal]
pub struct TransactionView {
    pub version: u32,
    pub id: Seq<char>,
    pub environment: Seq<char>,
    pub created_at: Timestamp,
    pub rolled_back_at: Option<Timestamp>,
    pub base_root: Seq<char>,
    pub changes: Seq<ChangeView>,
    pub backups: Seq<BackupEntryView>,
    pub route_changes: Seq<RouteChangeView>,
}

impl View for Transaction {
    type V = TransactionView;

    open spec fn view(&self) -> TransactionView {
        TransactionView {
            version: self.version,
            id: self.id@,
            environment: self.environment@,
            created_at: self.created_at,
            rolled_back_at: self.rolled_back_at,
            base_root: self.base_root@,
            changes: views(self.changes@),
            backups: views(self.backups@),
            route_changes: views(self.route_changes@),
        }
    }
}

impl Ranked for Transaction {
    type Rank = Timestamp;

    open spec fn rank(&self) -> Timestamp {
        self.created_at
    }

    /// The later transaction comes first.
    open spec fn rank_before(a: Timestamp, b: Timestamp) -> bool {
        b.earlier(a)
    }

    proof fn rank_irreflexive(a: Timestamp) {
    }

    proof fn rank_total(a: Timestamp, b: Timestamp) {
    }

    proof fn rank_transitive(a: Timestamp, b: Timestamp, c: Timestamp) {
    }

    fn is_before(&self, other: &Self) -> (r: bool) {
        other.created_at.is_earlier(&self.created_at)
    }
}

/// One line of a report on the host.
pub struct DoctorCheck {
    pub name: String,
    pub ok: bool,
    pub required: bool,
    pub detail: String,
}

#[verifier::ext_equal]
pub struct DoctorCheckView {
    pub name: Seq<char>,
    pub ok: bool,
    pub required: bool,
    pub detail: Seq<char>,
}

impl View for DoctorCheck {
    type V = DoctorCheckView;

    open spec fn view(&self) -> DoctorCheckView {
        DoctorCheckView {
            name: self.name@,
            ok: self.ok,
            required: self.required,
            detail: self.detail@,
        }
    }
}

} // verus!
