//! Connection migration (RFC 9000 Section 9): validated paths, and which of them is in use.

use crate::addr::SocketAddress;
use crate::error::{Error, Reason};
use crate::packet::fill_random;
use crate::time::{Duration, Instant};
use vstd::prelude::*;
use vstd::slice::slice_to_vec;

verus! {

/// Path state for connection migration
#[derive(Debug, PartialEq)]
pub enum PathState {
    /// Path is being validated
    Validating {
        /// Challenge data sent
        challenge_sent: Vec<u8>,
        /// Time when validation started
        started_at: Instant,
        /// Number of validation attempts
        attempts: u32,
    },
    /// Path has been validated and is active
    Active {
        /// Time when path was validated
        validated_at: Instant,
        /// RTT estimate for this path
        rtt: Duration,
    },
    /// Path validation failed
    Failed {
        /// Reason for failure
        reason: String,
        /// Time when validation failed
        failed_at: Instant,
    },
}

/// What a path state holds.
#[verifier::ext_equal]
pub enum PathStateView {
    Validating { challenge_sent: Seq<u8>, started_at: Instant, attempts: u32 },
    Active { validated_at: Instant, rtt: Duration },
    Failed { reason: Seq<char>, failed_at: Instant },
}

impl View for PathState {
    type V = PathStateView;

    open spec fn view(&self) -> PathStateView {
        match *self {
            PathState::Validating { challenge_sent, started_at, attempts } =>
                PathStateView::Validating { challenge_sent: challenge_sent@, started_at, attempts },
            PathState::Active { validated_at, rtt } => PathStateView::Active { validated_at, rtt },
            PathState::Failed { reason, failed_at } => PathStateView::Failed {
                reason: reason@,
                failed_at,
            },
        }
    }
}

impl Clone for PathState {
    fn clone(&self) -> (r: PathState)
        ensures
            r@ == self@,
    {
        match self {
            PathState::Validating { challenge_sent, started_at, attempts } => {
                PathState::Validating {
                    challenge_sent: slice_to_vec(challenge_sent.as_slice()),
                    started_at: *started_at,
                    attempts: *attempts,
                }
            },
            PathState::Active { validated_at, rtt } => {
                PathState::Active { validated_at: *validated_at, rtt: *rtt }
            },
            PathState::Failed { reason, failed_at } => {
                PathState::Failed { reason: reason.clone(), failed_at: *failed_at }
            },
        }
    }
}

/// Path information for connection migration
#[derive(Debug)]
pub struct PathInfo {
    /// Local address
    pub local_addr: SocketAddress,
    /// Remote address
    pub remote_addr: SocketAddress,
    /// Current state of the path
    pub state: PathState,
    /// Number of the path
    pub path_id: u64,
    /// Last activity on this path
    pub last_activity: Instant,
    /// Maximum packet size for this path
    pub max_packet_size: usize,
}

/// What is known of a path.
#[verifier::ext_equal]
pub struct PathView {
    pub local_addr: SocketAddress,
    pub remote_addr: SocketAddress,
    pub state: PathStateView,
    pub path_id: u64,
    pub last_activity: Instant,
    pub max_packet_size: usize,
}

impl View for PathInfo {
    type V = PathView;

    open spec fn view(&self) -> PathView {
        PathView {
            local_addr: self.local_addr,
            remote_addr: self.remote_addr,
            state: self.state@,
            path_id: self.path_id,
            last_activity: self.last_activity,
            max_packet_size: self.max_packet_size,
        }
    }
}

impl Clone for PathInfo {
    fn clone(&self) -> (r: PathInfo)
        ensures
            r@ == self@,
    {
        PathInfo {
            local_addr: self.local_addr,
            remote_addr: self.remote_addr,
            state: self.state.clone(),
            path_id: self.path_id,
            last_activity: self.last_activity,
            max_packet_size: self.max_packet_size,
        }
    }
}

/// Configuration for connection migration
#[derive(Debug, Clone, Copy, PartialEq, Eq, Structural)]
pub struct MigrationConfig {
    /// Maximum number of paths to maintain
    pub max_paths: usize,
    /// Path validation timeout
    pub validation_timeout: Duration,
    /// Maximum validation attempts
    pub max_validation_attempts: u32,
    /// Enable migration on network change
    pub enable_auto_migration: bool,
    /// Probe timeout for path validation
    pub probe_timeout: Duration,
}

impl MigrationConfig {
    /// The configuration that is used where nothing else is asked for.
    pub open spec fn standard() -> MigrationConfig {
        MigrationConfig {
            max_paths: 4,
            validation_timeout: Duration { nanos: 3_000_000_000 },
            max_validation_attempts: 3,
            enable_auto_migration: true,
            probe_timeout: Duration { nanos: 100_000_000 },
        }
    }
}

impl Default for MigrationConfig {
    fn default() -> (r: MigrationConfig)
        ensures
            r == MigrationConfig::standard(),
    {
        MigrationConfig {
            max_paths: 4,
            validation_timeout: Duration::from_nanos(3_000_000_000),
            max_validation_attempts: 3,
            enable_auto_migration: true,
            probe_timeout: Duration::from_nanos(100_000_000),
        }
    }
}

/// Connection migration manager
pub struct MigrationManager {
    /// Known paths, each under its own number
    paths: Vec<PathInfo>,
    /// Current active path ID
    active_path_id: u64,
    /// Next path ID to assign
    next_path_id: u64,
    /// Migration configuration
    config: MigrationConfig,
}

/// What a migration manager knows.
#[verifier::ext_equal]
pub struct MigrationView {
    pub paths: Seq<PathView>,
    pub active_path_id: u64,
    pub next_path_id: u64,
    pub config: MigrationConfig,
}

/// What is known of paths.
pub open spec fn path_views(s: Seq<PathInfo>) -> Seq<PathView> {
    Seq::new(s.len(), |i: int| s[i]@)
}

impl View for MigrationManager {
    type V = MigrationView;

    closed spec fn view(&self) -> MigrationView {
        MigrationView {
            paths: path_views(self.paths@),
            active_path_id: self.active_path_id,
            next_path_id: self.next_path_id,
            config: self.config,
        }
    }
}

/// The first path of which something holds.
pub open spec fn first(s: Seq<PathView>, p: spec_fn(PathView) -> bool) -> Option<int>
    decreases s.len(),
{
    if s.len() == 0 {
        None
    } else {
        match first(s.drop_last(), p) {
            Some(i) => Some(i),
            None => if p(s.last()) {
                Some(s.len() - 1)
            } else {
                None
            },
        }
    }
}

/// Having a number.
pub open spec fn numbered(path_id: u64) -> spec_fn(PathView) -> bool {
    |p: PathView| p.path_id == path_id
}

/// Joining two addresses.
pub open spec fn joining(local: SocketAddress, remote: SocketAddress) -> spec_fn(PathView) -> bool {
    |p: PathView| p.local_addr == local && p.remote_addr == remote
}

/// Waiting for these bytes from an address.
pub open spec fn awaiting(data: Seq<u8>, source: SocketAddress) -> spec_fn(PathView) -> bool {
    |p: PathView|
        p.remote_addr == source && p.state is Validating && p.state->challenge_sent == data
}

/// The first path is the one that is found.
proof fn lemma_first(s: Seq<PathView>, p: spec_fn(PathView) -> bool)
    ensures
        match first(s, p) {
            Some(i) => 0 <= i < s.len() && p(s[i]) && forall|j: int|
                0 <= j < i ==> !p(#[trigger] s[j]),
            None => forall|j: int| 0 <= j < s.len() ==> !p(#[trigger] s[j]),
        },
    decreases s.len(),
{
    if s.len() > 0 {
        let d = s.drop_last();
        lemma_first(d, p);
        match first(d, p) {
            Some(i) => {
                assert(d[i] == s[i]);
                assert forall|j: int| 0 <= j < i implies !p(#[trigger] s[j]) by {
                    assert(d[j] == s[j]);
                }
            },
            None => {
                assert forall|j: int| 0 <= j < s.len() - 1 implies !p(#[trigger] s[j]) by {
                    assert(d[j] == s[j]);
                }
            },
        }
    }
}

impl MigrationView {
    /// What holds of every manager: each path has its own number, which was assigned, and the
    /// path in use is validated.
    pub open spec fn wf(self) -> bool {
        &&& self.next_path_id >= 1
        &&& self.active_path_id < self.next_path_id
        &&& forall|i: int, j: int|
            0 <= i < j < self.paths.len() ==> (#[trigger] self.paths[i]).path_id != (
            #[trigger] self.paths[j]).path_id
        &&& forall|i: int|
            0 <= i < self.paths.len() ==> (#[trigger] self.paths[i]).path_id < self.next_path_id
        &&& forall|i: int|
            0 <= i < self.paths.len() && (#[trigger] self.paths[i]).path_id == self.active_path_id
                ==> self.paths[i].state is Active
        &&& forall|i: int|
            0 <= i < self.paths.len() && (#[trigger] self.paths[i]).state is Failed
                ==> self.paths[i].state->reason == "Validation timeout"@
    }

    /// The path with a number.
    pub open spec fn path(self, path_id: u64) -> Option<PathView> {
        match first(self.paths, numbered(path_id)) {
            Some(i) => Some(self.paths[i]),
            None => None,
        }
    }

    /// The paths with one more, which takes the place of a path with the same number.
    pub open spec fn with_path(self, p: PathView) -> MigrationView {
        MigrationView {
            paths: match first(self.paths, numbered(p.path_id)) {
                Some(i) => self.paths.update(i, p),
                None => self.paths.push(p),
            },
            ..self
        }
    }

    /// Why a path cannot be validated.
    pub open spec fn refusal(self, local: SocketAddress, remote: SocketAddress) -> Option<Error> {
        if first(self.paths, joining(local, remote)) is Some {
            Some(Error::Internal(Reason::Text("Path already exists")))
        } else if self.paths.len() >= self.config.max_paths {
            Some(Error::Internal(Reason::Text("Maximum paths reached")))
        } else {
            None
        }
    }

    /// The manager after the next number was assigned.
    pub open spec fn numbered_once_more(self) -> MigrationView {
        MigrationView { next_path_id: (self.next_path_id + 1) as u64, ..self }
    }

    /// A new path that waits for the answer to a challenge.
    pub open spec fn new_path(
        self,
        local: SocketAddress,
        remote: SocketAddress,
        challenge: Seq<u8>,
        now: Instant,
    ) -> PathView {
        PathView {
            local_addr: local,
            remote_addr: remote,
            state: PathStateView::Validating {
                challenge_sent: challenge,
                started_at: now,
                attempts: 1,
            },
            path_id: self.next_path_id,
            last_activity: now,
            max_packet_size: 1200,
        }
    }

    /// The manager after the answer to a challenge.
    pub open spec fn answered(self, data: Seq<u8>, source: SocketAddress, now: Instant) ->
        MigrationView {
        match first(self.paths, awaiting(data, source)) {
            Some(i) => MigrationView {
                paths: self.paths.update(
                    i,
                    PathView {
                        state: PathStateView::Active {
                            validated_at: now,
                            rtt: Duration {
                                nanos: crate::time::max_int(
                                    now.nanos - self.paths[i].state->Validating_started_at.nanos,
                                    0,
                                ) as u128,
                            },
                        },
                        last_activity: now,
                        ..self.paths[i]
                    },
                ),
                ..self
            },
            None => self,
        }
    }

    /// Whether a path waits too long for an answer, and was challenged often enough.
    pub open spec fn expired(self, p: PathView, now: Instant) -> bool {
        &&& p.state is Validating
        &&& now.nanos - p.state->Validating_started_at.nanos > self.config.validation_timeout.nanos
        &&& p.state->attempts >= self.config.max_validation_attempts
    }

    /// A path after the timeouts were checked.
    pub open spec fn checked(self, p: PathView, now: Instant) -> PathView {
        if self.expired(p, now) {
            PathView {
                state: PathStateView::Failed { reason: "Validation timeout"@, failed_at: now },
                ..p
            }
        } else {
            p
        }
    }

    /// The numbers of the first `n` paths that fail when the timeouts are checked.
    pub open spec fn expired_ids(self, now: Instant, n: int) -> Seq<u64>
        decreases n,
    {
        if n <= 0 {
            Seq::empty()
        } else if self.expired(self.paths[n - 1], now) {
            self.expired_ids(now, n - 1).push(self.paths[n - 1].path_id)
        } else {
            self.expired_ids(now, n - 1)
        }
    }

    /// The manager after the timeouts were checked.
    pub open spec fn after_check(self, now: Instant) -> MigrationView {
        MigrationView {
            paths: Seq::new(self.paths.len(), |i: int| self.checked(self.paths[i], now)),
            ..self
        }
    }
}

/// Whether the bytes are the same
pub fn same_bytes(a: &[u8], b: &[u8]) -> (r: bool)
    ensures
        r == (a@ == b@),
{
    let len: usize = a.len();
    if len != b.len() {
        return false;
    }
    let mut i: usize = 0;
    while i < len
        invariant
            len == a@.len(),
            len == b@.len(),
            i <= len,
            forall|j: int| 0 <= j < i ==> a@[j] == b@[j],
        decreases len - i,
    {
        if a[i] != b[i] {
            assert(a@[i as int] != b@[i as int]);
            return false;
        }
        i += 1;
    }
    assert(a@ =~= b@);
    true
}

impl MigrationManager {
    /// Create a new migration manager
    pub fn new(config: MigrationConfig) -> (r: MigrationManager)
        ensures
            r@ == (MigrationView {
                paths: Seq::empty(),
                active_path_id: 0,
                next_path_id: 1,
                config,
            }),
            r@.wf(),
    {
        let r: MigrationManager = MigrationManager {
            paths: Vec::new(),
            active_path_id: 0,
            next_path_id: 1,
            config,
        };
        assert(r@.paths =~= Seq::<PathView>::empty());
        r
    }

    /// Where the path with a number is kept
    fn position(&self, path_id: u64) -> (r: Option<usize>)
        ensures
            match first(self@.paths, numbered(path_id)) {
                Some(i) => r is Some && r->Some_0 == i && i < self.paths@.len(),
                None => r is None,
            },
    {
        let ghost s = self@.paths;
        proof {
            lemma_first(s, numbered(path_id));
        }
        let mut i: usize = 0;
        while i < self.paths.len()
            invariant
                s == self@.paths,
                s.len() == self.paths@.len(),
                i <= s.len(),
                forall|j: int| 0 <= j < i ==> !numbered(path_id)(#[trigger] s[j]),
                match first(s, numbered(path_id)) {
                    Some(k) => 0 <= k < s.len() && numbered(path_id)(s[k]) && forall|j: int|
                        0 <= j < k ==> !numbered(path_id)(#[trigger] s[j]),
                    None => forall|j: int| 0 <= j < s.len() ==> !numbered(path_id)(#[trigger] s[j]),
                },
            decreases s.len() - i,
        {
            assert(s[i as int] == self.paths@[i as int]@);
            if self.paths[i].path_id == path_id {
                assert(numbered(path_id)(s[i as int]));
                return Some(i);
            }
            assert(!numbered(path_id)(s[i as int]));
            i += 1;
        }
        None
    }

    /// Initialize with the primary path
    pub fn init_primary_path(
        &mut self,
        local_addr: SocketAddress,
        remote_addr: SocketAddress,
        now: Instant,
    ) -> (r: Result<u64, Error>)
        requires
            old(self)@.wf(),
        ensures
            r == Ok::<u64, Error>(0),
            final(self)@.wf(),
            final(self)@ == old(self)@.with_path(
                PathView {
                    local_addr,
                    remote_addr,
                    state: PathStateView::Active {
                        validated_at: now,
                        rtt: Duration { nanos: 100_000_000 },
                    },
                    path_id: 0,
                    last_activity: now,
                    max_packet_size: 1200,
                },
            ),
    {
        let path_info: PathInfo = PathInfo {
            local_addr,
            remote_addr,
            state: PathState::Active {
                validated_at: now,
                rtt: Duration::from_nanos(100_000_000),
            },
            path_id: 0,
            last_activity: now,
            max_packet_size: 1200,
        };
        let ghost p = path_info@;
        proof {
            lemma_first(self@.paths, numbered(0));
        }
        match self.position(0) {
            Some(i) => {
                self.paths.set(i, path_info);
                assert(self@.paths =~= old(self)@.paths.update(i as int, p));
            },
            None => {
                self.paths.push(path_info);
                assert(self@.paths =~= old(self)@.paths.push(p));
            },
        }
        Ok(0)
    }

    /// Start path validation for a new path: its number, and the challenge to send
    pub fn start_path_validation(
        &mut self,
        local_addr: SocketAddress,
        remote_addr: SocketAddress,
        now: Instant,
    ) -> (r: Result<(u64, Vec<u8>), Error>)
        requires
            old(self)@.wf(),
            old(self)@.refusal(local_addr, remote_addr) is None ==> old(self)@.next_path_id
                < u64::MAX,
        ensures
            final(self)@.wf(),
            match old(self)@.refusal(local_addr, remote_addr) {
                Some(e) => r == Err::<(u64, Vec<u8>), Error>(e) && final(self)@ == old(self)@,
                None => match r {
                    Ok((path_id, challenge)) => {
                        &&& path_id == old(self)@.next_path_id
                        &&& challenge@.len() == 8
                        &&& final(self)@ == old(self)@.numbered_once_more().with_path(
                            old(self)@.new_path(local_addr, remote_addr, challenge@, now),
                        )
                    },
                    Err(e) => e == Error::Internal(Reason::Text("RNG failure")) && final(self)@ == old(
                        self,
                    )@.numbered_once_more(),
                },
            },
    {
        self.check_new_path(local_addr, remote_addr)?;
        let mut challenge: Vec<u8> = vec![0u8; 8];
        match fill_random(&mut challenge) {
            Ok(()) => self.begin_path_validation(local_addr, remote_addr, Some(challenge), now),
            Err(_) => self.begin_path_validation(local_addr, remote_addr, None, now),
        }
    }

    /// Whether a new path may be validated
    fn check_new_path(&self, local_addr: SocketAddress, remote_addr: SocketAddress) -> (r: Result<
        (),
        Error,
    >)
        ensures
            r == (match self@.refusal(local_addr, remote_addr) {
                Some(e) => Err::<(), Error>(e),
                None => Ok(()),
            }),
    {
        let ghost s = self@.paths;
        let ghost p = joining(local_addr, remote_addr);
        proof {
            lemma_first(s, p);
        }
        let mut i: usize = 0;
        while i < self.paths.len()
            invariant
                s == self@.paths,
                s.len() == self.paths@.len(),
                p == joining(local_addr, remote_addr),
                i <= s.len(),
                forall|j: int| 0 <= j < i ==> !p(#[trigger] s[j]),
                first(s, p) is None ==> forall|j: int| 0 <= j < s.len() ==> !p(#[trigger] s[j]),
            decreases s.len() - i,
        {
            assert(s[i as int] == self.paths@[i as int]@);
            if self.paths[i].local_addr == local_addr && self.paths[i].remote_addr == remote_addr {
                assert(p(s[i as int]));
                return Err(Error::Internal(Reason::Text("Path already exists")));
            }
            assert(!p(s[i as int]));
            i += 1;
        }
        if self.paths.len() >= self.config.max_paths {
            return Err(Error::Internal(Reason::Text("Maximum paths reached")));
        }
        Ok(())
    }

    /// Start path validation with the challenge that the system supplied, if it did
    pub fn begin_path_validation(
        &mut self,
        local_addr: SocketAddress,
        remote_addr: SocketAddress,
        challenge: Option<Vec<u8>>,
        now: Instant,
    ) -> (r: Result<(u64, Vec<u8>), Error>)
        requires
            old(self)@.wf(),
            old(self)@.refusal(local_addr, remote_addr) is None ==> old(self)@.next_path_id
                < u64::MAX,
        ensures
            final(self)@.wf(),
            match (old(self)@.refusal(local_addr, remote_addr), challenge) {
                (Some(e), _) => r == Err::<(u64, Vec<u8>), Error>(e) && final(self)@ == old(self)@,
                (None, None) => r == Err::<(u64, Vec<u8>), Error>(
                    Error::Internal(Reason::Text("RNG failure")),
                )
                    && final(self)@ == old(self)@.numbered_once_more(),
                (None, Some(c)) => {
                    &&& r is Ok
                    &&& r->Ok_0.0 == old(self)@.next_path_id
                    &&& r->Ok_0.1@ == c@
                    &&& final(self)@ == old(self)@.numbered_once_more().with_path(
                        old(self)@.new_path(local_addr, remote_addr, c@, now),
                    )
                },
            },
    {
        self.check_new_path(local_addr, remote_addr)?;
        let path_id: u64 = self.next_path_id;
        self.next_path_id += 1;
        let challenge: Vec<u8> = match challenge {
            Some(c) => c,
            None => {
                return Err(Error::Internal(Reason::Text("RNG failure")));
            },
        };
        let path_info: PathInfo = PathInfo {
            local_addr,
            remote_addr,
            state: PathState::Validating {
                challenge_sent: slice_to_vec(challenge.as_slice()),
                started_at: now,
                attempts: 1,
            },
            path_id,
            last_activity: now,
            max_packet_size: 1200,
        };
        let ghost p = path_info@;
        proof {
            lemma_first(self@.paths, numbered(path_id));
        }
        self.paths.push(path_info);
        assert(self@.paths =~= old(self)@.paths.push(p));
        Ok((path_id, challenge))
    }

    /// Handle PATH_CHALLENGE frame: the same data goes back in a PATH_RESPONSE
    pub fn handle_path_challenge(&self, data: &[u8], _source_addr: SocketAddress) -> (r: Result<
        Vec<u8>,
        Error,
    >)
        ensures
            data@.len() != 8 ==> r == Err::<Vec<u8>, Error>(
                Error::ProtocolViolation(Reason::Text("Invalid PATH_CHALLENGE data")),
            ),
            data@.len() == 8 ==> r is Ok && r->Ok_0@ == data@,
    {
        if data.len() != 8 {
            return Err(Error::ProtocolViolation(Reason::Text("Invalid PATH_CHALLENGE data")));
        }
        Ok(slice_to_vec(data))
    }

    /// Handle PATH_RESPONSE frame: the number of the path that it validates, if any
    pub fn handle_path_response(&mut self, data: &[u8], source_addr: SocketAddress, now: Instant)
        -> (r: Result<Option<u64>, Error>)
        requires
            old(self)@.wf(),
        ensures
            final(self)@.wf(),
            data@.len() != 8 ==> r == Err::<Option<u64>, Error>(
                Error::ProtocolViolation(Reason::Text("Invalid PATH_RESPONSE data")),
            ) && final(self)@ == old(self)@,
            data@.len() == 8 ==> {
                &&& r == Ok::<Option<u64>, Error>(
                    match first(old(self)@.paths, awaiting(data@, source_addr)) {
                        Some(i) => Some(old(self)@.paths[i].path_id),
                        None => None,
                    },
                )
                &&& final(self)@ == old(self)@.answered(data@, source_addr, now)
            },
    {
        if data.len() != 8 {
            return Err(Error::ProtocolViolation(Reason::Text("Invalid PATH_RESPONSE data")));
        }
        let ghost s = self@.paths;
        let ghost p = awaiting(data@, source_addr);
        proof {
            lemma_first(s, p);
        }
        let mut found: Option<usize> = None;
        let mut i: usize = 0;
        while i < self.paths.len() && found.is_none()
            invariant
                *self == *old(self),
                s == self@.paths,
                s.len() == self.paths@.len(),
                p == awaiting(data@, source_addr),
                i <= s.len(),
                match found {
                    Some(k) => k < s.len() && p(s[k as int]) && forall|j: int|
                        0 <= j < k ==> !p(#[trigger] s[j]),
                    None => forall|j: int| 0 <= j < i ==> !p(#[trigger] s[j]),
                },
            decreases s.len() - i,
        {
            assert(s[i as int] == self.paths@[i as int]@);
            if self.paths[i].remote_addr == source_addr && Self::awaits(&self.paths[i].state, data) {
                assert(p(s[i as int]));
                found = Some(i);
            } else {
                assert(!p(s[i as int]));
            }
            i += 1;
        }
        match found {
            Some(k) => {
                assert(s[k as int] == self.paths@[k as int]@);
                assert(first(s, p) == Some(k as int));
                let path_id: u64 = self.paths[k].path_id;
                let rtt: Duration = match &self.paths[k].state {
                    PathState::Validating { started_at, .. } => now.duration_since(*started_at),
                    _ => Duration::from_nanos(0),
                };
                let path_info: &mut PathInfo = &mut self.paths[k];
                path_info.state = PathState::Active { validated_at: now, rtt };
                path_info.last_activity = now;
                assert(self@.paths =~= old(self)@.answered(data@, source_addr, now).paths);
                Ok(Some(path_id))
            },
            None => Ok(None),
        }
    }

    /// Whether a path waits for these bytes
    fn awaits(state: &PathState, data: &[u8]) -> (r: bool)
        ensures
            r == (state@ is Validating && state@->challenge_sent == data@),
    {
        match state {
            PathState::Validating { challenge_sent, .. } => same_bytes(challenge_sent, data),
            _ => false,
        }
    }

    /// Migrate to a new path
    pub fn migrate_to_path(&mut self, path_id: u64) -> (r: Result<(), Error>)
        requires
            old(self)@.wf(),
        ensures
            final(self)@.wf(),
            match old(self)@.path(path_id) {
                None => r == Err::<(), Error>(Error::Internal(Reason::Text("Path not found"))),
                Some(p) => match p.state {
                    PathStateView::Active { .. } => r == Ok::<(), Error>(()),
                    PathStateView::Validating { .. } => r == Err::<(), Error>(
                        Error::Internal(Reason::Text("Path still being validated")),
                    ),
                    PathStateView::Failed { .. } => r == Err::<(), Error>(
                        Error::Internal(Reason::Text("Path validation failed: Validation timeout")),
                    ),
                },
            },
            final(self)@ == (if r is Ok {
                MigrationView { active_path_id: path_id, ..old(self)@ }
            } else {
                old(self)@
            }),
            r is Ok <==> (old(self)@.path(path_id) matches Some(p) && p.state is Active),
            r is Ok ==> final(self)@.active_path_id == path_id && final(self)@.paths == old(
                self,
            )@.paths,
    {
        proof {
            lemma_first(self@.paths, numbered(path_id));
        }
        let i: usize = match self.position(path_id) {
            Some(i) => i,
            None => {
                return Err(Error::Internal(Reason::Text("Path not found")));
            },
        };
        assert(self@.paths[i as int] == self.paths@[i as int]@);
        match &self.paths[i].state {
            PathState::Active { .. } => {},
            PathState::Validating { .. } => {
                return Err(Error::Internal(Reason::Text("Path still being validated")));
            },
            PathState::Failed { .. } => {
                return Err(
                    Error::Internal(Reason::Text("Path validation failed: Validation timeout")),
                );
            },
        }
        self.active_path_id = path_id;
        Ok(())
    }

    /// Get the current active path
    pub fn get_active_path(&self) -> (r: Result<PathInfo, Error>)
        ensures
            match self@.path(self@.active_path_id) {
                Some(p) => r is Ok && r->Ok_0@ == p,
                None => r is Err && r->Err_0 == Error::Internal(Reason::Text("Active path not found")),
            },
    {
        match self.position(self.active_path_id) {
            Some(i) => {
                assert(self@.paths[i as int] == self.paths@[i as int]@);
                Ok(self.paths[i].clone())
            },
            None => Err(Error::Internal(Reason::Text("Active path not found"))),
        }
    }

    /// Check for path validation timeouts: the numbers of the paths that fail
    pub fn check_validation_timeouts(&mut self, now: Instant) -> (r: Vec<u64>)
        requires
            old(self)@.wf(),
        ensures
            final(self)@.wf(),
            r@ == old(self)@.expired_ids(now, old(self)@.paths.len() as int),
            final(self)@ == old(self)@.after_check(now),
    {
        let ghost v = self@;
        let mut failed_paths: Vec<u64> = Vec::new();
        let mut i: usize = 0;
        while i < self.paths.len()
            invariant
                v == old(self)@,
                i <= v.paths.len(),
                self.paths@.len() == v.paths.len(),
                self.config == v.config,
                self.active_path_id == v.active_path_id,
                self.next_path_id == v.next_path_id,
                forall|j: int|
                    0 <= j < i ==> (#[trigger] self.paths@[j])@ == v.checked(v.paths[j], now),
                forall|j: int| i <= j < v.paths.len() ==> (#[trigger] self.paths@[j])@ == v.paths[j],
                failed_paths@ == v.expired_ids(now, i as int),
            decreases v.paths.len() - i,
        {
            let ghost before = self.paths@;
            assert(before[i as int]@ == v.paths[i as int]);
            let expired: bool = match &self.paths[i].state {
                PathState::Validating { started_at, attempts, .. } => {
                    now.duration_since(*started_at).nanos > self.config.validation_timeout.nanos
                        && *attempts >= self.config.max_validation_attempts
                },
                _ => false,
            };
            assert(expired == v.expired(v.paths[i as int], now));
            if expired {
                let path_id: u64 = self.paths[i].path_id;
                let reason: String = "Validation timeout".to_owned();
                let path_info: &mut PathInfo = &mut self.paths[i];
                path_info.state = PathState::Failed { reason, failed_at: now };
                failed_paths.push(path_id);
                assert(forall|j: int| 0 <= j < before.len() && j != i ==> self.paths@[j] == before[j]);
                assert(self.paths@[i as int]@ == v.checked(v.paths[i as int], now));
            }
            i += 1;
        }
        assert(self@.paths =~= v.after_check(now).paths);
        failed_paths
    }

    /// Retire a path
    pub fn retire_path(&mut self, path_id: u64) -> (r: Result<(), Error>)
        requires
            old(self)@.wf(),
        ensures
            final(self)@.wf(),
            r == (if path_id == old(self)@.active_path_id {
                Err::<(), Error>(Error::Internal(Reason::Text("Cannot retire active path")))
            } else if old(self)@.path(path_id) is None {
                Err(Error::Internal(Reason::Text("Path not found")))
            } else {
                Ok(())
            }),
            final(self)@ == (if r is Ok {
                MigrationView {
                    paths: old(self)@.paths.remove(
                        first(old(self)@.paths, numbered(path_id))->Some_0,
                    ),
                    ..old(self)@
                }
            } else {
                old(self)@
            }),
            final(self)@.active_path_id == old(self)@.active_path_id,
            r is Ok ==> path_id != old(self)@.active_path_id && final(self)@.paths.len() + 1 == old(
                self,
            )@.paths.len(),
    {
        if path_id == self.active_path_id {
            return Err(Error::Internal(Reason::Text("Cannot retire active path")));
        }
        match self.position(path_id) {
            Some(i) => {
                let _retired: PathInfo = self.paths.remove(i);
                assert(self@.paths =~= old(self)@.paths.remove(i as int));
                Ok(())
            },
            None => Err(Error::Internal(Reason::Text("Path not found"))),
        }
    }

    /// Get all paths
    pub fn get_all_paths(&self) -> (r: Vec<PathInfo>)
        ensures
            path_views(r@) == self@.paths,
    {
        let mut all: Vec<PathInfo> = Vec::new();
        let mut i: usize = 0;
        while i < self.paths.len()
            invariant
                i <= self.paths@.len(),
                all@.len() == i,
                forall|j: int| 0 <= j < i ==> (#[trigger] all@[j])@ == self.paths@[j]@,
            decreases self.paths@.len() - i,
        {
            all.push(self.paths[i].clone());
            i += 1;
        }
        assert(path_views(all@) =~= self@.paths);
        all
    }

    /// Update path MTU after successful probe
    pub fn update_path_mtu(&mut self, path_id: u64, new_mtu: usize) -> (r: Result<(), Error>)
        requires
            old(self)@.wf(),
        ensures
            final(self)@.wf(),
            match first(old(self)@.paths, numbered(path_id)) {
                Some(i) => r == Ok::<(), Error>(()) && final(self)@ == (MigrationView {
                    paths: old(self)@.paths.update(
                        i,
                        PathView { max_packet_size: new_mtu, ..old(self)@.paths[i] },
                    ),
                    ..old(self)@
                }),
                None => r == Err::<(), Error>(
                    Error::Internal(Reason::Text("Path not found")),
                ) && final(self)@
                    == old(self)@,
            },
    {
        proof {
            lemma_first(self@.paths, numbered(path_id));
        }
        match self.position(path_id) {
            Some(i) => {
                assert(self@.paths[i as int] == self.paths@[i as int]@);
                let path: &mut PathInfo = &mut self.paths[i];
                path.max_packet_size = new_mtu;
                assert(self@.paths =~= old(self)@.paths.update(
                    i as int,
                    PathView { max_packet_size: new_mtu, ..old(self)@.paths[i as int] },
                ));
                Ok(())
            },
            None => Err(Error::Internal(Reason::Text("Path not found"))),
        }
    }

    /// Check if migration is needed based on network changes
    pub fn check_migration_needed(&self, current_local: SocketAddress) -> (r: bool)
        ensures
            r == (self@.config.enable_auto_migration && (self@.path(self@.active_path_id) matches Some(
                p,
            ) && p.local_addr != current_local)),
    {
        if !self.config.enable_auto_migration {
            return false;
        }
        match self.position(self.active_path_id) {
            Some(i) => {
                assert(self@.paths[i as int] == self.paths@[i as int]@);
                self.paths[i].local_addr != current_local
            },
            None => false,
        }
    }
}

/// The answer to a challenge from the address it was sent to validates the path, so that the
/// connection can move there.
pub proof fn challenge_answer_validates(
    v: MigrationView,
    local: SocketAddress,
    remote: SocketAddress,
    challenge: Seq<u8>,
    started: Instant,
    answered: Instant,
)
    requires
        v.wf(),
        v.next_path_id < u64::MAX,
        v.refusal(local, remote) is None,
        first(v.paths, awaiting(challenge, remote)) is None,
    ensures
        ({
            let id = v.next_path_id;
            let w = v.numbered_once_more().with_path(v.new_path(local, remote, challenge, started));
            &&& w.path(id) matches Some(p) && p.state is Validating
            &&& w.answered(challenge, remote, answered).path(id) matches Some(p) && p.state
                is Active && p.local_addr == local && p.remote_addr == remote
        }),
{
    let id = v.next_path_id;
    let n = v.new_path(local, remote, challenge, started);
    lemma_first(v.paths, numbered(id));
    let w = v.numbered_once_more().with_path(n);
    assert(w.paths == v.paths.push(n));
    assert(w.paths.drop_last() =~= v.paths);
    assert(numbered(id)(w.paths.last()));
    assert(awaiting(challenge, remote)(w.paths.last()));
    let a = w.answered(challenge, remote, answered);
    assert(a.paths.drop_last() =~= v.paths);
    assert(numbered(id)(a.paths.last()));
}

/// A path that does not wait for an answer is not changed by one.
pub proof fn wrong_answer_changes_nothing(
    v: MigrationView,
    data: Seq<u8>,
    source: SocketAddress,
    now: Instant,
    i: int,
)
    requires
        0 <= i < v.paths.len(),
        !awaiting(data, source)(v.paths[i]),
    ensures
        v.answered(data, source, now).paths[i] == v.paths[i],
{
    lemma_first(v.paths, awaiting(data, source));
}

} // verus!
