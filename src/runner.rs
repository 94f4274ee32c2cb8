use vstd::prelude::*;
use crate::token::Profile;

verus! {

/// The pause between two scripts that gives the peer time to settle.
pub const QUIESCENCE_MS: u64 = 100;

/// How the harness meets its peer.
#[derive(Clone, Copy, Debug, PartialEq, Eq, Structural)]
pub enum ConnectionMode {
    /// Dial the socket path, where the peer already listens.
    Connect,
    /// Bind the socket path and accept one connection from the peer per script.
    Listen,
}

impl ConnectionMode {
    /// Whether the socket path is the harness's own, to be removed when the run ends.
    pub fn owns_endpoint(&self) -> (r: bool)
        ensures
            r == (*self == ConnectionMode::Listen),
    {
        match self {
            ConnectionMode::Connect => false,
            ConnectionMode::Listen => true,
        }
    }

    /// Whether an accepted connection is shut down both ways after its script.
    pub fn shuts_down_after_script(&self) -> (r: bool)
        ensures
            r == (*self == ConnectionMode::Listen),
    {
        match self {
            ConnectionMode::Connect => false,
            ConnectionMode::Listen => true,
        }
    }
}

/// What a harness speaks, how it meets its peer, and how long it pauses
/// between scripts.
#[derive(Clone, Copy, Debug, PartialEq, Eq, Structural)]
pub struct Harness {
    pub profile: Profile,
    pub mode: ConnectionMode,
    pub pause_ms: u64,
}

impl Harness {
    /// The port harness: it dials a port server and speaks its commands.
    pub fn port() -> (r: Harness)
        ensures
            r == (Harness {
                profile: Profile::Port,
                mode: ConnectionMode::Connect,
                pause_ms: QUIESCENCE_MS,
            }),
    {
        Harness { profile: Profile::Port, mode: ConnectionMode::Connect, pause_ms: QUIESCENCE_MS }
    }

    /// The daemon harness: it listens for the daemon and speaks its commands.
    pub fn daemon() -> (r: Harness)
        ensures
            r == (Harness {
                profile: Profile::Daemon,
                mode: ConnectionMode::Listen,
                pause_ms: QUIESCENCE_MS,
            }),
    {
        Harness { profile: Profile::Daemon, mode: ConnectionMode::Listen, pause_ms: QUIESCENCE_MS }
    }
}

/// One step of a run over a set of scripts.
#[derive(Clone, Copy, Debug, PartialEq, Eq, Structural)]
pub enum RunStep {
    /// Run script `i` over a fresh connection, closed when the script ends.
    Script(usize),
    /// Wait this many milliseconds.
    Pause(u64),
}

/// The run over `n` scripts: each script on its own connection, in order,
/// each followed by a pause.
pub open spec fn schedule_of(n: nat, pause_ms: u64) -> Seq<RunStep>
    decreases n,
{
    if n == 0 {
        Seq::empty()
    } else {
        schedule_of((n - 1) as nat, pause_ms) + seq![
            RunStep::Script((n - 1) as usize),
            RunStep::Pause(pause_ms),
        ]
    }
}

/// The steps of a run over `n_files` scripts.
pub fn schedule(n_files: usize, pause_ms: u64) -> (r: Vec<RunStep>)
    requires
        n_files <= usize::MAX / 2,
    ensures
        r@ == schedule_of(n_files as nat, pause_ms),
{
    let mut r: Vec<RunStep> = Vec::new();
    let mut i: usize = 0;
    while i < n_files
        invariant
            0 <= i <= n_files,
            r@ == schedule_of(i as nat, pause_ms),
        decreases n_files - i,
    {
        r.push(RunStep::Script(i));
        r.push(RunStep::Pause(pause_ms));
        assert(r@ =~= schedule_of((i + 1) as nat, pause_ms));
        i = i + 1;
    }
    r
}

/// A run over `n` scripts opens `n` connections, one per script and in
/// order, and before each but the first it pauses for the configured time.
pub proof fn lemma_schedule_shape(n: nat, pause_ms: u64)
    requires
        n <= usize::MAX,
    ensures
        schedule_of(n, pause_ms).len() == 2 * n,
        forall|i: int|
            0 <= i < n ==> #[trigger] schedule_of(n, pause_ms)[2 * i] == RunStep::Script(
                i as usize,
            ) && schedule_of(n, pause_ms)[2 * i + 1] == RunStep::Pause(pause_ms),
        forall|j: int|
            0 <= j < 2 * n ==> ((#[trigger] schedule_of(n, pause_ms)[j]) is Script <==> j % 2
                == 0),
    decreases n,
{
    if n > 0 {
        lemma_schedule_shape((n - 1) as nat, pause_ms);
        let prev = schedule_of((n - 1) as nat, pause_ms);
        let s = schedule_of(n, pause_ms);
        assert forall|i: int| 0 <= i < n implies #[trigger] s[2 * i] == RunStep::Script(
            i as usize,
        ) && s[2 * i + 1] == RunStep::Pause(pause_ms) by {
            if i < n - 1 {
                assert(s[2 * i] == prev[2 * i]);
                assert(s[2 * i + 1] == prev[2 * i + 1]);
            }
        }
        assert forall|j: int| 0 <= j < 2 * n implies ((#[trigger] s[j]) is Script <==> j % 2
            == 0) by {
            if j < 2 * (n - 1) {
                assert(s[j] == prev[j]);
            }
        }
    }
}

/// With the default pause, every connection after the first is preceded by
/// at least the quiescence delay.
pub proof fn lemma_quiescence_between_scripts(n: nat, pause_ms: u64, i: int)
    requires
        pause_ms >= QUIESCENCE_MS,
        1 <= i < n,
        n <= usize::MAX,
    ensures
        schedule_of(n, pause_ms)[2 * i] == RunStep::Script(i as usize),
        schedule_of(n, pause_ms)[2 * i - 1] matches RunStep::Pause(d) && d >= QUIESCENCE_MS,
{
    lemma_schedule_shape(n, pause_ms);
    assert(schedule_of(n, pause_ms)[2 * (i - 1)] == RunStep::Script((i - 1) as usize));
    assert(schedule_of(n, pause_ms)[2 * (i - 1) + 1] == RunStep::Pause(pause_ms));
}

/// The process status of a run: 0 where every script passed, else 1.
pub fn exit_code(results: &[bool]) -> (r: i32)
    ensures
        r == (if forall|i: int| 0 <= i < results@.len() ==> #[trigger] results@[i] {
            0i32
        } else {
            1i32
        }),
{
    let mut i: usize = 0;
    while i < results.len()
        invariant
            0 <= i <= results@.len(),
            forall|j: int| 0 <= j < i ==> #[trigger] results@[j],
        decreases results@.len() - i,
    {
        if !results[i] {
            return 1;
        }
        i = i + 1;
    }
    0
}

} // verus!
