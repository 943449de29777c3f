use vstd::prelude::*;

use vstd::string::StringSliceAdditionalSpecFns;

use crate::strutil::str_eq;

verus! {

/// The lifecycle of a builder or agent service. `Starting` and `Stopping`
/// are passed through while one signal is handled; between signals the
/// service rests in `Stopped` or `Ready`.
#[derive(Clone, Copy, Debug, PartialEq, Eq, Structural)]
pub enum ServiceState {
    Stopped,
    Ready,
}

/// What the supervisor may ask of the service.
#[derive(Clone, Copy, Debug, PartialEq, Eq, Structural)]
pub enum Signal {
    Start,
    Reload,
    Stop,
}

/// What the host must do to carry one step out.
#[derive(Clone, Copy, Debug, PartialEq, Eq, Structural)]
pub enum ServiceAction {
    /// Bind the listener, discover toolchains, spawn the acceptor and the
    /// announcer.
    StartService,
    /// Shut the running service down, then start a fresh one.
    ReplaceService,
    /// Re-run toolchain discovery, keeping the listener open.
    ReloadToolchains,
    /// Shut the service down: the steps of `shutdown_steps`, in order.
    StopService,
    /// Nothing to do.
    Stay,
}

/// The transition table: one signal takes one state to the next state and
/// tells the host what to perform.
pub open spec fn spec_service_step(state: ServiceState, signal: Signal) -> (
    ServiceState,
    ServiceAction,
) {
    match (state, signal) {
        (ServiceState::Stopped, Signal::Start) => (ServiceState::Ready, ServiceAction::StartService),
        (ServiceState::Ready, Signal::Start) => (ServiceState::Ready, ServiceAction::ReplaceService),
        (ServiceState::Ready, Signal::Reload) => (
            ServiceState::Ready,
            ServiceAction::ReloadToolchains,
        ),
        (ServiceState::Stopped, Signal::Reload) => (ServiceState::Stopped, ServiceAction::Stay),
        (ServiceState::Ready, Signal::Stop) => (ServiceState::Stopped, ServiceAction::StopService),
        (ServiceState::Stopped, Signal::Stop) => (ServiceState::Stopped, ServiceAction::Stay),
    }
}

/// Drives the service one signal forward. A stopped service never acts on
/// `Reload` or `Stop`; a ready one reloads in place and stops through the
/// ordered shutdown; `Start` on a ready service replaces it.
pub fn service_step(state: ServiceState, signal: Signal) -> (r: (ServiceState, ServiceAction))
    ensures
        r == spec_service_step(state, signal),
{
    match (state, signal) {
        (ServiceState::Stopped, Signal::Start) => (
            ServiceState::Ready,
            ServiceAction::StartService,
        ),
        (ServiceState::Ready, Signal::Start) => (
            ServiceState::Ready,
            ServiceAction::ReplaceService,
        ),
        (ServiceState::Ready, Signal::Reload) => (
            ServiceState::Ready,
            ServiceAction::ReloadToolchains,
        ),
        (ServiceState::Stopped, Signal::Reload) => (ServiceState::Stopped, ServiceAction::Stay),
        (ServiceState::Ready, Signal::Stop) => (ServiceState::Stopped, ServiceAction::StopService),
        (ServiceState::Stopped, Signal::Stop) => (ServiceState::Stopped, ServiceAction::Stay),
    }
}

/// One step of the ordered shutdown of a running service.
#[derive(Clone, Copy, Debug, PartialEq, Eq, Structural)]
pub enum ShutdownStep {
    /// Raise the shared flag the announcer polls each tick.
    SetDoneFlag,
    /// Drop the listener so the accept loop ends and new connections are
    /// refused.
    CloseListener,
    /// Join the announcer thread.
    JoinAnnouncer,
    /// Join the acceptor thread.
    JoinAccepter,
}

/// The shutdown contract: first the flag, then the listener, then both
/// background threads are joined before the service is gone. Handler threads
/// are not joined; they end when their sockets close.
pub fn shutdown_steps() -> (r: Vec<ShutdownStep>)
    ensures
        r@ == seq![
            ShutdownStep::SetDoneFlag,
            ShutdownStep::CloseListener,
            ShutdownStep::JoinAnnouncer,
            ShutdownStep::JoinAccepter,
        ],
{
    let mut r: Vec<ShutdownStep> = Vec::new();
    r.push(ShutdownStep::SetDoneFlag);
    r.push(ShutdownStep::CloseListener);
    r.push(ShutdownStep::JoinAnnouncer);
    r.push(ShutdownStep::JoinAccepter);
    proof {
        assert(r@ =~= seq![
            ShutdownStep::SetDoneFlag,
            ShutdownStep::CloseListener,
            ShutdownStep::JoinAnnouncer,
            ShutdownStep::JoinAccepter,
        ]);
    }
    r
}

/// How many seconds the announcer sleeps between announcements.
pub const ANNOUNCE_PERIOD_SECS: u64 = 1;

/// What a builder announces to the coordinator each period: its identity,
/// where it listens, and which toolchains it offers.
#[derive(Debug)]
pub struct BuilderInfo {
    pub name: String,
    pub version: String,
    pub endpoint: String,
    pub toolchains: Vec<String>,
}

/// What an agent announces: its identity and reachability endpoints only.
#[derive(Debug)]
pub struct AgentInfo {
    pub name: String,
    pub endpoints: Vec<String>,
}

/// The toolchain identifiers under which discovery results are registered:
/// every discovered identifier exactly once. Later discoveries of the same
/// identifier overwrite earlier ones, so the identifier still stands.
#[verifier::loop_isolation(false)]
pub fn dedup_toolchains(ids: &Vec<String>) -> (r: Vec<String>)
    ensures
        forall|i: int, j: int| 0 <= i < j < r.deep_view().len() ==> r.deep_view()[i] != r
            .deep_view()[j],
        forall|x: Seq<char>| r.deep_view().contains(x) <==> ids.deep_view().contains(x),
{
    let ghost dv = ids.deep_view();
    proof {
        assert(dv.len() == ids@.len());
    }
    let mut r: Vec<String> = Vec::new();
    let mut i: usize = 0;
    while i < ids.len()
        invariant
            i <= ids@.len(),
            forall|a: int, b: int| 0 <= a < b < r.deep_view().len() ==> r.deep_view()[a] != r
                .deep_view()[b],
            forall|x: Seq<char>| r.deep_view().contains(x) <==> dv.take(i as int).contains(x),
        decreases ids@.len() - i,
    {
        proof {
            assert(dv[i as int] == ids@[i as int]@);
        }
        let id: &String = &ids[i];
        let mut seen = false;
        let mut j: usize = 0;
        while j < r.len()
            invariant
                j <= r.deep_view().len(),
                r.deep_view().len() == r@.len(),
                seen <==> (exists|k: int| 0 <= k < j && #[trigger] r.deep_view()[k] == dv[i as int]),
            decreases r@.len() - j,
        {
            proof {
                assert(r.deep_view()[j as int] == r@[j as int]@);
            }
            if str_eq(r[j].as_str(), id.as_str()) {
                seen = true;
            }
            j = j + 1;
        }
        let ghost prev = r.deep_view();
        if !seen {
            r.push(id.clone());
            proof {
                assert(r.deep_view() =~= prev + seq![dv[i as int]]);
            }
        }
        proof {
            assert(dv.take(i + 1) =~= dv.take(i as int).push(dv[i as int]));
            let rd = r.deep_view();
            let t1 = dv.take(i + 1);
            let t0 = dv.take(i as int);
            assert forall|x: Seq<char>| rd.contains(x) <==> t1.contains(x) by {
                if rd.contains(x) {
                    let a = choose|a: int| 0 <= a < rd.len() && #[trigger] rd[a] == x;
                    if a < prev.len() {
                        assert(prev[a] == x);
                        assert(prev.contains(x));
                        assert(t0.contains(x));
                        let b = choose|b: int| 0 <= b < t0.len() && #[trigger] t0[b] == x;
                        assert(t1[b] == x);
                        assert(t1.contains(x));
                    } else {
                        assert(x == dv[i as int]);
                        assert(t1[i as int] == x);
                        assert(t1.contains(x));
                    }
                }
                if t1.contains(x) {
                    let a = choose|a: int| 0 <= a < t1.len() && #[trigger] t1[a] == x;
                    if a < i {
                        assert(t0[a] == x);
                        assert(t0.contains(x));
                        assert(prev.contains(x));
                        let b = choose|b: int| 0 <= b < prev.len() && #[trigger] prev[b] == x;
                        assert(rd[b] == x);
                        assert(rd.contains(x));
                    } else {
                        assert(x == dv[i as int]);
                        if seen {
                            let k = choose|k: int|
                                0 <= k < prev.len() && #[trigger] prev[k] == dv[i as int];
                            assert(rd[k] == x);
                        } else {
                            assert(rd[prev.len() as int] == x);
                        }
                        assert(rd.contains(x));
                    }
                }
            }
        }
        i = i + 1;
    }
    proof {
        assert(dv.take(i as int) =~= dv);
    }
    r
}

/// The bytes every accepted connection is greeted with.
pub fn client_greeting() -> (r: Vec<u8>)
    ensures
        r@ == "Hello!!!\n".spec_bytes(),
{
    "Hello!!!\n".as_bytes_vec()
}

} // verus!
