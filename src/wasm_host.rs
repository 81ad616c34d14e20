//! The decisions of the extension runtime: which guest ABI a component is
//! bound through, how collaborator errors reach the guest, the policy gate
//! before governed operations, the sandbox's environment, the epoch ticker,
//! the per-extension call queue and the compilation cache.
use vstd::prelude::*;
use crate::Version;
use crate::capability_granter::CapabilityGrantError;
use crate::extension::Manifest;
use crate::paths::PathStyle;
use crate::rel_path::{RelPath, RelPathError, parse_rel_path};
use crate::text::{chars_of, concat, replace_char, str_eq, string_from_chars};

verus! {

/// Whether `v` is at least `min`, comparing major, minor and patch in turn.
pub open spec fn version_at_least(v: Version, min: Version) -> bool {
    v.major > min.major || (v.major == min.major && (v.minor > min.minor || (v.minor == min.minor
        && v.patch >= min.patch)))
}

pub fn is_version_at_least(v: Version, min: Version) -> (r: bool)
    ensures
        r == version_at_least(v, min),
{
    v.major > min.major || (v.major == min.major && (v.minor > min.minor || (v.minor == min.minor
        && v.patch >= min.patch)))
}

/// Why an extension could not be loaded.
#[derive(Debug, Clone)]
pub enum ExtensionLoadError {
    /// The loading task could not run.
    JoinError(String),
    /// The binary, the engine or the guest failed.
    InternalError { details: String },
    /// The component needs an older API than any this host supports.
    UnsupportedVersion { version: Version },
}

/// The guest ABI that a component is bound through.
#[derive(Debug, Clone, Copy, PartialEq, Eq, Structural)]
pub enum Extension {
    V1_3_6,
}

/// The oldest API version of the `V1_3_6` binding.
pub open spec fn min_version_v1_3_6() -> Version {
    Version { major: 1, minor: 3, patch: 6 }
}

impl Extension {
    /// The oldest API version this binding accepts.
    pub fn min_version(&self) -> (r: Version)
        ensures
            *self == Extension::V1_3_6 ==> r == min_version_v1_3_6(),
    {
        match self {
            Extension::V1_3_6 => Version { major: 1, minor: 3, patch: 6 },
        }
    }

    /// The latest binding whose oldest version is at most `version`.
    pub fn select(version: Version) -> (r: Result<Extension, ExtensionLoadError>)
        ensures
            version_at_least(version, min_version_v1_3_6()) ==> r == Ok::<
                Extension,
                ExtensionLoadError,
            >(Extension::V1_3_6),
            !version_at_least(version, min_version_v1_3_6()) ==> (r matches Err(
                ExtensionLoadError::UnsupportedVersion { version: v },
            ) && v == version),
    {
        let latest = Extension::V1_3_6;
        if is_version_at_least(version, latest.min_version()) {
            Ok(latest)
        } else {
            Err(ExtensionLoadError::UnsupportedVersion { version })
        }
    }
}

/// The text a guest receives for a collaborator's error `message`: it
/// names the extension and its version first.
pub open spec fn extension_error_text(name: Seq<char>, version: Seq<char>, message: Seq<char>) -> Seq<
    char,
> {
    "from extension \""@ + name + "\" version "@ + version + ": "@ + message
}

/// The error a guest receives for a collaborator's error `message`.
pub fn extension_error(manifest: &Manifest, message: &str) -> (r: String)
    ensures
        r@ == extension_error_text(manifest.name@, manifest.version@, message@),
{
    let a = concat("from extension \"", manifest.name.as_str());
    let b = concat(a.as_str(), "\" version ");
    let c = concat(b.as_str(), manifest.version.as_str());
    let d = concat(c.as_str(), ": ");
    concat(d.as_str(), message)
}

/// A collaborator's result as the guest receives it: errors named after
/// the extension.
pub fn lift_result<T>(manifest: &Manifest, result: Result<T, String>) -> (r: Result<T, String>)
    ensures
        match result {
            Ok(v) => r == Ok::<T, String>(v),
            Err(e) => r matches Err(m) && m@ == extension_error_text(
                manifest.name@,
                manifest.version@,
                e@,
            ),
        },
{
    match result {
        Ok(v) => Ok(v),
        Err(e) => Err(extension_error(manifest, e.as_str())),
    }
}

/// The path a worktree is asked to read: the guest's path in normal form.
pub fn worktree_text_file_path(path: &str) -> (r: Result<String, RelPathError>)
    ensures
        match r {
            Ok(p) => parse_rel_path(path@, PathStyle::Posix) == Ok::<Seq<char>, RelPathError>(p@),
            Err(e) => parse_rel_path(path@, PathStyle::Posix) == Err::<Seq<char>, RelPathError>(e),
        },
{
    match RelPath::new(path, PathStyle::Posix) {
        Ok(p) => Ok(p.to_proto()),
        Err(e) => Err(e),
    }
}

/// An operation that the policy governs.
#[derive(Debug, Clone)]
pub enum GovernedOperation {
    RunCommand { command: String, args: Vec<String> },
    DownloadFile { url: String },
    NpmInstallPackage { package_name: String },
}

/// Where a governed operation stands.
#[derive(Debug, Clone, Copy, PartialEq, Eq, Structural)]
pub enum GovernedPhase {
    /// The policy has not been asked yet.
    Ready,
    /// The policy has been asked and has not answered.
    AwaitingGrant,
    /// The policy allowed it; the collaborator is at work.
    AwaitingCollaborator,
    /// The guest has its answer.
    Finished,
}

/// What the host does after the policy answered.
#[derive(Debug, Clone)]
pub enum GrantOutcome {
    /// Hand the operation to the collaborator.
    Proceed,
    /// Answer the guest with this error; the collaborator is not asked.
    Deny(String),
}

/// One governed operation on its way through the policy gate.
pub struct GovernedCall {
    operation: GovernedOperation,
    phase: GovernedPhase,
    consultations: Ghost<nat>,
    granted: Ghost<bool>,
    contacted: Ghost<bool>,
}

impl GovernedCall {
    pub closed spec fn phase_spec(&self) -> GovernedPhase {
        self.phase
    }

    pub closed spec fn operation_spec(&self) -> GovernedOperation {
        self.operation
    }

    /// How many times the host has taken the step of asking the policy
    /// about this operation (`ask_policy`): the model's count of
    /// consultations, one per answer that `on_grant` takes.
    pub closed spec fn consultations(&self) -> nat {
        self.consultations@
    }

    /// Whether the policy allowed this operation.
    pub closed spec fn granted(&self) -> bool {
        self.granted@
    }

    /// Whether the collaborator has been handed this operation.
    pub closed spec fn contacted(&self) -> bool {
        self.contacted@
    }

    pub closed spec fn wf(&self) -> bool {
        &&& (self.phase == GovernedPhase::Ready <==> self.consultations@ == 0)
        &&& self.consultations@ <= 1
        &&& (self.contacted@ ==> self.granted@)
        &&& (self.granted@ ==> self.consultations@ == 1)
        &&& (self.phase == GovernedPhase::Ready ==> !self.granted@ && !self.contacted@)
        &&& (self.phase == GovernedPhase::AwaitingGrant ==> !self.granted@ && !self.contacted@)
        &&& (self.phase == GovernedPhase::AwaitingCollaborator ==> self.granted@ && self.contacted@)
    }

    /// Starts an operation, with the arguments exactly as the guest gave
    /// them. Nothing has been asked yet.
    pub fn start(operation: GovernedOperation) -> (r: GovernedCall)
        ensures
            r.wf(),
            r.phase_spec() == GovernedPhase::Ready,
            r.operation_spec() == operation,
            r.consultations() == 0,
            !r.contacted(),
    {
        GovernedCall {
            operation,
            phase: GovernedPhase::Ready,
            consultations: Ghost(0),
            granted: Ghost(false),
            contacted: Ghost(false),
        }
    }

    /// The step of asking the policy, about `operation()` unchanged. It is
    /// taken once: only a call that has not asked yet can take it, and only
    /// a call that has asked can take an answer.
    pub fn ask_policy(&mut self)
        requires
            old(self).wf(),
            old(self).phase_spec() == GovernedPhase::Ready,
        ensures
            final(self).wf(),
            final(self).phase_spec() == GovernedPhase::AwaitingGrant,
            final(self).operation_spec() == old(self).operation_spec(),
            final(self).consultations() == old(self).consultations() + 1,
            !final(self).contacted(),
    {
        self.phase = GovernedPhase::AwaitingGrant;
        self.consultations = Ghost(self.consultations@ + 1);
    }

    /// The operation, to hand to the policy and then to the collaborator.
    pub fn operation(&self) -> (r: &GovernedOperation)
        ensures
            *r == self.operation_spec(),
    {
        &self.operation
    }

    /// Takes the policy's answer. A refusal becomes the guest's error,
    /// named after the extension; the collaborator is then never asked.
    pub fn on_grant(&mut self, grant: Result<(), CapabilityGrantError>, manifest: &Manifest) -> (r:
        GrantOutcome)
        requires
            old(self).wf(),
            old(self).phase_spec() == GovernedPhase::AwaitingGrant,
        ensures
            final(self).wf(),
            final(self).operation_spec() == old(self).operation_spec(),
            final(self).consultations() == old(self).consultations(),
            match grant {
                Ok(_) => r is Proceed && final(self).phase_spec()
                    == GovernedPhase::AwaitingCollaborator && final(self).contacted(),
                Err(CapabilityGrantError::Inner(e)) => (r matches GrantOutcome::Deny(m) && m@
                    == extension_error_text(manifest.name@, manifest.version@, e@))
                    && final(self).phase_spec() == GovernedPhase::Finished && !final(self).contacted(),
            },
    {
        match grant {
            Ok(()) => {
                self.phase = GovernedPhase::AwaitingCollaborator;
                self.granted = Ghost(true);
                self.contacted = Ghost(true);
                GrantOutcome::Proceed
            },
            Err(e) => {
                self.phase = GovernedPhase::Finished;
                let m = e.message();
                GrantOutcome::Deny(extension_error(manifest, m.as_str()))
            },
        }
    }

    /// Takes the collaborator's result for the guest.
    pub fn on_collaborator_result<T>(&mut self, result: Result<T, String>, manifest: &Manifest) -> (r:
        Result<T, String>)
        requires
            old(self).wf(),
            old(self).phase_spec() == GovernedPhase::AwaitingCollaborator,
        ensures
            final(self).wf(),
            final(self).phase_spec() == GovernedPhase::Finished,
            final(self).consultations() == old(self).consultations(),
            final(self).contacted() == old(self).contacted(),
            match result {
                Ok(v) => r == Ok::<T, String>(v),
                Err(e) => r matches Err(m) && m@ == extension_error_text(
                    manifest.name@,
                    manifest.version@,
                    e@,
                ),
            },
    {
        self.phase = GovernedPhase::Finished;
        lift_result(manifest, result)
    }
}

/// In every state a governed call can reach, the policy has been asked at
/// most once, and the collaborator has been handed the operation only
/// after the policy was asked exactly once and allowed it.
pub proof fn lemma_granter_consulted_once_before_collaborator(call: GovernedCall)
    requires
        call.wf(),
    ensures
        call.consultations() <= 1,
        call.contacted() ==> call.granted() && call.consultations() == 1,
        call.phase_spec() != GovernedPhase::Ready ==> call.consultations() == 1,
{
}

/// Operating systems a guest can be told it runs on.
#[derive(Debug, Clone, Copy, PartialEq, Eq, Structural)]
pub enum Os {
    Mac,
    Linux,
    Windows,
    Android,
    Ios,
}

/// Processor architectures a guest can be told it runs on.
#[derive(Debug, Clone, Copy, PartialEq, Eq, Structural)]
pub enum Architecture {
    Aarch64,
    X86,
    X8664,
}

/// A host that the runtime does not describe to guests.
#[derive(Debug, Clone, Copy, PartialEq, Eq, Structural)]
pub enum PlatformError {
    UnsupportedOs,
    UnsupportedArchitecture,
}

pub open spec fn os_named(name: Seq<char>) -> Option<Os> {
    if name == "macos"@ {
        Some(Os::Mac)
    } else if name == "linux"@ {
        Some(Os::Linux)
    } else if name == "windows"@ {
        Some(Os::Windows)
    } else if name == "android"@ {
        Some(Os::Android)
    } else if name == "ios"@ {
        Some(Os::Ios)
    } else {
        None
    }
}

pub open spec fn architecture_named(name: Seq<char>) -> Option<Architecture> {
    if name == "aarch64"@ {
        Some(Architecture::Aarch64)
    } else if name == "x86"@ {
        Some(Architecture::X86)
    } else if name == "x86_64"@ {
        Some(Architecture::X8664)
    } else {
        None
    }
}

/// The platform a guest is told it runs on, from the host's canonical
/// names (`std::env::consts::OS` and `ARCH`); any other name is refused.
pub fn current_platform(os: &str, arch: &str) -> (r: Result<(Os, Architecture), PlatformError>)
    ensures
        match (os_named(os@), architecture_named(arch@)) {
            (Some(o), Some(a)) => r == Ok::<(Os, Architecture), PlatformError>((o, a)),
            (None, _) => r == Err::<(Os, Architecture), PlatformError>(PlatformError::UnsupportedOs),
            (Some(_), None) => r == Err::<(Os, Architecture), PlatformError>(
                PlatformError::UnsupportedArchitecture,
            ),
        },
{
    let o = if str_eq(os, "macos") {
        Os::Mac
    } else if str_eq(os, "linux") {
        Os::Linux
    } else if str_eq(os, "windows") {
        Os::Windows
    } else if str_eq(os, "android") {
        Os::Android
    } else if str_eq(os, "ios") {
        Os::Ios
    } else {
        return Err(PlatformError::UnsupportedOs);
    };
    let a = if str_eq(arch, "aarch64") {
        Architecture::Aarch64
    } else if str_eq(arch, "x86") {
        Architecture::X86
    } else if str_eq(arch, "x86_64") {
        Architecture::X8664
    } else {
        return Err(PlatformError::UnsupportedArchitecture);
    };
    Ok((o, a))
}

/// The text of `PWD` for a work directory: under Windows its separators
/// are written as `/`.
pub open spec fn pwd_text(work_dir: Seq<char>, style: PathStyle) -> Seq<char> {
    if style == PathStyle::Windows {
        replace_char(work_dir, '\\', '/')
    } else {
        work_dir
    }
}

/// The path under which the work directory is opened to the guest.
pub fn sandbox_path(work_dir: &str, style: PathStyle) -> (r: String)
    ensures
        r@ == pwd_text(work_dir@, style),
{
    let cs = chars_of(work_dir);
    let mut out: Vec<char> = Vec::new();
    let mut i: usize = 0;
    while i < cs.len()
        invariant
            i <= cs.len(),
            cs@ == work_dir@,
            out@ == pwd_text(cs@, style).take(i as int),
        decreases cs.len() - i,
    {
        if style == PathStyle::Windows && cs[i] == '\\' {
            out.push('/');
        } else {
            out.push(cs[i]);
        }
        i += 1;
        assert(out@ =~= pwd_text(cs@, style).take(i as int));
    }
    assert(pwd_text(cs@, style).take(cs.len() as int) =~= pwd_text(cs@, style));
    string_from_chars(out.as_slice())
}

/// The environment a guest starts with: `PWD` and `RUST_BACKTRACE=full`.
pub fn sandbox_env(work_dir: &str, style: PathStyle) -> (r: Vec<(String, String)>)
    ensures
        r@.len() == 2,
        r@[0].0@ == "PWD"@ && r@[0].1@ == pwd_text(work_dir@, style),
        r@[1].0@ == "RUST_BACKTRACE"@ && r@[1].1@ == "full"@,
{
    let pwd = sandbox_path(work_dir, style);
    let mut env: Vec<(String, String)> = Vec::new();
    env.push((String::from_str("PWD"), pwd));
    env.push((String::from_str("RUST_BACKTRACE"), String::from_str("full")));
    env
}

/// The names under which the work directory is opened: `.` and its path.
pub fn preopened_aliases(work_dir: &str, style: PathStyle) -> (r: Vec<String>)
    ensures
        r@.len() == 2,
        r@[0]@ == "."@,
        r@[1]@ == pwd_text(work_dir@, style),
{
    let mut v: Vec<String> = Vec::new();
    v.push(String::from_str("."));
    v.push(sandbox_path(work_dir, style));
    v
}

/// The packages of an install request: the one package at its version.
pub fn npm_install_request(package_name: &String, version: &String) -> (r: Vec<(String, String)>)
    ensures
        r@.len() == 1,
        r@[0].0@ == package_name@,
        r@[0].1@ == version@,
{
    let mut v: Vec<(String, String)> = Vec::new();
    v.push((package_name.clone(), version.clone()));
    v
}

/// How often the epoch advances, in milliseconds.
pub const EPOCH_INTERVAL_MS: u64 = 100;

/// The epoch deadline of a store, in ticks, and the one it is given after
/// each yield.
pub const EPOCH_DEADLINE_TICKS: u64 = 1;

/// What the ticker does at a tick.
#[derive(Debug, Clone, Copy, PartialEq, Eq, Structural)]
pub enum TickerAction {
    IncrementEpoch,
    Stop,
}

/// The ticker advances the epoch while the engine lives, and stops after.
pub fn ticker_action(engine_alive: bool) -> (r: TickerAction)
    ensures
        engine_alive ==> r == TickerAction::IncrementEpoch,
        !engine_alive ==> r == TickerAction::Stop,
{
    if engine_alive {
        TickerAction::IncrementEpoch
    } else {
        TickerAction::Stop
    }
}


/// The lifecycle of an extension's actor.
#[derive(Debug, Clone, Copy, PartialEq, Eq, Structural)]
pub enum ActorState {
    /// The component is being loaded.
    Loading,
    /// Calls are taken and run one at a time.
    Running,
    /// The handle was dropped; the call in progress finishes.
    Terminating,
    /// Nothing is left to run.
    Terminated,
}

/// The state that loading leads to: running once `init-extension`
/// succeeded, terminated on any failure.
pub fn after_load(loaded: bool) -> (r: ActorState)
    ensures
        loaded ==> r == ActorState::Running,
        !loaded ==> r == ActorState::Terminated,
{
    if loaded {
        ActorState::Running
    } else {
        ActorState::Terminated
    }
}

/// A call made after the actor stopped taking calls.
#[derive(Debug, Clone, Copy, PartialEq, Eq, Structural)]
pub enum ActorError {
    ChannelClosed,
}

/// Whether `a` is a leading part of `b`.
pub open spec fn is_prefix_of(a: Seq<u64>, b: Seq<u64>) -> bool {
    a.len() <= b.len() && b.take(a.len() as int) == a
}

/// The calls of one extension, in the order they are taken: queued calls,
/// the one in progress, and whether the handle was dropped.
pub struct ActorQueue {
    pending: Vec<u64>,
    in_flight: Option<u64>,
    closed: bool,
    submitted: Ghost<Seq<u64>>,
    started: Ghost<Seq<u64>>,
}

impl ActorQueue {
    /// Every call accepted so far, in the order it was sent.
    pub closed spec fn submitted_log(&self) -> Seq<u64> {
        self.submitted@
    }

    /// Every call begun so far, in the order it began.
    pub closed spec fn started_log(&self) -> Seq<u64> {
        self.started@
    }

    pub closed spec fn pending_spec(&self) -> Seq<u64> {
        self.pending@
    }

    pub closed spec fn in_flight_spec(&self) -> Option<u64> {
        self.in_flight
    }

    pub closed spec fn is_closed(&self) -> bool {
        self.closed
    }

    pub closed spec fn wf(&self) -> bool {
        &&& is_prefix_of(self.started@ + self.pending@, self.submitted@)
        &&& (!self.closed ==> self.started@ + self.pending@ == self.submitted@)
        &&& (self.closed ==> self.pending@.len() == 0)
        &&& (self.in_flight matches Some(c) ==> self.started@.len() > 0 && self.started@.last() == c)
    }

    /// A running actor with nothing queued.
    pub fn new() -> (r: ActorQueue)
        ensures
            r.wf(),
            !r.is_closed(),
            r.submitted_log().len() == 0,
            r.started_log().len() == 0,
            r.in_flight_spec() is None,
    {
        let r = ActorQueue {
            pending: Vec::new(),
            in_flight: None,
            closed: false,
            submitted: Ghost(Seq::empty()),
            started: Ghost(Seq::empty()),
        };
        assert(r.started@ + r.pending@ =~= Seq::<u64>::empty());
        assert(r.submitted@.take(0) =~= Seq::<u64>::empty());
        r
    }

    /// Queues a call; refused once the handle was dropped.
    pub fn submit(&mut self, call: u64) -> (r: Result<(), ActorError>)
        requires
            old(self).wf(),
        ensures
            final(self).wf(),
            final(self).is_closed() == old(self).is_closed(),
            final(self).started_log() == old(self).started_log(),
            final(self).in_flight_spec() == old(self).in_flight_spec(),
            old(self).is_closed() ==> r == Err::<(), ActorError>(ActorError::ChannelClosed)
                && final(self).submitted_log() == old(self).submitted_log()
                && final(self).pending_spec() == old(self).pending_spec(),
            !old(self).is_closed() ==> r is Ok && final(self).submitted_log() == old(
                self,
            ).submitted_log().push(call) && final(self).pending_spec() == old(
                self,
            ).pending_spec().push(call),
    {
        if self.closed {
            return Err(ActorError::ChannelClosed);
        }
        self.pending.push(call);
        self.submitted = Ghost(self.submitted@.push(call));
        assert(self.started@ + self.pending@ =~= (old(self).started@ + old(self).pending@).push(call));
        assert(self.submitted@.take(self.submitted@.len() as int) =~= self.submitted@);
        Ok(())
    }

    /// Takes the oldest queued call to run, where none is running and the
    /// handle was not dropped.
    pub fn begin_next(&mut self) -> (r: Option<u64>)
        requires
            old(self).wf(),
            old(self).in_flight_spec() is None,
        ensures
            final(self).wf(),
            final(self).is_closed() == old(self).is_closed(),
            final(self).submitted_log() == old(self).submitted_log(),
            old(self).is_closed() || old(self).pending_spec().len() == 0 ==> r is None
                && final(self).started_log() == old(self).started_log()
                && final(self).in_flight_spec() is None,
            !old(self).is_closed() && old(self).pending_spec().len() > 0 ==> r == Some(
                old(self).pending_spec()[0],
            ) && final(self).in_flight_spec() == r && final(self).started_log() == old(
                self,
            ).started_log().push(old(self).pending_spec()[0]) && final(self).pending_spec() == old(
                self,
            ).pending_spec().drop_first(),
    {
        if self.closed || self.pending.len() == 0 {
            return None;
        }
        let c = self.pending.remove(0);
        self.in_flight = Some(c);
        self.started = Ghost(self.started@.push(c));
        assert(self.started@ + self.pending@ =~= old(self).started@ + old(self).pending@);
        Some(c)
    }

    /// The call in progress has finished.
    pub fn finish_current(&mut self)
        requires
            old(self).wf(),
        ensures
            final(self).wf(),
            final(self).in_flight_spec() is None,
            final(self).is_closed() == old(self).is_closed(),
            final(self).submitted_log() == old(self).submitted_log(),
            final(self).started_log() == old(self).started_log(),
            final(self).pending_spec() == old(self).pending_spec(),
    {
        self.in_flight = None;
    }

    /// The handle was dropped: queued calls are dropped unrun.
    pub fn close(&mut self)
        requires
            old(self).wf(),
        ensures
            final(self).wf(),
            final(self).is_closed(),
            final(self).pending_spec().len() == 0,
            final(self).in_flight_spec() == old(self).in_flight_spec(),
            final(self).submitted_log() == old(self).submitted_log(),
            final(self).started_log() == old(self).started_log(),
    {
        proof {
            let s = self.started@;
            let p = self.pending@;
            let t = self.submitted@;
            assert((s + p).take(s.len() as int) =~= s);
            assert(t.take(s.len() as int) =~= t.take((s + p).len() as int).take(s.len() as int));
        }
        self.closed = true;
        self.pending = Vec::new();
        assert(self.started@ + self.pending@ =~= self.started@);
    }

    /// Where the actor stands.
    pub fn state(&self) -> (r: ActorState)
        ensures
            !self.is_closed() ==> r == ActorState::Running,
            self.is_closed() && self.in_flight_spec() is Some ==> r == ActorState::Terminating,
            self.is_closed() && self.in_flight_spec() is None ==> r == ActorState::Terminated,
    {
        if !self.closed {
            ActorState::Running
        } else if self.in_flight.is_some() {
            ActorState::Terminating
        } else {
            ActorState::Terminated
        }
    }
}

/// Calls begin in the order in which they were sent.
pub proof fn lemma_calls_begin_in_send_order(q: ActorQueue)
    requires
        q.wf(),
    ensures
        is_prefix_of(q.started_log(), q.submitted_log()),
{
    let s = q.started_log();
    let p = q.pending_spec();
    let t = q.submitted_log();
    assert((s + p).take(s.len() as int) =~= s);
    assert(t.take(s.len() as int) =~= t.take((s + p).len() as int).take(s.len() as int));
}

/// For any queue the operations above can produce: the `k`-th call to
/// begin is the `k`-th call sent, so of two calls sent one after the other
/// the later begins only after the earlier; and a call begins only when
/// none is in progress (`begin_next` requires it), so calls never overlap.
pub proof fn lemma_send_order(q: ActorQueue, i: int, j: int)
    requires
        q.wf(),
        0 <= i < j < q.started_log().len(),
    ensures
        q.started_log()[i] == q.submitted_log()[i],
        q.started_log()[j] == q.submitted_log()[j],
        j < q.submitted_log().len(),
{
    lemma_calls_begin_in_send_order(q);
    assert(q.submitted_log().take(q.started_log().len() as int)[i] == q.submitted_log()[i]);
    assert(q.submitted_log().take(q.started_log().len() as int)[j] == q.submitted_log()[j]);
}

/// After the handle is dropped no call begins: the queue is empty and
/// stays empty.
pub proof fn lemma_no_call_begins_after_close(q: ActorQueue)
    requires
        q.wf(),
        q.is_closed(),
    ensures
        q.pending_spec().len() == 0,
{
}

/// The largest total weight of the compilation cache: 32 MiB.
pub const CACHE_MAX_WEIGHT: u64 = 33554432;

/// The weight of a cache entry: its key and value lengths, saturating at
/// `u32::MAX`.
pub fn entry_weight(key_len: usize, value_len: usize) -> (r: u32)
    ensures
        key_len + value_len <= u32::MAX ==> r == key_len + value_len,
        key_len + value_len > u32::MAX ==> r == u32::MAX,
{
    if key_len > 4294967295 || value_len > 4294967295 - key_len {
        4294967295
    } else {
        (key_len + value_len) as u32
    }
}

#[verifier::external_type_specification]
#[verifier::external_body]
#[verifier::reject_recursive_types(K)]
#[verifier::reject_recursive_types(V)]
#[verifier::reject_recursive_types(S)]
pub struct ExCache<K, V, S>(moka::sync::Cache<K, V, S>);

/// Relies on moka's `CacheBuilder` (`max_capacity`, `weigher`, `build`): a
/// cache whose entries weigh as `entry_weight` says, bounded in total.
#[verifier::external_body]
fn weighted_cache(max_weight: u64) -> moka::sync::Cache<Vec<u8>, Vec<u8>> {
    moka::sync::Cache::builder()
        .max_capacity(max_weight)
        .weigher(|k: &Vec<u8>, v: &Vec<u8>| entry_weight(k.len(), v.len()))
        .build()
}

/// Relies on moka's `Cache::get`: the value cached for the key, if it was
/// inserted and not evicted since.
#[verifier::external_body]
fn cache_get(cache: &moka::sync::Cache<Vec<u8>, Vec<u8>>, key: &[u8]) -> Option<Vec<u8>> {
    cache.get(key)
}

/// Relies on moka's `Cache::insert`.
#[verifier::external_body]
fn cache_insert(cache: &moka::sync::Cache<Vec<u8>, Vec<u8>>, key: Vec<u8>, value: Vec<u8>) {
    cache.insert(key, value)
}

/// Artifacts of incremental compilation, kept in memory up to a total
/// weight, with the least used evicted first.
pub struct IncrementalCompilationCache {
    cache: moka::sync::Cache<Vec<u8>, Vec<u8>>,
}

impl IncrementalCompilationCache {
    pub fn new() -> (r: IncrementalCompilationCache) {
        IncrementalCompilationCache { cache: weighted_cache(CACHE_MAX_WEIGHT) }
    }

    /// The artifact cached for `key`, unless it was evicted.
    pub fn get(&self, key: &[u8]) -> (r: Option<Vec<u8>>) {
        cache_get(&self.cache, key)
    }

    /// Caches an artifact. Always accepted: the answer is no promise that
    /// it stays.
    pub fn insert(&self, key: &[u8], value: Vec<u8>) -> (r: bool)
        ensures
            r,
    {
        let k = slice_to_vec(key);
        cache_insert(&self.cache, k, value);
        true
    }
}

fn slice_to_vec(s: &[u8]) -> (r: Vec<u8>)
    ensures
        r@ == s@,
{
    let mut v: Vec<u8> = Vec::new();
    let mut i: usize = 0;
    while i < s.len()
        invariant
            i <= s.len(),
            v@ == s@.take(i as int),
        decreases s.len() - i,
    {
        v.push(s[i]);
        i += 1;
        assert(v@ =~= s@.take(i as int));
    }
    assert(s@.take(s.len() as int) =~= s@);
    v
}

} // verus!
