//! The build driver's decisions: classifying the toolchain's streamed
//! records, accumulating artifacts and per-crate timings, recording the
//! first reported compile error, and selecting the binary artifact.
//!
//! Running the subprocess and decoding its JSON stream happen outside the
//! library; the decisions on the decoded records are made here.

use vstd::prelude::*;
use crate::assemble::AnalysisError;

verus! {

/// What kind of file an artifact is.
pub enum ArtifactKind {
    /// An executable.
    Binary,
    /// A static library.
    Library,
    /// A shared library.
    DynLib,
}

/// One artifact the toolchain reported.
pub struct Artifact {
    /// The artifact's kind.
    pub kind: ArtifactKind,
    /// The crate that produced it.
    pub name: String,
    /// Where it was written.
    pub path: String,
}

/// One per-crate build timing the toolchain reported.
pub struct TimingRecord {
    /// The crate built.
    pub crate_name: String,
    /// How long it took, in milliseconds.
    pub duration_ms: u64,
}

/// One decoded record of the toolchain's stream.
pub enum BuildEvent {
    /// A produced artifact.
    CompilerArtifact { kind: ArtifactKind, name: String, path: String },
    /// A build script ran; of no consequence here.
    BuildScriptExecuted,
    /// A per-crate timing.
    TimingInfo { crate_name: String, duration_ms: u64 },
    /// A diagnostic; `error` marks the fatal severity.
    CompilerMessage { error: bool, text: String },
    /// Anything else in the stream.
    Other,
}

/// What the driver has accumulated from the stream.
pub struct DriverState {
    /// The artifacts reported so far, in order.
    pub artifacts: Vec<Artifact>,
    /// The timings reported so far, in order.
    pub timings: Vec<TimingRecord>,
    /// The first fatal diagnostic, if one came.
    pub failure: Option<String>,
}

impl DriverState {
    /// The state before any record arrived.
    pub fn new() -> (s: DriverState)
        ensures
            s.artifacts@.len() == 0,
            s.timings@.len() == 0,
            s.failure is None,
    {
        DriverState { artifacts: Vec::new(), timings: Vec::new(), failure: None }
    }
}

/// Fold one decoded record into the driver's state: artifacts and timings
/// accumulate, a fatal diagnostic is kept if it is the first, and anything
/// else changes nothing.
pub fn driver_step(state: DriverState, event: BuildEvent) -> (s2: DriverState)
    ensures
        (event matches BuildEvent::CompilerArtifact { kind, name, path } ==> s2.artifacts@
            == state.artifacts@.push((Artifact { kind, name, path })) && s2.timings@
            == state.timings@ && s2.failure == state.failure),
        (event matches BuildEvent::TimingInfo { crate_name, duration_ms } ==> s2.timings@
            == state.timings@.push((TimingRecord { crate_name, duration_ms })) && s2.artifacts@
            == state.artifacts@ && s2.failure == state.failure),
        (event matches BuildEvent::CompilerMessage { error, text } ==> s2.artifacts@
            == state.artifacts@ && s2.timings@ == state.timings@ && s2.failure == (
        if error && state.failure is None {
            Some(text)
        } else {
            state.failure
        })),
        (event is BuildScriptExecuted || event is Other) ==> s2.artifacts@ == state.artifacts@
            && s2.timings@ == state.timings@ && s2.failure == state.failure,
{
    let mut s2 = state;
    match event {
        BuildEvent::CompilerArtifact { kind, name, path } => {
            s2.artifacts.push(Artifact { kind, name, path });
        },
        BuildEvent::TimingInfo { crate_name, duration_ms } => {
            s2.timings.push(TimingRecord { crate_name, duration_ms });
        },
        BuildEvent::CompilerMessage { error, text } => {
            if error && s2.failure.is_none() {
                s2.failure = Some(text);
            }
        },
        BuildEvent::BuildScriptExecuted => {},
        BuildEvent::Other => {},
    }
    s2
}

/// An artifact is the binary of the given target.
pub open spec fn is_target_binary(a: Artifact, target: Seq<char>) -> bool {
    a.kind is Binary && a.name@ == target
}

/// The first artifact that is the binary of the declared target, if any.
#[verifier::loop_isolation(false)]
pub fn select_binary(artifacts: &Vec<Artifact>, target: &str) -> (r: Option<usize>)
    ensures
        match r {
            Some(ix) => ix < artifacts@.len() && is_target_binary(artifacts@[ix as int], target@)
                && (forall|j: int| 0 <= j < ix ==> !is_target_binary(
                #[trigger] artifacts@[j],
                target@,
            )),
            None => forall|j: int|
                0 <= j < artifacts@.len() ==> !is_target_binary(#[trigger] artifacts@[j], target@),
        },
{
    let mut i: usize = 0;
    while i < artifacts.len()
        invariant
            0 <= i <= artifacts@.len(),
            forall|j: int| 0 <= j < i ==> !is_target_binary(#[trigger] artifacts@[j], target@),
        decreases artifacts@.len() - i,
    {
        let is_binary = match artifacts[i].kind {
            ArtifactKind::Binary => true,
            ArtifactKind::Library => false,
            ArtifactKind::DynLib => false,
        };
        if is_binary && crate::strutil::str_eq(artifacts[i].name.as_str(), target) {
            return Some(i);
        }
        i += 1;
    }
    None
}

/// Close the stream: a recorded fatal diagnostic or a failing exit aborts
/// the build with the accumulated error text, and a clean run hands the
/// artifacts and timings on.
pub fn driver_finish(state: DriverState, exit_ok: bool, stderr: String) -> (r: Result<
    (Vec<Artifact>, Vec<TimingRecord>),
    AnalysisError,
>)
    ensures
        match r {
            Ok(out) => exit_ok && state.failure is None && out.0@ == state.artifacts@ && out.1@
                == state.timings@,
            Err(e) => (e is BuildFailed) && (!exit_ok || state.failure is Some),
        },
{
    if !exit_ok {
        return Result::Err(AnalysisError::BuildFailed { stderr });
    }
    match state.failure {
        Some(text) => Result::Err(AnalysisError::BuildFailed { stderr: text }),
        None => Result::Ok((state.artifacts, state.timings)),
    }
}

} // verus!
