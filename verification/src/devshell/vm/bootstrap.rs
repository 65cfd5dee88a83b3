//! Decisions of the guest and sidecar bootstrap sequences, as state machines: the caller runs
//! each action (a guest probe, a `podman` command, a message) and hands back what came of it.

use vstd::prelude::*;

verus! {

// --- guest build-essential ------------------------------------------------------------------

/// Where the guest `build-essential` setup stands.
#[derive(Debug, Clone, Copy, PartialEq, Eq)]
pub enum BuildEssentialState {
    /// Nothing done yet.
    Idle,
    /// Waiting for the `command -v gcc` probe.
    ProbingGcc,
    /// Waiting for the `apt-get`/`dpkg` probe.
    ProbingApt,
    /// Waiting for the `apt-get install build-essential` script.
    Installing,
    /// Settled for this session (whatever the outcome).
    Done,
}

/// What came back to the build-essential sequence.
#[derive(Debug, Clone, Copy, PartialEq, Eq)]
pub enum BuildEssentialEvent {
    /// The sequence starts; `enabled` is the automatic-install setting.
    Begin { enabled: bool },
    /// Whether the guest has `gcc`.
    GccProbe(bool),
    /// Whether the guest has `apt-get` and `dpkg`.
    AptProbe(bool),
    /// Whether the install script succeeded.
    InstallFinished(bool),
}

/// What the caller does next in the build-essential sequence.
#[derive(Debug, Clone, Copy, PartialEq, Eq)]
pub enum BuildEssentialAction {
    Nothing,
    /// Probe for `gcc` in the guest.
    ProbeGcc,
    /// Say that no C compiler was found, then probe for `apt-get`/`dpkg`.
    AnnounceAndProbeApt,
    /// Say that gcc and binutils must be installed by hand.
    ReportNoApt,
    /// Run the non-interactive `apt-get install -y build-essential` script.
    RunInstall,
    /// Say that build-essential was installed.
    ReportInstalled,
    /// Say that the install failed, with its output and the manual hint.
    ReportInstallFailed,
}

/// The build-essential transition: the next state and action for `e` in `s`. An event that does
/// not belong to the state changes nothing.
pub open spec fn build_essential_next(s: BuildEssentialState, e: BuildEssentialEvent) -> (BuildEssentialState, BuildEssentialAction) {
    match (s, e) {
        (BuildEssentialState::Idle, BuildEssentialEvent::Begin { enabled }) => if enabled {
            (BuildEssentialState::ProbingGcc, BuildEssentialAction::ProbeGcc)
        } else {
            (BuildEssentialState::Done, BuildEssentialAction::Nothing)
        },
        (BuildEssentialState::ProbingGcc, BuildEssentialEvent::GccProbe(found)) => if found {
            (BuildEssentialState::Done, BuildEssentialAction::Nothing)
        } else {
            (BuildEssentialState::ProbingApt, BuildEssentialAction::AnnounceAndProbeApt)
        },
        (BuildEssentialState::ProbingApt, BuildEssentialEvent::AptProbe(found)) => if found {
            (BuildEssentialState::Installing, BuildEssentialAction::RunInstall)
        } else {
            (BuildEssentialState::Done, BuildEssentialAction::ReportNoApt)
        },
        (BuildEssentialState::Installing, BuildEssentialEvent::InstallFinished(ok)) => if ok {
            (BuildEssentialState::Done, BuildEssentialAction::ReportInstalled)
        } else {
            (BuildEssentialState::Done, BuildEssentialAction::ReportInstallFailed)
        },
        _ => (s, BuildEssentialAction::Nothing),
    }
}

/// One step of the guest build-essential setup.
pub fn build_essential_step(s: BuildEssentialState, e: BuildEssentialEvent) -> (r: (BuildEssentialState, BuildEssentialAction))
    ensures
        r == build_essential_next(s, e),
{
    match (s, e) {
        (BuildEssentialState::Idle, BuildEssentialEvent::Begin { enabled }) => if enabled {
            (BuildEssentialState::ProbingGcc, BuildEssentialAction::ProbeGcc)
        } else {
            (BuildEssentialState::Done, BuildEssentialAction::Nothing)
        },
        (BuildEssentialState::ProbingGcc, BuildEssentialEvent::GccProbe(found)) => if found {
            (BuildEssentialState::Done, BuildEssentialAction::Nothing)
        } else {
            (BuildEssentialState::ProbingApt, BuildEssentialAction::AnnounceAndProbeApt)
        },
        (BuildEssentialState::ProbingApt, BuildEssentialEvent::AptProbe(found)) => if found {
            (BuildEssentialState::Installing, BuildEssentialAction::RunInstall)
        } else {
            (BuildEssentialState::Done, BuildEssentialAction::ReportNoApt)
        },
        (BuildEssentialState::Installing, BuildEssentialEvent::InstallFinished(ok)) => if ok {
            (BuildEssentialState::Done, BuildEssentialAction::ReportInstalled)
        } else {
            (BuildEssentialState::Done, BuildEssentialAction::ReportInstallFailed)
        },
        _ => (s, BuildEssentialAction::Nothing),
    }
}

// --- guest `todo` probe and hints -----------------------------------------------------------

/// Where the guest `todo` probe stands.
#[derive(Debug, Clone, Copy, PartialEq, Eq)]
pub enum HintState {
    Idle,
    /// Waiting for the probe for `todo` in the guest.
    ProbingTodo,
    /// Waiting for what the host Cargo metadata says.
    ReadingMetadata,
    /// Waiting for the guest `cargo build` of `todo`.
    Building,
    /// Settled for this session.
    Done,
}

/// What came back to the `todo` probe sequence.
#[derive(Debug, Clone, Copy, PartialEq, Eq)]
pub enum ProbeEvent {
    /// The sequence starts; `enabled` is the hint setting.
    Begin { enabled: bool },
    /// Whether the guest has `todo` (in `PATH`, or built under the mapped release directory).
    TodoProbe(bool),
    /// The host side: whether `cargo metadata` succeeded, whether the host has a release `todo`,
    /// whether the release directory maps into the guest, whether the Cargo workspace maps into
    /// the guest, and the automatic guest build setting.
    Metadata {
        metadata_ok: bool,
        host_has_todo: bool,
        release_dir_mapped: bool,
        guest_workspace_mapped: bool,
        auto_build: bool,
    },
    /// Whether the guest `cargo build` succeeded.
    BuildFinished(bool),
}

/// What the caller does next in the `todo` probe sequence.
#[derive(Debug, Clone, Copy, PartialEq, Eq)]
pub enum HintAction {
    Nothing,
    /// Probe the guest for `todo`.
    ProbeTodo,
    /// Say that `todo` was not found, then read the host Cargo metadata.
    ReportMissing,
    /// Print the hints that are set, then run the guest build when `run_build` is set.
    Advise {
        /// Build from a repo checkout, or use `cargo xtask lima-todo` (no Cargo metadata).
        checkout_hints: bool,
        /// Build `todo` on the host (Cargo metadata read).
        host_build_hint: bool,
        /// The workspace lies outside the Lima mount: run `cargo xtask lima-todo`.
        outside_mount_hints: bool,
        /// Build in the guest workspace directory.
        guest_build_hint: bool,
        /// Run that guest build now.
        run_build: bool,
    },
    /// Say that the guest build produced `target/release/todo`.
    ReportBuilt,
    /// Say that the guest build failed, with its output.
    ReportBuildFailed,
}

/// The `todo` probe transition. An event that does not belong to the state changes nothing.
pub open spec fn todo_hint_next(s: HintState, e: ProbeEvent) -> (HintState, HintAction) {
    match (s, e) {
        (HintState::Idle, ProbeEvent::Begin { enabled }) => if enabled {
            (HintState::ProbingTodo, HintAction::ProbeTodo)
        } else {
            (HintState::Done, HintAction::Nothing)
        },
        (HintState::ProbingTodo, ProbeEvent::TodoProbe(found)) => if found {
            (HintState::Done, HintAction::Nothing)
        } else {
            (HintState::ReadingMetadata, HintAction::ReportMissing)
        },
        (
            HintState::ReadingMetadata,
            ProbeEvent::Metadata {
                metadata_ok,
                host_has_todo,
                release_dir_mapped,
                guest_workspace_mapped,
                auto_build,
            },
        ) => {
            let run = guest_workspace_mapped && auto_build;
            (
                if run {
                    HintState::Building
                } else {
                    HintState::Done
                },
                HintAction::Advise {
                    checkout_hints: !metadata_ok,
                    host_build_hint: metadata_ok,
                    outside_mount_hints: metadata_ok && !release_dir_mapped && host_has_todo,
                    guest_build_hint: guest_workspace_mapped,
                    run_build: run,
                },
            )
        },
        (HintState::Building, ProbeEvent::BuildFinished(ok)) => if ok {
            (HintState::Done, HintAction::ReportBuilt)
        } else {
            (HintState::Done, HintAction::ReportBuildFailed)
        },
        _ => (s, HintAction::Nothing),
    }
}

/// One step of the guest `todo` probe, hints and optional guest build.
pub fn todo_hint_step(s: HintState, e: ProbeEvent) -> (r: (HintState, HintAction))
    ensures
        r == todo_hint_next(s, e),
{
    match (s, e) {
        (HintState::Idle, ProbeEvent::Begin { enabled }) => if enabled {
            (HintState::ProbingTodo, HintAction::ProbeTodo)
        } else {
            (HintState::Done, HintAction::Nothing)
        },
        (HintState::ProbingTodo, ProbeEvent::TodoProbe(found)) => if found {
            (HintState::Done, HintAction::Nothing)
        } else {
            (HintState::ReadingMetadata, HintAction::ReportMissing)
        },
        (
            HintState::ReadingMetadata,
            ProbeEvent::Metadata {
                metadata_ok,
                host_has_todo,
                release_dir_mapped,
                guest_workspace_mapped,
                auto_build,
            },
        ) => {
            let run = guest_workspace_mapped && auto_build;
            (
                if run {
                    HintState::Building
                } else {
                    HintState::Done
                },
                HintAction::Advise {
                    checkout_hints: !metadata_ok,
                    host_build_hint: metadata_ok,
                    outside_mount_hints: metadata_ok && !release_dir_mapped && host_has_todo,
                    guest_build_hint: guest_workspace_mapped,
                    run_build: run,
                },
            )
        },
        (HintState::Building, ProbeEvent::BuildFinished(ok)) => if ok {
            (HintState::Done, HintAction::ReportBuilt)
        } else {
            (HintState::Done, HintAction::ReportBuildFailed)
        },
        _ => (s, HintAction::Nothing),
    }
}

// --- Podman sidecar -------------------------------------------------------------------------

/// Where bringing up the `devshell-vm` sidecar stands.
#[derive(Debug, Clone, Copy, PartialEq, Eq)]
pub enum SidecarState {
    Start,
    /// Waiting for the TCP probe of the sidecar port.
    Probing,
    /// Waiting for `podman --version`; `install_tried` once the install was attempted.
    CheckingPodman { install_tried: bool },
    /// Waiting for the Podman install attempt.
    Installing,
    /// Waiting for the Podman engine start.
    StartingEngine,
    /// Waiting for the repository with the Containerfile.
    FindingRepo,
    /// Waiting for the image check.
    CheckingImage,
    /// Waiting for the image build.
    BuildingImage,
    /// Waiting for `podman run`.
    RunningContainer,
    /// Waiting for the sidecar port to open.
    Waiting,
    /// Finished (the last action says how).
    Finished,
}

/// What came back to the sidecar sequence.
#[derive(Debug, Clone, Copy, PartialEq, Eq)]
pub enum SidecarEvent {
    /// The sequence starts; `skip_bootstrap` when the skip variable is set.
    Begin { skip_bootstrap: bool },
    /// Whether the sidecar port accepts TCP.
    Reachable(bool),
    /// Whether `podman --version` succeeded.
    PodmanVersion(bool),
    /// The install attempt is over (its outcome is probed again).
    InstallAttempted,
    /// The engine start attempt is over.
    EngineStarted,
    /// Whether the repository with the Containerfile was found.
    RepoFound(bool),
    /// Whether the image exists.
    ImageExists(bool),
    /// Whether the image build succeeded.
    BuildFinished(bool),
    /// Whether `podman run` succeeded.
    RunFinished(bool),
    /// Whether the port opened in time.
    WaitFinished(bool),
}

/// What the caller does next in the sidecar sequence.
#[derive(Debug, Clone, Copy, PartialEq, Eq)]
pub enum SidecarAction {
    Nothing,
    ProbePort,
    ProbePodman,
    TryInstallPodman,
    StartEngine,
    FindRepo,
    /// Say there is no Containerfile (the sequence ends without error).
    ReportNoContainerfile,
    CheckImage,
    /// Say the image is being built, then build it.
    BuildImage,
    /// Remove any old container, then run the sidecar container.
    RunContainer,
    /// Set the staging variable if unset, then wait for the port.
    WaitForPort,
    /// Fail: Podman is not installed.
    FailNoPodman,
    /// Fail: the image build failed.
    FailBuild,
    /// Fail: `podman run` failed.
    FailRun,
    /// Fail: the port did not open in time.
    FailWait,
}

/// The sidecar transition. An event that does not belong to the state changes nothing.
pub open spec fn sidecar_next(s: SidecarState, e: SidecarEvent) -> (SidecarState, SidecarAction) {
    match (s, e) {
        (SidecarState::Start, SidecarEvent::Begin { skip_bootstrap }) => if skip_bootstrap {
            (SidecarState::Finished, SidecarAction::Nothing)
        } else {
            (SidecarState::Probing, SidecarAction::ProbePort)
        },
        (SidecarState::Probing, SidecarEvent::Reachable(up)) => if up {
            (SidecarState::Finished, SidecarAction::Nothing)
        } else {
            (SidecarState::CheckingPodman { install_tried: false }, SidecarAction::ProbePodman)
        },
        (SidecarState::CheckingPodman { install_tried }, SidecarEvent::PodmanVersion(ok)) => if ok {
            (SidecarState::StartingEngine, SidecarAction::StartEngine)
        } else if install_tried {
            (SidecarState::Finished, SidecarAction::FailNoPodman)
        } else {
            (SidecarState::Installing, SidecarAction::TryInstallPodman)
        },
        (SidecarState::Installing, SidecarEvent::InstallAttempted) => (
            SidecarState::CheckingPodman { install_tried: true },
            SidecarAction::ProbePodman,
        ),
        (SidecarState::StartingEngine, SidecarEvent::EngineStarted) => (
            SidecarState::FindingRepo,
            SidecarAction::FindRepo,
        ),
        (SidecarState::FindingRepo, SidecarEvent::RepoFound(found)) => if found {
            (SidecarState::CheckingImage, SidecarAction::CheckImage)
        } else {
            (SidecarState::Finished, SidecarAction::ReportNoContainerfile)
        },
        (SidecarState::CheckingImage, SidecarEvent::ImageExists(exists)) => if exists {
            (SidecarState::RunningContainer, SidecarAction::RunContainer)
        } else {
            (SidecarState::BuildingImage, SidecarAction::BuildImage)
        },
        (SidecarState::BuildingImage, SidecarEvent::BuildFinished(ok)) => if ok {
            (SidecarState::RunningContainer, SidecarAction::RunContainer)
        } else {
            (SidecarState::Finished, SidecarAction::FailBuild)
        },
        (SidecarState::RunningContainer, SidecarEvent::RunFinished(ok)) => if ok {
            (SidecarState::Waiting, SidecarAction::WaitForPort)
        } else {
            (SidecarState::Finished, SidecarAction::FailRun)
        },
        (SidecarState::Waiting, SidecarEvent::WaitFinished(ok)) => if ok {
            (SidecarState::Finished, SidecarAction::Nothing)
        } else {
            (SidecarState::Finished, SidecarAction::FailWait)
        },
        _ => (s, SidecarAction::Nothing),
    }
}

/// One step of bringing up the Podman sidecar.
pub fn sidecar_step(s: SidecarState, e: SidecarEvent) -> (r: (SidecarState, SidecarAction))
    ensures
        r == sidecar_next(s, e),
{
    match (s, e) {
        (SidecarState::Start, SidecarEvent::Begin { skip_bootstrap }) => if skip_bootstrap {
            (SidecarState::Finished, SidecarAction::Nothing)
        } else {
            (SidecarState::Probing, SidecarAction::ProbePort)
        },
        (SidecarState::Probing, SidecarEvent::Reachable(up)) => if up {
            (SidecarState::Finished, SidecarAction::Nothing)
        } else {
            (SidecarState::CheckingPodman { install_tried: false }, SidecarAction::ProbePodman)
        },
        (SidecarState::CheckingPodman { install_tried }, SidecarEvent::PodmanVersion(ok)) => if ok {
            (SidecarState::StartingEngine, SidecarAction::StartEngine)
        } else if install_tried {
            (SidecarState::Finished, SidecarAction::FailNoPodman)
        } else {
            (SidecarState::Installing, SidecarAction::TryInstallPodman)
        },
        (SidecarState::Installing, SidecarEvent::InstallAttempted) => (
            SidecarState::CheckingPodman { install_tried: true },
            SidecarAction::ProbePodman,
        ),
        (SidecarState::StartingEngine, SidecarEvent::EngineStarted) => (
            SidecarState::FindingRepo,
            SidecarAction::FindRepo,
        ),
        (SidecarState::FindingRepo, SidecarEvent::RepoFound(found)) => if found {
            (SidecarState::CheckingImage, SidecarAction::CheckImage)
        } else {
            (SidecarState::Finished, SidecarAction::ReportNoContainerfile)
        },
        (SidecarState::CheckingImage, SidecarEvent::ImageExists(exists)) => if exists {
            (SidecarState::RunningContainer, SidecarAction::RunContainer)
        } else {
            (SidecarState::BuildingImage, SidecarAction::BuildImage)
        },
        (SidecarState::BuildingImage, SidecarEvent::BuildFinished(ok)) => if ok {
            (SidecarState::RunningContainer, SidecarAction::RunContainer)
        } else {
            (SidecarState::Finished, SidecarAction::FailBuild)
        },
        (SidecarState::RunningContainer, SidecarEvent::RunFinished(ok)) => if ok {
            (SidecarState::Waiting, SidecarAction::WaitForPort)
        } else {
            (SidecarState::Finished, SidecarAction::FailRun)
        },
        (SidecarState::Waiting, SidecarEvent::WaitFinished(ok)) => if ok {
            (SidecarState::Finished, SidecarAction::Nothing)
        } else {
            (SidecarState::Finished, SidecarAction::FailWait)
        },
        _ => (s, SidecarAction::Nothing),
    }
}

/// Each sequence settles: once `Done` (or `Finished`), no event moves it or asks for anything.
pub proof fn lemma_settled_stays(be: BuildEssentialEvent, pe: ProbeEvent, se: SidecarEvent)
    ensures
        build_essential_next(BuildEssentialState::Done, be) == (BuildEssentialState::Done, BuildEssentialAction::Nothing),
        todo_hint_next(HintState::Done, pe) == (HintState::Done, HintAction::Nothing),
        sidecar_next(SidecarState::Finished, se) == (SidecarState::Finished, SidecarAction::Nothing),
{
}

} // verus!
