use vstd::prelude::*;

use crate::fs_model::{Fs, NodeModel};
use crate::paths::AppPath;
use crate::resolver::Platform;

verus! {

/// One sub-step progress line, attributable to the step that emitted it.
pub struct SubLog {
    pub message: String,
}

impl View for SubLog {
    type V = Seq<char>;

    open spec fn view(&self) -> Seq<char> {
        self.message@
    }
}

impl DeepView for SubLog {
    type V = Seq<char>;

    open spec fn deep_view(&self) -> Seq<char> {
        self.view()
    }
}

/// The terminal outcome of one pipeline step; never retried.
pub struct StepResult {
    pub success: bool,
    pub message: String,
}

/// What the single network fetch of the pipeline returns when the
/// download step performs it.
pub enum FetchOutcome {
    Response { status: u16, body: Vec<u8> },
    NetworkError { detail: String },
}

/// The mathematical shape of the fetch outcome.
pub enum FetchModel {
    Response { status: u16, body: Seq<u8> },
    NetworkError { detail: Seq<char> },
}

impl View for FetchOutcome {
    type V = FetchModel;

    open spec fn view(&self) -> FetchModel {
        match self {
            FetchOutcome::Response { status, body } => FetchModel::Response {
                status: *status,
                body: body@,
            },
            FetchOutcome::NetworkError { detail } => FetchModel::NetworkError {
                detail: detail@,
            },
        }
    }
}

/// Everything outside the engine that a pipeline run reads and mutates:
/// the filesystem, the platform and its well-known directories, the
/// system temporary directory, the network's answer to the one download,
/// and the outcome of the platform's code-signing call.
pub struct World {
    pub fs: Fs,
    pub platform: Platform,
    pub home: Option<AppPath>,
    pub local_appdata: Option<AppPath>,
    pub temp_root: AppPath,
    pub fetch: FetchOutcome,
    pub sign_ok: bool,
}

/// The mathematical shape of the world.
pub struct WorldModel {
    pub fs: Map<Seq<Seq<char>>, NodeModel>,
    pub platform: Platform,
    pub home: Option<Seq<Seq<char>>>,
    pub local_appdata: Option<Seq<Seq<char>>>,
    pub temp_root: Seq<Seq<char>>,
    pub fetch: FetchModel,
    pub sign_ok: bool,
}

impl View for World {
    type V = WorldModel;

    open spec fn view(&self) -> WorldModel {
        WorldModel {
            fs: self.fs@,
            platform: self.platform,
            home: match self.home {
                Some(h) => Some(h@),
                None => None,
            },
            local_appdata: match self.local_appdata {
                Some(l) => Some(l@),
                None => None,
            },
            temp_root: self.temp_root@,
            fetch: self.fetch@,
            sign_ok: self.sign_ok,
        }
    }
}

/// `b` is `a` with its filesystem replaced.
pub open spec fn fs_step(a: WorldModel, b: WorldModel, fs: Map<Seq<Seq<char>>, NodeModel>) -> bool {
    b == WorldModel { fs, ..a }
}

/// What one step leaves behind: the new filesystem, its verdict, its
/// step-level message, and its sub-step progress lines in order.
pub struct StepOut {
    pub fs: Map<Seq<Seq<char>>, NodeModel>,
    pub success: bool,
    pub message: Seq<char>,
    pub sublogs: Seq<Seq<char>>,
}

/// The uniform contract every pipeline step exposes: a stable name, and
/// an operation that may mutate the world and emit progress lines.
pub trait InstallStep {
    fn name(&self) -> &str;

    fn run(&self, w: &mut World, log: &mut Vec<SubLog>) -> StepResult;
}

/// The scratch directory all steps share under the system temporary
/// directory.
pub open spec fn spec_temp_dir(temp_root: Seq<Seq<char>>) -> Seq<Seq<char>> {
    temp_root.push("TidaLunaInstaller"@)
}

/// The scratch directory, concretely.
pub fn temp_dir_path(temp_root: &AppPath) -> (r: AppPath)
    ensures
        r@ == spec_temp_dir(temp_root@),
{
    temp_root.join("TidaLunaInstaller")
}

/// Append one progress line.
pub fn push_log(log: &mut Vec<SubLog>, m: &str)
    ensures
        final(log).deep_view() == old(log).deep_view() + seq![m@],
{
    let ghost pre = log.deep_view();
    log.push(SubLog { message: m.to_owned() });
    proof {
        assert(log.deep_view() =~= pre + seq![m@]);
    }
}

/// Build a step outcome out of a verdict and a fixed message.
pub fn step_result(success: bool, m: &str) -> (r: StepResult)
    ensures
        r.success == success,
        r.message@ == m@,
{
    StepResult { success, message: m.to_owned() }
}

/// The step left `b` behind: the world moved to `o.fs` with everything
/// else kept, the verdict and message are `o`'s, and exactly `o.sublogs`
/// were appended to the progress lines.
pub open spec fn step_out_matches(
    a: WorldModel,
    b: WorldModel,
    r: StepResult,
    la: Seq<Seq<char>>,
    lb: Seq<Seq<char>>,
    o: StepOut,
) -> bool {
    &&& fs_step(a, b, o.fs)
    &&& r.success == o.success
    &&& r.message@ == o.message
    &&& lb == la + o.sublogs
}

/// What discovery resolves a step's target to: the first discovered
/// install target for the world, exactly as `get_tidal_directory`
/// specifies it for each platform, or nothing where discovery finds
/// nothing.
pub open spec fn spec_discovered_target(w: WorldModel, ropt: Option<Seq<Seq<char>>>) -> bool {
    match w.platform {
        Platform::Linux => ropt == (if crate::resolver::spec_linux_targets(w.fs, w.home).len()
            >= 1 {
            Some(crate::resolver::spec_linux_targets(w.fs, w.home)[0])
        } else {
            None::<Seq<Seq<char>>>
        }),
        Platform::MacOs => ropt == (if crate::resolver::spec_macos_targets(w.fs, w.home).len()
            >= 1 {
            Some(crate::resolver::spec_macos_targets(w.fs, w.home)[0])
        } else {
            None::<Seq<Seq<char>>>
        }),
        Platform::Windows => match w.local_appdata {
            Some(la) => match ropt {
                Some(t) => crate::resolver::is_max_version_resources(
                    w.fs,
                    la.push("TIDAL"@),
                    t,
                ),
                None => !crate::resolver::has_version_candidate(w.fs, la.push("TIDAL"@)),
            },
            None => ropt is None,
        },
        Platform::Other => ropt is None,
    }
}

/// The world as the setup step sees it when it resolves its target: the
/// scratch directory has already been created.
pub open spec fn setup_resolution_world(w: WorldModel) -> WorldModel {
    WorldModel {
        fs: crate::fs_model::with_dir_all(w.fs, spec_temp_dir(w.temp_root)),
        ..w
    }
}

/// How a step resolved its target: an explicit path is taken as given;
/// otherwise the target is what discovery yields for the world.
pub open spec fn resolved_target(
    explicit: Option<AppPath>,
    w: WorldModel,
    ropt: Option<Seq<Seq<char>>>,
) -> bool {
    match explicit {
        Some(p) => ropt == Some(p@),
        None => spec_discovered_target(w, ropt),
    }
}

} // verus!
