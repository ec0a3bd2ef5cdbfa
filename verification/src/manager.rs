use vstd::prelude::*;

use crate::paths::AppPath;
use crate::step::{InstallStep, StepOut, SubLog, World, WorldModel};
use crate::steps::{
    CopyAsarInstallStep, CopyAsarUninstallStep, DownloadLunaStep, ExtractLunaStep, InsertLunaStep,
    KillTidalStep, LaunchTidalStep, ReinstallCleanupStep, SetupStep, SignTidalStep, UninstallStep,
    spec_cleanup, spec_copy_install, spec_copy_uninstall, spec_download, spec_extract, spec_insert,
    spec_kill, spec_launch, spec_setup, spec_sign, spec_uninstall,
};

verus! {

/// The closed set of steps the pipeline can run, one variant per step
/// kind.
pub enum Step {
    Kill(KillTidalStep),
    ReinstallCleanup(ReinstallCleanupStep),
    Setup(SetupStep),
    Download(DownloadLunaStep),
    Extract(ExtractLunaStep),
    CopyAsarInstall(CopyAsarInstallStep),
    Insert(InsertLunaStep),
    Sign(SignTidalStep),
    Uninstall(UninstallStep),
    CopyAsarUninstall(CopyAsarUninstallStep),
    Launch(LaunchTidalStep),
}

/// The mathematical shape of a step: its kind, and the explicit target
/// or URL it carries.
pub enum StepModel {
    Kill,
    ReinstallCleanup { target: Option<Seq<Seq<char>>> },
    Setup { target: Option<Seq<Seq<char>>> },
    Download { url: Seq<char> },
    Extract,
    CopyAsarInstall { target: Option<Seq<Seq<char>>> },
    Insert { target: Option<Seq<Seq<char>>> },
    Sign,
    Uninstall { target: Option<Seq<Seq<char>>> },
    CopyAsarUninstall { target: Option<Seq<Seq<char>>> },
    Launch { target: Option<Seq<Seq<char>>> },
}

pub open spec fn opt_path_view(p: Option<AppPath>) -> Option<Seq<Seq<char>>> {
    match p {
        Some(q) => Some(q@),
        None => None,
    }
}

impl View for Step {
    type V = StepModel;

    open spec fn view(&self) -> StepModel {
        match self {
            Step::Kill(_) => StepModel::Kill,
            Step::ReinstallCleanup(s) => StepModel::ReinstallCleanup {
                target: opt_path_view(s.overwrite_path),
            },
            Step::Setup(s) => StepModel::Setup { target: opt_path_view(s.overwrite_path) },
            Step::Download(s) => StepModel::Download { url: s.download_url@ },
            Step::Extract(_) => StepModel::Extract,
            Step::CopyAsarInstall(s) => StepModel::CopyAsarInstall {
                target: opt_path_view(s.overwrite_path),
            },
            Step::Insert(s) => StepModel::Insert { target: opt_path_view(s.overwrite_path) },
            Step::Sign(_) => StepModel::Sign,
            Step::Uninstall(s) => StepModel::Uninstall {
                target: opt_path_view(s.overwrite_path),
            },
            Step::CopyAsarUninstall(s) => StepModel::CopyAsarUninstall {
                target: opt_path_view(s.overwrite_path),
            },
            Step::Launch(s) => StepModel::Launch { target: opt_path_view(s.overwrite_path) },
        }
    }
}

impl DeepView for Step {
    type V = StepModel;

    open spec fn deep_view(&self) -> StepModel {
        self.view()
    }
}

/// The stable name of a step.
pub open spec fn step_name(s: StepModel) -> Seq<char> {
    match s {
        StepModel::Kill => "Kill TIDAL"@,
        StepModel::ReinstallCleanup { .. } => "Reinstall Cleanup"@,
        StepModel::Setup { .. } => "Setup"@,
        StepModel::Download { .. } => "Download Luna"@,
        StepModel::Extract => "Extract Luna"@,
        StepModel::CopyAsarInstall { .. } => "Copy ASAR for Installation"@,
        StepModel::Insert { .. } => "Insert Luna"@,
        StepModel::Sign => "Sign TIDAL"@,
        StepModel::Uninstall { .. } => "Uninstall TidaLuna"@,
        StepModel::CopyAsarUninstall { .. } => "Restore original ASAR"@,
        StepModel::Launch { .. } => "Launch TIDAL"@,
    }
}

/// A step is explicit when it needs no discovery: any target it works on
/// was handed to it.
pub open spec fn step_explicit(s: StepModel) -> bool {
    match s {
        StepModel::Kill => true,
        StepModel::ReinstallCleanup { target } => target is Some,
        StepModel::Setup { target } => target is Some,
        StepModel::Download { .. } => true,
        StepModel::Extract => true,
        StepModel::CopyAsarInstall { target } => target is Some,
        StepModel::Insert { target } => target is Some,
        StepModel::Sign => true,
        StepModel::Uninstall { target } => target is Some,
        StepModel::CopyAsarUninstall { target } => target is Some,
        StepModel::Launch { .. } => true,
    }
}

/// Every step of the list is explicit.
pub open spec fn all_explicit(steps: Seq<StepModel>) -> bool {
    forall|i: int| 0 <= i < steps.len() ==> step_explicit(#[trigger] steps[i])
}

/// What one explicit step does to the world.
pub open spec fn spec_step(w: WorldModel, s: StepModel) -> StepOut {
    match s {
        StepModel::Kill => spec_kill(w.fs, w.platform),
        StepModel::ReinstallCleanup { target } => spec_cleanup(w.fs, target),
        StepModel::Setup { target } => spec_setup(w.fs, w.temp_root, target),
        StepModel::Download { url } => spec_download(w.fs, w.temp_root, url, w.fetch),
        StepModel::Extract => spec_extract(w.fs, w.temp_root),
        StepModel::CopyAsarInstall { target } => spec_copy_install(w.fs, target),
        StepModel::Insert { target } => spec_insert(w.fs, w.temp_root, target),
        StepModel::Sign => spec_sign(w.fs, w.platform, w.sign_ok),
        StepModel::Uninstall { target } => spec_uninstall(w.fs, target),
        StepModel::CopyAsarUninstall { target } => spec_copy_uninstall(w.fs, target),
        StepModel::Launch { .. } => spec_launch(w.fs),
    }
}

/// One progress event of a pipeline run, in emission order.
pub enum PipelineEvent {
    StepStarted { name: String },
    SubStep { step: String, message: String },
    StepFinished { name: String, success: bool, message: String },
}

/// The mathematical shape of a progress event.
pub enum EventModel {
    Started { name: Seq<char> },
    Sub { step: Seq<char>, message: Seq<char> },
    Finished { name: Seq<char>, success: bool, message: Seq<char> },
}

impl View for PipelineEvent {
    type V = EventModel;

    open spec fn view(&self) -> EventModel {
        match self {
            PipelineEvent::StepStarted { name } => EventModel::Started { name: name@ },
            PipelineEvent::SubStep { step, message } => EventModel::Sub {
                step: step@,
                message: message@,
            },
            PipelineEvent::StepFinished { name, success, message } => EventModel::Finished {
                name: name@,
                success: *success,
                message: message@,
            },
        }
    }
}

impl DeepView for PipelineEvent {
    type V = EventModel;

    open spec fn deep_view(&self) -> EventModel {
        self.view()
    }
}

/// The events one step emits: its start, its sub-step lines tagged with
/// its name, and its completion with verdict and message.
pub open spec fn step_events(s: StepModel, o: StepOut) -> Seq<EventModel> {
    seq![EventModel::Started { name: step_name(s) }] + o.sublogs.map_values(
        |m: Seq<char>| EventModel::Sub { step: step_name(s), message: m },
    ) + seq![
        EventModel::Finished { name: step_name(s), success: o.success, message: o.message },
    ]
}

/// What a whole run leaves behind.
pub struct RunModel {
    pub w: WorldModel,
    pub success: bool,
    pub events: Seq<EventModel>,
}

/// Run the steps strictly in order, halting at the first failure;
/// remaining steps never run, and the events of the steps that did run
/// stand in order.
pub open spec fn spec_run_steps(w: WorldModel, steps: Seq<StepModel>) -> RunModel
    decreases steps.len(),
{
    if steps.len() == 0 {
        RunModel { w, success: true, events: Seq::empty() }
    } else {
        let o = spec_step(w, steps[0]);
        let w1 = WorldModel { fs: o.fs, ..w };
        let evs = step_events(steps[0], o);
        if !o.success {
            RunModel { w: w1, success: false, events: evs }
        } else {
            let rest = spec_run_steps(w1, steps.drop_first());
            RunModel { w: rest.w, success: rest.success, events: evs + rest.events }
        }
    }
}

impl Step {
    /// The step's stable name.
    pub fn name_str(&self) -> (n: &str)
        ensures
            n@ == step_name(self@),
    {
        match self {
            Step::Kill(_) => "Kill TIDAL",
            Step::ReinstallCleanup(_) => "Reinstall Cleanup",
            Step::Setup(_) => "Setup",
            Step::Download(_) => "Download Luna",
            Step::Extract(_) => "Extract Luna",
            Step::CopyAsarInstall(_) => "Copy ASAR for Installation",
            Step::Insert(_) => "Insert Luna",
            Step::Sign(_) => "Sign TIDAL",
            Step::Uninstall(_) => "Uninstall TidaLuna",
            Step::CopyAsarUninstall(_) => "Restore original ASAR",
            Step::Launch(_) => "Launch TIDAL",
        }
    }

    /// Run the step against the world.
    pub fn dispatch(&self, w: &mut World, log: &mut Vec<SubLog>) -> (r: crate::step::StepResult)
        ensures
            final(w)@ == (WorldModel { fs: final(w)@.fs, ..old(w)@ }),
            step_explicit(self@) ==> crate::step::step_out_matches(
                old(w)@,
                final(w)@,
                r,
                old(log).deep_view(),
                final(log).deep_view(),
                spec_step(old(w)@, self@),
            ),
    {
        match self {
            Step::Kill(s) => s.run_model(w, log),
            Step::ReinstallCleanup(s) => s.run_model(w, log),
            Step::Setup(s) => s.run_model(w, log),
            Step::Download(s) => s.run_model(w, log),
            Step::Extract(s) => s.run_model(w, log),
            Step::CopyAsarInstall(s) => s.run_model(w, log),
            Step::Insert(s) => s.run_model(w, log),
            Step::Sign(s) => s.run_model(w, log),
            Step::Uninstall(s) => s.run_model(w, log),
            Step::CopyAsarUninstall(s) => s.run_model(w, log),
            Step::Launch(s) => s.run_model(w, log),
        }
    }
}

/// What a pipeline run reports back to its caller: the ordered events
/// and the overall verdict.
pub struct RunReport {
    pub events: Vec<PipelineEvent>,
    pub success: bool,
}

/// The ordered sequence of steps of one installation, reinstallation or
/// removal.
pub struct InstallManager {
    pub steps: Vec<Step>,
}

impl InstallManager {
    pub fn new() -> (r: Self)
        ensures
            r.steps@.len() == 0,
    {
        InstallManager { steps: Vec::new() }
    }

    pub fn add_step(&mut self, step: Step)
        ensures
            final(self).steps@ == old(self).steps@.push(step),
    {
        self.steps.push(step);
    }

    /// Run the configured steps strictly in order against the world,
    /// stopping at the first failure, and report the ordered events and
    /// the overall verdict.
    pub fn run(&self, w: &mut World) -> (rep: RunReport)
        ensures
            all_explicit(self.steps.deep_view()) ==> {
                let rm = spec_run_steps(old(w)@, self.steps.deep_view());
                &&& final(w)@ == rm.w
                &&& rep.success == rm.success
                &&& rep.events.deep_view() == rm.events
            },
    {
        let ghost views = self.steps.deep_view();
        let mut events: Vec<PipelineEvent> = Vec::new();
        proof {
            assert(views.skip(0) =~= views);
            assert(events.deep_view() =~= Seq::<EventModel>::empty());
            if all_explicit(views) {
                assert(events.deep_view() + spec_run_steps(w@, views).events =~= spec_run_steps(
                    w@,
                    views,
                ).events);
            }
        }
        let mut i: usize = 0;
        while i < self.steps.len()
            invariant
                i <= self.steps@.len(),
                views == self.steps.deep_view(),
                w@ == (WorldModel { fs: w@.fs, ..old(w)@ }),
                all_explicit(views) ==> {
                    let rm = spec_run_steps(old(w)@, views);
                    let rest = spec_run_steps(w@, views.skip(i as int));
                    &&& rm.w == rest.w
                    &&& rm.success == rest.success
                    &&& rm.events == events.deep_view() + rest.events
                },
            decreases self.steps@.len() - i,
        {
            proof {
                assert(views.skip(i as int)[0] == views[i as int]);
                assert(views.skip(i as int).drop_first() =~= views.skip(i + 1));
                assert(self.steps[i as int]@ == views[i as int]);
            }
            let step = &self.steps[i];
            let name = step.name_str();
            let ghost pre_events = events.deep_view();
            events.push(PipelineEvent::StepStarted { name: name.to_owned() });
            proof {
                assert(events.deep_view() =~= pre_events.push(
                    EventModel::Started { name: step_name(views[i as int]) },
                ));
            }
            let mut sub: Vec<SubLog> = Vec::new();
            let ghost wpre = w@;
            let r = step.dispatch(w, &mut sub);
            let mut j: usize = 0;
            while j < sub.len()
                invariant
                    j <= sub@.len(),
                    i < self.steps@.len(),
                    views == self.steps.deep_view(),
                    name@ == step_name(views[i as int]),
                    events.deep_view() =~= pre_events + seq![
                        EventModel::Started { name: step_name(views[i as int]) },
                    ] + sub.deep_view().take(j as int).map_values(
                        |m: Seq<char>| EventModel::Sub {
                            step: step_name(views[i as int]),
                            message: m,
                        },
                    ),
                decreases sub@.len() - j,
            {
                let ghost evpre = events.deep_view();
                let line = sub[j].message.clone();
                events.push(
                    PipelineEvent::SubStep { step: name.to_owned(), message: line },
                );
                j = j + 1;
                proof {
                    assert(sub.deep_view().take(j as int) =~= sub.deep_view().take(
                        j - 1,
                    ).push(sub.deep_view()[j - 1]));
                    assert(sub.deep_view().take(j as int).map_values(
                        |m: Seq<char>| EventModel::Sub {
                            step: step_name(views[i as int]),
                            message: m,
                        },
                    ) =~= sub.deep_view().take(j - 1).map_values(
                        |m: Seq<char>| EventModel::Sub {
                            step: step_name(views[i as int]),
                            message: m,
                        },
                    ).push(
                        EventModel::Sub {
                            step: step_name(views[i as int]),
                            message: sub.deep_view()[j - 1],
                        },
                    ));
                    assert(events.deep_view() =~= evpre.push(
                        EventModel::Sub {
                            step: step_name(views[i as int]),
                            message: sub.deep_view()[j - 1],
                        },
                    ));
                }
            }
            let ghost evpre2 = events.deep_view();
            let success = r.success;
            let ghost gmsg = r.message@;
            events.push(
                PipelineEvent::StepFinished { name: name.to_owned(), success, message: r.message },
            );
            proof {
                assert(events.deep_view() =~= evpre2.push(
                    EventModel::Finished {
                        name: step_name(views[i as int]),
                        success,
                        message: gmsg,
                    },
                ));
                assert(sub.deep_view().take(sub@.len() as int) =~= sub.deep_view());
                if all_explicit(views) {
                    assert(step_explicit(views[i as int]));
                    let o = spec_step(wpre, views[i as int]);
                    assert(sub.deep_view() =~= o.sublogs);
                    assert(sub.deep_view() == o.sublogs);
                    assert(events.deep_view() =~= pre_events + step_events(
                        views[i as int],
                        o,
                    ));
                }
            }
            if !success {
                proof {
                    if all_explicit(views) {
                        let o = spec_step(wpre, views[i as int]);
                        let rest = spec_run_steps(wpre, views.skip(i as int));
                        assert(rest.events == step_events(views[i as int], o));
                        assert(rest.success == false);
                        assert(rest.w == (WorldModel { fs: o.fs, ..wpre }));
                        assert(w@ == rest.w);
                        assert(spec_run_steps(old(w)@, views).events =~= events.deep_view());
                    }
                }
                return RunReport { events, success: false };
            }
            i = i + 1;
            proof {
                if all_explicit(views) {
                    let o = spec_step(wpre, views[i - 1]);
                    let rest_old = spec_run_steps(wpre, views.skip(i - 1));
                    let rest_new = spec_run_steps(w@, views.skip(i as int));
                    assert(w@ == (WorldModel { fs: o.fs, ..wpre }));
                    assert(views.skip(i - 1).drop_first() =~= views.skip(i as int));
                    assert(rest_old.w == rest_new.w);
                    assert(rest_old.success == rest_new.success);
                    assert(rest_old.events == step_events(views[i - 1], o) + rest_new.events);
                    assert(pre_events + rest_old.events =~= events.deep_view()
                        + rest_new.events);
                }
            }
        }
        proof {
            assert(views.skip(views.len() as int) =~= Seq::<StepModel>::empty());
            if all_explicit(views) {
                let rest = spec_run_steps(w@, views.skip(views.len() as int));
                assert(rest.events == Seq::<EventModel>::empty());
                assert(events.deep_view() + rest.events =~= events.deep_view());
                assert(spec_run_steps(old(w)@, views).events =~= events.deep_view());
            }
        }
        RunReport { events, success: true }
    }
}

/// The ordered steps of an installation: stop the host, clean a previous
/// install up when reinstalling, check the target, fetch and expand the
/// archive, back the primary archive up and vacate it, inject the tree,
/// then re-sign and relaunch.
pub open spec fn spec_install_steps(
    t: Seq<Seq<char>>,
    url: Seq<char>,
    reinstall: bool,
) -> Seq<StepModel> {
    let head = if reinstall {
        seq![StepModel::Kill, StepModel::ReinstallCleanup { target: Some(t) }]
    } else {
        seq![StepModel::Kill]
    };
    head + seq![
        StepModel::Setup { target: Some(t) },
        StepModel::Download { url },
        StepModel::Extract,
        StepModel::CopyAsarInstall { target: Some(t) },
        StepModel::Insert { target: Some(t) },
        StepModel::Sign,
        StepModel::Launch { target: Some(t) },
    ]
}

/// The ordered steps of an uninstallation: stop the host, restore the
/// backup over the primary name, remove the injected tree, then re-sign
/// and relaunch.
pub open spec fn spec_uninstall_steps(t: Seq<Seq<char>>) -> Seq<StepModel> {
    seq![
        StepModel::Kill,
        StepModel::CopyAsarUninstall { target: Some(t) },
        StepModel::Uninstall { target: Some(t) },
        StepModel::Sign,
        StepModel::Launch { target: Some(t) },
    ]
}

/// Build the installation step list for one resolved target.
pub fn install_steps(
    path: &AppPath,
    download_url: &str,
    reinstall: bool,
    suppress_console_window: bool,
) -> (r: Vec<Step>)
    ensures
        r.deep_view() == spec_install_steps(path@, download_url@, reinstall),
        all_explicit(r.deep_view()),
{
    let mut out: Vec<Step> = Vec::new();
    out.push(Step::Kill(KillTidalStep));
    if reinstall {
        out.push(
            Step::ReinstallCleanup(
                ReinstallCleanupStep { overwrite_path: Some(path.clone()) },
            ),
        );
    }
    out.push(Step::Setup(SetupStep { overwrite_path: Some(path.clone()) }));
    out.push(Step::Download(DownloadLunaStep { download_url: download_url.to_owned() }));
    out.push(Step::Extract(ExtractLunaStep));
    out.push(Step::CopyAsarInstall(CopyAsarInstallStep { overwrite_path: Some(path.clone()) }));
    out.push(Step::Insert(InsertLunaStep { overwrite_path: Some(path.clone()) }));
    out.push(Step::Sign(SignTidalStep));
    out.push(
        Step::Launch(
            LaunchTidalStep { overwrite_path: Some(path.clone()), suppress_console_window },
        ),
    );
    proof {
        assert(out.deep_view() =~= spec_install_steps(path@, download_url@, reinstall));
        assert forall|i: int| 0 <= i < out.deep_view().len() implies step_explicit(
            #[trigger] out.deep_view()[i],
        ) by {
        }
    }
    out
}

/// Build the uninstallation step list for one resolved target.
pub fn uninstall_steps(path: &AppPath, suppress_console_window: bool) -> (r: Vec<Step>)
    ensures
        r.deep_view() == spec_uninstall_steps(path@),
        all_explicit(r.deep_view()),
{
    let mut out: Vec<Step> = Vec::new();
    out.push(Step::Kill(KillTidalStep));
    out.push(
        Step::CopyAsarUninstall(CopyAsarUninstallStep { overwrite_path: Some(path.clone()) }),
    );
    out.push(Step::Uninstall(UninstallStep { overwrite_path: Some(path.clone()) }));
    out.push(Step::Sign(SignTidalStep));
    out.push(
        Step::Launch(
            LaunchTidalStep { overwrite_path: Some(path.clone()), suppress_console_window },
        ),
    );
    proof {
        assert(out.deep_view() =~= spec_uninstall_steps(path@));
        assert forall|i: int| 0 <= i < out.deep_view().len() implies step_explicit(
            #[trigger] out.deep_view()[i],
        ) by {
        }
    }
    out
}

} // verus!
