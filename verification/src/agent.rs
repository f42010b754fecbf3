//! The agent's decisions: the order in which a configuration is applied, the
//! commands it runs for packages and services, how each outcome is judged,
//! and what it reports back to the server.

use vstd::prelude::*;
use crate::common::{
    CommandStage, Configuration, ConfigurationApplicationResult, ConfigurationModel,
    ConfigurationUpdate, ApplicationStatus, DiskUsage, AgentTelemetry, RebootStrategy,
    RegistrationRequest, RegistrationResponse, ServiceAction,
};
use crate::interpolate::lookup_first;
use crate::name_map::NameMap;
use crate::text::{format_i64, join, join_with, owned, signed_decimal};

verus! {

/// The agent's settings, written at registration.
#[derive(Clone, Debug)]
pub struct AgentConfig {
    pub id: u128,
    pub server_url: String,
    pub private_key: String,
    pub auth_token: Option<String>,
    pub poll_interval_secs: u64,
    pub max_retry_attempts: u32,
    pub persona_name: String,
}

/// Why applying a configuration failed.
#[derive(Clone, Debug)]
pub enum ExecutionError {
    /// An I/O operation failed; the message describes the failure.
    Io(String),
    CommandFailed { command: String, exit_code: Option<i32>, stderr: String },
    DependencyInstallFailed { package: String, error: String },
    ServiceActionFailed { service: String, action: String, error: String },
    TemplateError(String),
    UnsupportedPackageManager(String),
}

/// How an optional exit code is written in a message: `Some(<code>)` or `None`.
pub open spec fn exit_code_text(code: Option<i32>) -> Seq<char> {
    match code {
        Some(c) => "Some("@ + signed_decimal(c as int) + ")"@,
        None => "None"@,
    }
}

/// The human-readable description of an error.
pub open spec fn error_message(e: ExecutionError) -> Seq<char> {
    match e {
        ExecutionError::Io(m) => "IO error: "@ + m@,
        ExecutionError::CommandFailed { command, exit_code, stderr } => "Command '"@ + command@
            + "' failed with exit code "@ + exit_code_text(exit_code) + ": "@ + stderr@,
        ExecutionError::DependencyInstallFailed { package, error } => "Failed to install package '"@
            + package@ + "': "@ + error@,
        ExecutionError::ServiceActionFailed { service, action, error } => "Failed to "@ + action@
            + " service '"@ + service@ + "': "@ + error@,
        ExecutionError::TemplateError(m) => "Template error: "@ + m@,
        ExecutionError::UnsupportedPackageManager(pm) => "Unsupported package manager: "@ + pm@,
    }
}

fn exit_code_string(code: Option<i32>) -> (r: String)
    ensures
        r@ == exit_code_text(code),
{
    match code {
        Some(c) => {
            let mut s = String::from_str("Some(");
            let digits = format_i64(c as i64);
            s.append(digits.as_str());
            s.append(")");
            s
        },
        None => String::from_str("None"),
    }
}

impl ExecutionError {
    /// The description of the error, as the agent reports it.
    pub fn message(&self) -> (r: String)
        ensures
            r@ == error_message(*self),
    {
        match self {
            ExecutionError::Io(m) => {
                let mut s = String::from_str("IO error: ");
                s.append(m.as_str());
                s
            },
            ExecutionError::CommandFailed { command, exit_code, stderr } => {
                let mut s = String::from_str("Command '");
                s.append(command.as_str());
                s.append("' failed with exit code ");
                let code = exit_code_string(*exit_code);
                s.append(code.as_str());
                s.append(": ");
                s.append(stderr.as_str());
                s
            },
            ExecutionError::DependencyInstallFailed { package, error } => {
                let mut s = String::from_str("Failed to install package '");
                s.append(package.as_str());
                s.append("': ");
                s.append(error.as_str());
                s
            },
            ExecutionError::ServiceActionFailed { service, action, error } => {
                let mut s = String::from_str("Failed to ");
                s.append(action.as_str());
                s.append(" service '");
                s.append(service.as_str());
                s.append("': ");
                s.append(error.as_str());
                s
            },
            ExecutionError::TemplateError(m) => {
                let mut s = String::from_str("Template error: ");
                s.append(m.as_str());
                s
            },
            ExecutionError::UnsupportedPackageManager(pm) => {
                let mut s = String::from_str("Unsupported package manager: ");
                s.append(pm.as_str());
                s
            },
        }
    }
}

/// One piece of outside work in the application of a configuration.
#[derive(Clone, Debug)]
pub enum Step {
    /// Run a shell command.
    RunCommand(String),
    /// Install the packages listed for the machine's package manager.
    InstallDependencies(Vec<(String, Vec<String>)>),
    /// Copy files: (source relative to the configuration, destination).
    CopyFiles(Vec<(String, String)>),
    /// Render templates: (source, destination), with the configuration's variables.
    RenderTemplates { templates: Vec<(String, String)>, variables: Option<Vec<(String, String)>> },
    /// Perform an action on a service.
    ServiceAction(String, ServiceAction),
}

/// The mathematical value of a step.
pub enum StepModel {
    RunCommand(Seq<char>),
    InstallDependencies(Seq<(Seq<char>, Seq<Seq<char>>)>),
    CopyFiles(Seq<(Seq<char>, Seq<char>)>),
    RenderTemplates {
        templates: Seq<(Seq<char>, Seq<char>)>,
        variables: Option<Seq<(Seq<char>, Seq<char>)>>,
    },
    ServiceAction(Seq<char>, ServiceAction),
}

impl DeepView for Step {
    type V = StepModel;

    open spec fn deep_view(&self) -> StepModel {
        match self {
            Step::RunCommand(c) => StepModel::RunCommand(c@),
            Step::InstallDependencies(d) => StepModel::InstallDependencies(d.deep_view()),
            Step::CopyFiles(f) => StepModel::CopyFiles(f.deep_view()),
            Step::RenderTemplates { templates, variables } => StepModel::RenderTemplates {
                templates: templates.deep_view(),
                variables: variables.deep_view(),
            },
            Step::ServiceAction(s, a) => StepModel::ServiceAction(s@, *a),
        }
    }
}

/// The commands of the first entry for `stage`; none if there is no entry.
pub open spec fn stage_commands(
    commands: Seq<(CommandStage, Seq<Seq<char>>)>,
    stage: CommandStage,
) -> Seq<Seq<char>>
    decreases commands.len(),
{
    if commands.len() == 0 {
        Seq::empty()
    } else if commands[0].0 == stage {
        commands[0].1
    } else {
        stage_commands(commands.drop_first(), stage)
    }
}

/// One command step for each command, in order.
pub open spec fn command_steps(cmds: Seq<Seq<char>>) -> Seq<StepModel> {
    cmds.map_values(|c: Seq<char>| StepModel::RunCommand(c))
}

/// The steps of one command stage of a configuration.
pub open spec fn stage_steps(
    commands: Option<Seq<(CommandStage, Seq<Seq<char>>)>>,
    stage: CommandStage,
) -> Seq<StepModel> {
    match commands {
        Some(c) => command_steps(stage_commands(c, stage)),
        None => Seq::empty(),
    }
}

/// One service step for each service, in order.
pub open spec fn service_steps(services: Seq<(Seq<char>, ServiceAction)>) -> Seq<StepModel> {
    services.map_values(|p: (Seq<char>, ServiceAction)| StepModel::ServiceAction(p.0, p.1))
}

/// The steps that apply a configuration, in order: pre-dependency commands,
/// package installation, post-dependency commands, pre-file commands, file
/// copies, template rendering, post-file commands, service actions, and the
/// final commands. A part the configuration does not have is skipped.
pub open spec fn configuration_steps(c: ConfigurationModel) -> Seq<StepModel> {
    stage_steps(c.commands, CommandStage::PreDeps) + match c.dependency_map {
        Some(d) => seq![StepModel::InstallDependencies(d)],
        None => Seq::empty(),
    } + stage_steps(c.commands, CommandStage::PostDeps) + stage_steps(
        c.commands,
        CommandStage::PreFiles,
    ) + match c.file_map {
        Some(f) => seq![StepModel::CopyFiles(f)],
        None => Seq::empty(),
    } + match c.template_map {
        Some(t) => seq![StepModel::RenderTemplates { templates: t, variables: c.variable_map }],
        None => Seq::empty(),
    } + stage_steps(c.commands, CommandStage::PostFiles) + match c.services {
        Some(s) => service_steps(s),
        None => Seq::empty(),
    } + stage_steps(c.commands, CommandStage::After)
}

/// The steps that run the commands of `stage`, in order; none when the
/// stage has no commands.
pub fn execute_commands_for_stage(
    commands: &Vec<(CommandStage, Vec<String>)>,
    stage: CommandStage,
) -> (r: Vec<Step>)
    ensures
        r.deep_view() == command_steps(stage_commands(commands.deep_view(), stage)),
{
    let ghost all = commands.deep_view();
    let mut i: usize = 0;
    assert(all.skip(0) =~= all);
    while i < commands.len()
        invariant
            i <= commands.len(),
            all == commands.deep_view(),
            stage_commands(all, stage) == stage_commands(all.skip(i as int), stage),
        decreases commands.len() - i,
    {
        assert(all.skip(i as int)[0] == all[i as int]);
        assert(all.skip(i as int).drop_first() =~= all.skip(i + 1));
        if commands[i].0 == stage {
            let cmds = &commands[i].1;
            let mut r: Vec<Step> = Vec::new();
            let mut j: usize = 0;
            while j < cmds.len()
                invariant
                    j <= cmds.len(),
                    r@.len() == j,
                    cmds.deep_view() == all[i as int].1,
                    r.deep_view() == command_steps(cmds.deep_view()).take(j as int),
                decreases cmds.len() - j,
            {
                r.push(Step::RunCommand(cmds[j].clone()));
                j = j + 1;
                assert(r.deep_view() =~= command_steps(cmds.deep_view()).take(j as int));
            }
            assert(command_steps(cmds.deep_view()).take(j as int) =~= command_steps(
                cmds.deep_view(),
            ));
            return r;
        }
        i = i + 1;
    }
    assert(command_steps(Seq::empty()) =~= Seq::<StepModel>::empty());
    Vec::new()
}

/// The steps that perform the service actions, one per service, in order.
pub fn perform_service_actions(services: &Vec<(String, ServiceAction)>) -> (r: Vec<Step>)
    ensures
        r.deep_view() == service_steps(services.deep_view()),
{
    let mut r: Vec<Step> = Vec::new();
    let mut j: usize = 0;
    while j < services.len()
        invariant
            j <= services.len(),
            r@.len() == j,
            r.deep_view() == service_steps(services.deep_view()).take(j as int),
        decreases services.len() - j,
    {
        r.push(Step::ServiceAction(services[j].0.clone(), services[j].1));
        j = j + 1;
        assert(r.deep_view() =~= service_steps(services.deep_view()).take(j as int));
    }
    assert(service_steps(services.deep_view()).take(j as int) =~= service_steps(
        services.deep_view(),
    ));
    r
}

/// The ordered steps of a configuration and its reboot strategy.
pub struct ExecutionPlan {
    pub steps: Vec<Step>,
    pub reboot: RebootStrategy,
}

fn append_steps(plan: &mut Vec<Step>, more: Vec<Step>)
    ensures
        final(plan).deep_view() == old(plan).deep_view() + more.deep_view(),
{
    let mut more = more;
    let ghost m = more.deep_view();
    let ghost p = plan.deep_view();
    plan.append(&mut more);
    assert(plan.deep_view() =~= p + m);
}

/// The plan that applies `config`: its steps in the order the stages run.
pub fn configuration_plan(config: &Configuration) -> (r: ExecutionPlan)
    ensures
        r.steps.deep_view() == configuration_steps(config.deep_view()),
        r.reboot == config.reboot,
{
    let ghost c = config.deep_view();
    let mut steps: Vec<Step> = Vec::new();
    assert(steps.deep_view() =~= Seq::<StepModel>::empty());
    let empty: Vec<(CommandStage, Vec<String>)> = Vec::new();
    let commands = match &config.commands {
        Some(cmds) => cmds,
        None => &empty,
    };
    let has_commands = config.commands.is_some();

    if has_commands {
        append_steps(&mut steps, execute_commands_for_stage(commands, CommandStage::PreDeps));
    }
    assert(steps.deep_view() =~= stage_steps(c.commands, CommandStage::PreDeps));
    let ghost s1 = steps.deep_view();
    match &config.dependency_map {
        Some(d) => {
            steps.push(Step::InstallDependencies(crate::common::copy_dependency_table(d)));
            assert(steps.deep_view() =~= s1 + seq![StepModel::InstallDependencies(c.dependency_map->0)]);
        },
        None => {},
    }
    let ghost s2 = steps.deep_view();
    if has_commands {
        append_steps(&mut steps, execute_commands_for_stage(commands, CommandStage::PostDeps));
        append_steps(&mut steps, execute_commands_for_stage(commands, CommandStage::PreFiles));
    }
    assert(steps.deep_view() =~= s2 + stage_steps(c.commands, CommandStage::PostDeps) + stage_steps(c.commands, CommandStage::PreFiles));
    let ghost s3 = steps.deep_view();
    match &config.file_map {
        Some(f) => {
            steps.push(Step::CopyFiles(crate::common::copy_pairs(f)));
            assert(steps.deep_view() =~= s3 + seq![StepModel::CopyFiles(c.file_map->0)]);
        },
        None => {},
    }
    let ghost s4 = steps.deep_view();
    match &config.template_map {
        Some(t) => {
            let variables = match &config.variable_map {
                Some(v) => Some(crate::common::copy_pairs(v)),
                None => None,
            };
            steps.push(Step::RenderTemplates { templates: crate::common::copy_pairs(t), variables });
            assert(steps.deep_view() =~= s4 + seq![StepModel::RenderTemplates { templates: c.template_map->0, variables: c.variable_map }]);
        },
        None => {},
    }
    let ghost s5 = steps.deep_view();
    if has_commands {
        append_steps(&mut steps, execute_commands_for_stage(commands, CommandStage::PostFiles));
    }
    assert(steps.deep_view() =~= s5 + stage_steps(c.commands, CommandStage::PostFiles));
    let ghost s6 = steps.deep_view();
    match &config.services {
        Some(s) => {
            append_steps(&mut steps, perform_service_actions(s));
        },
        None => {},
    }
    let ghost s7 = steps.deep_view();
    if has_commands {
        append_steps(&mut steps, execute_commands_for_stage(commands, CommandStage::After));
    }
    assert(steps.deep_view() =~= s7 + stage_steps(c.commands, CommandStage::After));
    assert(steps.deep_view() =~= configuration_steps(c));
    ExecutionPlan { steps, reboot: config.reboot }
}

/// What the agent reports back while a plan runs.
pub enum RunEvent {
    /// The run begins.
    Started,
    /// The step being performed succeeded.
    StepSucceeded,
    /// The step being performed failed.
    StepFailed(ExecutionError),
    /// Whether the system asks for a reboot (its reboot-required flag exists).
    RebootRequired(bool),
}

/// What the agent does next.
pub enum RunAction {
    /// Perform the step at this position of the plan.
    Perform(usize),
    /// Find out whether the system asks for a reboot.
    CheckRebootRequired,
    /// The run is over: whether a reboot is needed, or the error that ended it.
    Finish(Result<bool, ExecutionError>),
}

/// What happens once every step has succeeded, by reboot strategy.
pub open spec fn completion(reboot: RebootStrategy) -> RunAction {
    match reboot {
        RebootStrategy::Always => RunAction::Finish(Ok(true)),
        RebootStrategy::No => RunAction::Finish(Ok(false)),
        RebootStrategy::IfRequested => RunAction::CheckRebootRequired,
    }
}

/// The position and action that follow `event` when the step at `current`
/// (of `len` steps) was being performed.
pub open spec fn advance(len: nat, reboot: RebootStrategy, current: nat, event: RunEvent) -> (
    nat,
    RunAction,
) {
    match event {
        RunEvent::Started => if 0 < len {
            (0, RunAction::Perform(0))
        } else {
            (current, completion(reboot))
        },
        RunEvent::StepSucceeded => if current + 1 < len {
            ((current + 1) as nat, RunAction::Perform((current + 1) as usize))
        } else {
            (current, completion(reboot))
        },
        RunEvent::StepFailed(e) => (current, RunAction::Finish(Err(e))),
        RunEvent::RebootRequired(b) => (current, RunAction::Finish(Ok(b))),
    }
}

/// Decides the next move of a configuration run. The steps run in plan
/// order; the first failure ends the run with its error; once all steps
/// succeed the run ends with the reboot decision: always, never, or as the
/// system's reboot-required flag says.
pub fn execute_configuration(plan: &ExecutionPlan, current: usize, event: RunEvent) -> (r: (
    usize,
    RunAction,
))
    requires
        event is StepSucceeded ==> current < plan.steps.len(),
    ensures
        (r.0 as nat, r.1) == advance(plan.steps.len() as nat, plan.reboot, current as nat, event),
{
    let finish = match plan.reboot {
        RebootStrategy::Always => RunAction::Finish(Ok(true)),
        RebootStrategy::No => RunAction::Finish(Ok(false)),
        RebootStrategy::IfRequested => RunAction::CheckRebootRequired,
    };
    match event {
        RunEvent::Started => if 0 < plan.steps.len() {
            (0, RunAction::Perform(0))
        } else {
            (current, finish)
        },
        RunEvent::StepSucceeded => if current + 1 < plan.steps.len() {
            (current + 1, RunAction::Perform(current + 1))
        } else {
            (current, finish)
        },
        RunEvent::StepFailed(e) => (current, RunAction::Finish(Err(e))),
        RunEvent::RebootRequired(b) => (current, RunAction::Finish(Ok(b))),
    }
}

/// The state of a run that started and then saw `k` steps succeed.
pub open spec fn run_with_successes(len: nat, reboot: RebootStrategy, k: nat) -> (nat, RunAction)
    decreases k,
{
    if k == 0 {
        advance(len, reboot, 0, RunEvent::Started)
    } else {
        advance(len, reboot, run_with_successes(len, reboot, (k - 1) as nat).0, RunEvent::StepSucceeded)
    }
}

/// A run in which every step succeeds performs the steps one after the
/// other, in plan order, and then ends as the reboot strategy says.
pub proof fn lemma_successful_run(len: nat, reboot: RebootStrategy, k: nat)
    requires
        k <= len,
    ensures
        k < len ==> run_with_successes(len, reboot, k) == (k, RunAction::Perform(k as usize)),
        k == len ==> run_with_successes(len, reboot, k).1 == completion(reboot),
    decreases k,
{
    if k > 0 {
        lemma_successful_run(len, reboot, (k - 1) as nat);
    }
}

/// The package managers the agent looks for, in order of preference.
pub open spec fn package_managers() -> Seq<Seq<char>> {
    seq!["apt"@, "dnf"@, "yum"@, "zypper"@, "pacman"@, "brew"@]
}

/// The package managers the agent looks for, in the order in which it
/// tries them; the first one present on the system is used.
pub fn package_manager_candidates() -> (r: Vec<String>)
    ensures
        r.deep_view() == package_managers(),
{
    let mut r: Vec<String> = Vec::new();
    r.push(String::from_str("apt"));
    r.push(String::from_str("dnf"));
    r.push(String::from_str("yum"));
    r.push(String::from_str("zypper"));
    r.push(String::from_str("pacman"));
    r.push(String::from_str("brew"));
    assert(r.deep_view() =~= package_managers());
    r
}

/// The first candidate found present: `present[i]` says whether
/// `candidates[i]` was found. Candidates past the end of either list count
/// as absent.
pub fn first_present(candidates: &Vec<String>, present: &Vec<bool>) -> (r: Option<String>)
    ensures
        r is None <==> forall|i: int|
            0 <= i < candidates.len() && i < present.len() ==> !#[trigger] present@[i],
        r matches Some(c) ==> exists|i: int|
            0 <= i < candidates.len() && i < present.len() && present@[i] && c@ == candidates@[i]@
                && forall|j: int| 0 <= j < i ==> !#[trigger] present@[j],
{
    let mut i: usize = 0;
    while i < candidates.len() && i < present.len()
        invariant
            i <= candidates.len(),
            i <= present.len(),
            forall|j: int| 0 <= j < i ==> !#[trigger] present@[j],
        decreases candidates.len() - i,
    {
        if present[i] {
            let c = candidates[i].clone();
            assert(c@ == candidates@[i as int]@);
            return Some(c);
        }
        i = i + 1;
    }
    None
}

/// The install command of a package manager, before the packages: program
/// and arguments. `None` for a manager the agent does not know.
pub open spec fn install_prefix(pm: Seq<char>) -> Option<Seq<Seq<char>>> {
    if pm == "apt"@ {
        Some(seq!["apt-get"@, "install"@, "-y"@])
    } else if pm == "dnf"@ || pm == "yum"@ {
        Some(seq![pm, "install"@, "-y"@])
    } else if pm == "zypper"@ {
        Some(seq!["zypper"@, "install"@, "-y"@])
    } else if pm == "pacman"@ {
        Some(seq!["pacman"@, "-S"@, "--noconfirm"@])
    } else if pm == "brew"@ {
        Some(seq!["brew"@, "install"@])
    } else {
        None
    }
}

/// The command that installs packages: the argument vector (run as given,
/// program first) and the packages it installs.
pub struct InstallPlan {
    pub argv: Vec<String>,
    pub packages: Vec<String>,
}

fn same_text(s: &String, lit: &str) -> (b: bool)
    ensures
        b == (s@ == lit@),
{
    *s == owned(lit)
}

fn lookup_packages<'a>(table: &'a Vec<(String, Vec<String>)>, key: &String) -> (r: Option<&'a Vec<String>>)
    ensures
        r matches Some(v) ==> lookup_first(table.deep_view(), key@) == Some(v.deep_view()),
        r is None ==> lookup_first(table.deep_view(), key@) is None,
{
    let ghost all = table.deep_view();
    let mut i: usize = 0;
    assert(all.skip(0) =~= all);
    while i < table.len()
        invariant
            i <= table.len(),
            all == table.deep_view(),
            lookup_first(all, key@) == lookup_first(all.skip(i as int), key@),
        decreases table.len() - i,
    {
        assert(all.skip(i as int)[0] == all[i as int]);
        assert(all.skip(i as int).drop_first() =~= all.skip(i + 1));
        if table[i].0 == *key {
            return Some(&table[i].1);
        }
        i = i + 1;
    }
    None
}

/// Decides the package installation. `detected` is the first package manager
/// found on the system. With none found the installation fails. When the
/// table lists no packages for the manager, nothing is installed. Otherwise
/// the packages are installed with `sudo` and the manager's install command;
/// a manager without a known install command is an error.
pub fn install_dependencies(
    dependency_map: &Vec<(String, Vec<String>)>,
    detected: &Option<String>,
) -> (r: Result<Option<InstallPlan>, ExecutionError>)
    ensures
        detected is None ==> (r matches Err(ExecutionError::UnsupportedPackageManager(m)) && m@
            == "No supported package manager found"@),
        detected matches Some(pm) ==> match lookup_first(dependency_map.deep_view(), pm@) {
            None => r matches Ok(None),
            Some(packages) => match install_prefix(pm@) {
                Some(prefix) => (r matches Ok(Some(plan)) && plan.argv.deep_view() == seq!["sudo"@]
                    + prefix + packages && plan.packages.deep_view() == packages),
                None => (r matches Err(ExecutionError::UnsupportedPackageManager(m)) && m@ == pm@),
            },
        },
{
    let pm = match detected {
        Some(pm) => pm,
        None => {
            return Err(
                ExecutionError::UnsupportedPackageManager(
                    String::from_str("No supported package manager found"),
                ),
            );
        },
    };
    let packages = match lookup_packages(dependency_map, pm) {
        Some(p) => p,
        None => {
            return Ok(None);
        },
    };
    let mut argv: Vec<String> = Vec::new();
    argv.push(String::from_str("sudo"));
    if same_text(pm, "apt") {
        argv.push(String::from_str("apt-get"));
        argv.push(String::from_str("install"));
        argv.push(String::from_str("-y"));
    } else if same_text(pm, "dnf") || same_text(pm, "yum") {
        argv.push(pm.clone());
        argv.push(String::from_str("install"));
        argv.push(String::from_str("-y"));
    } else if same_text(pm, "zypper") {
        argv.push(String::from_str("zypper"));
        argv.push(String::from_str("install"));
        argv.push(String::from_str("-y"));
    } else if same_text(pm, "pacman") {
        argv.push(String::from_str("pacman"));
        argv.push(String::from_str("-S"));
        argv.push(String::from_str("--noconfirm"));
    } else if same_text(pm, "brew") {
        argv.push(String::from_str("brew"));
        argv.push(String::from_str("install"));
    } else {
        return Err(ExecutionError::UnsupportedPackageManager(pm.clone()));
    }
    let ghost prefix_view = argv.deep_view();
    assert(prefix_view =~= seq!["sudo"@] + install_prefix(pm@)->0);
    let mut i: usize = 0;
    while i < packages.len()
        invariant
            i <= packages.len(),
            argv@.len() == prefix_view.len() + i,
            argv.deep_view() == prefix_view + packages.deep_view().take(i as int),
        decreases packages.len() - i,
    {
        let ghost before = argv.deep_view();
        argv.push(packages[i].clone());
        assert(argv.deep_view() =~= before.push(packages@[i as int]@));
        assert(packages.deep_view().take(i + 1) =~= packages.deep_view().take(i as int).push(packages@[i as int]@));
        i = i + 1;
        assert(argv.deep_view() =~= prefix_view + packages.deep_view().take(i as int));
    }
    assert(packages.deep_view().take(i as int) =~= packages.deep_view());
    Ok(Some(InstallPlan { argv, packages: crate::common::copy_strings(packages) }))
}

/// Judges a package installation: a failed command is reported with the
/// packages joined by ", " and the command's error output.
pub fn dependency_install_outcome(packages: &Vec<String>, success: bool, stderr: String) -> (r: Result<
    (),
    ExecutionError,
>)
    ensures
        success ==> r is Ok,
        !success ==> (r matches Err(ExecutionError::DependencyInstallFailed { package, error })
            && package@ == join_with(packages@.map_values(|p: String| p@), ", "@) && error@
            == stderr@),
{
    if success {
        Ok(())
    } else {
        Err(ExecutionError::DependencyInstallFailed { package: join(packages, ", "), error: stderr })
    }
}

/// Judges a shell command: a failed command is reported with the command,
/// its exit code and its error output.
pub fn command_outcome(command: &str, success: bool, exit_code: Option<i32>, stderr: String) -> (r:
    Result<(), ExecutionError>)
    ensures
        success ==> r is Ok,
        !success ==> (r matches Err(ExecutionError::CommandFailed { command: c, exit_code: x, stderr: s })
            && c@ == command@ && x == exit_code && s@ == stderr@),
{
    if success {
        Ok(())
    } else {
        Err(ExecutionError::CommandFailed { command: owned(command), exit_code, stderr })
    }
}

/// The name of a service action as `systemctl` writes it.
pub open spec fn action_name(a: ServiceAction) -> Seq<char> {
    match a {
        ServiceAction::Stop => "stop"@,
        ServiceAction::Start => "start"@,
        ServiceAction::Restart => "restart"@,
        ServiceAction::Enable => "enable"@,
        ServiceAction::Disable => "disable"@,
        ServiceAction::EnableNow => "enable --now"@,
        ServiceAction::DisableNow => "disable --now"@,
        ServiceAction::Status => "status"@,
    }
}

/// The `systemctl` arguments of a service action: the words of its name.
pub open spec fn action_args(a: ServiceAction) -> Seq<Seq<char>> {
    match a {
        ServiceAction::Stop => seq!["stop"@],
        ServiceAction::Start => seq!["start"@],
        ServiceAction::Restart => seq!["restart"@],
        ServiceAction::Enable => seq!["enable"@],
        ServiceAction::Disable => seq!["disable"@],
        ServiceAction::EnableNow => seq!["enable"@, "--now"@],
        ServiceAction::DisableNow => seq!["disable"@, "--now"@],
        ServiceAction::Status => seq!["status"@],
    }
}

/// The name of a service action.
pub fn service_action_name(action: ServiceAction) -> (r: String)
    ensures
        r@ == action_name(action),
{
    match action {
        ServiceAction::Stop => String::from_str("stop"),
        ServiceAction::Start => String::from_str("start"),
        ServiceAction::Restart => String::from_str("restart"),
        ServiceAction::Enable => String::from_str("enable"),
        ServiceAction::Disable => String::from_str("disable"),
        ServiceAction::EnableNow => String::from_str("enable --now"),
        ServiceAction::DisableNow => String::from_str("disable --now"),
        ServiceAction::Status => String::from_str("status"),
    }
}

/// The command that performs a service action: `sudo systemctl`, the words
/// of the action, and the service.
pub fn service_command(service: &String, action: ServiceAction) -> (r: Vec<String>)
    ensures
        r.deep_view() == seq!["sudo"@, "systemctl"@] + action_args(action) + seq![service@],
{
    let mut r: Vec<String> = Vec::new();
    r.push(String::from_str("sudo"));
    r.push(String::from_str("systemctl"));
    match action {
        ServiceAction::Stop => r.push(String::from_str("stop")),
        ServiceAction::Start => r.push(String::from_str("start")),
        ServiceAction::Restart => r.push(String::from_str("restart")),
        ServiceAction::Enable => r.push(String::from_str("enable")),
        ServiceAction::Disable => r.push(String::from_str("disable")),
        ServiceAction::EnableNow => {
            r.push(String::from_str("enable"));
            r.push(String::from_str("--now"));
        },
        ServiceAction::DisableNow => {
            r.push(String::from_str("disable"));
            r.push(String::from_str("--now"));
        },
        ServiceAction::Status => r.push(String::from_str("status")),
    }
    r.push(service.clone());
    assert(r.deep_view() =~= seq!["sudo"@, "systemctl"@] + action_args(action) + seq![service@]);
    r
}

/// Judges a service action. A failure is an error for every action but
/// `Status`, whose failure only reports the state of the service.
pub fn service_action_outcome(service: &String, action: ServiceAction, success: bool, stderr: String) -> (r: Result<
    (),
    ExecutionError,
>)
    ensures
        (success || action == ServiceAction::Status) ==> r is Ok,
        !(success || action == ServiceAction::Status) ==> (r matches Err(
            ExecutionError::ServiceActionFailed { service: s, action: a, error },
        ) && s@ == service@ && a@ == action_name(action) && error@ == stderr@),
{
    if !success && action != ServiceAction::Status {
        Err(
            ExecutionError::ServiceActionFailed {
                service: service.clone(),
                action: service_action_name(action),
                error: stderr,
            },
        )
    } else {
        Ok(())
    }
}

/// Records the outcome of applying an update and builds the report for the
/// server. On success the agent now holds the update's revision of the
/// configuration, and reports success; on failure its revisions stay as they
/// were and it reports the failure with the error's message. No retries
/// have been made.
pub fn apply_update_outcome(
    current_revisions: &mut NameMap<String>,
    agent_id: u128,
    update: &ConfigurationUpdate,
    outcome: &Result<bool, ExecutionError>,
    timestamp: i64,
) -> (r: ConfigurationApplicationResult)
    ensures
        outcome is Ok ==> final(current_revisions)@ == old(current_revisions)@.insert(
            update.configuration_name@,
            update.new_revision,
        ),
        outcome is Err ==> final(current_revisions)@ == old(current_revisions)@,
        final(current_revisions)@ == revisions_after(
            old(current_revisions)@,
            seq![*update],
            seq![outcome is Ok],
        ),
        r.agent_id == agent_id,
        r.configuration_name@ == update.configuration_name@,
        r.timestamp == timestamp,
        r.retry_count == 0,
        outcome is Ok ==> r.status == ApplicationStatus::Success && r.error_message is None,
        outcome matches Err(e) ==> r.status == ApplicationStatus::Failed && (r.error_message matches Some(m)
            && m@ == error_message(*e)),
{
    proof {
        lemma_revisions_after_one(old(current_revisions)@, *update, outcome is Ok);
    }
    match outcome {
        Ok(_) => {
            current_revisions.insert(update.configuration_name.clone(), update.new_revision.clone());
            ConfigurationApplicationResult {
                agent_id,
                configuration_name: update.configuration_name.clone(),
                status: ApplicationStatus::Success,
                error_message: None,
                timestamp,
                retry_count: 0,
            }
        },
        Err(e) => ConfigurationApplicationResult {
            agent_id,
            configuration_name: update.configuration_name.clone(),
            status: ApplicationStatus::Failed,
            error_message: Some(e.message()),
            timestamp,
            retry_count: 0,
        },
    }
}

/// The machine's host name, or "unknown" when it could not be read.
pub fn hostname_or_unknown(hostname: Option<String>) -> (r: String)
    ensures
        hostname matches Some(h) ==> r@ == h@,
        hostname is None ==> r@ == "unknown"@,
{
    match hostname {
        Some(h) => h,
        None => String::from_str("unknown"),
    }
}

/// The disk usage of a file system from its statistics: the sizes are the
/// block counts times the fragment size, and the used bytes are the total
/// less the free blocks.
pub fn disk_usage_from_stats(
    fragment_size: u64,
    blocks: u64,
    blocks_free: u64,
    blocks_available: u64,
) -> (r: DiskUsage)
    requires
        blocks * fragment_size <= u64::MAX,
        blocks_available * fragment_size <= u64::MAX,
        blocks_free * fragment_size <= blocks * fragment_size,
    ensures
        r.total_bytes == blocks * fragment_size,
        r.available_bytes == blocks_available * fragment_size,
        r.used_bytes == blocks * fragment_size - blocks_free * fragment_size,
{
    let total_bytes = blocks * fragment_size;
    let available_bytes = blocks_available * fragment_size;
    let used_bytes = total_bytes - blocks_free * fragment_size;
    DiskUsage { total_bytes, used_bytes, available_bytes }
}

/// The telemetry report of an agent.
pub fn telemetry_report(
    agent_id: u128,
    hostname: Option<String>,
    disk_usage: DiskUsage,
    uptime_secs: u64,
    timestamp: i64,
) -> (r: AgentTelemetry)
    ensures
        r.agent_id == agent_id,
        hostname matches Some(h) ==> r.hostname@ == h@,
        hostname is None ==> r.hostname@ == "unknown"@,
        r.disk_usage == disk_usage,
        r.uptime_secs == uptime_secs,
        r.timestamp == timestamp,
{
    AgentTelemetry {
        agent_id,
        hostname: hostname_or_unknown(hostname),
        disk_usage,
        uptime_secs,
        timestamp,
    }
}

/// The address of an endpoint of the server's API: the server's URL, then
/// `/api/`, then the endpoint.
pub fn api_url(server_url: &str, endpoint: &str) -> (r: String)
    ensures
        r@ == server_url@ + "/api/"@ + endpoint@,
{
    let mut s = owned(server_url);
    s.append("/api/");
    s.append(endpoint);
    s
}

/// The registration request an agent sends: its token, public key, host name
/// ("unknown" when it could not be read) and persona.
pub fn registration_request(
    token: &str,
    public_key: &String,
    hostname: Option<String>,
    persona: &str,
) -> (r: RegistrationRequest)
    ensures
        r.token@ == token@,
        r.public_key@ == public_key@,
        hostname matches Some(h) ==> r.hostname@ == h@,
        hostname is None ==> r.hostname@ == "unknown"@,
        r.persona_name@ == persona@,
{
    RegistrationRequest {
        token: owned(token),
        public_key: public_key.clone(),
        hostname: hostname_or_unknown(hostname),
        persona_name: owned(persona),
    }
}

/// The settings a newly registered agent stores: the identifier it generated
/// for itself, the server, its private key, the token the server granted,
/// a poll every 300 seconds, at most 3 retries, and its persona.
pub fn registered_agent_config(
    agent_id: u128,
    server_url: &str,
    private_key: String,
    response: RegistrationResponse,
    persona: &str,
) -> (r: AgentConfig)
    ensures
        r.id == agent_id,
        r.server_url@ == server_url@,
        r.private_key@ == private_key@,
        r.auth_token matches Some(t) && t@ == response.auth_token@,
        r.poll_interval_secs == 300,
        r.max_retry_attempts == 3,
        r.persona_name@ == persona@,
{
    AgentConfig {
        id: agent_id,
        server_url: owned(server_url),
        private_key,
        auth_token: Some(response.auth_token),
        poll_interval_secs: 300,
        max_retry_attempts: 3,
        persona_name: owned(persona),
    }
}

/// The event the agent reports after `action`, when the step at position
/// `i`, if performed, ends with `outcomes[i]` (`None` for success) and the
/// reboot-required flag reads `flag`.
pub open spec fn reported_event(
    action: RunAction,
    outcomes: Seq<Option<ExecutionError>>,
    flag: bool,
) -> RunEvent {
    match action {
        RunAction::Perform(i) => match outcomes[i as int] {
            None => RunEvent::StepSucceeded,
            Some(e) => RunEvent::StepFailed(e),
        },
        RunAction::CheckRebootRequired => RunEvent::RebootRequired(flag),
        RunAction::Finish(_) => RunEvent::StepSucceeded,
    }
}

/// The position and action of a run after the start and `k` reports, each
/// report answering the previous action as `reported_event` says. A finished
/// run stays finished.
pub open spec fn run_trace(
    len: nat,
    reboot: RebootStrategy,
    outcomes: Seq<Option<ExecutionError>>,
    flag: bool,
    k: nat,
) -> (nat, RunAction)
    decreases k,
{
    if k == 0 {
        advance(len, reboot, 0, RunEvent::Started)
    } else {
        let prev = run_trace(len, reboot, outcomes, flag, (k - 1) as nat);
        if prev.1 is Finish {
            prev
        } else {
            advance(len, reboot, prev.0, reported_event(prev.1, outcomes, flag))
        }
    }
}

/// Whether a successful run ends with a reboot: always, never, or as the
/// reboot-required flag says.
pub open spec fn reboot_decision(reboot: RebootStrategy, flag: bool) -> bool {
    match reboot {
        RebootStrategy::Always => true,
        RebootStrategy::No => false,
        RebootStrategy::IfRequested => flag,
    }
}

/// The steps before position `k` all succeed.
pub open spec fn succeed_before(outcomes: Seq<Option<ExecutionError>>, k: int) -> bool {
    forall|i: int| 0 <= i < k ==> #[trigger] outcomes[i] is None
}

proof fn lemma_trace_prefix(
    len: nat,
    reboot: RebootStrategy,
    outcomes: Seq<Option<ExecutionError>>,
    flag: bool,
    k: nat,
)
    requires
        k < len,
        len <= usize::MAX,
        succeed_before(outcomes, k as int),
    ensures
        run_trace(len, reboot, outcomes, flag, k) == (k, RunAction::Perform(k as usize)),
    decreases k,
{
    if k > 0 {
        lemma_trace_prefix(len, reboot, outcomes, flag, (k - 1) as nat);
        assert(outcomes[k - 1] is None);
    }
}

proof fn lemma_trace_stays_finished(
    len: nat,
    reboot: RebootStrategy,
    outcomes: Seq<Option<ExecutionError>>,
    flag: bool,
    k: nat,
    m: nat,
)
    requires
        k <= m,
        run_trace(len, reboot, outcomes, flag, k).1 is Finish,
    ensures
        run_trace(len, reboot, outcomes, flag, m) == run_trace(len, reboot, outcomes, flag, k),
    decreases m - k,
{
    if k < m {
        lemma_trace_stays_finished(len, reboot, outcomes, flag, k, (m - 1) as nat);
    }
}

/// A run performs the steps of its plan one after the other, from the first,
/// and stops at the first step that fails: it then ends with that step's
/// error and performs no further step. When every step succeeds, it ends
/// with `Ok` of the reboot decision: always, never, or the reboot-required
/// flag that was reported. Here `outcomes[i]` is how step `i` ends if
/// performed (`None` for success), and `first_failure` is the position of
/// the first step that fails (`len` when none does).
pub proof fn lemma_run_stops_at_first_failure(
    len: nat,
    reboot: RebootStrategy,
    outcomes: Seq<Option<ExecutionError>>,
    flag: bool,
    first_failure: nat,
)
    requires
        len <= usize::MAX,
        outcomes.len() == len,
        first_failure <= len,
        succeed_before(outcomes, first_failure as int),
        first_failure < len ==> outcomes[first_failure as int] is Some,
    ensures
        forall|k: nat|
            k <= first_failure && k < len ==> #[trigger] run_trace(len, reboot, outcomes, flag, k) == (
                k,
                RunAction::Perform(k as usize),
            ),
        first_failure < len ==> forall|m: nat|
            m > first_failure ==> #[trigger] run_trace(len, reboot, outcomes, flag, m) == (
                first_failure,
                RunAction::Finish(Err(outcomes[first_failure as int]->0)),
            ),
        first_failure == len ==> forall|m: nat|
            m > len ==> (#[trigger] run_trace(len, reboot, outcomes, flag, m)).1 == RunAction::Finish(
                Ok(reboot_decision(reboot, flag)),
            ),
{
    let f = first_failure;
    assert forall|k: nat| k <= f && k < len implies #[trigger] run_trace(len, reboot, outcomes, flag, k)
        == (k, RunAction::Perform(k as usize)) by {
        lemma_trace_prefix(len, reboot, outcomes, flag, k);
    }
    if f < len {
        lemma_trace_prefix(len, reboot, outcomes, flag, f);
        assert(run_trace(len, reboot, outcomes, flag, f + 1) == (
            f,
            RunAction::Finish(Err(outcomes[f as int]->0)),
        ));
        assert forall|m: nat| m > f implies #[trigger] run_trace(len, reboot, outcomes, flag, m) == (
            f,
            RunAction::Finish(Err(outcomes[f as int]->0)),
        ) by {
            lemma_trace_stays_finished(len, reboot, outcomes, flag, f + 1, m);
        }
    } else {
        if len > 0 {
            lemma_trace_prefix(len, reboot, outcomes, flag, (len - 1) as nat);
            assert(outcomes[len - 1] is None);
        }
        assert(run_trace(len, reboot, outcomes, flag, len).1 == completion(reboot));
        assert(run_trace(len, reboot, outcomes, flag, len + 1).1 == RunAction::Finish(
            Ok(reboot_decision(reboot, flag)),
        ));
        assert forall|m: nat| m > len implies (#[trigger] run_trace(
            len,
            reboot,
            outcomes,
            flag,
            m,
        )).1 == RunAction::Finish(Ok(reboot_decision(reboot, flag))) by {
            lemma_trace_stays_finished(len, reboot, outcomes, flag, len + 1, m);
        }
    }
}

/// The revisions an agent holds after applying `updates` in order, where
/// `succeeded[i]` says whether the `i`-th application succeeded.
pub open spec fn revisions_after(
    current: Map<Seq<char>, String>,
    updates: Seq<ConfigurationUpdate>,
    succeeded: Seq<bool>,
) -> Map<Seq<char>, String>
    decreases updates.len(),
{
    if updates.len() == 0 {
        current
    } else {
        let prev = revisions_after(current, updates.drop_last(), succeeded);
        let u = updates.last();
        if succeeded[updates.len() - 1] {
            prev.insert(u.configuration_name@, u.new_revision)
        } else {
            prev
        }
    }
}

/// After a poll cycle, each configuration holds the revision of its last
/// successfully applied update, and every configuration without a
/// successful update keeps what it had (absent stays absent). Each step of
/// `revisions_after` is what `apply_update_outcome` does.
pub proof fn lemma_revisions_after_poll(
    current: Map<Seq<char>, String>,
    updates: Seq<ConfigurationUpdate>,
    succeeded: Seq<bool>,
    k: Seq<char>,
)
    requires
        succeeded.len() == updates.len(),
    ensures
        (forall|i: int|
            0 <= i < updates.len() ==> !(succeeded[i] && #[trigger] updates[i].configuration_name@
                == k)) ==> (revisions_after(current, updates, succeeded).contains_key(k)
            == current.contains_key(k) && revisions_after(current, updates, succeeded)[k] == current[k]),
        forall|i: int|
            0 <= i < updates.len() && succeeded[i] && #[trigger] updates[i].configuration_name@ == k
                && (forall|j: int|
                i < j < updates.len() ==> !(succeeded[j] && #[trigger] updates[j].configuration_name@
                    == k)) ==> revisions_after(current, updates, succeeded).contains_key(k)
                && revisions_after(current, updates, succeeded)[k] == updates[i].new_revision,
    decreases updates.len(),
{
    if updates.len() > 0 {
        let d = updates.drop_last();
        let sd = succeeded.drop_last();
        let n = updates.len() - 1;
        lemma_revisions_after_poll(current, d, sd, k);
        assert(revisions_after(current, d, succeeded) == revisions_after(current, d, sd)) by {
            lemma_revisions_after_prefix(current, d, succeeded, sd);
        }
        assert forall|i: int| 0 <= i < d.len() implies d[i] == updates[i] && sd[i] == succeeded[i] by {}
    }
}

proof fn lemma_revisions_after_prefix(
    current: Map<Seq<char>, String>,
    updates: Seq<ConfigurationUpdate>,
    a: Seq<bool>,
    b: Seq<bool>,
)
    requires
        updates.len() <= a.len(),
        updates.len() <= b.len(),
        forall|i: int| 0 <= i < updates.len() ==> a[i] == b[i],
    ensures
        revisions_after(current, updates, a) == revisions_after(current, updates, b),
    decreases updates.len(),
{
    if updates.len() > 0 {
        lemma_revisions_after_prefix(current, updates.drop_last(), a, b);
    }
}

/// Applying one more update continues the poll cycle: the revisions after
/// the longer sequence are those after the shorter one with one more
/// outcome recorded, as `apply_update_outcome` records it.
pub proof fn lemma_revisions_after_step(
    current: Map<Seq<char>, String>,
    updates: Seq<ConfigurationUpdate>,
    succeeded: Seq<bool>,
    u: ConfigurationUpdate,
    ok: bool,
)
    requires
        succeeded.len() == updates.len(),
    ensures
        revisions_after(current, updates.push(u), succeeded.push(ok)) == revisions_after(
            revisions_after(current, updates, succeeded),
            seq![u],
            seq![ok],
        ),
{
    let us = updates.push(u);
    let ss = succeeded.push(ok);
    assert(us.drop_last() =~= updates);
    assert(us.last() == u);
    assert(ss[us.len() - 1] == ok);
    lemma_revisions_after_prefix(current, updates, ss, succeeded);
    lemma_revisions_after_one(revisions_after(current, updates, succeeded), u, ok);
}

proof fn lemma_revisions_after_one(current: Map<Seq<char>, String>, u: ConfigurationUpdate, ok: bool)
    ensures
        revisions_after(current, seq![u], seq![ok]) == if ok {
            current.insert(u.configuration_name@, u.new_revision)
        } else {
            current
        },
{
    let us = seq![u];
    assert(us.drop_last() =~= Seq::<ConfigurationUpdate>::empty());
    assert(revisions_after(current, us.drop_last(), seq![ok]) == current);
    assert(us.last() == u);
    assert(seq![ok][0] == ok);
}

/// The steps with every template rendering given the variables `vars`.
pub open spec fn with_variables(
    steps: Seq<StepModel>,
    vars: Option<Seq<(Seq<char>, Seq<char>)>>,
) -> Seq<StepModel> {
    steps.map_values(
        |st: StepModel|
            match st {
                StepModel::RenderTemplates { templates, variables } => StepModel::RenderTemplates {
                    templates,
                    variables: vars,
                },
                _ => st,
            },
    )
}

proof fn lemma_with_variables_concat(
    a: Seq<StepModel>,
    b: Seq<StepModel>,
    vars: Option<Seq<(Seq<char>, Seq<char>)>>,
)
    ensures
        with_variables(a + b, vars) == with_variables(a, vars) + with_variables(b, vars),
{
    assert(with_variables(a + b, vars) =~= with_variables(a, vars) + with_variables(b, vars));
}

proof fn lemma_with_variables_fixed(a: Seq<StepModel>, vars: Option<Seq<(Seq<char>, Seq<char>)>>)
    requires
        forall|i: int| 0 <= i < a.len() ==> !(#[trigger] a[i] is RenderTemplates),
    ensures
        with_variables(a, vars) == a,
{
    assert(with_variables(a, vars) =~= a);
}

/// The variables of a configuration reach only its template rendering:
/// two configurations that differ in their variables alone have the same
/// steps, file copies included, except for the variables the rendering
/// step carries.
pub proof fn lemma_variables_reach_only_templates(c1: ConfigurationModel, c2: ConfigurationModel)
    requires
        c1.desc == c2.desc,
        c1.file_map == c2.file_map,
        c1.template_map == c2.template_map,
        c1.commands == c2.commands,
        c1.services == c2.services,
        c1.dependency_map == c2.dependency_map,
        c1.reboot == c2.reboot,
    ensures
        configuration_steps(c2) == with_variables(configuration_steps(c1), c2.variable_map),
{
    let v = c2.variable_map;
    let p1 = stage_steps(c1.commands, CommandStage::PreDeps);
    let p2 = match c1.dependency_map {
        Some(d) => seq![StepModel::InstallDependencies(d)],
        None => Seq::empty(),
    };
    let p3 = stage_steps(c1.commands, CommandStage::PostDeps);
    let p4 = stage_steps(c1.commands, CommandStage::PreFiles);
    let p5 = match c1.file_map {
        Some(f) => seq![StepModel::CopyFiles(f)],
        None => Seq::empty(),
    };
    let p6 = match c1.template_map {
        Some(t) => seq![StepModel::RenderTemplates { templates: t, variables: c1.variable_map }],
        None => Seq::empty(),
    };
    let p6b = match c2.template_map {
        Some(t) => seq![StepModel::RenderTemplates { templates: t, variables: c2.variable_map }],
        None => Seq::empty(),
    };
    let p7 = stage_steps(c1.commands, CommandStage::PostFiles);
    let p8 = match c1.services {
        Some(s) => service_steps(s),
        None => Seq::empty(),
    };
    let p9 = stage_steps(c1.commands, CommandStage::After);
    assert(configuration_steps(c1) == p1 + p2 + p3 + p4 + p5 + p6 + p7 + p8 + p9);
    assert(configuration_steps(c2) == p1 + p2 + p3 + p4 + p5 + p6b + p7 + p8 + p9);
    lemma_with_variables_concat(p1 + p2 + p3 + p4 + p5 + p6 + p7 + p8, p9, v);
    lemma_with_variables_concat(p1 + p2 + p3 + p4 + p5 + p6 + p7, p8, v);
    lemma_with_variables_concat(p1 + p2 + p3 + p4 + p5 + p6, p7, v);
    lemma_with_variables_concat(p1 + p2 + p3 + p4 + p5, p6, v);
    lemma_with_variables_concat(p1 + p2 + p3 + p4, p5, v);
    lemma_with_variables_concat(p1 + p2 + p3, p4, v);
    lemma_with_variables_concat(p1 + p2, p3, v);
    lemma_with_variables_concat(p1, p2, v);
    assert forall|st: CommandStage| #![auto] true implies with_variables(stage_steps(c1.commands, st), v)
        == stage_steps(c1.commands, st) by {
        let a = stage_steps(c1.commands, st);
        assert forall|i: int| 0 <= i < a.len() implies !(#[trigger] a[i] is RenderTemplates) by {}
        lemma_with_variables_fixed(a, v);
    }
    assert(with_variables(stage_steps(c1.commands, CommandStage::PreDeps), v) == p1);
    assert(with_variables(stage_steps(c1.commands, CommandStage::PostDeps), v) == p3);
    assert(with_variables(stage_steps(c1.commands, CommandStage::PreFiles), v) == p4);
    assert(with_variables(stage_steps(c1.commands, CommandStage::PostFiles), v) == p7);
    assert(with_variables(stage_steps(c1.commands, CommandStage::After), v) == p9);
    assert forall|i: int| 0 <= i < p8.len() implies !(#[trigger] p8[i] is RenderTemplates) by {}
    lemma_with_variables_fixed(p8, v);
    assert(with_variables(p2, v) =~= p2);
    assert(with_variables(p5, v) =~= p5);
    assert(with_variables(p6, v) =~= p6b);
}

/// Whether the agent can run its loop: it holds an authentication token.
pub fn agent_can_run(config: &AgentConfig) -> (r: bool)
    ensures
        r == config.auth_token is Some,
{
    config.auth_token.is_some()
}

/// Where each kind of step sits in the plan of a configuration: the
/// installation, the file copies, the template rendering and the service
/// actions each occupy a stretch of positions, in that order, and every
/// other position runs a command.
proof fn lemma_plan_layout(c: ConfigurationModel)
    ensures
        ({
            let steps = configuration_steps(c);
            let l1 = stage_steps(c.commands, CommandStage::PreDeps).len() as int;
            let l2 = l1 + (if c.dependency_map is Some { 1int } else { 0int });
            let l4 = l2 + stage_steps(c.commands, CommandStage::PostDeps).len() + stage_steps(
                c.commands,
                CommandStage::PreFiles,
            ).len();
            let l5 = l4 + (if c.file_map is Some { 1int } else { 0int });
            let l6 = l5 + (if c.template_map is Some { 1int } else { 0int });
            let l7 = l6 + stage_steps(c.commands, CommandStage::PostFiles).len();
            let l8 = l7 + (match c.services {
                Some(s) => s.len() as int,
                None => 0int,
            });
            &&& l8 <= steps.len()
            &&& (c.dependency_map matches Some(d) ==> steps[l1] == StepModel::InstallDependencies(d))
            &&& (c.file_map matches Some(f) ==> steps[l4] == StepModel::CopyFiles(f))
            &&& (c.template_map matches Some(t) ==> steps[l5] == StepModel::RenderTemplates {
                templates: t,
                variables: c.variable_map,
            })
            &&& (c.services matches Some(sv) ==> forall|t: int|
                0 <= t < sv.len() ==> steps[l7 + t] == StepModel::ServiceAction(
                    (#[trigger] sv[t]).0,
                    sv[t].1,
                ))
            &&& forall|j: int|
                0 <= j < steps.len() ==> {
                    &&& (#[trigger] steps[j] is InstallDependencies ==> l1 <= j < l2)
                    &&& (steps[j] is CopyFiles ==> l4 <= j < l5)
                    &&& (steps[j] is RenderTemplates ==> l5 <= j < l6)
                    &&& (steps[j] is ServiceAction ==> l7 <= j < l8)
                }
        }),
{
    let p1 = stage_steps(c.commands, CommandStage::PreDeps);
    let p2 = match c.dependency_map {
        Some(d) => seq![StepModel::InstallDependencies(d)],
        None => Seq::empty(),
    };
    let p3 = stage_steps(c.commands, CommandStage::PostDeps);
    let p4 = stage_steps(c.commands, CommandStage::PreFiles);
    let p5 = match c.file_map {
        Some(f) => seq![StepModel::CopyFiles(f)],
        None => Seq::empty(),
    };
    let p6 = match c.template_map {
        Some(t) => seq![StepModel::RenderTemplates { templates: t, variables: c.variable_map }],
        None => Seq::empty(),
    };
    let p7 = stage_steps(c.commands, CommandStage::PostFiles);
    let p8 = match c.services {
        Some(s) => service_steps(s),
        None => Seq::empty(),
    };
    let p9 = stage_steps(c.commands, CommandStage::After);
    let steps = configuration_steps(c);
    assert(steps == p1 + p2 + p3 + p4 + p5 + p6 + p7 + p8 + p9);
    assert forall|st: CommandStage, i: int|
        0 <= i < stage_steps(c.commands, st).len() implies (#[trigger] stage_steps(c.commands, st)[i]) is RunCommand by {}
    let l1 = p1.len() as int;
    let l2 = l1 + p2.len();
    let l3 = l2 + p3.len();
    let l4 = l3 + p4.len();
    let l5 = l4 + p5.len();
    let l6 = l5 + p6.len();
    let l7 = l6 + p7.len();
    let l8 = l7 + p8.len();
    assert forall|j: int| 0 <= j < steps.len() implies {
        &&& (#[trigger] steps[j] is InstallDependencies ==> l1 <= j < l2)
        &&& (steps[j] is CopyFiles ==> l4 <= j < l5)
        &&& (steps[j] is RenderTemplates ==> l5 <= j < l6)
        &&& (steps[j] is ServiceAction ==> l7 <= j < l8)
    } by {
        if j < l1 {
            assert(steps[j] == p1[j]);
            assert(p1[j] is RunCommand);
        } else if j < l2 {
            assert(steps[j] == p2[j - l1]);
        } else if j < l3 {
            assert(steps[j] == p3[j - l2]);
            assert(p3[j - l2] is RunCommand);
        } else if j < l4 {
            assert(steps[j] == p4[j - l3]);
            assert(p4[j - l3] is RunCommand);
        } else if j < l5 {
            assert(steps[j] == p5[j - l4]);
        } else if j < l6 {
            assert(steps[j] == p6[j - l5]);
        } else if j < l7 {
            assert(steps[j] == p7[j - l6]);
            assert(p7[j - l6] is RunCommand);
        } else if j < l8 {
            assert(steps[j] == p8[j - l7]);
            assert(p8[j - l7] is ServiceAction);
        } else {
            assert(steps[j] == p9[j - l8]);
            assert(p9[j - l8] is RunCommand);
        }
    }
    if c.dependency_map is Some {
        assert(steps[l1] == p2[0]);
    }
    if c.file_map is Some {
        assert(steps[l4] == p5[0]);
    }
    if c.template_map is Some {
        assert(steps[l5] == p6[0]);
    }
    if c.services is Some {
        assert forall|t: int| 0 <= t < p8.len() implies steps[l7 + t] == #[trigger] p8[t] by {}
    }
}

/// A configuration with templates has exactly one rendering step, carrying
/// its templates and its variables, whatever its other parts; one without
/// templates has none.
#[verifier::rlimit(40)]
pub proof fn lemma_templates_rendered_once(c: ConfigurationModel)
    ensures
        (c.template_map matches Some(t) ==> exists|i: int|
            0 <= i < configuration_steps(c).len() && configuration_steps(c)[i]
                == (StepModel::RenderTemplates { templates: t, variables: c.variable_map }) && forall|j: int|
                0 <= j < configuration_steps(c).len() && (#[trigger] configuration_steps(c)[j]) is RenderTemplates
                    ==> j == i),
        (c.template_map is None ==> forall|j: int|
            0 <= j < configuration_steps(c).len() ==> !((#[trigger] configuration_steps(c)[j]) is RenderTemplates)),
{
    lemma_plan_layout(c);
    let l1 = stage_steps(c.commands, CommandStage::PreDeps).len() as int;
    let l2 = l1 + (if c.dependency_map is Some { 1int } else { 0int });
    let l4 = l2 + stage_steps(c.commands, CommandStage::PostDeps).len() + stage_steps(
        c.commands,
        CommandStage::PreFiles,
    ).len();
    let l5 = l4 + (if c.file_map is Some { 1int } else { 0int });
    if c.template_map is Some {
        assert(configuration_steps(c)[l5] == (StepModel::RenderTemplates { templates: c.template_map->0, variables: c.variable_map }));
    }
}

/// A configuration with files to copy has exactly one copy step, carrying
/// its file list, whatever its other parts; one without has none.
#[verifier::rlimit(40)]
pub proof fn lemma_files_copied_once(c: ConfigurationModel)
    ensures
        (c.file_map matches Some(f) ==> exists|i: int|
            0 <= i < configuration_steps(c).len() && configuration_steps(c)[i] == StepModel::CopyFiles(f)
                && forall|j: int|
                0 <= j < configuration_steps(c).len() && (#[trigger] configuration_steps(c)[j]) is CopyFiles ==> j == i),
        (c.file_map is None ==> forall|j: int|
            0 <= j < configuration_steps(c).len() ==> !((#[trigger] configuration_steps(c)[j]) is CopyFiles)),
{
    lemma_plan_layout(c);
    let l1 = stage_steps(c.commands, CommandStage::PreDeps).len() as int;
    let l2 = l1 + (if c.dependency_map is Some { 1int } else { 0int });
    let l4 = l2 + stage_steps(c.commands, CommandStage::PostDeps).len() + stage_steps(
        c.commands,
        CommandStage::PreFiles,
    ).len();
    let l5 = l4 + (if c.file_map is Some { 1int } else { 0int });
    if c.file_map is Some {
        assert(configuration_steps(c)[l4] == StepModel::CopyFiles(c.file_map->0));
    }
}

/// A configuration with a package table has exactly one installation step,
/// carrying that table, whatever its other parts; one without has none.
#[verifier::rlimit(40)]
pub proof fn lemma_packages_installed_once(c: ConfigurationModel)
    ensures
        (c.dependency_map matches Some(d) ==> exists|i: int|
            0 <= i < configuration_steps(c).len() && configuration_steps(c)[i]
                == StepModel::InstallDependencies(d) && forall|j: int|
                0 <= j < configuration_steps(c).len() && (#[trigger] configuration_steps(c)[j]) is InstallDependencies
                    ==> j == i),
        (c.dependency_map is None ==> forall|j: int|
            0 <= j < configuration_steps(c).len() ==> !((#[trigger] configuration_steps(c)[j]) is InstallDependencies)),
{
    lemma_plan_layout(c);
    let l1 = stage_steps(c.commands, CommandStage::PreDeps).len() as int;
    let l2 = l1 + (if c.dependency_map is Some { 1int } else { 0int });
    let l4 = l2 + stage_steps(c.commands, CommandStage::PostDeps).len() + stage_steps(
        c.commands,
        CommandStage::PreFiles,
    ).len();
    let l5 = l4 + (if c.file_map is Some { 1int } else { 0int });
    if c.dependency_map is Some {
        assert(configuration_steps(c)[l1] == StepModel::InstallDependencies(c.dependency_map->0));
    }
}

/// From position `k` on, the steps act on the services in the order listed.
pub open spec fn services_at(steps: Seq<StepModel>, sv: Seq<(Seq<char>, ServiceAction)>, k: int) -> bool {
    &&& 0 <= k
    &&& k + sv.len() <= steps.len()
    &&& forall|t: int|
        0 <= t < sv.len() ==> steps[k + t] == StepModel::ServiceAction((#[trigger] sv[t]).0, sv[t].1)
}

/// The service actions of a configuration are performed one step each, one
/// after the other in the order listed, and no other step acts on a
/// service.
pub proof fn lemma_services_in_order(c: ConfigurationModel)
    ensures
        (c.services matches Some(sv) ==> exists|k: int|
            #[trigger] services_at(configuration_steps(c), sv, k) && (forall|j: int|
                0 <= j < configuration_steps(c).len() && (#[trigger] configuration_steps(c)[j]) is ServiceAction
                    ==> k <= j < k + sv.len())),
        (c.services is None ==> forall|j: int|
            0 <= j < configuration_steps(c).len() ==> !((#[trigger] configuration_steps(c)[j]) is ServiceAction)),
{
    lemma_plan_layout(c);
    if c.services is Some {
        let l1 = stage_steps(c.commands, CommandStage::PreDeps).len() as int;
        let l2 = l1 + (if c.dependency_map is Some { 1int } else { 0int });
        let l4 = l2 + stage_steps(c.commands, CommandStage::PostDeps).len() + stage_steps(
            c.commands,
            CommandStage::PreFiles,
        ).len();
        let l5 = l4 + (if c.file_map is Some { 1int } else { 0int });
        let l6 = l5 + (if c.template_map is Some { 1int } else { 0int });
        let l7 = l6 + stage_steps(c.commands, CommandStage::PostFiles).len();
        assert(services_at(configuration_steps(c), c.services->0, l7));
    }
}

/// The kinds of step come in a fixed order: package installation before
/// file copies, file copies before template rendering, template rendering
/// before service actions.
pub proof fn lemma_step_kinds_in_order(c: ConfigurationModel, i: int, j: int)
    requires
        0 <= i < configuration_steps(c).len(),
        0 <= j < configuration_steps(c).len(),
    ensures
        (configuration_steps(c)[i] is InstallDependencies && (configuration_steps(c)[j] is CopyFiles
            || configuration_steps(c)[j] is RenderTemplates || configuration_steps(c)[j] is ServiceAction) ==> i < j),
        (configuration_steps(c)[i] is CopyFiles && (configuration_steps(c)[j] is RenderTemplates
            || configuration_steps(c)[j] is ServiceAction) ==> i < j),
        (configuration_steps(c)[i] is RenderTemplates && configuration_steps(c)[j] is ServiceAction ==> i < j),
{
    lemma_plan_layout(c);
}

/// The `systemctl` arguments of every service action are the words of its
/// name: joined with single spaces they give the name back, and each is a
/// non-empty word without spaces.
pub proof fn lemma_action_args_are_words_of_name(a: ServiceAction)
    ensures
        join_with(action_args(a), " "@) == action_name(a),
        forall|i: int|
            0 <= i < action_args(a).len() ==> (#[trigger] action_args(a)[i]).len() > 0 && !action_args(
                a,
            )[i].contains(' '),
{
    reveal_strlit(" ");
    reveal_strlit("stop");
    reveal_strlit("start");
    reveal_strlit("restart");
    reveal_strlit("enable");
    reveal_strlit("disable");
    reveal_strlit("status");
    reveal_strlit("--now");
    reveal_strlit("enable --now");
    reveal_strlit("disable --now");
    reveal_with_fuel(join_with, 3);
    let args = action_args(a);
    if args.len() == 2 {
        assert(args.drop_last() =~= seq![args[0]]);
        assert(join_with(args, " "@) == join_with(seq![args[0]], " "@) + " "@ + args[1]);
    }
    match a {
        ServiceAction::EnableNow => {
            assert("enable"@ + " "@ + "--now"@ =~= "enable --now"@);
        },
        ServiceAction::DisableNow => {
            assert("disable"@ + " "@ + "--now"@ =~= "disable --now"@);
        },
        _ => {},
    }
    assert forall|i: int| 0 <= i < args.len() implies (#[trigger] args[i]).len() > 0 && !args[i].contains(' ') by {
        let w = args[i];
        assert forall|k: int| 0 <= k < w.len() implies w[k] != ' ' by {}
    }
}

} // verus!
