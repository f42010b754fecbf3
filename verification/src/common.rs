//! The data that agents, the server and the bridge exchange: configurations,
//! compositions, personas and the messages of the network protocol.
//!
//! Identifiers are UUIDs, held here as their 128-bit value. The maps of a
//! configuration are lists of entries, in the order in which they were read.

use vstd::prelude::*;
use crate::name_map::NameMap;

verus! {

/// When the agent asks for a reboot after applying a configuration.
#[derive(Clone, Copy, Debug, PartialEq, Eq, Structural, Hash)]
pub enum RebootStrategy {
    No,
    Always,
    IfRequested,
}

/// The points in the application of a configuration at which its commands run.
#[derive(Clone, Copy, Debug, PartialEq, Eq, Structural, Hash)]
pub enum CommandStage {
    PreDeps,
    PostDeps,
    PreFiles,
    PostFiles,
    After,
}

/// What is done to a system service.
#[derive(Clone, Copy, Debug, PartialEq, Eq, Structural, Hash)]
pub enum ServiceAction {
    Stop,
    Start,
    Restart,
    Enable,
    Disable,
    EnableNow,
    DisableNow,
    Status,
}

impl DeepView for CommandStage {
    type V = CommandStage;

    open spec fn deep_view(&self) -> CommandStage {
        *self
    }
}

impl DeepView for ServiceAction {
    type V = ServiceAction;

    open spec fn deep_view(&self) -> ServiceAction {
        *self
    }
}

/// A unit of machine configuration: commands by stage, packages by package
/// manager, files to copy, templates to render, service actions, variables,
/// and the reboot strategy.
#[derive(Clone, Debug)]
pub struct Configuration {
    pub desc: String,
    /// Variables substituted into templates: (name, value).
    pub variable_map: Option<Vec<(String, String)>>,
    /// Files to copy: (source relative to the configuration, destination).
    pub file_map: Option<Vec<(String, String)>>,
    /// Templates to render: (source relative to the configuration, destination).
    pub template_map: Option<Vec<(String, String)>>,
    /// Commands by stage; a well-formed configuration lists each stage at
    /// most once (`stages_distinct`).
    pub commands: Option<Vec<(CommandStage, Vec<String>)>>,
    /// Service actions: (service, action).
    pub services: Option<Vec<(String, ServiceAction)>>,
    /// Packages by package manager: (manager, packages).
    pub dependency_map: Option<Vec<(String, Vec<String>)>>,
    pub reboot: RebootStrategy,
}

/// The mathematical value of a configuration.
pub struct ConfigurationModel {
    pub desc: Seq<char>,
    pub variable_map: Option<Seq<(Seq<char>, Seq<char>)>>,
    pub file_map: Option<Seq<(Seq<char>, Seq<char>)>>,
    pub template_map: Option<Seq<(Seq<char>, Seq<char>)>>,
    pub commands: Option<Seq<(CommandStage, Seq<Seq<char>>)>>,
    pub services: Option<Seq<(Seq<char>, ServiceAction)>>,
    pub dependency_map: Option<Seq<(Seq<char>, Seq<Seq<char>>)>>,
    pub reboot: RebootStrategy,
}

impl DeepView for Configuration {
    type V = ConfigurationModel;

    open spec fn deep_view(&self) -> ConfigurationModel {
        ConfigurationModel {
            desc: self.desc@,
            variable_map: self.variable_map.deep_view(),
            file_map: self.file_map.deep_view(),
            template_map: self.template_map.deep_view(),
            commands: self.commands.deep_view(),
            services: self.services.deep_view(),
            dependency_map: self.dependency_map.deep_view(),
            reboot: self.reboot,
        }
    }
}

/// A named group of configurations.
#[derive(Clone, Debug)]
pub struct Composition {
    pub desc: String,
    pub configurations: Vec<String>,
}

/// The role of a machine: the compositions it receives.
#[derive(Clone, Debug)]
pub struct Persona {
    pub name: String,
    pub id: u128,
    pub compositions: Vec<String>,
}

/// A git repository that holds configurations, compositions and personas.
#[derive(Clone, Debug)]
pub struct GitRepository {
    pub url: String,
    pub branch: String,
    pub ssh_key_path: Option<String>,
}

/// A token that lets an agent register; it expires at `expires_at` (UNIX
/// seconds) and may be good for one registration only.
#[derive(Clone, Debug)]
pub struct RegistrationToken {
    pub token: String,
    pub expires_at: i64,
    pub single_use: bool,
}

/// An agent's request to register with the server.
#[derive(Clone, Debug)]
pub struct RegistrationRequest {
    pub token: String,
    pub public_key: String,
    pub hostname: String,
    pub persona_name: String,
}

/// The server's answer to a registration.
#[derive(Clone, Debug)]
pub struct RegistrationResponse {
    pub auth_token: String,
    pub agent_id: u128,
}

/// A request that carries an agent's credentials.
#[derive(Clone, Debug)]
pub struct AuthenticatedRequest {
    pub agent_id: u128,
    pub auth_token: String,
    pub signature: String,
}

/// What an agent reports about its machine.
#[derive(Clone, Debug)]
pub struct AgentTelemetry {
    pub agent_id: u128,
    pub hostname: String,
    pub disk_usage: DiskUsage,
    pub uptime_secs: u64,
    pub timestamp: i64,
}

/// Disk usage of the root file system, in bytes.
#[derive(Clone, Copy, Debug, PartialEq, Eq, Structural)]
pub struct DiskUsage {
    pub total_bytes: u64,
    pub used_bytes: u64,
    pub available_bytes: u64,
}

/// The outcome of applying a configuration.
#[derive(Clone, Copy, Debug, PartialEq, Eq, Structural)]
pub enum ApplicationStatus {
    Success,
    Failed,
    Retrying { attempt: u32, max_attempts: u32 },
}

/// An agent's report on applying one configuration.
#[derive(Clone, Debug)]
pub struct ConfigurationApplicationResult {
    pub agent_id: u128,
    pub configuration_name: String,
    pub status: ApplicationStatus,
    pub error_message: Option<String>,
    pub timestamp: i64,
    pub retry_count: u32,
}

/// An agent's question for updates: the revision it holds of each
/// configuration it has applied.
pub struct ConfigurationCheckRequest {
    pub agent_id: u128,
    pub current_revisions: NameMap<String>,
}

/// The server's answer: the configurations the agent should apply.
#[derive(Clone, Debug)]
pub struct ConfigurationCheckResponse {
    pub updates_available: Vec<ConfigurationUpdate>,
}

/// One configuration to apply, at a new revision.
#[derive(Clone, Debug)]
pub struct ConfigurationUpdate {
    pub configuration_name: String,
    pub new_revision: String,
    pub configuration: Configuration,
}

/// The mathematical value of an update: name, revision and configuration.
pub struct UpdateModel {
    pub name: Seq<char>,
    pub revision: Seq<char>,
    pub configuration: ConfigurationModel,
}

impl DeepView for ConfigurationUpdate {
    type V = UpdateModel;

    open spec fn deep_view(&self) -> UpdateModel {
        UpdateModel {
            name: self.configuration_name@,
            revision: self.new_revision@,
            configuration: self.configuration.deep_view(),
        }
    }
}

/// A copy of a list of strings.
pub fn copy_strings(v: &Vec<String>) -> (r: Vec<String>)
    ensures
        r.deep_view() == v.deep_view(),
{
    let mut r: Vec<String> = Vec::new();
    let mut i: usize = 0;
    while i < v.len()
        invariant
            i <= v.len(),
            r@.len() == i,
            r.deep_view() == v.deep_view().take(i as int),
        decreases v.len() - i,
    {
        r.push(v[i].clone());
        i = i + 1;
        assert(r.deep_view() =~= v.deep_view().take(i as int));
    }
    assert(v.deep_view().take(i as int) =~= v.deep_view());
    r
}

/// A copy of a list of string pairs.
pub fn copy_pairs(v: &Vec<(String, String)>) -> (r: Vec<(String, String)>)
    ensures
        r.deep_view() == v.deep_view(),
{
    let mut r: Vec<(String, String)> = Vec::new();
    let mut i: usize = 0;
    while i < v.len()
        invariant
            i <= v.len(),
            r@.len() == i,
            r.deep_view() == v.deep_view().take(i as int),
        decreases v.len() - i,
    {
        r.push((v[i].0.clone(), v[i].1.clone()));
        assert(r@[i as int].deep_view() == v@[i as int].deep_view());
        i = i + 1;
        assert(r.deep_view() =~= v.deep_view().take(i as int));
    }
    assert(v.deep_view().take(i as int) =~= v.deep_view());
    r
}

fn copy_stage_commands(v: &Vec<(CommandStage, Vec<String>)>) -> (r: Vec<(CommandStage, Vec<String>)>)
    ensures
        r.deep_view() == v.deep_view(),
{
    let mut r: Vec<(CommandStage, Vec<String>)> = Vec::new();
    let mut i: usize = 0;
    while i < v.len()
        invariant
            i <= v.len(),
            r@.len() == i,
            r.deep_view() == v.deep_view().take(i as int),
        decreases v.len() - i,
    {
        r.push((v[i].0, copy_strings(&v[i].1)));
        assert(r@[i as int].deep_view() == v@[i as int].deep_view());
        i = i + 1;
        assert(r.deep_view() =~= v.deep_view().take(i as int));
    }
    assert(v.deep_view().take(i as int) =~= v.deep_view());
    r
}

fn copy_services(v: &Vec<(String, ServiceAction)>) -> (r: Vec<(String, ServiceAction)>)
    ensures
        r.deep_view() == v.deep_view(),
{
    let mut r: Vec<(String, ServiceAction)> = Vec::new();
    let mut i: usize = 0;
    while i < v.len()
        invariant
            i <= v.len(),
            r@.len() == i,
            r.deep_view() == v.deep_view().take(i as int),
        decreases v.len() - i,
    {
        r.push((v[i].0.clone(), v[i].1));
        assert(r@[i as int].deep_view() == v@[i as int].deep_view());
        i = i + 1;
        assert(r.deep_view() =~= v.deep_view().take(i as int));
    }
    assert(v.deep_view().take(i as int) =~= v.deep_view());
    r
}

/// A copy of a table of package lists by package manager.
pub fn copy_dependency_table(v: &Vec<(String, Vec<String>)>) -> (r: Vec<(String, Vec<String>)>)
    ensures
        r.deep_view() == v.deep_view(),
{
    let mut r: Vec<(String, Vec<String>)> = Vec::new();
    let mut i: usize = 0;
    while i < v.len()
        invariant
            i <= v.len(),
            r@.len() == i,
            r.deep_view() == v.deep_view().take(i as int),
        decreases v.len() - i,
    {
        r.push((v[i].0.clone(), copy_strings(&v[i].1)));
        assert(r@[i as int].deep_view() == v@[i as int].deep_view());
        i = i + 1;
        assert(r.deep_view() =~= v.deep_view().take(i as int));
    }
    assert(v.deep_view().take(i as int) =~= v.deep_view());
    r
}

impl Configuration {
    /// A copy of the configuration.
    pub fn duplicate(&self) -> (r: Configuration)
        ensures
            r.deep_view() == self.deep_view(),
    {
        Configuration {
            desc: self.desc.clone(),
            variable_map: match &self.variable_map {
                Some(v) => Some(copy_pairs(v)),
                None => None,
            },
            file_map: match &self.file_map {
                Some(v) => Some(copy_pairs(v)),
                None => None,
            },
            template_map: match &self.template_map {
                Some(v) => Some(copy_pairs(v)),
                None => None,
            },
            commands: match &self.commands {
                Some(v) => Some(copy_stage_commands(v)),
                None => None,
            },
            services: match &self.services {
                Some(v) => Some(copy_services(v)),
                None => None,
            },
            dependency_map: match &self.dependency_map {
                Some(v) => Some(copy_dependency_table(v)),
                None => None,
            },
            reboot: self.reboot,
        }
    }
}

/// No stage is listed twice.
pub open spec fn stages_distinct(commands: Seq<(CommandStage, Seq<Seq<char>>)>) -> bool {
    forall|i: int, j: int|
        0 <= i < commands.len() && 0 <= j < commands.len() && i != j ==> #[trigger] commands[i].0
            != #[trigger] commands[j].0
}

/// A configuration is well formed when its commands list each stage at most
/// once.
pub open spec fn configuration_well_formed(c: ConfigurationModel) -> bool {
    match c.commands {
        Some(cmds) => stages_distinct(cmds),
        None => true,
    }
}

impl Configuration {
    /// Whether the configuration is well formed: its commands list each stage
    /// at most once.
    pub fn is_well_formed(&self) -> (r: bool)
        ensures
            r == configuration_well_formed(self.deep_view()),
    {
        match &self.commands {
            None => true,
            Some(cmds) => {
                let ghost v = cmds.deep_view();
                assert(self.commands.deep_view() == Some(v));
                let mut i: usize = 0;
                while i < cmds.len()
                    invariant
                        i <= cmds.len(),
                        v == cmds.deep_view(),
                        self.commands.deep_view() == Some(v),
                        forall|a: int, b: int|
                            0 <= a < i && 0 <= b < v.len() && a != b ==> #[trigger] v[a].0
                                != #[trigger] v[b].0,
                    decreases cmds.len() - i,
                {
                    let mut j: usize = 0;
                    while j < cmds.len()
                        invariant
                            i < cmds.len(),
                            j <= cmds.len(),
                            v == cmds.deep_view(),
                            self.commands.deep_view() == Some(v),
                            forall|a: int, b: int|
                                0 <= a < i && 0 <= b < v.len() && a != b ==> #[trigger] v[a].0
                                    != #[trigger] v[b].0,
                            forall|b: int| 0 <= b < j && b != i ==> v[i as int].0 != #[trigger] v[b].0,
                        decreases cmds.len() - j,
                    {
                        if j != i && cmds[i].0 == cmds[j].0 {
                            assert(v[i as int].0 == v[j as int].0);
                            assert(!stages_distinct(v));
                            return false;
                        }
                        j = j + 1;
                    }
                    i = i + 1;
                }
                assert(self.deep_view().commands == Some(v));
                true
            },
        }
    }
}

} // verus!
