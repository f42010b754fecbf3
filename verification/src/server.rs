//! The server's decisions: which configurations an agent should apply, who
//! may register, and what a repository sync changes in the server's state.

use vstd::prelude::*;
use crate::common::{
    ApplicationStatus, Composition, Configuration, ConfigurationCheckResponse,
    ConfigurationUpdate, GitRepository, Persona, RegistrationResponse, RegistrationToken,
    UpdateModel,
};
use crate::name_map::NameMap;
use crate::text::{decimal_digits, format_u64};

verus! {

/// The server's settings.
#[derive(Clone, Debug)]
pub struct ServerConfig {
    pub id: u128,
    pub bind_address: String,
    pub git_repos: Vec<GitRepository>,
    pub sync_interval_secs: u64,
}

impl ServerConfig {
    /// The default settings for a server with identifier `id`: listen on
    /// 0.0.0.0:8080, no repositories, sync every 300 seconds.
    pub fn with_id(id: u128) -> (r: ServerConfig)
        ensures
            r.id == id,
            r.bind_address@ == "0.0.0.0:8080"@,
            r.git_repos@.len() == 0,
            r.sync_interval_secs == 300,
    {
        ServerConfig {
            id,
            bind_address: String::from_str("0.0.0.0:8080"),
            git_repos: Vec::new(),
            sync_interval_secs: 300,
        }
    }
}

/// An HTTP status the server answers with.
#[derive(Clone, Copy, Debug, PartialEq, Eq, Structural)]
pub enum HttpStatus {
    Success,
    Unauthorized,
    InternalServerError,
}

impl HttpStatus {
    /// The numeric status code.
    pub fn code(&self) -> (r: u16)
        ensures
            *self == HttpStatus::Success ==> r == 200,
            *self == HttpStatus::Unauthorized ==> r == 401,
            *self == HttpStatus::InternalServerError ==> r == 500,
    {
        match self {
            HttpStatus::Success => 200,
            HttpStatus::Unauthorized => 401,
            HttpStatus::InternalServerError => 500,
        }
    }
}

/// What the server knows: the configurations, compositions and personas of
/// its repositories, the registration tokens, and the revision at which each
/// configuration was last synced.
pub struct ServerState {
    pub configurations: NameMap<Configuration>,
    pub compositions: NameMap<Composition>,
    pub personas: NameMap<Persona>,
    pub registration_tokens: NameMap<RegistrationToken>,
    pub config_revisions: NameMap<String>,
}

/// The text of each revision in a table of revisions.
pub open spec fn revision_texts(m: Map<Seq<char>, String>) -> Map<Seq<char>, Seq<char>> {
    m.map_values(|s: String| s@)
}

/// The configurations named by the compositions (that exist) of a persona,
/// composition by composition, in order; a name may occur more than once.
pub open spec fn persona_configuration_names(
    composition_names: Seq<Seq<char>>,
    compositions: Map<Seq<char>, Composition>,
) -> Seq<Seq<char>>
    decreases composition_names.len(),
{
    if composition_names.len() == 0 {
        Seq::empty()
    } else {
        let last = composition_names.last();
        persona_configuration_names(composition_names.drop_last(), compositions) + if compositions.contains_key(
            last,
        ) {
            compositions[last].configurations.deep_view()
        } else {
            Seq::empty()
        }
    }
}

/// An agent holds the current revision of a configuration, or there is
/// nothing to hold: the configuration or its revision is unknown.
pub open spec fn up_to_date(
    name: Seq<char>,
    configs: Map<Seq<char>, Configuration>,
    revisions: Map<Seq<char>, String>,
    current: Map<Seq<char>, Seq<char>>,
) -> bool {
    !(configs.contains_key(name) && revisions.contains_key(name)) || (current.contains_key(name)
        && current[name] == revisions[name]@)
}

/// The updates for the named configurations, in order: one for each name
/// whose configuration and revision are known and whose revision the agent
/// does not hold.
pub open spec fn pending_updates(
    names: Seq<Seq<char>>,
    configs: Map<Seq<char>, Configuration>,
    revisions: Map<Seq<char>, String>,
    current: Map<Seq<char>, Seq<char>>,
) -> Seq<UpdateModel>
    decreases names.len(),
{
    if names.len() == 0 {
        Seq::empty()
    } else {
        let n = names.last();
        pending_updates(names.drop_last(), configs, revisions, current) + if up_to_date(
            n,
            configs,
            revisions,
            current,
        ) {
            Seq::empty()
        } else {
            seq![UpdateModel { name: n, revision: revisions[n]@, configuration: configs[n].deep_view() }]
        }
    }
}

/// The updates the server offers an agent of persona `persona` that holds the
/// revisions `current`: none for an unknown persona, else the pending
/// updates for the configurations of its compositions.
pub open spec fn configuration_updates(
    configs: Map<Seq<char>, Configuration>,
    compositions: Map<Seq<char>, Composition>,
    personas: Map<Seq<char>, Persona>,
    revisions: Map<Seq<char>, String>,
    persona: Seq<char>,
    current: Map<Seq<char>, Seq<char>>,
) -> Seq<UpdateModel> {
    if personas.contains_key(persona) {
        pending_updates(
            persona_configuration_names(personas[persona].compositions.deep_view(), compositions),
            configs,
            revisions,
            current,
        )
    } else {
        Seq::empty()
    }
}

/// The revisions an agent holds after applying the updates in order.
pub open spec fn record_updates(current: Map<Seq<char>, Seq<char>>, ups: Seq<UpdateModel>) -> Map<
    Seq<char>,
    Seq<char>,
>
    decreases ups.len(),
{
    if ups.len() == 0 {
        current
    } else {
        record_updates(current.insert(ups[0].name, ups[0].revision), ups.drop_first())
    }
}

impl ServerState {
    /// An empty state.
    pub fn new() -> (r: ServerState)
        ensures
            r.configurations@ == Map::<Seq<char>, Configuration>::empty(),
            r.compositions@ == Map::<Seq<char>, Composition>::empty(),
            r.personas@ == Map::<Seq<char>, Persona>::empty(),
            r.registration_tokens@ == Map::<Seq<char>, RegistrationToken>::empty(),
            r.config_revisions@ == Map::<Seq<char>, String>::empty(),
    {
        ServerState {
            configurations: NameMap::new(),
            compositions: NameMap::new(),
            personas: NameMap::new(),
            registration_tokens: NameMap::new(),
            config_revisions: NameMap::new(),
        }
    }

    /// Answers an agent's check: for the agent's persona, the configurations
    /// of its compositions (in order, a configuration once per mention) whose
    /// configuration and revision are known and whose revision the agent
    /// does not hold, each with its revision and content. An unknown persona
    /// gets no updates.
    pub fn check_configurations(&self, persona_name: &String, current_revisions: &NameMap<String>) -> (r:
        ConfigurationCheckResponse)
        ensures
            r.updates_available.deep_view() == configuration_updates(
                self.configurations@,
                self.compositions@,
                self.personas@,
                self.config_revisions@,
                persona_name@,
                revision_texts(current_revisions@),
            ),
    {
        let persona = match self.personas.get(persona_name) {
            Some(p) => p,
            None => {
                let r = ConfigurationCheckResponse { updates_available: Vec::new() };
                assert(r.updates_available.deep_view() =~= Seq::<UpdateModel>::empty());
                return r;
            },
        };
        let ghost comp_names = persona.compositions.deep_view();
        let mut names: Vec<String> = Vec::new();
        let mut i: usize = 0;
        while i < persona.compositions.len()
            invariant
                i <= persona.compositions.len(),
                comp_names == persona.compositions.deep_view(),
                names.deep_view() == persona_configuration_names(
                    comp_names.take(i as int),
                    self.compositions@,
                ),
            decreases persona.compositions.len() - i,
        {
            assert(comp_names.take(i + 1).drop_last() =~= comp_names.take(i as int));
            assert(comp_names.take(i + 1).last() == persona.compositions@[i as int]@);
            match self.compositions.get(&persona.compositions[i]) {
                Some(comp) => {
                    let ghost before = names.deep_view();
                    let mut more = crate::common::copy_strings(&comp.configurations);
                    names.append(&mut more);
                    assert(names.deep_view() =~= before + comp.configurations.deep_view());
                },
                None => {
                    assert(names.deep_view() =~= names.deep_view() + Seq::<Seq<char>>::empty());
                },
            }
            i = i + 1;
        }
        assert(comp_names.take(i as int) =~= comp_names);
        let ghost all_names = names.deep_view();
        let ghost cur = revision_texts(current_revisions@);
        let mut updates: Vec<ConfigurationUpdate> = Vec::new();
        let mut j: usize = 0;
        while j < names.len()
            invariant
                j <= names.len(),
                all_names == names.deep_view(),
                cur == revision_texts(current_revisions@),
                updates.deep_view() == pending_updates(
                    all_names.take(j as int),
                    self.configurations@,
                    self.config_revisions@,
                    cur,
                ),
            decreases names.len() - j,
        {
            let name = &names[j];
            assert(all_names.take(j + 1).drop_last() =~= all_names.take(j as int));
            assert(all_names.take(j + 1).last() == name@);
            let ghost before = updates.deep_view();
            match self.configurations.get(name) {
                Some(config) => {
                    match self.config_revisions.get(name) {
                        Some(revision) => {
                            let needs_update = match current_revisions.get(name) {
                                Some(agent_revision) => *agent_revision != *revision,
                                None => true,
                            };
                            if needs_update {
                                updates.push(
                                    ConfigurationUpdate {
                                        configuration_name: name.clone(),
                                        new_revision: revision.clone(),
                                        configuration: config.duplicate(),
                                    },
                                );
                                assert(updates.deep_view() =~= before + seq![UpdateModel { name: name@, revision: revision@, configuration: config.deep_view() }]);
                            } else {
                                assert(updates.deep_view() =~= before + Seq::<UpdateModel>::empty());
                            }
                        },
                        None => {
                            assert(updates.deep_view() =~= before + Seq::<UpdateModel>::empty());
                        },
                    }
                },
                None => {
                    assert(updates.deep_view() =~= before + Seq::<UpdateModel>::empty());
                },
            }
            j = j + 1;
        }
        assert(all_names.take(j as int) =~= all_names);
        ConfigurationCheckResponse { updates_available: updates }
    }
}

proof fn lemma_pending_revisions(
    names: Seq<Seq<char>>,
    configs: Map<Seq<char>, Configuration>,
    revisions: Map<Seq<char>, String>,
    current: Map<Seq<char>, Seq<char>>,
)
    ensures
        forall|j: int|
            0 <= j < pending_updates(names, configs, revisions, current).len() ==> {
                let u = #[trigger] pending_updates(names, configs, revisions, current)[j];
                revisions.contains_key(u.name) && u.revision == revisions[u.name]@
            },
    decreases names.len(),
{
    if names.len() > 0 {
        lemma_pending_revisions(names.drop_last(), configs, revisions, current);
        let p = pending_updates(names.drop_last(), configs, revisions, current);
        let all = pending_updates(names, configs, revisions, current);
        assert forall|j: int| 0 <= j < all.len() implies {
            let u = #[trigger] all[j];
            revisions.contains_key(u.name) && u.revision == revisions[u.name]@
        } by {
            if j < p.len() {
                assert(all[j] == p[j]);
            }
        }
    }
}

proof fn lemma_pending_covers(
    names: Seq<Seq<char>>,
    configs: Map<Seq<char>, Configuration>,
    revisions: Map<Seq<char>, String>,
    current: Map<Seq<char>, Seq<char>>,
)
    ensures
        forall|i: int|
            0 <= i < names.len() ==> up_to_date(#[trigger] names[i], configs, revisions, current)
                || exists|j: int|
                0 <= j < pending_updates(names, configs, revisions, current).len()
                    && pending_updates(names, configs, revisions, current)[j].name == names[i],
    decreases names.len(),
{
    if names.len() > 0 {
        let d = names.drop_last();
        lemma_pending_covers(d, configs, revisions, current);
        let p = pending_updates(d, configs, revisions, current);
        let all = pending_updates(names, configs, revisions, current);
        assert forall|i: int| 0 <= i < names.len() implies up_to_date(
            #[trigger] names[i],
            configs,
            revisions,
            current,
        ) || exists|j: int| 0 <= j < all.len() && all[j].name == names[i] by {
            if i < d.len() {
                assert(names[i] == d[i]);
                if !up_to_date(d[i], configs, revisions, current) {
                    let j = choose|j: int| 0 <= j < p.len() && p[j].name == d[i];
                    assert(all[j] == p[j]);
                }
            } else {
                if !up_to_date(names[i], configs, revisions, current) {
                    assert(all[p.len() as int].name == names[i]);
                }
            }
        }
    }
}

proof fn lemma_nothing_pending(
    names: Seq<Seq<char>>,
    configs: Map<Seq<char>, Configuration>,
    revisions: Map<Seq<char>, String>,
    current: Map<Seq<char>, Seq<char>>,
)
    requires
        forall|i: int| 0 <= i < names.len() ==> up_to_date(#[trigger] names[i], configs, revisions, current),
    ensures
        pending_updates(names, configs, revisions, current).len() == 0,
    decreases names.len(),
{
    if names.len() > 0 {
        let d = names.drop_last();
        assert forall|i: int| 0 <= i < d.len() implies up_to_date(#[trigger] d[i], configs, revisions, current) by {
            assert(d[i] == names[i]);
        }
        lemma_nothing_pending(d, configs, revisions, current);
        assert(up_to_date(names[names.len() - 1], configs, revisions, current));
    }
}

proof fn lemma_record_updates(
    current: Map<Seq<char>, Seq<char>>,
    ups: Seq<UpdateModel>,
    revisions: Map<Seq<char>, String>,
    k: Seq<char>,
)
    requires
        forall|j: int|
            0 <= j < ups.len() ==> revisions.contains_key((#[trigger] ups[j]).name) && ups[j].revision
                == revisions[ups[j].name]@,
    ensures
        (exists|j: int| 0 <= j < ups.len() && ups[j].name == k) ==> record_updates(current, ups).contains_key(k)
            && record_updates(current, ups)[k] == revisions[k]@,
        !(exists|j: int| 0 <= j < ups.len() && ups[j].name == k) ==> (record_updates(current, ups).contains_key(k)
            == current.contains_key(k) && record_updates(current, ups)[k] == current[k]),
    decreases ups.len(),
{
    if ups.len() > 0 {
        let rest = ups.drop_first();
        assert forall|j: int| 0 <= j < rest.len() implies revisions.contains_key((#[trigger] rest[j]).name)
            && rest[j].revision == revisions[rest[j].name]@ by {
            assert(rest[j] == ups[j + 1]);
        }
        let next = current.insert(ups[0].name, ups[0].revision);
        lemma_record_updates(next, rest, revisions, k);
        if exists|j: int| 0 <= j < rest.len() && rest[j].name == k {
            let j = choose|j: int| 0 <= j < rest.len() && rest[j].name == k;
            assert(ups[j + 1].name == k);
        } else {
            if exists|j: int| 0 <= j < ups.len() && ups[j].name == k {
                let j = choose|j: int| 0 <= j < ups.len() && ups[j].name == k;
                if j > 0 {
                    assert(rest[j - 1].name == k);
                }
                assert(ups[0].name == k);
            } else {
                assert(ups[0].name != k);
            }
        }
    }
}

/// Once an agent has applied every update the server offered it, a new
/// check offers it nothing: an update is only sent while the agent's
/// revision differs from the server's.
pub proof fn lemma_applied_updates_leave_nothing_pending(
    configs: Map<Seq<char>, Configuration>,
    compositions: Map<Seq<char>, Composition>,
    personas: Map<Seq<char>, Persona>,
    revisions: Map<Seq<char>, String>,
    persona: Seq<char>,
    current: Map<Seq<char>, Seq<char>>,
)
    ensures
        configuration_updates(
            configs,
            compositions,
            personas,
            revisions,
            persona,
            record_updates(
                current,
                configuration_updates(configs, compositions, personas, revisions, persona, current),
            ),
        ).len() == 0,
{
    if personas.contains_key(persona) {
        let names = persona_configuration_names(personas[persona].compositions.deep_view(), compositions);
        let ups = pending_updates(names, configs, revisions, current);
        let after = record_updates(current, ups);
        lemma_pending_revisions(names, configs, revisions, current);
        lemma_pending_covers(names, configs, revisions, current);
        assert forall|i: int| 0 <= i < names.len() implies up_to_date(#[trigger] names[i], configs, revisions, after) by {
            lemma_record_updates(current, ups, revisions, names[i]);
        }
        lemma_nothing_pending(names, configs, revisions, after);
    }
}

/// Applying updates one after the other, as the agent records them, gives
/// the revisions of `record_updates`.
pub proof fn lemma_recorded_revisions(
    before: Map<Seq<char>, String>,
    after: Map<Seq<char>, String>,
    name: String,
    revision: String,
)
    requires
        after == before.insert(name@, revision),
    ensures
        revision_texts(after) == revision_texts(before).insert(name@, revision@),
{
    assert(revision_texts(after) =~= revision_texts(before).insert(name@, revision@));
}

/// Whether a registration token admits a registration at time `now`: an
/// unknown or expired token is refused; otherwise the answer says whether the
/// token is good for one registration only.
pub open spec fn token_authorization(
    tokens: Map<Seq<char>, RegistrationToken>,
    token: Seq<char>,
    now: int,
) -> Result<bool, HttpStatus> {
    if !tokens.contains_key(token) {
        Err(HttpStatus::Unauthorized)
    } else if tokens[token].expires_at < now {
        Err(HttpStatus::Unauthorized)
    } else {
        Ok(tokens[token].single_use)
    }
}

/// The tokens after a registration: a single-use token is gone once the
/// agent has been stored; otherwise nothing changes.
pub open spec fn tokens_after_registration(
    tokens: Map<Seq<char>, RegistrationToken>,
    token: Seq<char>,
    single_use: bool,
    stored: bool,
) -> Map<Seq<char>, RegistrationToken> {
    if stored && single_use {
        tokens.remove(token)
    } else {
        tokens
    }
}

/// Inserting the entries in order.
pub open spec fn insert_entries<V>(m: Map<Seq<char>, V>, e: Seq<(String, V)>) -> Map<Seq<char>, V>
    decreases e.len(),
{
    if e.len() == 0 {
        m
    } else {
        insert_entries(m, e.drop_last()).insert(e.last().0@, e.last().1)
    }
}

/// Each name given the same revision.
pub open spec fn revision_entries(configs: Seq<(String, Configuration)>, revision: String) -> Seq<
    (String, String),
> {
    configs.map_values(|p: (String, Configuration)| (p.0, revision))
}

/// Stores the entries in `map`, in order.
fn insert_all<V>(map: &mut NameMap<V>, entries: Vec<(String, V)>)
    ensures
        final(map)@ == insert_entries(old(map)@, entries@),
{
    let ghost all = entries@;
    let mut rest = entries;
    let mut i: usize = 0;
    assert(all.len() == rest.len());
    while rest.len() > 0
        invariant
            i + rest@.len() == all.len(),
            all.len() <= usize::MAX,
            rest@ == all.skip(i as int),
            map@ == insert_entries(old(map)@, all.take(i as int)),
        decreases rest@.len(),
    {
        let (name, value) = rest.remove(0);
        assert(all.take(i + 1).drop_last() =~= all.take(i as int));
        assert(all[i as int] == (name, value));
        map.insert(name, value);
        assert(rest@ =~= all.skip(i + 1));
        i = i + 1;
    }
    assert(all.take(i as int) =~= all);
}

impl ServerState {
    /// Decides whether `token` admits a registration at time `now` (UNIX
    /// seconds): unknown and expired tokens are refused as unauthorized; an
    /// admitted registration learns whether the token is single-use.
    pub fn authorize_registration(&self, token: &String, now: i64) -> (r: Result<bool, HttpStatus>)
        ensures
            r == token_authorization(self.registration_tokens@, token@, now as int),
    {
        match self.registration_tokens.get(token) {
            None => Err(HttpStatus::Unauthorized),
            Some(t) => if t.expires_at < now {
                Err(HttpStatus::Unauthorized)
            } else {
                Ok(t.single_use)
            },
        }
    }

    /// Ends an admitted registration. When the agent could not be stored the
    /// registration fails with an internal error and the tokens stay as they
    /// were. Otherwise a single-use token is withdrawn and the agent receives
    /// its identifier and authentication token.
    pub fn complete_registration(
        &mut self,
        token: &String,
        single_use: bool,
        stored: bool,
        agent_id: u128,
        auth_token: String,
    ) -> (r: Result<RegistrationResponse, HttpStatus>)
        ensures
            final(self).registration_tokens@ == tokens_after_registration(
                old(self).registration_tokens@,
                token@,
                single_use,
                stored,
            ),
            final(self).configurations@ == old(self).configurations@,
            final(self).compositions@ == old(self).compositions@,
            final(self).personas@ == old(self).personas@,
            final(self).config_revisions@ == old(self).config_revisions@,
            !stored ==> r == Err::<RegistrationResponse, HttpStatus>(HttpStatus::InternalServerError),
            stored ==> (r matches Ok(resp) && resp.agent_id == agent_id && resp.auth_token@
                == auth_token@),
    {
        if !stored {
            return Err(HttpStatus::InternalServerError);
        }
        if single_use {
            let _ = self.registration_tokens.remove(token);
        }
        Ok(RegistrationResponse { auth_token, agent_id })
    }

    /// Records the configurations loaded from a repository synced at
    /// `revision`: each is stored under its name, and its name is marked
    /// with the revision.
    pub fn record_configurations(&mut self, revision: &String, configs: Vec<(String, Configuration)>)
        ensures
            final(self).configurations@ == insert_entries(old(self).configurations@, configs@),
            final(self).config_revisions@ == insert_entries(
                old(self).config_revisions@,
                revision_entries(configs@, *revision),
            ),
            final(self).compositions@ == old(self).compositions@,
            final(self).personas@ == old(self).personas@,
            final(self).registration_tokens@ == old(self).registration_tokens@,
    {
        let ghost all = configs@;
        let mut marks: Vec<(String, String)> = Vec::new();
        let mut i: usize = 0;
        while i < configs.len()
            invariant
                i <= configs.len(),
                all == configs@,
                marks@ == revision_entries(all, *revision).take(i as int),
            decreases configs.len() - i,
        {
            marks.push((configs[i].0.clone(), revision.clone()));
            i = i + 1;
            assert(marks@ =~= revision_entries(all, *revision).take(i as int));
        }
        assert(revision_entries(all, *revision).take(i as int) =~= revision_entries(all, *revision));
        insert_all(&mut self.config_revisions, marks);
        insert_all(&mut self.configurations, configs);
    }

    /// Records the compositions loaded from a repository, each under its name.
    pub fn record_compositions(&mut self, compositions: Vec<(String, Composition)>)
        ensures
            final(self).compositions@ == insert_entries(old(self).compositions@, compositions@),
            final(self).configurations@ == old(self).configurations@,
            final(self).personas@ == old(self).personas@,
            final(self).registration_tokens@ == old(self).registration_tokens@,
            final(self).config_revisions@ == old(self).config_revisions@,
    {
        insert_all(&mut self.compositions, compositions);
    }

    /// Records the personas loaded from a repository, each under its name.
    pub fn record_personas(&mut self, personas: Vec<(String, Persona)>)
        ensures
            final(self).personas@ == insert_entries(old(self).personas@, personas@),
            final(self).configurations@ == old(self).configurations@,
            final(self).compositions@ == old(self).compositions@,
            final(self).registration_tokens@ == old(self).registration_tokens@,
            final(self).config_revisions@ == old(self).config_revisions@,
    {
        insert_all(&mut self.personas, personas);
    }
}

/// A single-use token admits one registration only: once an agent has been
/// stored with it, it is refused at any later time.
pub proof fn lemma_single_use_token_is_consumed(
    tokens: Map<Seq<char>, RegistrationToken>,
    token: Seq<char>,
    now: int,
    later: int,
)
    requires
        token_authorization(tokens, token, now) == Ok::<bool, HttpStatus>(true),
    ensures
        token_authorization(tokens_after_registration(tokens, token, true, true), token, later)
            == Err::<bool, HttpStatus>(HttpStatus::Unauthorized),
{
}

/// A token that is not single-use stays good after a registration, and so
/// does any token when the agent could not be stored.
pub proof fn lemma_token_kept(
    tokens: Map<Seq<char>, RegistrationToken>,
    token: Seq<char>,
    single_use: bool,
    stored: bool,
    now: int,
)
    requires
        token_authorization(tokens, token, now) == Ok::<bool, HttpStatus>(single_use),
        !single_use || !stored,
    ensures
        token_authorization(tokens_after_registration(tokens, token, single_use, stored), token, now)
            == token_authorization(tokens, token, now),
{
}

/// The label under which a result's status is stored.
pub open spec fn status_text(status: ApplicationStatus) -> Seq<char> {
    match status {
        ApplicationStatus::Success => "success"@,
        ApplicationStatus::Failed => "failed"@,
        ApplicationStatus::Retrying { .. } => "retrying"@,
    }
}

/// The label under which a result's status is stored.
pub fn status_label(status: ApplicationStatus) -> (r: String)
    ensures
        r@ == status_text(status),
{
    match status {
        ApplicationStatus::Success => String::from_str("success"),
        ApplicationStatus::Failed => String::from_str("failed"),
        ApplicationStatus::Retrying { .. } => String::from_str("retrying"),
    }
}

/// The directory name of the repository at position `index` of the server's
/// list: `repo_` and the position in decimal.
pub fn repository_dir_name(index: usize) -> (r: String)
    ensures
        r@ == "repo_"@ + decimal_digits(index as nat),
{
    let mut s = String::from_str("repo_");
    let n = format_u64(index as u64);
    s.append(n.as_str());
    s
}

/// The reference of a branch: `refs/heads/` and the branch name.
pub fn branch_reference(branch: &str) -> (r: String)
    ensures
        r@ == "refs/heads/"@ + branch@,
{
    let mut s = String::from_str("refs/heads/");
    s.append(branch);
    s
}

/// The server never offers an update the agent already holds: each offered
/// revision differs from the agent's revision of that configuration.
pub proof fn lemma_updates_are_needed(
    configs: Map<Seq<char>, Configuration>,
    compositions: Map<Seq<char>, Composition>,
    personas: Map<Seq<char>, Persona>,
    revisions: Map<Seq<char>, String>,
    persona: Seq<char>,
    current: Map<Seq<char>, Seq<char>>,
)
    ensures
        forall|j: int|
            0 <= j < configuration_updates(configs, compositions, personas, revisions, persona, current).len()
                ==> {
                let u = #[trigger] configuration_updates(
                    configs,
                    compositions,
                    personas,
                    revisions,
                    persona,
                    current,
                )[j];
                configs.contains_key(u.name) && u.revision == revisions[u.name]@ && !(
                current.contains_key(u.name) && current[u.name] == u.revision)
            },
{
    if personas.contains_key(persona) {
        let names = persona_configuration_names(personas[persona].compositions.deep_view(), compositions);
        lemma_pending_needed(names, configs, revisions, current);
    }
}

proof fn lemma_pending_needed(
    names: Seq<Seq<char>>,
    configs: Map<Seq<char>, Configuration>,
    revisions: Map<Seq<char>, String>,
    current: Map<Seq<char>, Seq<char>>,
)
    ensures
        forall|j: int|
            0 <= j < pending_updates(names, configs, revisions, current).len() ==> {
                let u = #[trigger] pending_updates(names, configs, revisions, current)[j];
                configs.contains_key(u.name) && u.revision == revisions[u.name]@ && !(
                current.contains_key(u.name) && current[u.name] == u.revision)
            },
    decreases names.len(),
{
    if names.len() > 0 {
        lemma_pending_needed(names.drop_last(), configs, revisions, current);
        let p = pending_updates(names.drop_last(), configs, revisions, current);
        let all = pending_updates(names, configs, revisions, current);
        assert forall|j: int| 0 <= j < all.len() implies {
            let u = #[trigger] all[j];
            configs.contains_key(u.name) && u.revision == revisions[u.name]@ && !(
            current.contains_key(u.name) && current[u.name] == u.revision)
        } by {
            if j < p.len() {
                assert(all[j] == p[j]);
            }
        }
    }
}

/// The persona of the agent that asks for updates, from the database
/// lookup: a failed lookup is an internal error, an unknown agent is
/// unauthorized.
pub fn agent_persona(lookup_succeeded: bool, persona: Option<String>) -> (r: Result<String, HttpStatus>)
    ensures
        !lookup_succeeded ==> r == Err::<String, HttpStatus>(HttpStatus::InternalServerError),
        lookup_succeeded && persona is None ==> r == Err::<String, HttpStatus>(HttpStatus::Unauthorized),
        lookup_succeeded ==> (persona matches Some(p) ==> (r matches Ok(q) && q@ == p@)),
{
    if !lookup_succeeded {
        return Err(HttpStatus::InternalServerError);
    }
    match persona {
        Some(p) => Ok(p),
        None => Err(HttpStatus::Unauthorized),
    }
}

proof fn lemma_names_in_persona(
    composition_names: Seq<Seq<char>>,
    compositions: Map<Seq<char>, Composition>,
    c: int,
    k: int,
)
    requires
        0 <= c < composition_names.len(),
        compositions.contains_key(composition_names[c]),
        0 <= k < compositions[composition_names[c]].configurations.deep_view().len(),
    ensures
        persona_configuration_names(composition_names, compositions).contains(
            compositions[composition_names[c]].configurations.deep_view()[k],
        ),
    decreases composition_names.len(),
{
    let d = composition_names.drop_last();
    let prev = persona_configuration_names(d, compositions);
    let last = composition_names.last();
    let whole = persona_configuration_names(composition_names, compositions);
    let n = compositions[composition_names[c]].configurations.deep_view()[k];
    if c < composition_names.len() - 1 {
        assert(d[c] == composition_names[c]);
        lemma_names_in_persona(d, compositions, c, k);
        let j = choose|j: int| 0 <= j < prev.len() && prev[j] == n;
        assert(whole[j] == prev[j]);
    } else {
        assert(last == composition_names[c]);
        assert(whole[prev.len() + k] == n);
    }
}

/// Every configuration of the persona's compositions that the server knows
/// with a revision, and of which the agent holds no revision or a different
/// one, is offered to the agent: with the server's revision and content.
pub proof fn lemma_outdated_configurations_are_offered(
    configs: Map<Seq<char>, Configuration>,
    compositions: Map<Seq<char>, Composition>,
    personas: Map<Seq<char>, Persona>,
    revisions: Map<Seq<char>, String>,
    persona: Seq<char>,
    current: Map<Seq<char>, Seq<char>>,
    c: int,
    k: int,
)
    requires
        personas.contains_key(persona),
        0 <= c < personas[persona].compositions.deep_view().len(),
        compositions.contains_key(personas[persona].compositions.deep_view()[c]),
        0 <= k < compositions[personas[persona].compositions.deep_view()[c]].configurations.deep_view().len(),
        configs.contains_key(
            compositions[personas[persona].compositions.deep_view()[c]].configurations.deep_view()[k],
        ),
        revisions.contains_key(
            compositions[personas[persona].compositions.deep_view()[c]].configurations.deep_view()[k],
        ),
        ({
            let n = compositions[personas[persona].compositions.deep_view()[c]].configurations.deep_view()[k];
            !current.contains_key(n) || current[n] != revisions[n]@
        }),
    ensures
        ({
            let n = compositions[personas[persona].compositions.deep_view()[c]].configurations.deep_view()[k];
            let ups = configuration_updates(configs, compositions, personas, revisions, persona, current);
            exists|j: int|
                0 <= j < ups.len() && ups[j].name == n && ups[j].revision == revisions[n]@
                    && ups[j].configuration == configs[n].deep_view()
        }),
{
    let cnames = personas[persona].compositions.deep_view();
    let n = compositions[cnames[c]].configurations.deep_view()[k];
    let names = persona_configuration_names(cnames, compositions);
    lemma_names_in_persona(cnames, compositions, c, k);
    let i = choose|i: int| 0 <= i < names.len() && names[i] == n;
    lemma_pending_covers(names, configs, revisions, current);
    assert(!up_to_date(names[i], configs, revisions, current));
    let ups = pending_updates(names, configs, revisions, current);
    let j = choose|j: int| 0 <= j < ups.len() && ups[j].name == names[i];
    lemma_pending_entries(names, configs, revisions, current);
    assert(ups[j].revision == revisions[n]@ && ups[j].configuration == configs[n].deep_view());
    assert(configuration_updates(configs, compositions, personas, revisions, persona, current) == ups);
}

proof fn lemma_pending_entries(
    names: Seq<Seq<char>>,
    configs: Map<Seq<char>, Configuration>,
    revisions: Map<Seq<char>, String>,
    current: Map<Seq<char>, Seq<char>>,
)
    ensures
        forall|j: int|
            0 <= j < pending_updates(names, configs, revisions, current).len() ==> {
                let u = #[trigger] pending_updates(names, configs, revisions, current)[j];
                u.revision == revisions[u.name]@ && u.configuration == configs[u.name].deep_view()
            },
    decreases names.len(),
{
    if names.len() > 0 {
        lemma_pending_entries(names.drop_last(), configs, revisions, current);
        let p = pending_updates(names.drop_last(), configs, revisions, current);
        let all = pending_updates(names, configs, revisions, current);
        assert forall|j: int| 0 <= j < all.len() implies {
            let u = #[trigger] all[j];
            u.revision == revisions[u.name]@ && u.configuration == configs[u.name].deep_view()
        } by {
            if j < p.len() {
                assert(all[j] == p[j]);
            }
        }
    }
}

/// Some entry of `e` carries the name `k`.
pub open spec fn names_entry<V>(e: Seq<(String, V)>, k: Seq<char>) -> bool {
    exists|j: int| 0 <= j < e.len() && #[trigger] e[j].0@ == k
}

/// No entry after position `i` carries the name of entry `i`.
pub open spec fn last_of_its_name<V>(e: Seq<(String, V)>, i: int) -> bool {
    forall|j: int| i < j < e.len() ==> #[trigger] e[j].0@ != e[i].0@
}

/// Recording entries in order: each name that a later entry does not name
/// again ends up with the value of its entry, whatever was stored before;
/// a name no entry carries keeps what it had.
pub proof fn lemma_recorded_entries_win<V>(m: Map<Seq<char>, V>, e: Seq<(String, V)>)
    ensures
        forall|i: int|
            0 <= i < e.len() && #[trigger] last_of_its_name(e, i) ==> insert_entries(m, e).contains_key(
                e[i].0@,
            ) && insert_entries(m, e)[e[i].0@] == e[i].1,
        forall|k: Seq<char>|
            #![trigger insert_entries(m, e).contains_key(k)]
            !names_entry(e, k) ==> (insert_entries(m, e).contains_key(k) == m.contains_key(k) && (
            m.contains_key(k) ==> insert_entries(m, e)[k] == m[k])),
    decreases e.len(),
{
    if e.len() > 0 {
        let d = e.drop_last();
        lemma_recorded_entries_win(m, d);
        let last = e.len() - 1;
        assert(insert_entries(m, e) == insert_entries(m, d).insert(e.last().0@, e.last().1));
        assert forall|i: int| 0 <= i < e.len() && #[trigger] last_of_its_name(e, i) implies insert_entries(
            m,
            e,
        ).contains_key(e[i].0@) && insert_entries(m, e)[e[i].0@] == e[i].1 by {
            if i < last {
                assert(e[last].0@ != e[i].0@);
                assert(d[i] == e[i]);
                assert forall|j: int| i < j < d.len() implies #[trigger] d[j].0@ != d[i].0@ by {
                    assert(d[j] == e[j]);
                }
                assert(last_of_its_name(d, i));
            }
        }
        assert forall|k: Seq<char>| !names_entry(e, k) implies (insert_entries(m, e).contains_key(k)
            == m.contains_key(k) && (m.contains_key(k) ==> insert_entries(m, e)[k] == m[k])) by {
            assert(e[last].0@ != k);
            if names_entry(d, k) {
                let j = choose|j: int| 0 <= j < d.len() && #[trigger] d[j].0@ == k;
                assert(e[j] == d[j]);
            }
            assert(insert_entries(m, d).contains_key(k) == m.contains_key(k));
        }
    }
}

/// A sync marks every configuration it records with the synced revision,
/// and leaves the revisions of all other configurations as they were.
pub proof fn lemma_sync_marks_revision(
    m: Map<Seq<char>, String>,
    configs: Seq<(String, Configuration)>,
    revision: String,
)
    ensures
        forall|i: int|
            0 <= i < configs.len() ==> insert_entries(m, revision_entries(configs, revision)).contains_key(
                #[trigger] configs[i].0@,
            ) && insert_entries(m, revision_entries(configs, revision))[configs[i].0@] == revision,
        forall|k: Seq<char>|
            #![trigger insert_entries(m, revision_entries(configs, revision)).contains_key(k)]
            !names_entry(configs, k) ==> (insert_entries(
                m,
                revision_entries(configs, revision),
            ).contains_key(k) == m.contains_key(k) && (m.contains_key(k) ==> insert_entries(
                m,
                revision_entries(configs, revision),
            )[k] == m[k])),
{
    let e = revision_entries(configs, revision);
    lemma_recorded_entries_win(m, e);
    assert forall|i: int| 0 <= i < configs.len() implies insert_entries(m, e).contains_key(
        #[trigger] configs[i].0@,
    ) && insert_entries(m, e)[configs[i].0@] == revision by {
        let n = configs[i].0@;
        lemma_last_occurrence(configs, i);
        let last = choose|l: int|
            i <= l < configs.len() && configs[l].0@ == n && (forall|j: int|
                l < j < configs.len() ==> #[trigger] configs[j].0@ != n);
        assert(e[last].0@ == n);
        assert forall|j: int| last < j < e.len() implies #[trigger] e[j].0@ != e[last].0@ by {
            assert(e[j].0 == configs[j].0);
        }
        assert(last_of_its_name(e, last));
        assert(e[last].1 == revision);
    }
    assert forall|k: Seq<char>| !names_entry(configs, k) implies (insert_entries(m, e).contains_key(k)
        == m.contains_key(k) && (m.contains_key(k) ==> insert_entries(m, e)[k] == m[k])) by {
        if names_entry(e, k) {
            let j = choose|j: int| 0 <= j < e.len() && #[trigger] e[j].0@ == k;
            assert(e[j].0 == configs[j].0);
        }
    }
}

proof fn lemma_last_occurrence(configs: Seq<(String, Configuration)>, i: int)
    requires
        0 <= i < configs.len(),
    ensures
        exists|l: int|
            i <= l < configs.len() && configs[l].0@ == configs[i].0@ && (forall|j: int|
                l < j < configs.len() ==> #[trigger] configs[j].0@ != configs[i].0@),
    decreases configs.len() - i,
{
    if exists|j: int| i < j < configs.len() && configs[j].0@ == configs[i].0@ {
        let j = choose|j: int| i < j < configs.len() && configs[j].0@ == configs[i].0@;
        lemma_last_occurrence(configs, j);
        let l = choose|l: int|
            j <= l < configs.len() && configs[l].0@ == configs[j].0@ && (forall|t: int|
                l < t < configs.len() ==> #[trigger] configs[t].0@ != configs[j].0@);
        assert(i <= l < configs.len() && configs[l].0@ == configs[i].0@ && (forall|t: int|
            l < t < configs.len() ==> #[trigger] configs[t].0@ != configs[i].0@));
    } else {
        assert(i <= i < configs.len() && configs[i].0@ == configs[i].0@ && (forall|t: int|
            i < t < configs.len() ==> #[trigger] configs[t].0@ != configs[i].0@));
        assert(forall|j: int| i < j < configs.len() ==> #[trigger] configs[j].0@ != configs[i].0@);
    }
}

/// A registration changes no token but the one it used: every other token
/// is admitted or refused exactly as before, at any time.
pub proof fn lemma_registration_touches_only_its_token(
    tokens: Map<Seq<char>, RegistrationToken>,
    token: Seq<char>,
    single_use: bool,
    stored: bool,
    other: Seq<char>,
    now: int,
)
    requires
        other != token,
    ensures
        token_authorization(tokens_after_registration(tokens, token, single_use, stored), other, now)
            == token_authorization(tokens, other, now),
{
}

} // verus!
