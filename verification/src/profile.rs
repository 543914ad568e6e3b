//! Game profiles: data, not code.
//!
//! A profile declares the ports a game needs and how they should be published
//! in DNS. Profiles compose — a service can select `minecraft-java` *and*
//! `simple-voice-chat`, and the union of their port templates is what gets
//! allocated on the edge and forwarded down the tunnel. Adding a new game is a
//! YAML file, not a code change.

use crate::model;
use crate::model::Protocol;
use crate::number;
use crate::table;
use crate::table::Ordered;
use crate::text;
use vstd::prelude::*;

verus! {

// ---- profiles -----------------------------------------------------------

#[derive(Debug)]
pub struct Profile {
    pub id: String,
    pub name: String,
    pub description: Option<String>,
    /// Profiles that only make sense attached to another one (voice chat,
    /// query/rcon add-ons) are marked so the UI can list them separately.
    pub addon: bool,
    pub ports: Vec<PortTemplate>,
    /// Free-form operator notes surfaced in the UI when the profile is used.
    pub notes: Vec<String>,
}

/// What a [`Profile`] says.
pub struct ProfileModel {
    pub id: Seq<char>,
    pub name: Seq<char>,
    pub description: Option<Seq<char>>,
    pub addon: bool,
    pub ports: Seq<PortTemplateModel>,
    pub notes: Seq<Seq<char>>,
}

impl View for Profile {
    type V = ProfileModel;

    open spec fn view(&self) -> ProfileModel {
        ProfileModel {
            id: self.id@,
            name: self.name@,
            description: text::opt_view(self.description),
            addon: self.addon,
            ports: text::views(self.ports@),
            notes: text::views(self.notes@),
        }
    }
}

impl Clone for Profile {
    fn clone(&self) -> (r: Profile)
        ensures
            r@ == self@,
    {
        let mut ports: Vec<PortTemplate> = Vec::new();
        let mut i: usize = 0;
        while i < self.ports.len()
            invariant
                i <= self.ports@.len(),
                ports@.len() == i,
                forall|k: int| 0 <= k < i ==> (#[trigger] ports@[k])@ == self.ports@[k]@,
            decreases self.ports@.len() - i,
        {
            ports.push(self.ports[i].clone());
            i += 1;
        }
        let mut notes: Vec<String> = Vec::new();
        let mut n: usize = 0;
        while n < self.notes.len()
            invariant
                n <= self.notes@.len(),
                notes@.len() == n,
                forall|k: int| 0 <= k < n ==> (#[trigger] notes@[k])@ == self.notes@[k]@,
            decreases self.notes@.len() - n,
        {
            notes.push(self.notes[n].clone());
            n += 1;
        }
        proof {
            assert(text::views(ports@) =~= text::views(self.ports@));
            assert(text::views(notes@) =~= text::views(self.notes@));
        }
        Profile {
            id: self.id.clone(),
            name: self.name.clone(),
            description: text::copy_opt_text(&self.description),
            addon: self.addon,
            ports,
            notes,
        }
    }
}

#[derive(Debug)]
pub struct PortTemplate {
    /// Stable id, unique within the profile. Persisted on the port mapping so
    /// reconciliation can match an existing row to its template.
    pub id: String,
    pub label: String,
    pub protocol: Protocol,
    pub default_port: u16,
    /// Optional ports are off unless the operator enables them.
    pub optional: bool,
    /// Some clients can't be told about a non-default port (Bedrock's default
    /// UDP 19132, for one), so allocation must not silently move them.
    pub edge_port_fixed: bool,
    /// When set, the gateway publishes an SRV record so compatible clients can
    /// connect to a bare hostname with no port.
    pub srv: Option<SrvSpec>,
    /// How to tell the game server about its public address, when the server
    /// needs to advertise one to clients.
    pub server_config: Option<ServerConfigHint>,
}

/// What a [`PortTemplate`] says.
pub struct PortTemplateModel {
    pub id: Seq<char>,
    pub label: Seq<char>,
    pub protocol: Protocol,
    pub default_port: u16,
    pub optional: bool,
    pub edge_port_fixed: bool,
    pub srv: Option<SrvSpecModel>,
    pub server_config: Option<ServerConfigHintModel>,
}

impl View for PortTemplate {
    type V = PortTemplateModel;

    open spec fn view(&self) -> PortTemplateModel {
        PortTemplateModel {
            id: self.id@,
            label: self.label@,
            protocol: self.protocol,
            default_port: self.default_port,
            optional: self.optional,
            edge_port_fixed: self.edge_port_fixed,
            srv: text::opt_view(self.srv),
            server_config: text::opt_view(self.server_config),
        }
    }
}

impl Clone for PortTemplate {
    fn clone(&self) -> (r: PortTemplate)
        ensures
            r@ == self@,
    {
        PortTemplate {
            id: self.id.clone(),
            label: self.label.clone(),
            protocol: self.protocol,
            default_port: self.default_port,
            optional: self.optional,
            edge_port_fixed: self.edge_port_fixed,
            srv: match &self.srv {
                Some(spec) => Some(spec.clone()),
                None => None,
            },
            server_config: match &self.server_config {
                Some(hint) => Some(hint.clone()),
                None => None,
            },
        }
    }
}

/// An SRV record to publish alongside the service's A record.
#[derive(Debug)]
pub struct SrvSpec {
    /// Leading-underscore service label, e.g. `_minecraft`.
    pub service: String,
    /// Leading-underscore protocol label, e.g. `_tcp`.
    pub proto: String,
    pub priority: u16,
    pub weight: u16,
}

/// What an [`SrvSpec`] says.
pub struct SrvSpecModel {
    pub service: Seq<char>,
    pub proto: Seq<char>,
    pub priority: u16,
    pub weight: u16,
}

impl View for SrvSpec {
    type V = SrvSpecModel;

    open spec fn view(&self) -> SrvSpecModel {
        SrvSpecModel {
            service: self.service@,
            proto: self.proto@,
            priority: self.priority,
            weight: self.weight,
        }
    }
}

impl Clone for SrvSpec {
    fn clone(&self) -> (r: SrvSpec)
        ensures
            r@ == self@,
    {
        SrvSpec {
            service: self.service.clone(),
            proto: self.proto.clone(),
            priority: self.priority,
            weight: self.weight,
        }
    }
}

impl SrvSpec {
    /// The record name under a service's FQDN, e.g.
    /// `_minecraft._tcp.mc.example.com`.
    pub fn record_name(&self, service_fqdn: &str) -> (r: String)
        ensures
            r@ == model::srv_name(self.service@, self.proto@, service_fqdn@),
    {
        let mut out = self.service.clone();
        out.append(".");
        out.append(self.proto.as_str());
        out.append(".");
        out.append(service_fqdn);
        out
    }
}

/// A key the operator must set in a server config file for proxying to work.
///
/// The agent can apply these, but only when the operator opts in per service
/// and confirms the change — silently rewriting someone's server config is a
/// good way to lose their trust and their world settings.
#[derive(Debug)]
pub struct ServerConfigHint {
    /// Path relative to the game server directory.
    pub file: String,
    pub key: String,
    /// Supports `{host}` and `{edge_port}` placeholders.
    pub value_template: String,
    pub explanation: Option<String>,
}

/// What a [`ServerConfigHint`] says.
pub struct ServerConfigHintModel {
    pub file: Seq<char>,
    pub key: Seq<char>,
    pub value_template: Seq<char>,
    pub explanation: Option<Seq<char>>,
}

impl View for ServerConfigHint {
    type V = ServerConfigHintModel;

    open spec fn view(&self) -> ServerConfigHintModel {
        ServerConfigHintModel {
            file: self.file@,
            key: self.key@,
            value_template: self.value_template@,
            explanation: text::opt_view(self.explanation),
        }
    }
}

impl Clone for ServerConfigHint {
    fn clone(&self) -> (r: ServerConfigHint)
        ensures
            r@ == self@,
    {
        ServerConfigHint {
            file: self.file.clone(),
            key: self.key.clone(),
            value_template: self.value_template.clone(),
            explanation: text::copy_opt_text(&self.explanation),
        }
    }
}

/// A template with its placeholders filled in, the host first.
pub open spec fn rendered(template: Seq<char>, host: Seq<char>, edge_port: u16) -> Seq<char> {
    text::replace(
        text::replace(template, "{host}"@, host),
        "{edge_port}"@,
        number::decimal(edge_port as nat),
    )
}

impl ServerConfigHint {
    pub fn render(&self, host: &str, edge_port: u16) -> (r: String)
        ensures
            r@ == rendered(self.value_template@, host@, edge_port),
    {
        proof {
            reveal_strlit("{host}");
            reveal_strlit("{edge_port}");
        }
        let port = number::decimal_of(edge_port as u64);
        let hosted = text::replaced(self.value_template.as_str(), "{host}", host);
        text::replaced(hosted.as_str(), "{edge_port}", port.as_str())
    }
}

// ---- errors -------------------------------------------------------------

#[derive(Debug, Clone)]
pub enum ProfileError {
    Unknown(String),
    DuplicateTemplate(String, String),
    ConflictingPort(String, String, Protocol, u16),
    Io(String),
    Parse { path: String, source: String },
}

/// What a [`ProfileError`] says.
pub enum ProfileErrorModel {
    Unknown(Seq<char>),
    DuplicateTemplate(Seq<char>, Seq<char>),
    ConflictingPort(Seq<char>, Seq<char>, Protocol, u16),
    Io(Seq<char>),
    Parse { path: Seq<char>, source: Seq<char> },
}

impl View for ProfileError {
    type V = ProfileErrorModel;

    open spec fn view(&self) -> ProfileErrorModel {
        match *self {
            ProfileError::Unknown(id) => ProfileErrorModel::Unknown(id@),
            ProfileError::DuplicateTemplate(a, b) => ProfileErrorModel::DuplicateTemplate(a@, b@),
            ProfileError::ConflictingPort(a, b, protocol, port) => {
                ProfileErrorModel::ConflictingPort(a@, b@, protocol, port)
            },
            ProfileError::Io(s) => ProfileErrorModel::Io(s@),
            ProfileError::Parse { path, source } => ProfileErrorModel::Parse {
                path: path@,
                source: source@,
            },
        }
    }
}

/// What an operator is told.
pub open spec fn profile_error_text(e: ProfileErrorModel) -> Seq<char> {
    match e {
        ProfileErrorModel::Unknown(id) => "no profile named `"@ + id + "`"@,
        ProfileErrorModel::DuplicateTemplate(a, b) => "profile `"@ + a
            + "` declares duplicate port template id `"@ + b + "`"@,
        ProfileErrorModel::ConflictingPort(a, b, protocol, port) => "profiles `"@ + a + "` and `"@
            + b + "` both define "@ + protocol.name() + " port "@ + number::decimal(port as nat)
            + "; they cannot be combined"@,
        ProfileErrorModel::Io(s) => "failed to read profile directory: "@ + s,
        ProfileErrorModel::Parse { path, source } => "failed to parse `"@ + path + "`: "@ + source,
    }
}

impl ProfileError {
    /// What an operator is told.
    pub fn to_string(&self) -> (r: String)
        ensures
            r@ == profile_error_text(self@),
    {
        match self {
            ProfileError::Unknown(id) => {
                let mut out = "no profile named `".to_owned();
                out.append(id.as_str());
                out.append("`");
                out
            },
            ProfileError::DuplicateTemplate(a, b) => {
                let mut out = "profile `".to_owned();
                out.append(a.as_str());
                out.append("` declares duplicate port template id `");
                out.append(b.as_str());
                out.append("`");
                out
            },
            ProfileError::ConflictingPort(a, b, protocol, port) => {
                let mut out = "profiles `".to_owned();
                out.append(a.as_str());
                out.append("` and `");
                out.append(b.as_str());
                out.append("` both define ");
                out.append(protocol.as_str());
                out.append(" port ");
                number::push_decimal(&mut out, *port as u64);
                out.append("; they cannot be combined");
                out
            },
            ProfileError::Io(s) => {
                let mut out = "failed to read profile directory: ".to_owned();
                out.append(s.as_str());
                out
            },
            ProfileError::Parse { path, source } => {
                let mut out = "failed to parse `".to_owned();
                out.append(path.as_str());
                out.append("`: ");
                out.append(source.as_str());
                out
            },
        }
    }
}

// ---- validation ---------------------------------------------------------

/// A template with an identifier.
pub open spec fn template_with_id(id: Seq<char>) -> spec_fn(PortTemplateModel) -> bool {
    |t: PortTemplateModel| t.id == id
}

/// The identifier of the first template that an earlier one has already.
pub open spec fn duplicate_template(ports: Seq<PortTemplateModel>) -> Option<Seq<char>>
    decreases ports.len(),
{
    if ports.len() == 0 {
        None
    } else {
        match duplicate_template(ports.drop_last()) {
            Some(id) => Some(id),
            None => if table::any(ports.drop_last(), template_with_id(ports.last().id)) {
                Some(ports.last().id)
            } else {
                None
            },
        }
    }
}

proof fn lemma_duplicate_prefix(ports: Seq<PortTemplateModel>, n: int)
    requires
        0 <= n <= ports.len(),
        duplicate_template(ports.take(n)) is Some,
    ensures
        duplicate_template(ports) == duplicate_template(ports.take(n)),
    decreases ports.len() - n,
{
    if n == ports.len() {
        assert(ports.take(n) =~= ports);
    } else {
        assert(ports.take(n + 1).drop_last() =~= ports.take(n));
        lemma_duplicate_prefix(ports, n + 1);
    }
}

/// No two templates of a profile without duplicates share an identifier.
pub proof fn law_valid_profile_has_distinct_templates(
    ports: Seq<PortTemplateModel>,
    i: int,
    j: int,
)
    requires
        duplicate_template(ports) is None,
        0 <= i < j < ports.len(),
    ensures
        ports[i].id != ports[j].id,
    decreases ports.len(),
{
    let head = ports.drop_last();
    if j < head.len() {
        law_valid_profile_has_distinct_templates(head, i, j);
    } else {
        let p = template_with_id(ports[j].id);
        assert(!p(head[i]));
    }
}

impl Profile {
    pub fn validate(&self) -> (r: Result<(), ProfileError>)
        ensures
            match r {
                Ok(()) => duplicate_template(self@.ports) is None,
                Err(e) => duplicate_template(self@.ports) is Some && e@
                    == ProfileErrorModel::DuplicateTemplate(
                    self.id@,
                    duplicate_template(self@.ports)->0,
                ),
            },
    {
        let ghost all = self@.ports;
        let mut i: usize = 0;
        proof {
            assert(all.take(0) =~= Seq::<PortTemplateModel>::empty());
        }
        while i < self.ports.len()
            invariant
                i <= self.ports@.len(),
                all == text::views(self.ports@),
                all == self@.ports,
                duplicate_template(all.take(i as int)) is None,
            decreases self.ports@.len() - i,
        {
            proof {
                text::lemma_views_step(self.ports@, i as int);
            }
            let ghost p = template_with_id(all[i as int].id);
            let mut j: usize = 0;
            while j < i
                invariant
                    j <= i < self.ports@.len(),
                    all == text::views(self.ports@),
                    all == self@.ports,
                    p == template_with_id(all[i as int].id),
                    duplicate_template(all.take(i as int)) is None,
                    all.take(i + 1).drop_last() == all.take(i as int),
                    all.take(i + 1).last() == all[i as int],
                    forall|k: int| 0 <= k < j ==> !p(#[trigger] all[k]),
                decreases i - j,
            {
                proof {
                    assert(all[i as int] == self.ports@[i as int]@);
                    assert(all[j as int] == self.ports@[j as int]@);
                }
                if text::same_text(self.ports[j].id.as_str(), self.ports[i].id.as_str()) {
                    proof {
                        assert(p(all.take(i as int)[j as int]));
                        assert(table::any(all.take(i as int), p));
                        lemma_duplicate_prefix(all, i + 1);
                    }
                    return Err(
                        ProfileError::DuplicateTemplate(
                            self.id.clone(),
                            self.ports[i].id.clone(),
                        ),
                    );
                }
                j += 1;
            }
            proof {
                assert(!table::any(all.take(i as int), p)) by {
                    assert forall|k: int| 0 <= k < i implies !p(
                        #[trigger] all.take(i as int)[k],
                    ) by {
                        assert(!p(all[k]));
                    }
                }
            }
            i += 1;
        }
        proof {
            assert(all.take(i as int) =~= all);
        }
        Ok(())
    }
}

// ---- sets ---------------------------------------------------------------

/// Profiles are listed by id.
impl Ordered for Profile {
    open spec fn le(a: ProfileModel, b: ProfileModel) -> bool {
        text::text_le(a.id, b.id)
    }

    fn not_after(&self, other: &Profile) -> (r: bool) {
        text::not_after(self.id.as_str(), other.id.as_str())
    }
}

/// All profiles known to the gateway, keyed by id and listed in their order.
#[derive(Debug)]
pub struct ProfileSet {
    profiles: Vec<Profile>,
}

impl View for ProfileSet {
    type V = Seq<ProfileModel>;

    closed spec fn view(&self) -> Seq<ProfileModel> {
        text::views(self.profiles@)
    }
}

impl ProfileSet {
    #[verifier::type_invariant]
    spec fn well_formed(self) -> bool {
        keyed(text::views(self.profiles@))
    }
}

impl Clone for ProfileSet {
    fn clone(&self) -> (r: ProfileSet)
        ensures
            r@ == self@,
    {
        let mut profiles: Vec<Profile> = Vec::new();
        let mut i: usize = 0;
        while i < self.profiles.len()
            invariant
                i <= self.profiles@.len(),
                profiles@.len() == i,
                forall|k: int| 0 <= k < i ==> (#[trigger] profiles@[k])@ == self.profiles@[k]@,
            decreases self.profiles@.len() - i,
        {
            profiles.push(self.profiles[i].clone());
            i += 1;
        }
        proof {
            use_type_invariant(self);
            assert(text::views(profiles@) =~= text::views(self.profiles@));
        }
        ProfileSet { profiles }
    }
}

/// A profile with an id.
pub open spec fn profile_with_id(id: Seq<char>) -> spec_fn(ProfileModel) -> bool {
    |p: ProfileModel| p.id == id
}

/// A profile with another id.
pub open spec fn profile_without_id(id: Seq<char>) -> spec_fn(ProfileModel) -> bool {
    |p: ProfileModel| p.id != id
}

/// The profiles with one more, which takes the place of one of the same id.
pub open spec fn added(profiles: Seq<ProfileModel>, p: ProfileModel) -> Seq<ProfileModel> {
    table::place(profiles.filter(profile_without_id(p.id)), p, table::le_of::<Profile>())
}

/// Whether profiles are listed in the order of their ids, each id once.
pub open spec fn keyed(profiles: Seq<ProfileModel>) -> bool {
    forall|i: int, j: int|
        0 <= i < j < profiles.len() ==> text::text_le(
            (#[trigger] profiles[i]).id,
            (#[trigger] profiles[j]).id,
        ) && profiles[i].id != profiles[j].id
}

/// A port template together with the profile that contributed it.
#[derive(Debug, Clone, Copy)]
pub struct ResolvedTemplate<'a> {
    pub profile: &'a Profile,
    pub template: &'a PortTemplate,
}

/// What a [`ResolvedTemplate`] says.
pub struct ResolvedModel {
    pub profile: ProfileModel,
    pub template: PortTemplateModel,
}

impl<'a> View for ResolvedTemplate<'a> {
    type V = ResolvedModel;

    open spec fn view(&self) -> ResolvedModel {
        ResolvedModel { profile: self.profile@, template: self.template@ }
    }
}

/// A resolved template that wants the same local port.
pub open spec fn same_port(t: PortTemplateModel) -> spec_fn(ResolvedModel) -> bool {
    |r: ResolvedModel|
        r.template.protocol == t.protocol && r.template.default_port == t.default_port
}

/// What was resolved, with the first `n` templates of one more profile.
pub open spec fn extended(
    resolved: Seq<ResolvedModel>,
    profile: ProfileModel,
    n: nat,
) -> Result<Seq<ResolvedModel>, ProfileErrorModel>
    decreases n,
{
    if n == 0 {
        Ok(resolved)
    } else {
        match extended(resolved, profile, (n - 1) as nat) {
            Err(e) => Err(e),
            Ok(before) => {
                let template = profile.ports[n - 1];
                match table::first(before, same_port(template)) {
                    Some(existing) => Err(
                        ProfileErrorModel::ConflictingPort(
                            existing.profile.id,
                            profile.id,
                            template.protocol,
                            template.default_port,
                        ),
                    ),
                    None => Ok(before.push(ResolvedModel { profile, template })),
                }
            },
        }
    }
}

/// The port templates that a selection of profiles needs, in its order, or
/// the first thing wrong with it.
pub open spec fn resolution(profiles: Seq<ProfileModel>, ids: Seq<Seq<char>>) -> Result<
    Seq<ResolvedModel>,
    ProfileErrorModel,
>
    decreases ids.len(),
{
    if ids.len() == 0 {
        Ok(Seq::empty())
    } else {
        match resolution(profiles, ids.drop_last()) {
            Err(e) => Err(e),
            Ok(before) => match table::first(profiles, profile_with_id(ids.last())) {
                None => Err(ProfileErrorModel::Unknown(ids.last())),
                Some(profile) => extended(before, profile, profile.ports.len()),
            },
        }
    }
}

proof fn lemma_resolution_refusal(profiles: Seq<ProfileModel>, ids: Seq<Seq<char>>, n: int)
    requires
        0 <= n <= ids.len(),
        resolution(profiles, ids.take(n)) is Err,
    ensures
        resolution(profiles, ids) == resolution(profiles, ids.take(n)),
    decreases ids.len() - n,
{
    if n == ids.len() {
        assert(ids.take(n) =~= ids);
    } else {
        assert(ids.take(n + 1).drop_last() =~= ids.take(n));
        lemma_resolution_refusal(profiles, ids, n + 1);
    }
}

proof fn lemma_extension_refusal(
    resolved: Seq<ResolvedModel>,
    profile: ProfileModel,
    n: nat,
    m: nat,
)
    requires
        n <= m,
        extended(resolved, profile, n) is Err,
    ensures
        extended(resolved, profile, m) == extended(resolved, profile, n),
    decreases m,
{
    if n < m {
        lemma_extension_refusal(resolved, profile, n, (m - 1) as nat);
    }
}

/// Whether a file with this extension holds a profile.
pub fn is_profile_extension(extension: Option<&str>) -> (r: bool)
    ensures
        r == (extension matches Some(e) && (e@ == "yaml"@ || e@ == "yml"@)),
{
    match extension {
        Some(e) => text::same_text(e, "yaml") || text::same_text(e, "yml"),
        None => false,
    }
}

impl Default for ProfileSet {
    fn default() -> (r: ProfileSet)
        ensures
            r@ == Seq::<ProfileModel>::empty(),
    {
        let r = ProfileSet { profiles: Vec::new() };
        proof {
            assert(r@ =~= Seq::<ProfileModel>::empty());
        }
        r
    }
}

impl ProfileSet {
    /// Adds a profile that was read. It is validated first, so a malformed
    /// profile fails at startup rather than when someone tries to create a
    /// service at 2am.
    pub fn add(&mut self, profile: Profile) -> (r: Result<(), ProfileError>)
        ensures
            match r {
                Ok(()) => duplicate_template(profile@.ports) is None && final(self)@ == added(
                    old(self)@,
                    profile@,
                ),
                Err(e) => final(self)@ == old(self)@ && duplicate_template(profile@.ports) is Some
                    && e@ == ProfileErrorModel::DuplicateTemplate(
                    profile.id@,
                    duplicate_template(profile@.ports)->0,
                ),
            },
    {
        if let Err(e) = profile.validate() {
            return Err(e);
        }
        let id = profile.id.clone();
        let keep = |p: &Profile| -> (b: bool)
            ensures
                b == (p@.id != id@),
            { !text::same_text(p.id.as_str(), id.as_str()) };
        proof {
            use_type_invariant(&*self);
            law_adding_keeps_the_keys(self@, profile@);
        }
        let mut profiles: Vec<Profile> = Vec::new();
        std::mem::swap(&mut profiles, &mut self.profiles);
        table::retain(&mut profiles, keep, Ghost(profile_without_id(id@)));
        table::insert_in_order(&mut profiles, profile);
        self.profiles = profiles;
        Ok(())
    }

    pub fn get(&self, id: &str) -> (r: Option<&Profile>)
        ensures
            match r {
                Some(p) => table::first(self@, profile_with_id(id@)) == Some(p@),
                None => table::first(self@, profile_with_id(id@)) is None,
            },
    {
        let hit = |p: &Profile| -> (b: bool)
            ensures
                b == (p@.id == id@),
            { text::same_text(p.id.as_str(), id) };
        match table::find(&self.profiles, hit, Ghost(profile_with_id(id@))) {
            Some(i) => Some(&self.profiles[i]),
            None => None,
        }
    }

    /// Every profile, in the order of their ids.
    pub fn iter(&self) -> (r: Vec<&Profile>)
        ensures
            text::views(r@) == self@,
            keyed(self@),
    {
        proof {
            use_type_invariant(self);
        }
        table::borrowed(&self.profiles)
    }

    pub fn len(&self) -> (r: usize)
        ensures
            r == self@.len(),
    {
        self.profiles.len()
    }

    pub fn is_empty(&self) -> (r: bool)
        ensures
            r == (self@.len() == 0),
    {
        self.profiles.len() == 0
    }

    /// Expand a service's profile selection into the port templates it needs.
    ///
    /// Rejects combinations that collide on the local side: two profiles both
    /// wanting UDP 24454 on the same machine cannot both be served, and it is
    /// better to say so at creation time than to produce a half-working
    /// tunnel.
    pub fn resolve(&self, ids: &[String]) -> (r: Result<Vec<ResolvedTemplate<'_>>, ProfileError>)
        ensures
            match r {
                Ok(v) => resolution(self@, text::views(ids@)) == Ok::<
                    Seq<ResolvedModel>,
                    ProfileErrorModel,
                >(text::views(v@)),
                Err(e) => resolution(self@, text::views(ids@)) == Err::<
                    Seq<ResolvedModel>,
                    ProfileErrorModel,
                >(e@),
            },
    {
        let ghost all = text::views(ids@);
        let mut resolved: Vec<ResolvedTemplate<'_>> = Vec::new();
        let mut i: usize = 0;
        proof {
            assert(all.take(0) =~= Seq::<Seq<char>>::empty());
            assert(text::views(resolved@) =~= Seq::<ResolvedModel>::empty());
        }
        while i < ids.len()
            invariant
                i <= ids@.len(),
                all == text::views(ids@),
                resolution(self@, all.take(i as int)) == Ok::<
                    Seq<ResolvedModel>,
                    ProfileErrorModel,
                >(text::views(resolved@)),
            decreases ids@.len() - i,
        {
            proof {
                text::lemma_views_step(ids@, i as int);
            }
            let profile = match self.get(ids[i].as_str()) {
                Some(profile) => profile,
                None => {
                    proof {
                        lemma_resolution_refusal(self@, all, i + 1);
                    }
                    return Err(ProfileError::Unknown(ids[i].clone()));
                },
            };
            let ghost before = text::views(resolved@);
            let mut k: usize = 0;
            while k < profile.ports.len()
                invariant
                    i < ids@.len(),
                    k <= profile.ports@.len(),
                    all == text::views(ids@),
                    all.take(i + 1).drop_last() == all.take(i as int),
                    all.take(i + 1).last() == ids@[i as int]@,
                    resolution(self@, all.take(i as int)) == Ok::<
                        Seq<ResolvedModel>,
                        ProfileErrorModel,
                    >(before),
                    table::first(self@, profile_with_id(ids@[i as int]@)) == Some(profile@),
                    extended(before, profile@, k as nat) == Ok::<
                        Seq<ResolvedModel>,
                        ProfileErrorModel,
                    >(text::views(resolved@)),
                decreases profile.ports@.len() - k,
            {
                let template: &PortTemplate = &profile.ports[k];
                proof {
                    assert(profile@.ports[k as int] == template@);
                }
                let hit = |r: &ResolvedTemplate<'_>| -> (b: bool)
                    ensures
                        b == same_port(template@)(r@),
                    {
                        r.template.protocol == template.protocol && r.template.default_port
                            == template.default_port
                    };
                if let Some(at) = table::find(&resolved, hit, Ghost(same_port(template@))) {
                    proof {
                        lemma_extension_refusal(
                            before,
                            profile@,
                            (k + 1) as nat,
                            profile@.ports.len(),
                        );
                        lemma_resolution_refusal(self@, all, i + 1);
                    }
                    return Err(
                        ProfileError::ConflictingPort(
                            resolved[at].profile.id.clone(),
                            profile.id.clone(),
                            template.protocol,
                            template.default_port,
                        ),
                    );
                }
                let one = ResolvedTemplate { profile, template };
                proof {
                    text::lemma_views_push(resolved@, one);
                }
                resolved.push(one);
                k += 1;
            }
            i += 1;
        }
        proof {
            assert(all.take(i as int) =~= all);
        }
        Ok(resolved)
    }
}

// ---- what holds of every set --------------------------------------------

/// A set stays keyed: listed in the order of its ids, each id once.
pub proof fn law_adding_keeps_the_keys(profiles: Seq<ProfileModel>, p: ProfileModel)
    requires
        keyed(profiles),
    ensures
        keyed(added(profiles, p)),
{
    let le = table::le_of::<Profile>();
    let others = profiles.filter(profile_without_id(p.id));
    lemma_keyed_filtered(profiles, profile_without_id(p.id));
    assert(table::preorder(le)) by {
        assert forall|a: ProfileModel, b: ProfileModel| #[trigger] le(a, b) || le(b, a) by {
            text::lemma_text_le_total(a.id, b.id);
        }
        assert forall|a: ProfileModel, b: ProfileModel, c: ProfileModel| #[trigger]
            le(a, b) && #[trigger] le(b, c) implies le(a, c) by {
            text::lemma_text_le_transitive(a.id, b.id, c.id);
        }
    }
    assert(table::ascending(others, le)) by {
        assert forall|i: int, j: int| 0 <= i < j < others.len() implies #[trigger] le(
            others[i],
            others[j],
        ) by {
            assert(text::text_le(others[i].id, others[j].id));
        }
    }
    table::lemma_place(others, p, le);
    lemma_place_distinct(others, p);
    let all = added(profiles, p);
    assert forall|i: int, j: int| 0 <= i < j < all.len() implies text::text_le(
        (#[trigger] all[i]).id,
        (#[trigger] all[j]).id,
    ) && all[i].id != all[j].id by {
        assert(le(all[i], all[j]));
    }
}

proof fn lemma_keyed_filtered(profiles: Seq<ProfileModel>, keep: spec_fn(ProfileModel) -> bool)
    requires
        keyed(profiles),
    ensures
        keyed(profiles.filter(keep)),
        forall|i: int|
            0 <= i < profiles.filter(keep).len() ==> keep(#[trigger] profiles.filter(keep)[i])
                && profiles.contains(profiles.filter(keep)[i]),
    decreases profiles.len(),
{
    reveal(Seq::filter);
    if profiles.len() > 0 {
        let head = profiles.drop_last();
        assert(keyed(head)) by {
            assert forall|i: int, j: int| 0 <= i < j < head.len() implies text::text_le(
                (#[trigger] head[i]).id,
                (#[trigger] head[j]).id,
            ) && head[i].id != head[j].id by {
                assert(profiles[i] == head[i] && profiles[j] == head[j]);
            }
        }
        lemma_keyed_filtered(head, keep);
        let kept = head.filter(keep);
        let last = profiles.last();
        assert forall|i: int| 0 <= i < kept.len() implies profiles.contains(
            #[trigger] kept[i],
        ) && text::text_le(kept[i].id, last.id) && kept[i].id != last.id by {
            assert(head.contains(kept[i]));
            let k = choose|k: int| 0 <= k < head.len() && head[k] == kept[i];
            assert(profiles[k] == kept[i]);
            assert(profiles[profiles.len() - 1] == last);
        }
        if keep(last) {
            let all = kept.push(last);
            assert(profiles.contains(last)) by {
                assert(profiles[profiles.len() - 1] == last);
            }
            assert forall|i: int, j: int| 0 <= i < j < all.len() implies text::text_le(
                (#[trigger] all[i]).id,
                (#[trigger] all[j]).id,
            ) && all[i].id != all[j].id by {
                if j < kept.len() {
                    assert(kept[i] == all[i] && kept[j] == all[j]);
                } else {
                    assert(kept[i] == all[i]);
                }
            }
        }
    }
}

proof fn lemma_place_distinct(s: Seq<ProfileModel>, x: ProfileModel)
    requires
        forall|i: int, j: int|
            0 <= i < j < s.len() ==> (#[trigger] s[i]).id != (#[trigger] s[j]).id,
        forall|i: int| 0 <= i < s.len() ==> (#[trigger] s[i]).id != x.id,
    ensures
        ({
            let out = table::place(s, x, table::le_of::<Profile>());
            forall|i: int, j: int|
                0 <= i < j < out.len() ==> (#[trigger] out[i]).id != (#[trigger] out[j]).id
        }),
    decreases s.len(),
{
    let le = table::le_of::<Profile>();
    let out = table::place(s, x, le);
    if s.len() > 0 && !le(s.last(), x) {
        let head = s.drop_last();
        assert forall|i: int, j: int| 0 <= i < j < head.len() implies (#[trigger] head[i]).id != (
        #[trigger] head[j]).id by {
            assert(s[i].id != s[j].id);
        }
        assert forall|i: int| 0 <= i < head.len() implies (#[trigger] head[i]).id != x.id by {
            assert(s[i].id != x.id);
        }
        lemma_place_distinct(head, x);
        let inner = table::place(head, x, le);
        table::lemma_place_members(head, x, le);
        assert forall|i: int, j: int| 0 <= i < j < out.len() implies (#[trigger] out[i]).id != (
        #[trigger] out[j]).id by {
            if j < inner.len() {
                assert(inner[i].id != inner[j].id);
            } else {
                assert(inner.contains(inner[i]));
                assert(s[s.len() - 1].id != x.id);
                if inner[i] != x {
                    let k = choose|k: int| 0 <= k < head.len() && head[k] == inner[i];
                    assert(s[k].id != s[s.len() - 1].id);
                }
            }
        }
    }
}

/// A profile that was added is found under its id.
pub proof fn law_added_profile_is_found(profiles: Seq<ProfileModel>, p: ProfileModel)
    requires
        keyed(profiles),
    ensures
        table::first(added(profiles, p), profile_with_id(p.id)) == Some(p),
{
    let le = table::le_of::<Profile>();
    let others = profiles.filter(profile_without_id(p.id));
    let all = added(profiles, p);
    law_adding_keeps_the_keys(profiles, p);
    table::lemma_place_members(others, p, le);
    assert(all.contains(p));
    let k = choose|k: int| 0 <= k < all.len() && all[k] == p;
    table::lemma_first_is(all, profile_with_id(p.id), k);
}

/// Whether no two resolved templates want one local port.
pub open spec fn ports_apart(resolved: Seq<ResolvedModel>) -> bool {
    forall|i: int, j: int|
        0 <= i < j < resolved.len() ==> (#[trigger] resolved[i]).template.protocol != (
        #[trigger] resolved[j]).template.protocol || resolved[i].template.default_port
            != resolved[j].template.default_port
}

proof fn lemma_extended_apart(resolved: Seq<ResolvedModel>, profile: ProfileModel, n: nat)
    requires
        ports_apart(resolved),
        n <= profile.ports.len(),
    ensures
        extended(resolved, profile, n) matches Ok(v) ==> ports_apart(v),
    decreases n,
{
    if n > 0 {
        lemma_extended_apart(resolved, profile, (n - 1) as nat);
        if let Ok(before) = extended(resolved, profile, (n - 1) as nat) {
            table::lemma_first(before, same_port(profile.ports[n - 1]));
        }
    }
}

/// What a selection resolves to never wants one local port twice.
pub proof fn law_resolved_ports_are_apart(profiles: Seq<ProfileModel>, ids: Seq<Seq<char>>)
    ensures
        resolution(profiles, ids) matches Ok(v) ==> ports_apart(v),
    decreases ids.len(),
{
    if ids.len() > 0 {
        law_resolved_ports_are_apart(profiles, ids.drop_last());
        if let Ok(before) = resolution(profiles, ids.drop_last()) {
            if let Some(profile) = table::first(profiles, profile_with_id(ids.last())) {
                lemma_extended_apart(before, profile, profile.ports.len());
            }
        }
    }
}

} // verus!
