//! The registry of hosted domains, their users and the resources (sessions)
//! each user has bound.
use vstd::prelude::*;
use crate::name_map::NameMap;
use crate::text;

verus! {

/// What a session records: where it lives, the addresses derived from that,
/// and the stanzas handed to it that its connection has not taken yet.
pub struct SessionModel {
    pub domain: Seq<char>,
    pub username: Seq<char>,
    pub resource: Seq<char>,
    pub jid: Seq<char>,
    pub full_jid: Seq<char>,
    pub pending: Seq<Seq<char>>,
}

/// The fresh session of `username` on `domain` bound to `resource`: its `jid`
/// is `username@domain`, its `full_jid` is `jid/resource`, and nothing waits in it.
pub open spec fn session_model(domain: Seq<char>, username: Seq<char>, resource: Seq<char>) -> SessionModel {
    SessionModel {
        domain: domain,
        username: username,
        resource: resource,
        jid: username + seq!['@'] + domain,
        full_jid: username + seq!['@'] + domain + seq!['/'] + resource,
        pending: Seq::empty(),
    }
}

/// `s` with `pending` waiting in it in place of what waited before.
pub open spec fn with_pending(s: SessionModel, pending: Seq<Seq<char>>) -> SessionModel {
    SessionModel {
        domain: s.domain,
        username: s.username,
        resource: s.resource,
        jid: s.jid,
        full_jid: s.full_jid,
        pending: pending,
    }
}

/// A bound resource of a user on a domain, with the stanzas other sessions
/// handed to it that its connection has not taken yet.
pub struct Session {
    pub domain: String,
    pub username: String,
    pub resource: String,
    pub jid: String,
    pub full_jid: String,
    pub pending: Vec<String>,
}

/// The texts of `v`.
pub open spec fn texts_of(v: Seq<String>) -> Seq<Seq<char>> {
    v.map_values(|t: String| t@)
}

impl View for Session {
    type V = SessionModel;

    open spec fn view(&self) -> SessionModel {
        SessionModel {
            domain: self.domain@,
            username: self.username@,
            resource: self.resource@,
            jid: self.jid@,
            full_jid: self.full_jid@,
            pending: texts_of(self.pending@),
        }
    }
}

impl Session {
    /// The session of `username` on `domain_name` bound to `resource`.
    pub fn new(domain_name: &str, username: &str, resource: &str) -> (s: Session)
        ensures
            s@ == session_model(domain_name@, username@, resource@),
    {
        let mut jid = String::from_str(username);
        jid.append("@");
        jid.append(domain_name);
        let mut full_jid = String::from_str(username);
        full_jid.append("@");
        full_jid.append(domain_name);
        full_jid.append("/");
        full_jid.append(resource);
        let pending: Vec<String> = Vec::new();
        proof {
            reveal_strlit("@");
            reveal_strlit("/");
            assert("@"@ =~= seq!['@']);
            assert("/"@ =~= seq!['/']);
            assert(texts_of(pending@) =~= Seq::<Seq<char>>::empty());
        }
        Session {
            domain: String::from_str(domain_name),
            username: String::from_str(username),
            resource: String::from_str(resource),
            jid: jid,
            full_jid: full_jid,
            pending: pending,
        }
    }
}

/// The registry as a model: domain, then user, then resource, to the session.
pub type Registry = Map<Seq<char>, Map<Seq<char>, Map<Seq<char>, SessionModel>>>;

/// The registry after `add_domain(domain)`: the domain is hosted, with no user
/// (a domain hosted before loses its users).
pub open spec fn registry_add_domain(m: Registry, domain: Seq<char>) -> Registry {
    m.insert(domain, Map::empty())
}

/// The registry after `add_user(domain, username)`: on a hosted domain the user
/// is registered with no session (a user registered before loses its sessions);
/// on any other domain nothing changes.
pub open spec fn registry_add_user(m: Registry, domain: Seq<char>, username: Seq<char>) -> Registry {
    if m.contains_key(domain) {
        m.insert(domain, m[domain].insert(username, Map::empty()))
    } else {
        m
    }
}

/// `resource` can be bound for `username` on `domain`: both are registered.
pub open spec fn registry_can_bind(m: Registry, domain: Seq<char>, username: Seq<char>) -> bool {
    m.contains_key(domain) && m[domain].contains_key(username)
}

/// The registry after `add_session_resource(domain, username, resource)`:
/// where the user is registered, the resource is bound to a fresh session;
/// elsewhere nothing changes.
pub open spec fn registry_add_session(
    m: Registry,
    domain: Seq<char>,
    username: Seq<char>,
    resource: Seq<char>,
) -> Registry {
    if registry_can_bind(m, domain, username) {
        m.insert(
            domain,
            m[domain].insert(
                username,
                m[domain][username].insert(resource, session_model(domain, username, resource)),
            ),
        )
    } else {
        m
    }
}

/// `s` is the session that `domain`, `username` and `resource` name, whatever
/// stanzas wait in it.
pub open spec fn session_named(s: SessionModel, domain: Seq<char>, username: Seq<char>, resource: Seq<char>) -> bool {
    s == with_pending(session_model(domain, username, resource), s.pending)
}

/// Every session in the registry is the one its domain, user and resource
/// name (so its addresses are derived from them).
pub open spec fn sessions_match_keys(m: Registry) -> bool {
    forall|d: Seq<char>, u: Seq<char>, r: Seq<char>|
        #![trigger m[d][u][r]]
        m.contains_key(d) && m[d].contains_key(u) && m[d][u].contains_key(r) ==> session_named(
            m[d][u][r],
            d,
            u,
            r,
        )
}

/// `resource` is bound for `username` on `domain`.
pub open spec fn registry_has_session(m: Registry, domain: Seq<char>, username: Seq<char>, resource: Seq<char>) -> bool {
    m.contains_key(domain) && m[domain].contains_key(username) && m[domain][username].contains_key(resource)
}

/// User, domain and resource of a full address `user@domain/resource`: the
/// text before the first `@`; after it, the text before the first `/`, and
/// the text after that `/`. Nothing when `@`, or a `/` after it, is missing.
pub open spec fn full_address_parts(to: Seq<char>) -> Option<(Seq<char>, Seq<char>, Seq<char>)> {
    match text::after_first(to, '@') {
        Some(tail) => match text::after_first(tail, '/') {
            Some(resource) => Some((text::before_first(to, '@'), text::before_first(tail, '/'), resource)),
            None => None,
        },
        None => None,
    }
}

/// `to` is the full address of a session bound in the registry.
pub open spec fn registry_addresses(m: Registry, to: Seq<char>) -> bool {
    match full_address_parts(to) {
        Some((u, d, r)) => registry_has_session(m, d, u, r),
        None => false,
    }
}

/// The registry with `pending` waiting in the bound session `domain`,
/// `username`, `resource`, everything else as it was.
pub open spec fn registry_set_pending(
    m: Registry,
    domain: Seq<char>,
    username: Seq<char>,
    resource: Seq<char>,
    pending: Seq<Seq<char>>,
) -> Registry {
    m.insert(
        domain,
        m[domain].insert(
            username,
            m[domain][username].insert(resource, with_pending(m[domain][username][resource], pending)),
        ),
    )
}

/// The registry after `push_to(to, stanza)`: when `to` is the full address of
/// a bound session, `stanza` waits in it after what waited before; otherwise
/// nothing changes.
pub open spec fn registry_deliver(m: Registry, to: Seq<char>, stanza: Seq<char>) -> Registry {
    match full_address_parts(to) {
        Some((u, d, r)) => if registry_has_session(m, d, u, r) {
            registry_set_pending(m, d, u, r, m[d][u][r].pending.push(stanza))
        } else {
            m
        },
        None => m,
    }
}

/// The stanzas waiting in a session; none when it is not bound.
pub open spec fn pending_of(m: Registry, domain: Seq<char>, username: Seq<char>, resource: Seq<char>) -> Seq<Seq<char>> {
    if registry_has_session(m, domain, username, resource) {
        m[domain][username][resource].pending
    } else {
        Seq::empty()
    }
}

/// The registry after `take_pending(domain, username, resource)`: nothing
/// waits in that session any more; everything else as it was.
pub open spec fn registry_take_pending(m: Registry, domain: Seq<char>, username: Seq<char>, resource: Seq<char>) -> Registry {
    if registry_has_session(m, domain, username, resource) {
        registry_set_pending(m, domain, username, resource, Seq::empty())
    } else {
        m
    }
}

/// Setting what waits in a bound session keeps it bound, keeps its addresses,
/// and a second setting overrides the first.
pub proof fn lemma_set_pending(
    m: Registry,
    domain: Seq<char>,
    username: Seq<char>,
    resource: Seq<char>,
    p1: Seq<Seq<char>>,
    p2: Seq<Seq<char>>,
)
    requires
        registry_has_session(m, domain, username, resource),
    ensures
        registry_has_session(registry_set_pending(m, domain, username, resource, p1), domain, username, resource),
        registry_set_pending(m, domain, username, resource, p1)[domain][username][resource] == with_pending(
            m[domain][username][resource],
            p1,
        ),
        registry_set_pending(registry_set_pending(m, domain, username, resource, p1), domain, username, resource, p2)
            == registry_set_pending(m, domain, username, resource, p2),
{
    let m1 = registry_set_pending(m, domain, username, resource, p1);
    assert(with_pending(with_pending(m[domain][username][resource], p1), p2) == with_pending(
        m[domain][username][resource],
        p2,
    ));
    assert(m1[domain][username].insert(resource, with_pending(m1[domain][username][resource], p2)) =~= m[domain][username].insert(
        resource,
        with_pending(m[domain][username][resource], p2),
    ));
    assert(m1[domain].insert(username, m[domain][username].insert(resource, with_pending(m[domain][username][resource], p2)))
        =~= m[domain].insert(username, m[domain][username].insert(resource, with_pending(m[domain][username][resource], p2))));
    assert(registry_set_pending(m1, domain, username, resource, p2) =~= registry_set_pending(m, domain, username, resource, p2));
}

/// A session's full address names it back: cutting `username@domain/resource`
/// gives the three parts, when the user holds no `@` and the domain no `/`.
pub proof fn law_full_address_names_session(domain: Seq<char>, username: Seq<char>, resource: Seq<char>)
    requires
        !text::occurs(username, '@'),
        !text::occurs(domain, '/'),
    ensures
        full_address_parts(session_model(domain, username, resource).full_jid) == Some((username, domain, resource)),
{
    let full = session_model(domain, username, resource).full_jid;
    assert(full =~= username + seq!['@'] + (domain + seq!['/'] + resource));
    text::lemma_cut_join(username, '@', domain + seq!['/'] + resource);
    text::lemma_cut_join(domain, '/', resource);
}

/// A stanza pushed to the full address of a bound session waits in that
/// session after what waited before, and every other session keeps what
/// waits in it; once the connection takes the waiting stanzas, nothing waits
/// there and what was taken ends with the stanza.
pub proof fn law_delivery_reaches_addressed_session(
    m: Registry,
    domain: Seq<char>,
    username: Seq<char>,
    resource: Seq<char>,
    stanza: Seq<char>,
    d: Seq<char>,
    u: Seq<char>,
    r: Seq<char>,
)
    requires
        sessions_match_keys(m),
        registry_has_session(m, domain, username, resource),
        !text::occurs(username, '@'),
        !text::occurs(domain, '/'),
    ensures
        registry_addresses(m, m[domain][username][resource].full_jid),
        pending_of(registry_deliver(m, m[domain][username][resource].full_jid, stanza), domain, username, resource)
            == pending_of(m, domain, username, resource).push(stanza),
        registry_has_session(m, d, u, r) && (d != domain || u != username || r != resource) ==> registry_deliver(
            m,
            m[domain][username][resource].full_jid,
            stanza,
        )[d][u][r] == m[d][u][r],
        pending_of(
            registry_take_pending(
                registry_deliver(m, m[domain][username][resource].full_jid, stanza),
                domain,
                username,
                resource,
            ),
            domain,
            username,
            resource,
        ) == Seq::<Seq<char>>::empty(),
{
    assert(session_named(m[domain][username][resource], domain, username, resource));
    law_full_address_names_session(domain, username, resource);
    let p = m[domain][username][resource].pending.push(stanza);
    lemma_set_pending(m, domain, username, resource, p, Seq::empty());
    let m1 = registry_set_pending(m, domain, username, resource, p);
    lemma_set_pending(m1, domain, username, resource, Seq::empty(), Seq::empty());
}

/// A session's full address is its address, `/`, and its resource.
pub proof fn law_full_jid_extends_jid(domain: Seq<char>, username: Seq<char>, resource: Seq<char>)
    ensures
        session_model(domain, username, resource).full_jid == session_model(
            domain,
            username,
            resource,
        ).jid + seq!['/'] + resource,
{
}

/// Every operation keeps each stored session the one its keys name, starting
/// from the empty registry.
pub proof fn law_sessions_match_keys(
    m: Registry,
    domain: Seq<char>,
    username: Seq<char>,
    resource: Seq<char>,
    to: Seq<char>,
    stanza: Seq<char>,
)
    requires
        sessions_match_keys(m),
    ensures
        sessions_match_keys(Map::empty()),
        sessions_match_keys(registry_add_domain(m, domain)),
        sessions_match_keys(registry_add_user(m, domain, username)),
        sessions_match_keys(registry_add_session(m, domain, username, resource)),
        sessions_match_keys(registry_deliver(m, to, stanza)),
        sessions_match_keys(registry_take_pending(m, domain, username, resource)),
{
    let m1 = registry_add_domain(m, domain);
    assert forall|d: Seq<char>, u: Seq<char>, r: Seq<char>|
        m1.contains_key(d) && m1[d].contains_key(u) && m1[d][u].contains_key(r) implies session_named(
        #[trigger] m1[d][u][r],
        d,
        u,
        r,
    ) by {
        if d != domain {
            assert(m1[d] == m[d]);
        }
    }
    let m2 = registry_add_user(m, domain, username);
    assert forall|d: Seq<char>, u: Seq<char>, r: Seq<char>|
        m2.contains_key(d) && m2[d].contains_key(u) && m2[d][u].contains_key(r) implies session_named(
        #[trigger] m2[d][u][r],
        d,
        u,
        r,
    ) by {
        if m.contains_key(domain) && d == domain {
            if u != username {
                assert(m2[d][u] == m[d][u]);
            }
        } else {
            assert(m2[d] == m[d]);
        }
    }
    let m3 = registry_add_session(m, domain, username, resource);
    assert forall|d: Seq<char>, u: Seq<char>, r: Seq<char>|
        m3.contains_key(d) && m3[d].contains_key(u) && m3[d][u].contains_key(r) implies session_named(
        #[trigger] m3[d][u][r],
        d,
        u,
        r,
    ) by {
        if registry_can_bind(m, domain, username) && d == domain {
            if u == username {
                if r != resource {
                    assert(m3[d][u][r] == m[d][u][r]);
                }
            } else {
                assert(m3[d][u] == m[d][u]);
            }
        } else {
            assert(m3[d] == m[d]);
        }
    }
    lemma_set_pending_keeps_names(m, to, stanza);
    if registry_has_session(m, domain, username, resource) {
        lemma_set_pending_names(m, domain, username, resource, Seq::empty());
    }
}

/// Setting what waits in a bound session keeps every session the one its keys name.
proof fn lemma_set_pending_names(
    m: Registry,
    domain: Seq<char>,
    username: Seq<char>,
    resource: Seq<char>,
    pending: Seq<Seq<char>>,
)
    requires
        sessions_match_keys(m),
        registry_has_session(m, domain, username, resource),
    ensures
        sessions_match_keys(registry_set_pending(m, domain, username, resource, pending)),
{
    let m4 = registry_set_pending(m, domain, username, resource, pending);
    assert forall|d: Seq<char>, u: Seq<char>, r: Seq<char>|
        m4.contains_key(d) && m4[d].contains_key(u) && m4[d][u].contains_key(r) implies session_named(
        #[trigger] m4[d][u][r],
        d,
        u,
        r,
    ) by {
        if d == domain {
            if u == username {
                if r == resource {
                    assert(session_named(m[d][u][r], d, u, r));
                } else {
                    assert(m4[d][u][r] == m[d][u][r]);
                }
            } else {
                assert(m4[d][u] == m[d][u]);
            }
        } else {
            assert(m4[d] == m[d]);
        }
    }
}

/// Delivering a stanza keeps every session the one its keys name.
proof fn lemma_set_pending_keeps_names(m: Registry, to: Seq<char>, stanza: Seq<char>)
    requires
        sessions_match_keys(m),
    ensures
        sessions_match_keys(registry_deliver(m, to, stanza)),
{
    match full_address_parts(to) {
        Some((u, d, r)) => if registry_has_session(m, d, u, r) {
            lemma_set_pending_names(m, d, u, r, m[d][u][r].pending.push(stanza));
        },
        None => {},
    }
}

/// Once a domain is hosted, any user can be registered on it, and the user
/// starts with no session.
pub proof fn law_user_registers_on_hosted_domain(m: Registry, domain: Seq<char>, username: Seq<char>)
    ensures
        registry_add_domain(m, domain).contains_key(domain),
        registry_can_bind(registry_add_user(registry_add_domain(m, domain), domain, username), domain, username),
        registry_add_user(registry_add_domain(m, domain), domain, username)[domain][username]
            == Map::<Seq<char>, SessionModel>::empty(),
{
}

/// Once a user is registered on a hosted domain, a resource can be bound for
/// them, and the registry then holds the session for that resource.
pub proof fn law_resource_binds_after_registration(
    m: Registry,
    domain: Seq<char>,
    username: Seq<char>,
    resource: Seq<char>,
)
    requires
        m.contains_key(domain),
    ensures
        registry_can_bind(registry_add_user(m, domain, username), domain, username),
        registry_add_session(registry_add_user(m, domain, username), domain, username, resource)[domain][username][resource]
            == session_model(domain, username, resource),
{
}

/// Binding a resource changes nothing but that resource's entry: other
/// domains, other users and other resources keep their sessions.
pub proof fn law_binding_is_local(
    m: Registry,
    domain: Seq<char>,
    username: Seq<char>,
    resource: Seq<char>,
    d: Seq<char>,
    u: Seq<char>,
    r: Seq<char>,
)
    requires
        m.contains_key(d),
        m[d].contains_key(u),
        m[d][u].contains_key(r),
        d != domain || u != username || r != resource,
    ensures
        registry_add_session(m, domain, username, resource)[d][u][r] == m[d][u][r],
{
}

/// Hosting a domain again empties it: its users are forgotten.
pub proof fn law_rehosting_empties_domain(m: Registry, domain: Seq<char>, username: Seq<char>)
    ensures
        registry_add_domain(registry_add_user(m, domain, username), domain) == registry_add_domain(
            m,
            domain,
        ),
{
    assert(registry_add_domain(registry_add_user(m, domain, username), domain) =~= registry_add_domain(
        m,
        domain,
    ));
}

/// What keeps track of the sessions on the server.
pub trait SessionManager: Sized {
    /// The registry this manager holds.
    spec fn sessions(&self) -> Registry;

    /// A manager that hosts nothing.
    fn new() -> (m: Self)
        ensures
            m.sessions() == Map::<Seq<char>, Map<Seq<char>, Map<Seq<char>, SessionModel>>>::empty(),
    ;

    /// Hosts `domain_name`; always succeeds.
    fn add_domain(&mut self, domain_name: &str) -> (added: bool)
        ensures
            added,
            final(self).sessions() == registry_add_domain(old(self).sessions(), domain_name@),
    ;

    /// Registers `username` on `domain_name`; fails when the domain is not hosted.
    fn add_user(&mut self, domain_name: &str, username: &str) -> (added: bool)
        ensures
            added == old(self).sessions().contains_key(domain_name@),
            final(self).sessions() == registry_add_user(
                old(self).sessions(),
                domain_name@,
                username@,
            ),
    ;

    /// Binds `resource` for `username` on `domain_name` and hands back the new
    /// session; fails when the user is not registered there.
    fn add_session_resource(&mut self, domain_name: &str, username: &str, resource: &str) -> (s:
        Option<Session>)
        ensures
            s is Some == registry_can_bind(old(self).sessions(), domain_name@, username@),
            s matches Some(session) ==> session@ == session_model(
                domain_name@,
                username@,
                resource@,
            ),
            final(self).sessions() == registry_add_session(
                old(self).sessions(),
                domain_name@,
                username@,
                resource@,
            ),
    ;

    /// Hands `stanza` to the session whose full address is `to`
    /// (`user@domain/resource`): it waits there, after what waited before,
    /// until that session's connection takes it. Tells whether such a session
    /// is bound; when none is, nothing changes.
    fn push_to(&mut self, to: &str, stanza: &str) -> (delivered: bool)
        ensures
            delivered == registry_addresses(old(self).sessions(), to@),
            final(self).sessions() == registry_deliver(old(self).sessions(), to@, stanza@),
    ;

    /// Takes the stanzas waiting in the session of `username` on `domain_name`
    /// bound to `resource`, oldest first; none when no such session is bound.
    fn take_pending(&mut self, domain_name: &str, username: &str, resource: &str) -> (stanzas: Vec<
        String,
    >)
        ensures
            texts_of(stanzas@) == pending_of(old(self).sessions(), domain_name@, username@, resource@),
            final(self).sessions() == registry_take_pending(
                old(self).sessions(),
                domain_name@,
                username@,
                resource@,
            ),
    ;
}

/// The sessions of one user, by resource.
pub type ResourceSessions = NameMap<Session>;

/// The users of one domain, each with their sessions.
pub type DomainUsers = NameMap<ResourceSessions>;

/// A session manager that keeps everything in memory.
pub struct InMemorySessionManager {
    storage: NameMap<DomainUsers>,
}

/// The registry that a storage of nested name maps stands for.
pub open spec fn registry_of(storage: Map<Seq<char>, DomainUsers>) -> Registry {
    storage.map_values(|users: DomainUsers| users_model(users@))
}

/// The users of a domain as a model.
pub open spec fn users_model(users: Map<Seq<char>, ResourceSessions>) -> Map<Seq<char>, Map<Seq<char>, SessionModel>> {
    users.map_values(|res: ResourceSessions| resources_model(res@))
}

/// The sessions of a user as a model.
pub open spec fn resources_model(res: Map<Seq<char>, Session>) -> Map<Seq<char>, SessionModel> {
    res.map_values(|s: Session| s@)
}

impl SessionManager for InMemorySessionManager {
    closed spec fn sessions(&self) -> Registry {
        registry_of(self.storage@)
    }

    fn new() -> (m: Self) {
        let m = InMemorySessionManager { storage: NameMap::new() };
        assert(m.sessions() =~= Map::<Seq<char>, Map<Seq<char>, Map<Seq<char>, SessionModel>>>::empty());
        m
    }

    fn add_domain(&mut self, domain_name: &str) -> (added: bool) {
        let ghost before = self.storage@;
        let empty: DomainUsers = NameMap::new();
        self.storage.insert(String::from_str(domain_name), empty);
        proof {
            assert(users_model(empty@) =~= Map::empty());
            assert(registry_of(self.storage@) =~= registry_add_domain(registry_of(before), domain_name@));
        }
        true
    }

    fn add_user(&mut self, domain_name: &str, username: &str) -> (added: bool) {
        let ghost before = self.storage@;
        let domain = String::from_str(domain_name);
        match self.storage.take(&domain) {
            None => false,
            Some(users) => {
                let mut users = users;
                let ghost users_before = users@;
                let empty: ResourceSessions = NameMap::new();
                users.insert(String::from_str(username), empty);
                self.storage.insert(domain, users);
                proof {
                    assert(resources_model(empty@) =~= Map::empty());
                    assert(users_model(users@) =~= users_model(users_before).insert(
                        username@,
                        Map::empty(),
                    ));
                    assert(registry_of(self.storage@) =~= registry_add_user(
                        registry_of(before),
                        domain_name@,
                        username@,
                    ));
                }
                true
            },
        }
    }

    fn add_session_resource(&mut self, domain_name: &str, username: &str, resource: &str) -> (s:
        Option<Session>) {
        let ghost before = self.storage@;
        let domain = String::from_str(domain_name);
        let user = String::from_str(username);
        let mut users = match self.storage.take(&domain) {
            None => {
                return None;
            },
            Some(users) => users,
        };
        let ghost users_before = users@;
        let mut resources = match users.take(&user) {
            None => {
                self.storage.insert(domain, users);
                proof {
                    assert(registry_of(self.storage@) =~= registry_of(before));
                }
                return None;
            },
            Some(resources) => resources,
        };
        let ghost resources_before = resources@;
        resources.insert(String::from_str(resource), Session::new(domain_name, username, resource));
        users.insert(user, resources);
        self.storage.insert(domain, users);
        proof {
            assert(resources_model(resources@) =~= resources_model(resources_before).insert(
                resource@,
                session_model(domain_name@, username@, resource@),
            ));
            assert(users_model(users@) =~= users_model(users_before).insert(
                username@,
                resources_model(resources@),
            ));
            assert(registry_of(self.storage@) =~= registry_add_session(
                registry_of(before),
                domain_name@,
                username@,
                resource@,
            ));
        }
        Some(Session::new(domain_name, username, resource))
    }

    fn push_to(&mut self, to: &str, stanza: &str) -> (delivered: bool) {
        let (u, d, r) = match full_address_parts_of(to) {
            Some(parts) => parts,
            None => {
                return false;
            },
        };
        let ghost before = self.sessions();
        let empty: Vec<String> = Vec::new();
        let ghost nothing = texts_of(empty@);
        match self.swap_pending(d.as_str(), u.as_str(), r.as_str(), empty) {
            None => false,
            Some(waiting) => {
                let mut waiting = waiting;
                let ghost p = texts_of(waiting@);
                waiting.push(String::from_str(stanza));
                proof {
                    assert(texts_of(waiting@) =~= p.push(stanza@));
                    lemma_set_pending(before, d@, u@, r@, nothing, p.push(stanza@));
                }
                let _ = self.swap_pending(d.as_str(), u.as_str(), r.as_str(), waiting);
                true
            },
        }
    }

    fn take_pending(&mut self, domain_name: &str, username: &str, resource: &str) -> (stanzas: Vec<
        String,
    >) {
        let empty: Vec<String> = Vec::new();
        proof {
            assert(texts_of(empty@) =~= Seq::<Seq<char>>::empty());
        }
        match self.swap_pending(domain_name, username, resource, empty) {
            Some(waiting) => waiting,
            None => {
                let none: Vec<String> = Vec::new();
                proof {
                    assert(texts_of(none@) =~= Seq::<Seq<char>>::empty());
                }
                none
            },
        }
    }
}

impl InMemorySessionManager {
    /// Puts `pending` in place of the stanzas waiting in the session of
    /// `username` on `domain_name` bound to `resource`, and hands back those
    /// that waited; `None`, with nothing changed, when no such session is bound.
    fn swap_pending(&mut self, domain_name: &str, username: &str, resource: &str, pending: Vec<String>) -> (r:
        Option<Vec<String>>)
        ensures
            r is Some == registry_has_session(old(self).sessions(), domain_name@, username@, resource@),
            r matches Some(waiting) ==> texts_of(waiting@) == old(self).sessions()[domain_name@][username@][resource@].pending
                && final(self).sessions() == registry_set_pending(
                old(self).sessions(),
                domain_name@,
                username@,
                resource@,
                texts_of(pending@),
            ),
            r is None ==> final(self).sessions() == old(self).sessions(),
    {
        let ghost before = self.storage@;
        let domain = String::from_str(domain_name);
        let user = String::from_str(username);
        let res = String::from_str(resource);
        let mut users = match self.storage.take(&domain) {
            None => {
                return None;
            },
            Some(users) => users,
        };
        let ghost users_before = users@;
        let mut resources = match users.take(&user) {
            None => {
                self.storage.insert(domain, users);
                proof {
                    assert(users_model(users@) =~= users_model(users_before));
                    assert(registry_of(self.storage@) =~= registry_of(before));
                }
                return None;
            },
            Some(resources) => resources,
        };
        let ghost resources_before = resources@;
        let session = match resources.take(&res) {
            None => {
                users.insert(user, resources);
                self.storage.insert(domain, users);
                proof {
                    assert(users_model(users@) =~= users_model(users_before));
                    assert(registry_of(self.storage@) =~= registry_of(before));
                }
                return None;
            },
            Some(session) => session,
        };
        let ghost old_session = session@;
        let Session { domain: sd, username: su, resource: sr, jid, full_jid, pending: waiting } = session;
        let updated = Session { domain: sd, username: su, resource: sr, jid, full_jid, pending };
        resources.insert(res, updated);
        users.insert(user, resources);
        self.storage.insert(domain, users);
        proof {
            let m = registry_of(before);
            assert(updated@ == with_pending(old_session, texts_of(pending@)));
            assert(resources_model(resources@) =~= resources_model(resources_before).insert(
                resource@,
                with_pending(old_session, texts_of(pending@)),
            ));
            assert(users_model(users@) =~= users_model(users_before).insert(
                username@,
                resources_model(resources@),
            ));
            assert(registry_of(self.storage@) =~= registry_set_pending(
                m,
                domain_name@,
                username@,
                resource@,
                texts_of(pending@),
            ));
        }
        Some(waiting)
    }
}

/// The user, domain and resource of the full address `to`, as
/// `full_address_parts` cuts it.
fn full_address_parts_of(to: &str) -> (r: Option<(String, String, String)>)
    ensures
        match r {
            Some((u, d, res)) => full_address_parts(to@) == Some((u@, d@, res@)),
            None => full_address_parts(to@) is None,
        },
{
    let v = text::chars_of(to);
    let n = v.len();
    proof {
        assert(v@.subrange(0, n as int) =~= v@);
    }
    let at = match text::find_first(&v, 0, n, '@') {
        Some(k) => k,
        None => {
            return None;
        },
    };
    proof {
        text::lemma_window_cut(v@, 0, n as int, '@', at as int);
    }
    let slash = match text::find_first(&v, at + 1, n, '/') {
        Some(k) => k,
        None => {
            return None;
        },
    };
    proof {
        text::lemma_window_cut(v@, at + 1, n as int, '/', slash as int);
    }
    Some((text::substring(to, 0, at), text::substring(to, at + 1, slash), text::substring(to, slash + 1, n)))
}

} // verus!
