//! How a tunnel is put together: relays, addresses, the roost role and the secret
//! of the metrics collector.
use vstd::prelude::*;

use crate::config::Config;
use crate::identity::{EndpointId, SecretKey};
use crate::text;

verus! {

// ---------------------------------------------------------------------------
// Relays
// ---------------------------------------------------------------------------

/// The URL that a text stands for, in its normal form; nothing where it is no
/// URL.
pub uninterp spec fn relay_url(text: Seq<char>) -> Option<Seq<char>>;

/// `iroh::RelayUrl::from_str` and its `Display`: reads the URL of a relay server
/// and gives it in its normal form.
#[verifier::external_body]
fn parse_relay_url(text: &str) -> (r: Option<String>)
    ensures
        match r {
            Some(url) => relay_url(text@) == Some(url@),
            None => relay_url(text@) is None,
        },
{
    match text.parse::<iroh::RelayUrl>() {
        Ok(url) => Some(url.to_string()),
        Err(_) => None,
    }
}

/// The URL of a relay server, in its normal form.
#[derive(Debug)]
pub struct RelayUrl {
    pub url: String,
}

impl View for RelayUrl {
    type V = Seq<char>;

    open spec fn view(&self) -> Seq<char> {
        self.url@
    }
}

/// A text that was to be the URL of a relay server, and is not one.
#[derive(Debug)]
pub struct InvalidRelayUrl {
    pub url: String,
}

impl InvalidRelayUrl {
    /// The error in words.
    pub fn message(&self) -> (r: String)
        ensures
            r@ == "invalid relay URL '"@ + self.url@ + "': Failed to parse relay URL"@,
    {
        "invalid relay URL '".to_owned().concat(self.url.as_str()).concat(
            "': Failed to parse relay URL",
        )
    }
}

/// The relay URLs, if every text was read as one; else the first text that was
/// not.
pub open spec fn all_or_first_bad(
    texts: Seq<Seq<char>>,
    read: Seq<Option<Seq<char>>>,
) -> Result<Seq<Seq<char>>, Seq<char>>
    decreases texts.len(),
{
    if texts.len() == 0 {
        Ok(seq![])
    } else {
        match all_or_first_bad(texts.drop_last(), read.drop_last()) {
            Err(bad) => Err(bad),
            Ok(urls) => match read.last() {
                Some(url) => Ok(urls.push(url)),
                None => Err(texts.last()),
            },
        }
    }
}

/// The views of some relay URLs.
pub open spec fn urls(v: Seq<RelayUrl>) -> Seq<Seq<char>> {
    v.map_values(|u: RelayUrl| u@)
}

/// Gathers the relay URLs that some texts were read as; the first text that was
/// not read as one is the error.
pub fn collect_relay_urls(given: &Vec<String>, read: Vec<Option<String>>) -> (r: Result<
    Vec<RelayUrl>,
    InvalidRelayUrl,
>)
    requires
        given@.len() == read@.len(),
    ensures
        match all_or_first_bad(
            text::texts(given@),
            read@.map_values(|o: Option<String>| text::opt_text(o)),
        ) {
            Ok(all) => r matches Ok(v) && urls(v@) == all,
            Err(bad) => r matches Err(e) && e.url@ == bad,
        },
{
    let ghost ts = text::texts(given@);
    let ghost os = read@.map_values(|o: Option<String>| text::opt_text(o));
    let mut v: Vec<RelayUrl> = Vec::new();
    assert(urls(v@) =~= seq![]);
    for i in 0..given.len()
        invariant
            given@.len() == read@.len(),
            ts == text::texts(given@),
            os == read@.map_values(|o: Option<String>| text::opt_text(o)),
            all_or_first_bad(ts.take(i as int), os.take(i as int)) == Ok::<
                Seq<Seq<char>>,
                Seq<char>,
            >(urls(v@)),
    {
        assert(ts.take(i + 1).drop_last() =~= ts.take(i as int));
        assert(os.take(i + 1).drop_last() =~= os.take(i as int));
        assert(ts.take(i + 1).last() == given@[i as int]@);
        assert(os.take(i + 1).last() == text::opt_text(read@[i as int]));
        match &read[i] {
            Some(url) => {
                let ghost before = urls(v@);
                v.push(RelayUrl { url: url.clone() });
                assert(urls(v@) =~= before.push(url@));
            },
            None => {
                proof {
                    lemma_bad_stays_bad(ts, os, i + 1);
                }
                return Err(InvalidRelayUrl { url: given[i].clone() });
            },
        }
    }
    assert(ts.take(ts.len() as int) =~= ts);
    assert(os.take(os.len() as int) =~= os);
    Ok(v)
}

proof fn lemma_bad_stays_bad(ts: Seq<Seq<char>>, os: Seq<Option<Seq<char>>>, k: int)
    requires
        ts.len() == os.len(),
        0 <= k <= ts.len(),
        all_or_first_bad(ts.take(k), os.take(k)) is Err,
    ensures
        all_or_first_bad(ts, os) == all_or_first_bad(ts.take(k), os.take(k)),
    decreases ts.len() - k,
{
    if k == ts.len() {
        assert(ts.take(k) =~= ts);
        assert(os.take(k) =~= os);
    } else {
        assert(ts.take(k + 1).drop_last() =~= ts.take(k));
        assert(os.take(k + 1).drop_last() =~= os.take(k));
        lemma_bad_stays_bad(ts, os, k + 1);
    }
}

/// Reads the URLs of relay servers, in order. The first text that is no URL is the
/// error.
pub fn parse_relay_urls(given: &Vec<String>) -> (r: Result<Vec<RelayUrl>, InvalidRelayUrl>)
    ensures
        match all_or_first_bad(
            text::texts(given@),
            text::texts(given@).map_values(|t: Seq<char>| relay_url(t)),
        ) {
            Ok(all) => r matches Ok(v) && urls(v@) == all,
            Err(bad) => r matches Err(e) && e.url@ == bad,
        },
{
    let mut read: Vec<Option<String>> = Vec::new();
    for i in 0..given.len()
        invariant
            read@.len() == i,
            forall|k: int|
                0 <= k < i ==> text::opt_text(#[trigger] read@[k]) == relay_url(given@[k]@),
    {
        read.push(parse_relay_url(given[i].as_str()));
    }
    assert(read@.map_values(|o: Option<String>| text::opt_text(o)) =~= text::texts(
        given@,
    ).map_values(|t: Seq<char>| relay_url(t)));
    collect_relay_urls(given, read)
}

// ---------------------------------------------------------------------------
// Addresses
// ---------------------------------------------------------------------------

/// A way to reach an endpoint.
#[derive(Debug)]
pub enum TransportAddr {
    /// Through a relay server, by its URL.
    Relay(String),
    /// Directly, by its socket address.
    Ip(String),
}

/// What a way to reach an endpoint is.
pub enum Route {
    Relay(Seq<char>),
    Ip(Seq<char>),
}

impl View for TransportAddr {
    type V = Route;

    open spec fn view(&self) -> Route {
        match self {
            TransportAddr::Relay(url) => Route::Relay(url@),
            TransportAddr::Ip(addr) => Route::Ip(addr@),
        }
    }
}

impl TransportAddr {
    /// Whether this is a way through a relay server.
    pub fn is_relay(&self) -> (r: bool)
        ensures
            r == (self@ is Relay),
    {
        matches!(self, TransportAddr::Relay(_))
    }

    /// Whether this is a direct way.
    pub fn is_ip(&self) -> (r: bool)
        ensures
            r == (self@ is Ip),
    {
        matches!(self, TransportAddr::Ip(_))
    }

    fn is(&self, other: &TransportAddr) -> (r: bool)
        ensures
            r == (self@ == other@),
    {
        match (self, other) {
            (TransportAddr::Relay(a), TransportAddr::Relay(b)) => text::str_eq(
                a.as_str(),
                b.as_str(),
            ),
            (TransportAddr::Ip(a), TransportAddr::Ip(b)) => text::str_eq(a.as_str(), b.as_str()),
            _ => false,
        }
    }
}

/// An endpoint and the known ways to reach it, each of them once.
#[derive(Debug)]
pub struct EndpointAddr {
    id: EndpointId,
    addrs: Vec<TransportAddr>,
}

impl EndpointAddr {
    /// The endpoint.
    pub closed spec fn endpoint(&self) -> Seq<u8> {
        self.id@
    }

    /// The ways to reach the endpoint, in the order in which they became known.
    pub closed spec fn routes(&self) -> Seq<Route> {
        self.addrs@.map_values(|a: TransportAddr| a@)
    }

    /// Each way to reach the endpoint is there once.
    #[verifier::type_invariant]
    spec fn each_once(self) -> bool {
        self.routes().no_duplicates()
    }

    /// An endpoint with no known way to reach it.
    pub fn new(id: EndpointId) -> (r: EndpointAddr)
        ensures
            r.endpoint() == id@,
            r.routes() == Seq::<Route>::empty(),
    {
        let addrs: Vec<TransportAddr> = Vec::new();
        assert(addrs@.map_values(|a: TransportAddr| a@) =~= Seq::<Route>::empty());
        EndpointAddr { id, addrs }
    }

    /// The endpoint.
    pub fn id(&self) -> (r: EndpointId)
        ensures
            r@ == self.endpoint(),
    {
        self.id
    }

    /// The ways to reach the endpoint.
    pub fn addrs(&self) -> (r: &Vec<TransportAddr>)
        ensures
            r@.map_values(|a: TransportAddr| a@) == self.routes(),
            self.routes().no_duplicates(),
    {
        proof {
            use_type_invariant(self);
        }
        &self.addrs
    }

    /// Adds a way to reach the endpoint, unless it is known.
    fn with(self, addr: TransportAddr) -> (r: EndpointAddr)
        ensures
            r.endpoint() == self.endpoint(),
            r.routes() == with_route(self.routes(), addr@),
    {
        for i in 0..self.addrs.len()
            invariant
                forall|k: int| 0 <= k < i ==> (#[trigger] self.addrs@[k])@ != addr@,
        {
            if self.addrs[i].is(&addr) {
                assert(self.routes()[i as int] == addr@);
                return self;
            }
        }
        let ghost before = self.routes();
        assert(!before.contains(addr@)) by {
            if before.contains(addr@) {
                let k = choose|k: int| 0 <= k < before.len() && before[k] == addr@;
                assert(self.addrs@[k]@ == addr@);
            }
        }
        proof {
            use_type_invariant(&self);
        }
        let mut addrs = self.addrs;
        addrs.push(addr);
        assert(addrs@.map_values(|a: TransportAddr| a@) =~= before.push(addr@));
        EndpointAddr { id: self.id, addrs }
    }

    /// Adds a direct way to reach the endpoint, unless it is known.
    pub fn with_ip_addr(self, addr: String) -> (r: EndpointAddr)
        ensures
            r.endpoint() == self.endpoint(),
            r.routes() == with_route(self.routes(), Route::Ip(addr@)),
    {
        self.with(TransportAddr::Ip(addr))
    }

    /// Adds a relay server to reach the endpoint through, unless it is known.
    pub fn with_relay_url(self, relay: RelayUrl) -> (r: EndpointAddr)
        ensures
            r.endpoint() == self.endpoint(),
            r.routes() == with_route(self.routes(), Route::Relay(relay@)),
    {
        self.with(TransportAddr::Relay(relay.url))
    }
}

/// Some routes and one more, unless it is among them.
pub open spec fn with_route(routes: Seq<Route>, route: Route) -> Seq<Route> {
    if routes.contains(route) {
        routes
    } else {
        routes.push(route)
    }
}

/// Routes that come in turn, each of them kept the first time.
pub open spec fn first_of_each(routes: Seq<Route>) -> Seq<Route>
    decreases routes.len(),
{
    if routes.len() == 0 {
        seq![]
    } else {
        with_route(first_of_each(routes.drop_last()), routes.last())
    }
}

/// The routes that are asked for: the direct ones, then those through relays.
pub open spec fn asked_routes(relays: Seq<Seq<char>>, direct: Seq<Seq<char>>) -> Seq<Route> {
    direct.map_values(|a: Seq<char>| Route::Ip(a)) + relays.map_values(
        |u: Seq<char>| Route::Relay(u),
    )
}

/// The address of an endpoint with the given routes to it: the direct ones, then
/// those through relays, each of them once.
pub fn endpoint_addr(id: EndpointId, relay_urls: Vec<RelayUrl>, direct_addresses: Vec<String>) -> (r:
    EndpointAddr)
    ensures
        r.endpoint() == id@,
        r.routes() == first_of_each(
            asked_routes(urls(relay_urls@), text::texts(direct_addresses@)),
        ),
{
    let ghost all = asked_routes(urls(relay_urls@), text::texts(direct_addresses@));
    let ghost n = direct_addresses@.len() as int;
    let mut addr = EndpointAddr::new(id);
    assert(first_of_each(all.take(0)) =~= seq![]);
    for i in 0..direct_addresses.len()
        invariant
            all == asked_routes(urls(relay_urls@), text::texts(direct_addresses@)),
            addr.endpoint() == id@,
            addr.routes() == first_of_each(all.take(i as int)),
    {
        addr = addr.with_ip_addr(direct_addresses[i].clone());
        assert(all[i as int] == Route::Ip(direct_addresses@[i as int]@));
        assert(all.take(i + 1).drop_last() =~= all.take(i as int));
    }
    for i in 0..relay_urls.len()
        invariant
            n == direct_addresses@.len(),
            all == asked_routes(urls(relay_urls@), text::texts(direct_addresses@)),
            addr.endpoint() == id@,
            addr.routes() == first_of_each(all.take(n + i)),
    {
        addr = addr.with_relay_url(RelayUrl { url: relay_urls[i].url.clone() });
        assert(all[n + i] == Route::Relay(relay_urls@[i as int]@));
        assert(all.take(n + i + 1).drop_last() =~= all.take(n + i));
    }
    assert(all.take(all.len() as int) =~= all);
    addr
}

/// Every route that is asked for is part of the address, and no other is.
pub proof fn asked_routes_are_kept(routes: Seq<Route>, route: Route)
    ensures
        first_of_each(routes).contains(route) <==> routes.contains(route),
    decreases routes.len(),
{
    if routes.len() > 0 {
        let init = routes.drop_last();
        let kept = first_of_each(init);
        asked_routes_are_kept(init, route);
        asked_routes_are_kept(init, routes.last());
        if routes.contains(route) {
            let i = choose|i: int| 0 <= i < routes.len() && routes[i] == route;
            if i < init.len() {
                assert(init[i] == route);
                let k = choose|k: int| 0 <= k < kept.len() && kept[k] == route;
                assert(with_route(kept, routes.last())[k] == route);
            } else if !kept.contains(route) {
                assert(kept.push(route)[kept.len() as int] == route);
            }
        }
        if first_of_each(routes).contains(route) {
            let all = first_of_each(routes);
            let i = choose|i: int| 0 <= i < all.len() && all[i] == route;
            if i < kept.len() {
                assert(kept[i] == route);
                let k = choose|k: int| 0 <= k < init.len() && init[k] == route;
                assert(routes[k] == route);
            } else {
                assert(routes[routes.len() - 1] == route);
            }
        }
    } else {
        assert(first_of_each(routes) =~= seq![]);
    }
}

// ---------------------------------------------------------------------------
// The tunnel
// ---------------------------------------------------------------------------

/// The role of a roost, which exposes a local ssh server through the tunnel.
#[derive(Debug, Clone, Copy, PartialEq, Eq, Structural)]
pub struct SshConfig {
    pub ssh_port: u16,
}

/// The role of a roost.
pub type RoostConfig = SshConfig;

impl Default for SshConfig {
    fn default() -> (r: SshConfig)
        ensures
            r.ssh_port == 22,
    {
        SshConfig { ssh_port: 22 }
    }
}

/// A text that may be the secret of the metrics collector, and whether it is well
/// formed.
#[derive(Debug)]
pub struct SecretCandidate {
    pub text: String,
    pub valid: bool,
}

/// The text of a candidate that is well formed.
pub open spec fn valid_text(candidate: Option<SecretCandidate>) -> Option<Seq<char>> {
    match candidate {
        Some(c) => if c.valid {
            Some(c.text@)
        } else {
            None
        },
        None => None,
    }
}

/// The secret of the metrics collector to use: none where telemetry is not
/// enabled, else the one of the environment, else the one that was built in, as
/// far as they are well formed.
pub open spec fn chosen_secret(
    config: Config,
    env_secret: Option<SecretCandidate>,
    build_secret: Option<SecretCandidate>,
) -> Option<Seq<char>> {
    if config.telemetry_enabled != Some(true) {
        None
    } else if valid_text(env_secret) is Some {
        valid_text(env_secret)
    } else {
        valid_text(build_secret)
    }
}

/// The secret of the metrics collector to use, if any.
pub fn iroh_services_api_secret(
    config: &Config,
    env_secret: Option<SecretCandidate>,
    build_secret: Option<SecretCandidate>,
) -> (r: Option<String>)
    ensures
        text::opt_text(r) == chosen_secret(*config, env_secret, build_secret),
{
    if !config.telemetry_enabled() {
        return None;
    }
    match env_secret {
        Some(secret) => {
            if secret.valid {
                return Some(secret.text);
            }
        },
        None => {},
    }
    match build_secret {
        Some(secret) => {
            if secret.valid {
                return Some(secret.text);
            }
        },
        None => {},
    }
    None
}

/// Without a setting that is `true`, no secret is used, so nothing can be sent.
pub proof fn nothing_is_sent_unless_enabled(
    config: Config,
    env_secret: Option<SecretCandidate>,
    build_secret: Option<SecretCandidate>,
)
    requires
        config.telemetry_enabled != Some(true),
    ensures
        chosen_secret(config, env_secret, build_secret) is None,
{
}

/// What a tunnel is to be.
pub struct TunnelBuilder {
    /// The role of a roost, if a local ssh server is exposed through the tunnel.
    pub roost: Option<SshConfig>,
    /// The key that secures the tunnel. Its public half identifies the tunnel.
    pub secret_key: SecretKey,
    /// The relay servers to use. Without any, the public ones are used.
    pub relay_urls: Vec<RelayUrl>,
    /// The secret of the metrics collector, if metrics are sent.
    pub isvc_api_secret: Option<String>,
    /// The loaded configuration.
    pub config: Config,
}

/// A step on the way to a tunnel.
pub enum BuildStep {
    /// Bind an endpoint with this key, on these relay servers, or on the public
    /// ones.
    Bind(SecretKey, Option<Vec<RelayUrl>>),
    /// Send metrics, with this secret.
    SendMetrics(String),
    /// Make sure that an ssh server listens on this port.
    ProbeSsh(u16),
    /// Accept pigeons and deliver them to the ssh server on this port.
    AcceptPigeons(u16),
    /// Let the endpoint run.
    Spawn,
}

/// What a step is.
pub enum Step {
    Bind(Seq<u8>, Option<Seq<Seq<char>>>),
    SendMetrics(Seq<char>),
    ProbeSsh(u16),
    AcceptPigeons(u16),
    Spawn,
}

impl View for BuildStep {
    type V = Step;

    open spec fn view(&self) -> Step {
        match self {
            BuildStep::Bind(key, relays) => Step::Bind(
                key@,
                match relays {
                    Some(v) => Some(urls(v@)),
                    None => None,
                },
            ),
            BuildStep::SendMetrics(secret) => Step::SendMetrics(secret@),
            BuildStep::ProbeSsh(port) => Step::ProbeSsh(*port),
            BuildStep::AcceptPigeons(port) => Step::AcceptPigeons(*port),
            BuildStep::Spawn => Step::Spawn,
        }
    }
}

impl TunnelBuilder {
    /// A tunnel with an identity and a configuration, on the public relays and
    /// without a role. It sends metrics if the configuration lets it.
    pub fn new(
        secret_key: SecretKey,
        config: Config,
        env_secret: Option<SecretCandidate>,
        build_secret: Option<SecretCandidate>,
    ) -> (r: TunnelBuilder)
        ensures
            r.roost is None,
            r.secret_key == secret_key,
            r.relay_urls@.len() == 0,
            text::opt_text(r.isvc_api_secret) == chosen_secret(config, env_secret, build_secret),
            r.config == config,
    {
        let isvc_api_secret = iroh_services_api_secret(&config, env_secret, build_secret);
        TunnelBuilder {
            roost: None,
            secret_key,
            relay_urls: Vec::new(),
            isvc_api_secret,
            config,
        }
    }

    /// The same tunnel with another secret of the metrics collector, or none.
    pub fn api_secret(self, secret: Option<String>) -> (r: TunnelBuilder)
        ensures
            r.isvc_api_secret == secret,
            r.roost == self.roost,
            r.secret_key == self.secret_key,
            r.relay_urls == self.relay_urls,
            r.config == self.config,
    {
        TunnelBuilder {
            roost: self.roost,
            secret_key: self.secret_key,
            relay_urls: self.relay_urls,
            isvc_api_secret: secret,
            config: self.config,
        }
    }

    /// The steps that lead to the tunnel, in order: the endpoint is bound, metrics
    /// are set up if there is a secret for them, a roost looks for its ssh server
    /// before it accepts pigeons, and the endpoint is let run.
    pub open spec fn steps(&self) -> Seq<Step> {
        let bind = seq![
            Step::Bind(
                self.secret_key@,
                if self.relay_urls@.len() == 0 {
                    None
                } else {
                    Some(urls(self.relay_urls@))
                },
            ),
        ];
        let metrics = match self.isvc_api_secret {
            Some(secret) => seq![Step::SendMetrics(secret@)],
            None => seq![],
        };
        let roost = match self.roost {
            Some(role) => seq![Step::ProbeSsh(role.ssh_port), Step::AcceptPigeons(role.ssh_port)],
            None => seq![],
        };
        bind + metrics + roost + seq![Step::Spawn]
    }

    /// The steps that lead to the tunnel. Each is taken only if the one before
    /// succeeded.
    pub fn build(self) -> (r: Vec<BuildStep>)
        ensures
            r@.map_values(|s: BuildStep| s@) == self.steps(),
    {
        let mut steps: Vec<BuildStep> = Vec::new();
        let ghost target = self.steps();
        if self.relay_urls.len() == 0 {
            steps.push(BuildStep::Bind(self.secret_key, None));
        } else {
            steps.push(BuildStep::Bind(self.secret_key, Some(self.relay_urls)));
        }
        match self.isvc_api_secret {
            Some(secret) => {
                steps.push(BuildStep::SendMetrics(secret));
            },
            None => {},
        }
        match self.roost {
            Some(role) => {
                steps.push(BuildStep::ProbeSsh(role.ssh_port));
                steps.push(BuildStep::AcceptPigeons(role.ssh_port));
            },
            None => {},
        }
        steps.push(BuildStep::Spawn);
        assert(steps@.map_values(|s: BuildStep| s@) =~= target);
        steps
    }
}

/// How the steps to a tunnel follow from what it is to be. The endpoint is bound
/// first, with its key and with custom relays exactly where some are given; metrics
/// are sent exactly where there is a secret for them, with that secret; an ssh
/// server is looked for, and pigeons are accepted, exactly where the role of a roost
/// is set, on its port; and the endpoint is let run last. No step comes twice.
pub proof fn the_steps_are_those_asked_for(builder: TunnelBuilder, port: u16, secret: Seq<char>)
    ensures
        ({
            let steps = builder.steps();
            &&& steps[0] matches Step::Bind(key, relays) && key == builder.secret_key@ && (
            relays matches Some(all) ==> all == urls(builder.relay_urls@)) && (relays is None
                <==> builder.relay_urls@.len() == 0)
            &&& steps.last() is Spawn
            &&& steps.contains(Step::ProbeSsh(port)) <==> builder.roost == Some(
                SshConfig { ssh_port: port },
            )
            &&& steps.contains(Step::AcceptPigeons(port)) <==> builder.roost == Some(
                SshConfig { ssh_port: port },
            )
            &&& steps.contains(Step::SendMetrics(secret)) <==> text::opt_text(
                builder.isvc_api_secret,
            ) == Some(secret)
            &&& steps.len() == 2 + (if builder.isvc_api_secret is Some {
                1int
            } else {
                0
            }) + (if builder.roost is Some {
                2int
            } else {
                0
            })
        }),
{
    let steps = builder.steps();
    let k: int = if builder.isvc_api_secret is Some {
        2
    } else {
        1
    };
    if builder.isvc_api_secret is Some {
        assert(steps[1] == Step::SendMetrics(builder.isvc_api_secret->0@));
    }
    if builder.roost is Some {
        assert(steps[k] == Step::ProbeSsh(builder.roost->0.ssh_port));
        assert(steps[k + 1] == Step::AcceptPigeons(builder.roost->0.ssh_port));
    }
}

/// An ssh server is looked for before pigeons are accepted, and both after the
/// endpoint is bound and before it is let run.
pub proof fn a_roost_probes_before_it_accepts(builder: TunnelBuilder, i: int, j: int)
    requires
        0 <= i < builder.steps().len(),
        0 <= j < builder.steps().len(),
        builder.steps()[i] is ProbeSsh,
        builder.steps()[j] is AcceptPigeons,
    ensures
        0 < i < j < builder.steps().len() - 1,
{
}

/// What the metrics collector's secret is taken from: the environment where that
/// gives a well formed one, else what was built in, and nothing where neither is
/// well formed. Nothing is taken unless metrics are enabled.
pub proof fn the_secret_comes_from_a_well_formed_candidate(
    config: Config,
    env_secret: Option<SecretCandidate>,
    build_secret: Option<SecretCandidate>,
)
    ensures
        config.telemetry_enabled == Some(true) && env_secret is Some && env_secret->0.valid
            ==> chosen_secret(config, env_secret, build_secret) == Some(env_secret->0.text@),
        config.telemetry_enabled == Some(true) && (env_secret is None || !env_secret->0.valid)
            && build_secret is Some && build_secret->0.valid ==> chosen_secret(
            config,
            env_secret,
            build_secret,
        ) == Some(build_secret->0.text@),
        (env_secret is None || !env_secret->0.valid) && (build_secret is None
            || !build_secret->0.valid) ==> chosen_secret(config, env_secret, build_secret) is None,
        chosen_secret(config, env_secret, build_secret) is Some ==> config.telemetry_enabled
            == Some(true),
{
}

/// Where every text was read as a URL, the URLs come out in order. Where one was
/// not, the first of those texts does.
pub proof fn relay_urls_come_out_in_order(
    given: Seq<Seq<char>>,
    read: Seq<Option<Seq<char>>>,
    k: int,
)
    requires
        given.len() == read.len(),
        0 <= k <= given.len(),
        forall|i: int| 0 <= i < k ==> (#[trigger] read[i]) is Some,
        k < given.len() ==> read[k] is None,
    ensures
        k < given.len() ==> all_or_first_bad(given, read) == Err::<Seq<Seq<char>>, Seq<char>>(
            given[k],
        ),
        k == given.len() ==> {
            &&& all_or_first_bad(given, read) is Ok
            &&& all_or_first_bad(given, read)->Ok_0.len() == given.len()
            &&& forall|i: int|
                0 <= i < k ==> Some(#[trigger] all_or_first_bad(given, read)->Ok_0[i]) == read[i]
        },
    decreases given.len(),
{
    if given.len() > 0 {
        let g = given.drop_last();
        let r = read.drop_last();
        if k < given.len() {
            assert forall|i: int| 0 <= i < k implies (#[trigger] r[i]) is Some by {
                assert(r[i] == read[i]);
            }
            relay_urls_come_out_in_order(g, r, k);
        } else {
            assert forall|i: int| 0 <= i < k - 1 implies (#[trigger] r[i]) is Some by {
                assert(r[i] == read[i]);
            }
            relay_urls_come_out_in_order(g, r, k - 1);
            let init = all_or_first_bad(g, r)->Ok_0;
            let all = all_or_first_bad(given, read)->Ok_0;
            assert(read.last() == read[k - 1]);
            assert(all == init.push(read.last()->0));
            assert forall|i: int| 0 <= i < k implies Some(#[trigger] all[i]) == read[i] by {
                if i < k - 1 {
                    assert(all[i] == init[i]);
                    assert(r[i] == read[i]);
                }
            }
        }
    }
}

/// The routes of an address are the direct ones and the relays that were asked for,
/// and no others, each of them once.
pub proof fn an_address_has_the_routes_asked_for(
    relays: Seq<Seq<char>>,
    direct: Seq<Seq<char>>,
    way: Seq<char>,
)
    ensures
        ({
            let all = first_of_each(asked_routes(relays, direct));
            &&& all.contains(Route::Ip(way)) <==> direct.contains(way)
            &&& all.contains(Route::Relay(way)) <==> relays.contains(way)
            &&& all.no_duplicates()
        }),
{
    let asked = asked_routes(relays, direct);
    asked_routes_are_kept(asked, Route::Ip(way));
    asked_routes_are_kept(asked, Route::Relay(way));
    lemma_first_of_each(asked);
    let n = direct.len() as int;
    if direct.contains(way) {
        let i = choose|i: int| 0 <= i < direct.len() && direct[i] == way;
        assert(asked[i] == Route::Ip(way));
    }
    if relays.contains(way) {
        let i = choose|i: int| 0 <= i < relays.len() && relays[i] == way;
        assert(asked[n + i] == Route::Relay(way));
    }
    if asked.contains(Route::Ip(way)) {
        let i = choose|i: int| 0 <= i < asked.len() && asked[i] == Route::Ip(way);
        assert(i < n);
        assert(direct[i] == way);
    }
    if asked.contains(Route::Relay(way)) {
        let i = choose|i: int| 0 <= i < asked.len() && asked[i] == Route::Relay(way);
        assert(i >= n);
        assert(relays[i - n] == way);
    }
}

proof fn lemma_first_of_each(routes: Seq<Route>)
    ensures
        first_of_each(routes).no_duplicates(),
    decreases routes.len(),
{
    if routes.len() > 0 {
        lemma_first_of_each(routes.drop_last());
    }
}

/// Direct routes come before relays.
pub proof fn direct_routes_come_first(relays: Seq<Seq<char>>, direct: Seq<Seq<char>>, i: int, j: int)
    requires
        0 <= i < asked_routes(relays, direct).len(),
        0 <= j < asked_routes(relays, direct).len(),
        asked_routes(relays, direct)[i] is Ip,
        asked_routes(relays, direct)[j] is Relay,
    ensures
        i < j,
{
}

} // verus!
