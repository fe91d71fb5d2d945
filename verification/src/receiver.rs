//! The node's network receiver: its builder, the configuration messages it
//! receives and what each of them asks to be done, and the service that starts
//! and stops it.
use vstd::prelude::*;

use crate::net::{Ipv4Net, Ipv6Net};
use crate::subnet::{NetworkConfig, SubnetReceiver};

verus! {

/// The subnet file written where the builder is given no path.
pub open spec fn default_subnet_file_path() -> Seq<char> {
    "/etc/cni/net.d/subnet.env"@
}

/// The routing backend used where the builder is given none.
pub open spec fn default_backend_type() -> Seq<char> {
    "hostgw"@
}

/// The link index used where the builder is given none.
pub open spec fn default_link_index() -> u32 {
    1
}

/// The spec value of an optional string.
pub open spec fn opt_text(s: Option<String>) -> Option<Seq<char>> {
    match s {
        Some(t) => Some(t@),
        None => None,
    }
}

/// What a receiver is made of: where it writes the subnet file, the link and
/// backend its routes are managed with, and the node it serves.
pub struct ReceiverView {
    pub subnet_file_path: Seq<char>,
    pub link_index: u32,
    pub backend_type: Seq<char>,
    pub node_id: Seq<char>,
}

/// The network configuration receiver of a node: it writes the subnet file and
/// hands routes to the route manager, which is made with the link index and the
/// backend type kept here.
#[derive(Clone, Debug)]
pub struct NetworkReceiver {
    subnet_receiver: SubnetReceiver,
    link_index: u32,
    backend_type: String,
    node_id: String,
}

impl View for NetworkReceiver {
    type V = ReceiverView;

    closed spec fn view(&self) -> ReceiverView {
        ReceiverView {
            subnet_file_path: self.subnet_receiver.subnet_file_path@,
            link_index: self.link_index,
            backend_type: self.backend_type@,
            node_id: self.node_id@,
        }
    }
}

/// The settings a builder has been given so far.
pub struct BuilderView {
    pub subnet_file_path: Option<Seq<char>>,
    pub link_index: Option<u32>,
    pub backend_type: Option<Seq<char>>,
    pub node_id: Option<Seq<char>>,
}

/// Why a receiver could not be built.
#[derive(Debug, PartialEq, Eq)]
pub enum BuildError {
    /// No node ID was given.
    MissingNodeId,
}

impl BuildError {
    /// The message that describes the error.
    pub fn message(&self) -> (r: &'static str)
        ensures
            r@ == "Node ID is required"@,
    {
        match self {
            BuildError::MissingNodeId => "Node ID is required",
        }
    }
}

/// The receiver a builder with these settings builds: the given settings, the
/// defaults for those not given; none where no node ID is given.
pub open spec fn built_receiver(b: BuilderView) -> Option<ReceiverView> {
    match b.node_id {
        Some(id) => Some(
            ReceiverView {
                subnet_file_path: match b.subnet_file_path {
                    Some(p) => p,
                    None => default_subnet_file_path(),
                },
                link_index: match b.link_index {
                    Some(i) => i,
                    None => default_link_index(),
                },
                backend_type: match b.backend_type {
                    Some(t) => t,
                    None => default_backend_type(),
                },
                node_id: id,
            },
        ),
        None => None,
    }
}

/// A builder of network receivers.
pub struct NetworkReceiverBuilder {
    subnet_file_path: Option<String>,
    link_index: Option<u32>,
    backend_type: Option<String>,
    node_id: Option<String>,
}

impl View for NetworkReceiverBuilder {
    type V = BuilderView;

    closed spec fn view(&self) -> BuilderView {
        BuilderView {
            subnet_file_path: opt_text(self.subnet_file_path),
            link_index: self.link_index,
            backend_type: opt_text(self.backend_type),
            node_id: opt_text(self.node_id),
        }
    }
}

impl NetworkReceiverBuilder {
    /// A builder with nothing set.
    pub fn new() -> (r: Self)
        ensures
            r@ == (BuilderView {
                subnet_file_path: None,
                link_index: None,
                backend_type: None,
                node_id: None,
            }),
    {
        NetworkReceiverBuilder {
            subnet_file_path: None,
            link_index: None,
            backend_type: None,
            node_id: None,
        }
    }

    /// Sets where the subnet file is written.
    pub fn subnet_file_path(self, path: String) -> (r: Self)
        ensures
            r@ == (BuilderView { subnet_file_path: Some(path@), ..self@ }),
    {
        NetworkReceiverBuilder { subnet_file_path: Some(path), ..self }
    }

    /// Sets the link index of the route manager.
    pub fn link_index(self, index: u32) -> (r: Self)
        ensures
            r@ == (BuilderView { link_index: Some(index), ..self@ }),
    {
        NetworkReceiverBuilder { link_index: Some(index), ..self }
    }

    /// Sets the backend type of the route manager.
    pub fn backend_type(self, backend: String) -> (r: Self)
        ensures
            r@ == (BuilderView { backend_type: Some(backend@), ..self@ }),
    {
        NetworkReceiverBuilder { backend_type: Some(backend), ..self }
    }

    /// Sets the node ID.
    pub fn node_id(self, id: String) -> (r: Self)
        ensures
            r@ == (BuilderView { node_id: Some(id@), ..self@ }),
    {
        NetworkReceiverBuilder { node_id: Some(id), ..self }
    }

    /// Builds the receiver, with the defaults for what was not set; fails where
    /// no node ID was set.
    pub fn build(self) -> (r: Result<NetworkReceiver, BuildError>)
        ensures
            r is Err <==> self@.node_id is None,
            r matches Err(e) ==> e == BuildError::MissingNodeId,
            r matches Ok(x) ==> Some(x@) == built_receiver(self@),
            r matches Ok(x) ==> x@.subnet_file_path == match self@.subnet_file_path {
                Some(p) => p,
                None => "/etc/cni/net.d/subnet.env"@,
            },
            r matches Ok(x) ==> x@.link_index == match self@.link_index {
                Some(i) => i,
                None => 1u32,
            },
            r matches Ok(x) ==> x@.backend_type == match self@.backend_type {
                Some(t) => t,
                None => "hostgw"@,
            },
            r matches Ok(x) ==> self@.node_id == Some(x@.node_id),
    {
        let subnet_file_path = match self.subnet_file_path {
            Some(p) => p,
            None => String::from_str("/etc/cni/net.d/subnet.env"),
        };
        let link_index = match self.link_index {
            Some(i) => i,
            None => 1,
        };
        let backend_type = match self.backend_type {
            Some(t) => t,
            None => String::from_str("hostgw"),
        };
        let node_id = match self.node_id {
            Some(id) => id,
            None => {
                return Err(BuildError::MissingNodeId);
            },
        };
        Ok(NetworkReceiver::new(subnet_file_path, link_index, backend_type, node_id))
    }
}

impl Default for NetworkReceiverBuilder {
    fn default() -> (r: Self)
        ensures
            r@ == (BuilderView {
                subnet_file_path: None,
                link_index: None,
                backend_type: None,
                node_id: None,
            }),
    {
        Self::new()
    }
}

/// A network configuration message received for a node, carrying routes of type
/// `R`.
#[derive(Debug, Clone)]
pub enum NetworkConfigMessage<R> {
    /// Subnet configuration only.
    SubnetConfig {
        network_config: NetworkConfig,
        ip_masq: bool,
        ipv4_subnet: Option<Ipv4Net>,
        ipv6_subnet: Option<Ipv6Net>,
        mtu: u32,
    },
    /// Route configuration only.
    RouteConfig { routes: Vec<R> },
    /// Subnet and route configuration.
    FullConfig {
        network_config: NetworkConfig,
        ip_masq: bool,
        ipv4_subnet: Option<Ipv4Net>,
        ipv6_subnet: Option<Ipv6Net>,
        mtu: u32,
        routes: Vec<R>,
    },
}

/// A step of applying a configuration message, to be carried out in order; the
/// first that fails ends the handling.
#[derive(Debug, Clone)]
pub enum NetworkAction<R> {
    /// Write the receiver's subnet file for this configuration.
    WriteSubnetFile {
        network_config: NetworkConfig,
        ip_masq: bool,
        ipv4_subnet: Option<Ipv4Net>,
        ipv6_subnet: Option<Ipv6Net>,
        mtu: u32,
    },
    /// Hand these routes to the route manager.
    ApplyRoutes { routes: Vec<R> },
}

/// The steps that a message asks for: the subnet file for subnet configuration, the routes for route
/// configuration, both in this order for a full configuration.
pub open spec fn config_actions<R>(msg: NetworkConfigMessage<R>) -> Seq<
    NetworkAction<R>,
> {
    match msg {
        NetworkConfigMessage::SubnetConfig {
            network_config,
            ip_masq,
            ipv4_subnet,
            ipv6_subnet,
            mtu,
        } => seq![
            NetworkAction::WriteSubnetFile {
                network_config,
                ip_masq,
                ipv4_subnet,
                ipv6_subnet,
                mtu,
            },
        ],
        NetworkConfigMessage::RouteConfig { routes } => seq![NetworkAction::ApplyRoutes { routes }],
        NetworkConfigMessage::FullConfig {
            network_config,
            ip_masq,
            ipv4_subnet,
            ipv6_subnet,
            mtu,
            routes,
        } => seq![
            NetworkAction::WriteSubnetFile {
                network_config,
                ip_masq,
                ipv4_subnet,
                ipv6_subnet,
                mtu,
            },
            NetworkAction::ApplyRoutes { routes },
        ],
    }
}

/// A full configuration asks for what its subnet configuration asks for,
/// followed by what its route configuration asks for.
pub proof fn lemma_full_config_is_subnet_then_routes<R>(
    network_config: NetworkConfig,
    ip_masq: bool,
    ipv4_subnet: Option<Ipv4Net>,
    ipv6_subnet: Option<Ipv6Net>,
    mtu: u32,
    routes: Vec<R>,
)
    ensures
        config_actions(
            NetworkConfigMessage::FullConfig {
                network_config,
                ip_masq,
                ipv4_subnet,
                ipv6_subnet,
                mtu,
                routes,
            },
        ) == config_actions(
            NetworkConfigMessage::<R>::SubnetConfig {
                network_config,
                ip_masq,
                ipv4_subnet,
                ipv6_subnet,
                mtu,
            },
        ) + config_actions(NetworkConfigMessage::RouteConfig { routes }),
{
    assert(config_actions(
        NetworkConfigMessage::FullConfig {
            network_config,
            ip_masq,
            ipv4_subnet,
            ipv6_subnet,
            mtu,
            routes,
        },
    ) =~= config_actions(
        NetworkConfigMessage::<R>::SubnetConfig {
            network_config,
            ip_masq,
            ipv4_subnet,
            ipv6_subnet,
            mtu,
        },
    ) + config_actions(NetworkConfigMessage::RouteConfig { routes }));
}

impl NetworkReceiver {
    /// A receiver writing the subnet file at `subnet_file_path`, managing routes
    /// on link `link_index` with `backend_type`, for node `node_id`.
    pub fn new(subnet_file_path: String, link_index: u32, backend_type: String, node_id: String) -> (r:
        Self)
        ensures
            r@ == (ReceiverView {
                subnet_file_path: subnet_file_path@,
                link_index,
                backend_type: backend_type@,
                node_id: node_id@,
            }),
    {
        NetworkReceiver {
            subnet_receiver: SubnetReceiver::new(subnet_file_path),
            link_index,
            backend_type,
            node_id,
        }
    }

    /// The node this receiver serves.
    pub fn get_node_id(&self) -> (r: &str)
        ensures
            r@ == self@.node_id,
    {
        self.node_id.as_str()
    }

    /// Where the subnet file is written.
    pub fn subnet_file_path(&self) -> (r: &str)
        ensures
            r@ == self@.subnet_file_path,
    {
        self.subnet_receiver.subnet_file_path.as_str()
    }

    /// The link index the route manager is made with.
    pub fn route_link_index(&self) -> (r: u32)
        ensures
            r == self@.link_index,
    {
        self.link_index
    }

    /// The backend type the route manager is made with.
    pub fn route_backend_type(&self) -> (r: &str)
        ensures
            r@ == self@.backend_type,
    {
        self.backend_type.as_str()
    }

    /// The steps that handling `config` takes, in order.
    pub fn network_config_actions<R>(&self, config: NetworkConfigMessage<R>) -> (r: Vec<
        NetworkAction<R>,
    >)
        ensures
            r@ == config_actions(config),
            config matches NetworkConfigMessage::SubnetConfig {
                network_config,
                ip_masq,
                ipv4_subnet,
                ipv6_subnet,
                mtu,
            } ==> r@ == (seq![
                NetworkAction::<R>::WriteSubnetFile {
                    network_config,
                    ip_masq,
                    ipv4_subnet,
                    ipv6_subnet,
                    mtu,
                },
            ]),
            config matches NetworkConfigMessage::RouteConfig { routes } ==> r@ == (seq![
                NetworkAction::<R>::ApplyRoutes { routes },
            ]),
            config matches NetworkConfigMessage::FullConfig {
                network_config,
                ip_masq,
                ipv4_subnet,
                ipv6_subnet,
                mtu,
                routes,
            } ==> r@ == (seq![
                NetworkAction::<R>::WriteSubnetFile {
                    network_config,
                    ip_masq,
                    ipv4_subnet,
                    ipv6_subnet,
                    mtu,
                },
                NetworkAction::ApplyRoutes { routes },
            ]),
    {
        let mut r: Vec<NetworkAction<R>> = Vec::new();
        match config {
            NetworkConfigMessage::SubnetConfig {
                network_config,
                ip_masq,
                ipv4_subnet,
                ipv6_subnet,
                mtu,
            } => {
                r.push(
                    NetworkAction::WriteSubnetFile {
                        network_config,
                        ip_masq,
                        ipv4_subnet,
                        ipv6_subnet,
                        mtu,
                    },
                );
            },
            NetworkConfigMessage::RouteConfig { routes } => {
                r.push(NetworkAction::ApplyRoutes { routes });
            },
            NetworkConfigMessage::FullConfig {
                network_config,
                ip_masq,
                ipv4_subnet,
                ipv6_subnet,
                mtu,
                routes,
            } => {
                r.push(
                    NetworkAction::WriteSubnetFile {
                        network_config,
                        ip_masq,
                        ipv4_subnet,
                        ipv6_subnet,
                        mtu,
                    },
                );
                r.push(NetworkAction::ApplyRoutes { routes });
            },
        }
        assert(r@ =~= config_actions(config));
        r
    }
}

/// How far the handling of a configuration message has come: how many steps it
/// has, how many have been carried out, and whether one of them failed.
pub struct ConfigRunView {
    pub steps: nat,
    pub done: nat,
    pub failed: bool,
}

/// The handling of a message before any step: nothing done, nothing failed.
pub open spec fn run_start(steps: nat) -> ConfigRunView {
    ConfigRunView { steps, done: 0, failed: false }
}

/// The next step is carried out only while no step has failed and steps remain.
pub open spec fn run_proceeds(v: ConfigRunView) -> bool {
    !v.failed && v.done < v.steps
}

/// The handling after the next step was carried out, successfully (`ok`) or not.
pub open spec fn after_step(v: ConfigRunView, ok: bool) -> ConfigRunView {
    ConfigRunView { steps: v.steps, done: v.done + 1, failed: !ok }
}

/// The outcome of the handling: failed as soon as a step fails, succeeded once
/// every step succeeded, none while steps remain.
pub open spec fn run_outcome(v: ConfigRunView) -> Option<bool> {
    if v.failed {
        Some(false)
    } else if v.done >= v.steps {
        Some(true)
    } else {
        None
    }
}

/// The handling of a configuration message, step after step: the first step
/// that fails ends it, and its failure is the handling's.
pub struct ConfigRun {
    steps: usize,
    done: usize,
    failed: bool,
}

impl View for ConfigRun {
    type V = ConfigRunView;

    closed spec fn view(&self) -> ConfigRunView {
        ConfigRunView { steps: self.steps as nat, done: self.done as nat, failed: self.failed }
    }
}

impl ConfigRun {
    #[verifier::type_invariant]
    spec fn inv(self) -> bool {
        self.done <= self.steps
    }

    /// The handling of a message of `steps` steps, before any of them.
    pub fn new(steps: usize) -> (r: Self)
        ensures
            r@ == run_start(steps as nat),
    {
        ConfigRun { steps, done: 0, failed: false }
    }

    /// Whether the next step is carried out.
    pub fn proceeds(&self) -> (r: bool)
        ensures
            r == run_proceeds(self@),
    {
        !self.failed && self.done < self.steps
    }

    /// Records the outcome of the step just carried out.
    pub fn record(&mut self, ok: bool)
        requires
            run_proceeds(old(self)@),
        ensures
            final(self)@ == after_step(old(self)@, ok),
    {
        proof {
            use_type_invariant(&*self);
        }
        self.done = self.done + 1;
        self.failed = !ok;
    }

    /// The outcome of the handling so far.
    pub fn outcome(&self) -> (r: Option<bool>)
        ensures
            r == run_outcome(self@),
            self@.failed ==> r == Some(false),
            !self@.failed && self@.done == self@.steps ==> r == Some(true),
            !self@.failed && self@.done < self@.steps ==> r is None,
    {
        if self.failed {
            Some(false)
        } else if self.done >= self.steps {
            Some(true)
        } else {
            None
        }
    }
}

/// A full configuration whose subnet file could not be written ends there: its
/// routes are not applied and the handling fails. Once the file is written, the
/// routes are applied, and the handling's outcome is theirs.
pub proof fn lemma_failed_write_skips_routes<R>(
    network_config: NetworkConfig,
    ip_masq: bool,
    ipv4_subnet: Option<Ipv4Net>,
    ipv6_subnet: Option<Ipv6Net>,
    mtu: u32,
    routes: Vec<R>,
)
    ensures
        ({
            let steps = config_actions(
                NetworkConfigMessage::FullConfig {
                    network_config,
                    ip_masq,
                    ipv4_subnet,
                    ipv6_subnet,
                    mtu,
                    routes,
                },
            );
            let start = run_start(steps.len());
            &&& steps.len() == 2
            &&& steps[0] is WriteSubnetFile
            &&& steps[1] == NetworkAction::ApplyRoutes { routes }
            &&& run_proceeds(start)
            &&& !run_proceeds(after_step(start, false))
            &&& run_outcome(after_step(start, false)) == Some(false)
            &&& run_proceeds(after_step(start, true))
            &&& after_step(start, true).done == 1
            &&& forall|ok: bool| #[trigger]
                run_outcome(after_step(after_step(start, true), ok)) == Some(ok)
        }),
{
}

/// What a request to start the service decides.
#[derive(Debug, PartialEq, Eq)]
pub enum StartDecision {
    /// The service is already running; nothing is started.
    AlreadyRunning,
    /// Start the receiver's service, then mark the service running.
    StartReceiver,
}

/// What a request to stop the service decides.
#[derive(Debug, PartialEq, Eq)]
pub enum StopDecision {
    /// The service is not running; nothing is stopped.
    NotRunning,
    /// Stop the receiver's service, then mark the service stopped.
    StopReceiver,
}

/// The decision on a start request, by whether the service runs.
pub open spec fn start_decision(running: bool) -> StartDecision {
    if running {
        StartDecision::AlreadyRunning
    } else {
        StartDecision::StartReceiver
    }
}

/// The decision on a stop request, by whether the service runs.
pub open spec fn stop_decision(running: bool) -> StopDecision {
    if running {
        StopDecision::StopReceiver
    } else {
        StopDecision::NotRunning
    }
}

/// A network service: a receiver and whether it runs.
pub struct ServiceView {
    pub receiver: ReceiverView,
    pub running: bool,
}

/// The service after starting its receiver's service succeeded (`ok`) or failed.
pub open spec fn after_start(v: ServiceView, ok: bool) -> ServiceView {
    ServiceView { running: v.running || ok, ..v }
}

/// The service after stopping its receiver's service succeeded (`ok`) or failed.
pub open spec fn after_stop(v: ServiceView, ok: bool) -> ServiceView {
    ServiceView { running: v.running && !ok, ..v }
}

/// The network service of a node: it starts and stops its receiver's service and
/// hands it configuration messages.
pub struct NetworkService {
    receiver: NetworkReceiver,
    running: bool,
}

impl View for NetworkService {
    type V = ServiceView;

    closed spec fn view(&self) -> ServiceView {
        ServiceView { receiver: self.receiver@, running: self.running }
    }
}

impl NetworkService {
    /// A service for `receiver`, not running.
    pub fn new(receiver: NetworkReceiver) -> (r: Self)
        ensures
            r@ == (ServiceView { receiver: receiver@, running: false }),
    {
        NetworkService { receiver, running: false }
    }

    /// Decides a start request: nothing where the service runs, otherwise start
    /// the receiver's service (and then call `record_start` with how it went).
    pub fn start(&self) -> (d: StartDecision)
        ensures
            d == start_decision(self@.running),
    {
        if self.running {
            StartDecision::AlreadyRunning
        } else {
            StartDecision::StartReceiver
        }
    }

    /// Records how starting the receiver's service went: the service runs once
    /// it has started (`ok`); a failed start leaves it as it was.
    pub fn record_start(&mut self, ok: bool)
        ensures
            final(self)@ == after_start(old(self)@, ok),
    {
        if ok {
            self.running = true;
        }
    }

    /// Decides a stop request: nothing where the service does not run, otherwise
    /// stop the receiver's service (and then call `record_stop` with how it went).
    pub fn stop(&self) -> (d: StopDecision)
        ensures
            d == stop_decision(self@.running),
    {
        if self.running {
            StopDecision::StopReceiver
        } else {
            StopDecision::NotRunning
        }
    }

    /// Records how stopping the receiver's service went: the service no longer
    /// runs once it has stopped (`ok`); a failed stop leaves it as it was.
    pub fn record_stop(&mut self, ok: bool)
        ensures
            final(self)@ == after_stop(old(self)@, ok),
    {
        if ok {
            self.running = false;
        }
    }

    /// Whether the service runs.
    pub fn is_running(&self) -> (r: bool)
        ensures
            r == self@.running,
    {
        self.running
    }

    /// The service's receiver.
    pub fn get_receiver(&self) -> (r: &NetworkReceiver)
        ensures
            r@ == self@.receiver,
    {
        &self.receiver
    }

    /// The steps that handling a configuration message takes, as the receiver
    /// decides them.
    pub fn handle_config<R>(&self, config: NetworkConfigMessage<R>) -> (r: Vec<NetworkAction<R>>)
        ensures
            r@ == config_actions(config),
    {
        self.receiver.network_config_actions(config)
    }
}

/// Starting is idempotent: once a start has been carried out, a further start
/// request finds the service running and does nothing; likewise for stopping.
pub proof fn lemma_start_stop_idempotent(v: ServiceView)
    ensures
        start_decision(after_start(v, true).running) == StartDecision::AlreadyRunning,
        stop_decision(after_stop(v, true).running) == StopDecision::NotRunning,
        start_decision(v.running) == StartDecision::StartReceiver <==> !v.running,
        stop_decision(v.running) == StopDecision::StopReceiver <==> v.running,
{
}

/// A start or stop request on a service in the other state carries out the
/// start or stop; if that fails, the service stays as it was (a failed start
/// leaves it stopped, a failed stop leaves it running), and if it succeeds, the
/// service ends running, or stopped.
pub proof fn lemma_start_stop_outcomes(v: ServiceView)
    ensures
        !v.running ==> start_decision(v.running) == StartDecision::StartReceiver
            && after_start(v, false) == v && !after_start(v, false).running
            && after_start(v, true) == (ServiceView { running: true, ..v }),
        v.running ==> stop_decision(v.running) == StopDecision::StopReceiver
            && after_stop(v, false) == v && after_stop(v, false).running
            && after_stop(v, true) == (ServiceView { running: false, ..v }),
{
}

/// The steps of a message carry what the message says: the subnet file step
/// writes exactly the message's network configuration, masquerading setting,
/// subnets and MTU, and the route step applies exactly its routes.
pub proof fn lemma_steps_carry_the_message<R>(msg: NetworkConfigMessage<R>)
    ensures
        msg matches NetworkConfigMessage::SubnetConfig {
            network_config,
            ip_masq,
            ipv4_subnet,
            ipv6_subnet,
            mtu,
        } ==> ({
            &&& config_actions(msg).len() == 1
            &&& config_actions(msg)[0] == (NetworkAction::<R>::WriteSubnetFile {
                network_config,
                ip_masq,
                ipv4_subnet,
                ipv6_subnet,
                mtu,
            })
        }),
        msg matches NetworkConfigMessage::RouteConfig { routes } ==> ({
            &&& config_actions(msg).len() == 1
            &&& config_actions(msg)[0] == (NetworkAction::<R>::ApplyRoutes { routes })
        }),
        msg matches NetworkConfigMessage::FullConfig {
            network_config,
            ip_masq,
            ipv4_subnet,
            ipv6_subnet,
            mtu,
            routes,
        } ==> ({
            &&& config_actions(msg).len() == 2
            &&& config_actions(msg)[0] == (NetworkAction::<R>::WriteSubnetFile {
                network_config,
                ip_masq,
                ipv4_subnet,
                ipv6_subnet,
                mtu,
            })
            &&& config_actions(msg)[1] == (NetworkAction::<R>::ApplyRoutes { routes })
        }),
{
}

/// `k` steps carried out successfully, one after the other, from `v`.
pub open spec fn after_successes(v: ConfigRunView, k: nat) -> ConfigRunView
    decreases k,
{
    if k == 0 {
        v
    } else {
        after_step(after_successes(v, (k - 1) as nat), true)
    }
}

/// A handling whose steps all succeed goes on until every step is done, and
/// has then succeeded; before that its outcome is open.
pub proof fn lemma_all_steps_succeed(n: nat, k: nat)
    requires
        k <= n,
    ensures
        after_successes(run_start(n), k).steps == n,
        after_successes(run_start(n), k).done == k,
        !after_successes(run_start(n), k).failed,
        run_proceeds(after_successes(run_start(n), k)) <==> k < n,
        run_outcome(after_successes(run_start(n), k)) == (if k == n {
            Some(true)
        } else {
            None::<bool>
        }),
    decreases k,
{
    if k > 0 {
        lemma_all_steps_succeed(n, (k - 1) as nat);
    }
}

/// A step that fails ends the handling, which has then failed, whatever steps
/// remain; a step that succeeds leaves the outcome open while steps remain.
pub proof fn lemma_step_outcome(v: ConfigRunView, ok: bool)
    requires
        run_proceeds(v),
    ensures
        !ok ==> !run_proceeds(after_step(v, ok)) && run_outcome(after_step(v, ok)) == Some(false),
        ok && v.done + 1 < v.steps ==> run_proceeds(after_step(v, ok)) && run_outcome(
            after_step(v, ok),
        ) is None,
        ok && v.done + 1 == v.steps ==> run_outcome(after_step(v, ok)) == Some(true),
{
}

/// Each setting of a built receiver comes from the same setting of the builder
/// alone: two builders that agree on a setting build receivers that agree on
/// it, whatever else was set; a setting that was given is kept, and the default
/// (`/etc/cni/net.d/subnet.env`, link 1, `hostgw`) stands where none was.
pub proof fn lemma_built_settings(b1: BuilderView, b2: BuilderView)
    requires
        b1.node_id is Some,
        b2.node_id is Some,
    ensures
        built_receiver(b1) is Some,
        b1.subnet_file_path == b2.subnet_file_path ==> built_receiver(b1).unwrap().subnet_file_path
            == built_receiver(b2).unwrap().subnet_file_path,
        b1.link_index == b2.link_index ==> built_receiver(b1).unwrap().link_index == built_receiver(
            b2,
        ).unwrap().link_index,
        b1.backend_type == b2.backend_type ==> built_receiver(b1).unwrap().backend_type
            == built_receiver(b2).unwrap().backend_type,
        b1.node_id == b2.node_id ==> built_receiver(b1).unwrap().node_id == built_receiver(
            b2,
        ).unwrap().node_id,
        b1.subnet_file_path matches Some(p) ==> built_receiver(b1).unwrap().subnet_file_path == p,
        b1.subnet_file_path is None ==> built_receiver(b1).unwrap().subnet_file_path
            == "/etc/cni/net.d/subnet.env"@,
        b1.link_index matches Some(i) ==> built_receiver(b1).unwrap().link_index == i,
        b1.link_index is None ==> built_receiver(b1).unwrap().link_index == 1,
        b1.backend_type matches Some(t) ==> built_receiver(b1).unwrap().backend_type == t,
        b1.backend_type is None ==> built_receiver(b1).unwrap().backend_type == "hostgw"@,
        Some(built_receiver(b1).unwrap().node_id) == b1.node_id,
{
}

} // verus!
