//! Full-system sandboxes on Linux: namespaces, overlays and their commands.
use vstd::prelude::*;

use crate::command::{command, command_of, CommandLine, CommandView};
use crate::identity::{short_id, short_text, EnvironmentId};
use crate::model::{views, DoctorCheck, DoctorCheckView, Environment};
use crate::path::{joined, FsPath};
use crate::script::{
    script_after, script_fits, ScriptRun, ScriptShape, ScriptStep, ScriptView,
};
use crate::store::{environment_path, upper_path, Store};
use crate::text::{decimal, number_text, same_text, strs, texts, trim, trimmed};

verus! {

/// The names and addresses of a sandbox's network.
pub struct NetworkLayout {
    pub namespace: String,
    pub host_interface: String,
    pub guest_interface: String,
    pub nft_table: String,
    pub host_address: String,
    pub guest_address: String,
}

#[verifier::ext_equal]
pub struct LayoutView {
    pub namespace: Seq<char>,
    pub host_interface: Seq<char>,
    pub guest_interface: Seq<char>,
    pub nft_table: Seq<char>,
    pub host_address: Seq<char>,
    pub guest_address: Seq<char>,
}

impl View for NetworkLayout {
    type V = LayoutView;

    open spec fn view(&self) -> LayoutView {
        LayoutView {
            namespace: self.namespace@,
            host_interface: self.host_interface@,
            guest_interface: self.guest_interface@,
            nft_table: self.nft_table@,
            host_address: self.host_address@,
            guest_address: self.guest_address@,
        }
    }
}

/// The third number of the addresses of a sandbox.
pub open spec fn third_octet(id: Seq<u8>) -> int {
    16 + id[0] % 220
}

/// The fourth number of the network of a sandbox, a multiple of four.
pub open spec fn network_octet(id: Seq<u8>) -> int {
    (id[1] % 63) * 4
}

/// An address in the range of the sandboxes.
pub open spec fn sandbox_address(third: int, fourth: int) -> Seq<char> {
    "10.231."@ + decimal(third as nat) + "."@ + decimal(fourth as nat)
}

/// The network of the sandbox with an identifier.
pub open spec fn layout_of(id: Seq<u8>) -> LayoutView {
    let short = short_id(id, 7);
    LayoutView {
        namespace: "nsb-"@ + short,
        host_interface: "nsh"@ + short,
        guest_interface: "nsg"@ + short,
        nft_table: "nsb_"@ + short,
        host_address: sandbox_address(third_octet(id), network_octet(id) + 1),
        guest_address: sandbox_address(third_octet(id), network_octet(id) + 2),
    }
}

/// The network of the sandbox with an identifier.
pub fn network_layout(id: &EnvironmentId) -> (r: NetworkLayout)
    ensures
        r@ == layout_of(id@),
{
    let short = short_text(id, 7);
    let third: u64 = 16 + (id.bytes[0] % 220) as u64;
    let fourth: u64 = (id.bytes[1] % 63) as u64 * 4;
    let prefix = "10.231.".to_owned().concat(number_text(third).as_str()).concat(".");
    NetworkLayout {
        namespace: "nsb-".to_owned().concat(short.as_str()),
        host_interface: "nsh".to_owned().concat(short.as_str()),
        guest_interface: "nsg".to_owned().concat(short.as_str()),
        nft_table: "nsb_".to_owned().concat(short.as_str()),
        host_address: prefix.clone().concat(number_text(fourth + 1).as_str()),
        guest_address: prefix.concat(number_text(fourth + 2).as_str()),
    }
}

/// The two addresses of a sandbox are different hosts of one network of four addresses, neither
/// its first nor its last, and every number in them fits a byte. Interface names are short enough
/// for the kernel, which takes up to fifteen characters.
pub proof fn law_network_layout_is_sound(id: Seq<u8>)
    requires
        id.len() == 16,
    ensures
        16 <= third_octet(id) <= 235,
        network_octet(id) % 4 == 0,
        0 <= network_octet(id),
        network_octet(id) + 3 <= 255,
        layout_of(id).host_interface.len() == 10,
        layout_of(id).guest_interface.len() == 10,
        layout_of(id).host_interface != layout_of(id).guest_interface,
{
    crate::identity::lemma_hex_digits(id);
    reveal_strlit("nsh");
    reveal_strlit("nsg");
    assert(layout_of(id).host_interface[2] == 'h');
    assert(layout_of(id).guest_interface[2] == 'g');
}

/// What is done for the network of a sandbox.
pub enum NetworkStep {
    Run { command: CommandLine },
    /// Look whether packets are forwarded.
    ReadForwarding,
    /// Turn forwarding on.
    TurnOnForwarding,
    /// Turn forwarding off again.
    RestoreForwarding,
}

#[verifier::ext_equal]
pub enum NetworkStepView {
    Run { command: CommandView },
    ReadForwarding,
    TurnOnForwarding,
    RestoreForwarding,
}

impl View for NetworkStep {
    type V = NetworkStepView;

    open spec fn view(&self) -> NetworkStepView {
        match self {
            NetworkStep::Run { command } => NetworkStepView::Run { command: command@ },
            NetworkStep::ReadForwarding => NetworkStepView::ReadForwarding,
            NetworkStep::TurnOnForwarding => NetworkStepView::TurnOnForwarding,
            NetworkStep::RestoreForwarding => NetworkStepView::RestoreForwarding,
        }
    }
}

pub open spec fn ip(arguments: Seq<Seq<char>>) -> NetworkStepView {
    NetworkStepView::Run { command: command_of("ip"@, arguments) }
}

pub open spec fn nft(arguments: Seq<Seq<char>>) -> NetworkStepView {
    NetworkStepView::Run { command: command_of("nft"@, arguments) }
}

fn ip_step(arguments: Vec<&str>) -> (r: NetworkStep)
    ensures
        r@ == ip(strs(arguments@)),
{
    NetworkStep::Run { command: command("ip", arguments) }
}

fn nft_step(arguments: Vec<&str>) -> (r: NetworkStep)
    ensures
        r@ == nft(strs(arguments@)),
{
    NetworkStep::Run { command: command("nft", arguments) }
}

/// The step that makes the namespace.
pub open spec fn network_opening(layout: LayoutView) -> Seq<NetworkStepView> {
    seq![ip(seq!["netns"@, "add"@, layout.namespace])]
}

/// The steps that connect the namespace to the host and let its packets out.
pub open spec fn network_body(layout: LayoutView) -> Seq<NetworkStepView> {
    let ns = layout.namespace;
    let host = layout.host_interface;
    let guest = layout.guest_interface;
    let table = layout.nft_table;
    seq![
        ip(seq!["link"@, "add"@, host, "type"@, "veth"@, "peer"@, "name"@, guest]),
        ip(seq!["link"@, "set"@, guest, "netns"@, ns]),
        ip(seq!["addr"@, "add"@, layout.host_address + "/30"@, "dev"@, host]),
        ip(seq!["link"@, "set"@, host, "up"@]),
        ip(seq!["-n"@, ns, "addr"@, "add"@, layout.guest_address + "/30"@, "dev"@, guest]),
        ip(seq!["-n"@, ns, "link"@, "set"@, "lo"@, "up"@]),
        ip(seq!["-n"@, ns, "link"@, "set"@, guest, "up"@]),
        ip(seq!["-n"@, ns, "route"@, "add"@, "default"@, "via"@, layout.host_address]),
        NetworkStepView::ReadForwarding,
        NetworkStepView::TurnOnForwarding,
        nft(seq!["add"@, "table"@, "ip"@, table]),
        nft(
            seq![
                "add"@,
                "chain"@,
                "ip"@,
                table,
                "postrouting"@,
                "{"@,
                "type"@,
                "nat"@,
                "hook"@,
                "postrouting"@,
                "priority"@,
                "srcnat"@,
                ";"@,
                "policy"@,
                "accept"@,
                ";"@,
                "}"@,
            ],
        ),
        nft(
            seq![
                "add"@,
                "rule"@,
                "ip"@,
                table,
                "postrouting"@,
                "ip"@,
                "saddr"@,
                layout.guest_address + "/32"@,
                "masquerade"@,
            ],
        ),
        nft(
            seq![
                "add"@,
                "chain"@,
                "ip"@,
                table,
                "forward"@,
                "{"@,
                "type"@,
                "filter"@,
                "hook"@,
                "forward"@,
                "priority"@,
                "-100"@,
                ";"@,
                "policy"@,
                "accept"@,
                ";"@,
                "}"@,
            ],
        ),
        nft(seq!["add"@, "rule"@, "ip"@, table, "forward"@, "iifname"@, host, "accept"@]),
        nft(
            seq![
                "add"@,
                "rule"@,
                "ip"@,
                table,
                "forward"@,
                "oifname"@,
                host,
                "ct"@,
                "state"@,
                "established,related"@,
                "accept"@,
            ],
        ),
    ]
}

/// The steps that take a sandbox's network down. Forwarding is turned off again where the sandbox
/// had turned it on.
pub open spec fn network_ending(layout: LayoutView, restore: bool) -> Seq<NetworkStepView> {
    let commands = seq![
        nft(seq!["delete"@, "table"@, "ip"@, layout.nft_table]),
        ip(seq!["netns"@, "delete"@, layout.namespace]),
        ip(seq!["link"@, "delete"@, layout.host_interface]),
    ];
    if restore {
        commands.push(NetworkStepView::RestoreForwarding)
    } else {
        commands
    }
}

/// The network of a sandbox, from its setup until it is taken down.
pub struct NetworkGuard {
    pub layout: NetworkLayout,
    pub restore_forwarding: bool,
}

impl NetworkGuard {
    /// The network that an environment gets.
    pub fn create(environment: &Environment) -> (r: NetworkGuard)
        ensures
            r.layout@ == layout_of(environment@.id),
            !r.restore_forwarding,
    {
        NetworkGuard { layout: network_layout(&environment.id), restore_forwarding: false }
    }

    /// The step that makes the namespace. Nothing has to be taken down where it fails.
    pub fn opening(&self) -> (r: Vec<NetworkStep>)
        ensures
            views(r@) == network_opening(self.layout@),
    {
        let step = ip_step(vec!["netns", "add", self.layout.namespace.as_str()]);
        assert(step@ == network_opening(self.layout@)[0]);
        let r = vec![step];
        assert(views(r@) =~= network_opening(self.layout@));
        r
    }

    /// The steps that connect the namespace to the host and let its packets out.
    #[verifier::rlimit(60)]
    pub fn body(&self) -> (r: Vec<NetworkStep>)
        ensures
            views(r@) == network_body(self.layout@),
    {
        let ns = self.layout.namespace.as_str();
        let host = self.layout.host_interface.as_str();
        let guest = self.layout.guest_interface.as_str();
        let table = self.layout.nft_table.as_str();
        let host_address = self.layout.host_address.as_str();
        let host_net = self.layout.host_address.clone().concat("/30");
        let guest_net = self.layout.guest_address.clone().concat("/30");
        let guest_only = self.layout.guest_address.clone().concat("/32");
        let mut r: Vec<NetworkStep> = Vec::new();
        let s0 = ip_step(vec!["link", "add", host, "type", "veth", "peer", "name", guest]);
        let s1 = ip_step(vec!["link", "set", guest, "netns", ns]);
        let s2 = ip_step(vec!["addr", "add", host_net.as_str(), "dev", host]);
        let s3 = ip_step(vec!["link", "set", host, "up"]);
        let s4 = ip_step(vec!["-n", ns, "addr", "add", guest_net.as_str(), "dev", guest]);
        let s5 = ip_step(vec!["-n", ns, "link", "set", "lo", "up"]);
        let s6 = ip_step(vec!["-n", ns, "link", "set", guest, "up"]);
        let s7 = ip_step(vec!["-n", ns, "route", "add", "default", "via", host_address]);
        let s10 = nft_step(vec!["add", "table", "ip", table]);
        let s11 = nft_step(
            vec![
                "add", "chain", "ip", table, "postrouting", "{", "type", "nat", "hook",
                "postrouting", "priority", "srcnat", ";", "policy", "accept", ";", "}",
            ],
        );
        let s12 = nft_step(
            vec![
                "add", "rule", "ip", table, "postrouting", "ip", "saddr", guest_only.as_str(),
                "masquerade",
            ],
        );
        let s13 = nft_step(
            vec![
                "add", "chain", "ip", table, "forward", "{", "type", "filter", "hook", "forward",
                "priority", "-100", ";", "policy", "accept", ";", "}",
            ],
        );
        let s14 = nft_step(
            vec!["add", "rule", "ip", table, "forward", "iifname", host, "accept"],
        );
        let s15 = nft_step(
            vec![
                "add", "rule", "ip", table, "forward", "oifname", host, "ct", "state",
                "established,related", "accept",
            ],
        );
        proof {
            let b = network_body(self.layout@);
            assert(s0@ == b[0]);
            assert(s1@ == b[1]);
            assert(s2@ == b[2]);
            assert(s3@ == b[3]);
            assert(s4@ == b[4]);
            assert(s5@ == b[5]);
            assert(s6@ == b[6]);
            assert(s7@ == b[7]);
            assert(s10@ == b[10]);
            assert(s11@ == b[11]);
            assert(s12@ == b[12]);
            assert(s13@ == b[13]);
            assert(s14@ == b[14]);
            assert(s15@ == b[15]);
        }
        r.push(s0);
        r.push(s1);
        r.push(s2);
        r.push(s3);
        r.push(s4);
        r.push(s5);
        r.push(s6);
        r.push(s7);
        r.push(NetworkStep::ReadForwarding);
        r.push(NetworkStep::TurnOnForwarding);
        r.push(s10);
        r.push(s11);
        r.push(s12);
        r.push(s13);
        r.push(s14);
        r.push(s15);
        assert(views(r@) =~= network_body(self.layout@));
        r
    }
}

impl NetworkGuard {
    /// The steps that take the network down.
    pub fn ending(&self) -> (r: Vec<NetworkStep>)
        ensures
            views(r@) == network_ending(self.layout@, self.restore_forwarding),
    {
        let s0 = nft_step(vec!["delete", "table", "ip", self.layout.nft_table.as_str()]);
        let s1 = ip_step(vec!["netns", "delete", self.layout.namespace.as_str()]);
        let s2 = ip_step(vec!["link", "delete", self.layout.host_interface.as_str()]);
        proof {
            let e = network_ending(self.layout@, self.restore_forwarding);
            assert(s0@ == e[0]);
            assert(s1@ == e[1]);
            assert(s2@ == e[2]);
        }
        let mut r: Vec<NetworkStep> = Vec::new();
        r.push(s0);
        r.push(s1);
        r.push(s2);
        if self.restore_forwarding {
            r.push(NetworkStep::RestoreForwarding);
        }
        assert(views(r@) =~= network_ending(self.layout@, self.restore_forwarding));
        r
    }
}

/// How the setup of a network runs: one that could not be set up is taken down again, and one that
/// could stays.
pub open spec fn network_shape(restore: bool) -> ScriptShape {
    ScriptShape {
        opening: 1,
        body: 16,
        ending: if restore {
            4
        } else {
            3
        },
        always_tidy: false,
    }
}

fn shape_of(restore: bool) -> (r: ScriptShape)
    ensures
        r == network_shape(restore),
{
    ScriptShape {
        opening: 1,
        body: 16,
        ending: if restore {
            4
        } else {
            3
        },
        always_tidy: false,
    }
}

/// What came of a step.
pub enum NetworkOutcome {
    Done { result: Result<(), String> },
    /// What the kernel says of forwarding.
    Forwarding { contents: Result<String, String> },
}

/// The setup of a sandbox's network, waiting for what comes of a step.
pub struct NetworkSetup {
    pub guard: NetworkGuard,
    pub run: ScriptRun,
    /// Whether the namespace was made.
    pub opened: bool,
}

pub struct NetworkSetupView {
    pub layout: LayoutView,
    pub restore: bool,
    pub run: ScriptView,
    pub opened: bool,
}

impl View for NetworkSetup {
    type V = NetworkSetupView;

    open spec fn view(&self) -> NetworkSetupView {
        NetworkSetupView {
            layout: self.guard.layout@,
            restore: self.guard.restore_forwarding,
            run: self.run@,
            opened: self.opened,
        }
    }
}

/// The step that a setup waits for.
pub open spec fn network_step(setup: NetworkSetupView) -> Option<NetworkStepView> {
    match setup.run.step {
        ScriptStep::Opening { index } => Some(network_opening(setup.layout)[index as int]),
        ScriptStep::Body { index } => Some(network_body(setup.layout)[index as int]),
        ScriptStep::Ending { index } => Some(
            network_ending(setup.layout, setup.restore)[index as int],
        ),
        ScriptStep::Finished => None,
    }
}

/// Whether a setup goes by its own steps. Forwarding is only turned off by one that turned it on.
pub open spec fn network_fits(setup: NetworkSetupView) -> bool {
    &&& setup.run.shape == network_shape(setup.restore)
    &&& script_fits(setup.run)
}

/// Whether an outcome is one of the step that a setup waits for.
pub open spec fn network_awaits(setup: NetworkSetupView, outcome: NetworkOutcome) -> bool {
    &&& setup.run.step != ScriptStep::Finished
    &&& outcome is Forwarding <==> network_step(setup) == Some(NetworkStepView::ReadForwarding)
}

/// Whether packets are forwarded, given what the kernel says.
pub open spec fn forwards(contents: Seq<char>) -> bool {
    trimmed(contents) == "1"@
}

/// Why a step failed, if it did.
pub open spec fn step_failure(result: Result<(), String>) -> Option<Seq<char>> {
    match result {
        Ok(_) => None,
        Err(e) => Some(e@),
    }
}

/// A setup after the step that it waits for. Forwarding is turned on only where it is off, and a
/// setup that turned it on will turn it off again.
pub open spec fn network_after(
    setup: NetworkSetupView,
    outcome: NetworkOutcome,
) -> NetworkSetupView {
    match outcome {
        NetworkOutcome::Forwarding { contents } => NetworkSetupView {
            run: match contents {
                Err(e) => script_after(setup.run, Some(e@)),
                Ok(contents) => if forwards(contents@) {
                    script_after(script_after(setup.run, None), None)
                } else {
                    script_after(setup.run, None)
                },
            },
            ..setup
        },
        NetworkOutcome::Done { result } => {
            let restore = setup.restore || (result is Ok && network_step(setup) == Some(
                NetworkStepView::TurnOnForwarding,
            ));
            NetworkSetupView {
                restore,
                opened: setup.opened || (result is Ok && setup.run.step is Opening),
                run: script_after(
                    ScriptView { shape: network_shape(restore), ..setup.run },
                    step_failure(result),
                ),
                ..setup
            }
        },
    }
}

/// What a setup that is through came to.
pub open spec fn network_failure(setup: NetworkSetupView) -> Option<Seq<char>> {
    match setup.run.failure {
        None => None,
        Some(e) => if setup.opened {
            Some("configure isolated network namespace: "@ + e)
        } else {
            Some(e)
        },
    }
}

impl NetworkSetup {
    /// Starts to set up the network of an environment.
    pub fn start(environment: &Environment) -> (r: NetworkSetup)
        ensures
            r@.layout == layout_of(environment@.id),
            !r@.restore,
            !r@.opened,
            r@.run == (ScriptView {
                shape: network_shape(false),
                step: ScriptStep::Opening { index: 0 },
                failure: None,
            }),
            network_fits(r@),
    {
        NetworkSetup {
            guard: NetworkGuard::create(environment),
            run: ScriptRun::start(shape_of(false)),
            opened: false,
        }
    }

    /// The step that has to be done next.
    pub fn step(&self) -> (r: Option<NetworkStep>)
        requires
            network_fits(self@),
        ensures
            match r {
                Some(step) => network_step(self@) == Some(step@),
                None => network_step(self@) is None,
            },
    {
        match self.run.step {
            ScriptStep::Opening { index } => {
                let mut steps = self.guard.opening();
                let ghost all = views(steps@);
                assert(all.len() == 1);
                let step = steps.remove(index);
                assert(step@ == all[index as int]);
                Some(step)
            },
            ScriptStep::Body { index } => {
                let mut steps = self.guard.body();
                let ghost all = views(steps@);
                assert(all.len() == 16);
                let step = steps.remove(index);
                assert(step@ == all[index as int]);
                Some(step)
            },
            ScriptStep::Ending { index } => {
                let mut steps = self.guard.ending();
                let ghost all = views(steps@);
                assert(all.len() == self.run.shape.ending);
                let step = steps.remove(index);
                assert(step@ == all[index as int]);
                Some(step)
            },
            ScriptStep::Finished => None,
        }
    }

    /// Takes what came of the step that a setup waits for.
    pub fn advance(&mut self, outcome: NetworkOutcome)
        requires
            network_fits(old(self)@),
            network_awaits(old(self)@, outcome),
        ensures
            final(self)@ == network_after(old(self)@, outcome),
            network_fits(final(self)@),
    {
        match outcome {
            NetworkOutcome::Forwarding { contents } => match contents {
                Err(e) => self.run.advance(Err(e)),
                Ok(contents) => {
                    self.run.advance(Ok(()));
                    if same_text(trim(contents.as_str()).as_str(), "1") {
                        self.run.advance(Ok(()));
                    }
                },
            },
            NetworkOutcome::Done { result } => {
                let turned_on = match self.step() {
                    Some(NetworkStep::TurnOnForwarding) => true,
                    _ => false,
                };
                let opening = match self.run.step {
                    ScriptStep::Opening { .. } => true,
                    _ => false,
                };
                if result.is_ok() {
                    if turned_on {
                        self.guard.restore_forwarding = true;
                    }
                    if opening {
                        self.opened = true;
                    }
                }
                self.run.shape = shape_of(self.guard.restore_forwarding);
                self.run.advance(result);
            },
        }
    }

    /// The network that was set up, or why it could not be.
    pub fn finish(self) -> (r: Result<NetworkGuard, String>)
        requires
            self.run.step == ScriptStep::Finished,
        ensures
            match r {
                Ok(guard) => network_failure(self@) is None && guard == self.guard,
                Err(e) => network_failure(self@) == Some(e@),
            },
    {
        match self.run.failure {
            None => Ok(self.guard),
            Some(e) => if self.opened {
                Err("configure isolated network namespace: ".to_owned().concat(e.as_str()))
            } else {
                Err(e)
            },
        }
    }
}

/// A network that could not be set up is taken down: where a step after the first fails, the next
/// steps are those that take it down, from the first one, and they turn forwarding off exactly if
/// the setup had turned it on.
pub proof fn law_failed_networks_are_taken_down(setup: NetworkSetupView, outcome: NetworkOutcome)
    requires
        network_fits(setup),
        network_awaits(setup, outcome),
        setup.run.step is Body,
        match outcome {
            NetworkOutcome::Done { result } => result is Err,
            NetworkOutcome::Forwarding { contents } => contents is Err,
        },
    ensures
        ({
            let after = network_after(setup, outcome);
            let ending = network_ending(setup.layout, setup.restore);
            &&& after.restore == setup.restore
            &&& after.run.step == (ScriptStep::Ending { index: 0 })
            &&& network_step(after) == Some(ending[0])
            &&& after.run.shape.ending == ending.len()
            &&& ending.contains(NetworkStepView::RestoreForwarding) <==> setup.restore
        }),
{
    let ending = network_ending(setup.layout, setup.restore);
    if setup.restore {
        assert(ending[3] == NetworkStepView::RestoreForwarding);
    }
}

/// Forwarding is turned on only where it is off, and what turns it on takes note of it.
pub proof fn law_forwarding_is_turned_on_where_it_is_off(
    setup: NetworkSetupView,
    outcome: NetworkOutcome,
)
    requires
        network_fits(setup),
        network_awaits(setup, outcome),
    ensures
        network_step(network_after(setup, outcome)) == Some(NetworkStepView::TurnOnForwarding)
            ==> (outcome matches NetworkOutcome::Forwarding { contents: Ok(contents) } && !forwards(
            contents@,
        )),
        network_after(setup, outcome).restore && !setup.restore ==> network_step(setup) == Some(
            NetworkStepView::TurnOnForwarding,
        ) && (outcome matches NetworkOutcome::Done { result } && result is Ok),
{
    if let ScriptStep::Body { index } = setup.run.step {
        let body = network_body(setup.layout);
        if 0 < index < 16 {
            assert(body[index - 1] is Run || index == 9 || index == 10);
        }
        if index + 1 < 16 {
            assert(body[index + 1] == NetworkStepView::TurnOnForwarding <==> index == 8);
        }
        if index + 2 < 16 {
            assert(body[index + 2] == NetworkStepView::TurnOnForwarding <==> index == 7);
        }
    }
}

/// What is taken down is what was set up: the table, the namespace and the interface that the
/// ending removes are those that the setup makes.
pub proof fn law_teardown_names_the_setup(layout: LayoutView, restore: bool)
    ensures
        network_opening(layout)[0] == ip(seq!["netns"@, "add"@, layout.namespace]),
        network_ending(layout, restore)[1] == ip(seq!["netns"@, "delete"@, layout.namespace]),
        network_body(layout)[10] == nft(seq!["add"@, "table"@, "ip"@, layout.nft_table]),
        network_ending(layout, restore)[0] == nft(
            seq!["delete"@, "table"@, "ip"@, layout.nft_table],
        ),
        network_body(layout)[0] == ip(
            seq![
                "link"@,
                "add"@,
                layout.host_interface,
                "type"@,
                "veth"@,
                "peer"@,
                "name"@,
                layout.guest_interface,
            ],
        ),
        network_ending(layout, restore)[2] == ip(seq!["link"@, "delete"@, layout.host_interface]),
{
}

/// The arguments of `ip` that start a sandbox in its namespace; the command follows.
pub open spec fn namespace_call(
    namespace: Seq<char>,
    executable: Seq<char>,
    state_root: Seq<char>,
    name: Seq<char>,
) -> Seq<Seq<char>> {
    seq![
        "netns"@,
        "exec"@,
        namespace,
        "unshare"@,
        "--mount"@,
        "--pid"@,
        "--fork"@,
        "--uts"@,
        "--ipc"@,
        executable,
        "--state-dir"@,
        state_root,
        "__sandbox-init"@,
        name,
        "--"@,
    ]
}

/// The arguments of `ip` that start a sandbox in its namespace; the command follows.
pub fn namespace_arguments(
    namespace: &str,
    executable: &str,
    state_root: &FsPath,
    name: &str,
) -> (r: Vec<String>)
    ensures
        texts(r@) == namespace_call(namespace@, executable@, state_root@, name@),
{
    let r = crate::text::arguments(
        vec![
            "netns", "exec", namespace, "unshare", "--mount", "--pid", "--fork", "--uts", "--ipc",
            executable, "--state-dir", state_root.text.as_str(), "__sandbox-init", name, "--",
        ],
    );
    assert(texts(r@) =~= namespace_call(namespace@, executable@, state_root@, name@));
    r
}

/// The tools that a sandbox needs, in the order in which they are looked for.
pub open spec fn required_tools() -> Seq<Seq<char>> {
    seq!["ip"@, "nft"@, "unshare"@, "mount"@, "umount"@, "chroot"@, "cp"@]
}

pub fn runtime_tools() -> (r: Vec<String>)
    ensures
        texts(r@) == required_tools(),
{
    let r = crate::text::arguments(
        vec!["ip", "nft", "unshare", "mount", "umount", "chroot", "cp"],
    );
    assert(texts(r@) =~= required_tools());
    r
}

/// The first tool that is not there.
pub open spec fn first_missing(
    tools: Seq<Seq<char>>,
    available: Seq<bool>,
    from: int,
) -> Option<Seq<char>>
    decreases tools.len() - from,
{
    if from >= tools.len() || from < 0 {
        None
    } else if !available[from] {
        Some(tools[from])
    } else {
        first_missing(tools, available, from + 1)
    }
}

/// Why a sandbox cannot be started, if anything stands against it.
pub open spec fn start_refusal(
    is_root: bool,
    has_command: bool,
    available: Seq<bool>,
) -> Option<Seq<char>> {
    if !is_root {
        Some("entering a full-system sandbox currently requires root privileges"@)
    } else if !has_command {
        Some("no command was provided"@)
    } else {
        match first_missing(required_tools(), available, 0) {
            Some(tool) => Some("required Linux tool '"@ + tool + "' was not found"@),
            None => None,
        }
    }
}

/// Refuses to start a sandbox without privileges, a command, or one of the tools. `available`
/// says which of the tools are there.
pub fn check_start(
    is_root: bool,
    has_command: bool,
    available: &Vec<bool>,
) -> (r: Result<(), String>)
    requires
        available@.len() == 7,
    ensures
        match r {
            Ok(()) => start_refusal(is_root, has_command, available@) is None,
            Err(e) => start_refusal(is_root, has_command, available@) == Some(e@),
        },
{
    if !is_root {
        return Err("entering a full-system sandbox currently requires root privileges".to_owned());
    }
    if !has_command {
        return Err("no command was provided".to_owned());
    }
    let tools = runtime_tools();
    let ghost all = texts(tools@);
    assert(all == required_tools());
    let mut i: usize = 0;
    while i < tools.len()
        invariant
            i <= tools.len(),
            tools@.len() == 7,
            available@.len() == 7,
            is_root,
            has_command,
            all == texts(tools@),
            all == required_tools(),
            first_missing(all, available@, 0) == first_missing(all, available@, i as int),
        decreases tools.len() - i,
    {
        if !available[i] {
            assert(all[i as int] == tools@[i as int]@);
            return Err(
                "required Linux tool '".to_owned().concat(tools[i].as_str()).concat(
                    "' was not found",
                ),
            );
        }
        i += 1;
    }
    Ok(())
}

/// Refuses a base that cannot stand in the options of an overlay.
pub fn reject_overlay_delimiters(base: &FsPath) -> (r: Result<(), String>)
    ensures
        r is Ok <==> !base@.contains(',') && !base@.contains(':'),
        r matches Err(e) ==> e@
            == "base path cannot contain ',' or ':' for the OverlayFS backend"@,
{
    if crate::text::contains_char(base.text.as_str(), ',') || crate::text::contains_char(
        base.text.as_str(),
        ':',
    ) {
        Err("base path cannot contain ',' or ':' for the OverlayFS backend".to_owned())
    } else {
        Ok(())
    }
}

/// The directories of a running sandbox.
pub struct SandboxPaths {
    pub persistent_upper: FsPath,
    pub control: FsPath,
    pub runtime: FsPath,
    pub stage_upper: FsPath,
    pub stage_work: FsPath,
    pub merged: FsPath,
}

#[verifier::ext_equal]
pub struct SandboxPathsView {
    pub persistent_upper: Seq<char>,
    pub control: Seq<char>,
    pub runtime: Seq<char>,
    pub stage_upper: Seq<char>,
    pub stage_work: Seq<char>,
    pub merged: Seq<char>,
}

impl View for SandboxPaths {
    type V = SandboxPathsView;

    open spec fn view(&self) -> SandboxPathsView {
        SandboxPathsView {
            persistent_upper: self.persistent_upper@,
            control: self.control@,
            runtime: self.runtime@,
            stage_upper: self.stage_upper@,
            stage_work: self.stage_work@,
            merged: self.merged@,
        }
    }
}

/// The directories of a sandbox that runs in a process.
pub open spec fn sandbox_paths_of(root: Seq<char>, name: Seq<char>, pid: nat) -> SandboxPathsView {
    let directory = environment_path(root, name);
    let runtime = joined(directory, "runtime-"@ + decimal(pid));
    SandboxPathsView {
        persistent_upper: upper_path(root, name),
        control: joined(directory, "control"@),
        runtime,
        stage_upper: joined(runtime, "upper"@),
        stage_work: joined(runtime, "work"@),
        merged: joined(runtime, "merged"@),
    }
}

pub fn sandbox_paths(store: &Store, name: &str, pid: u32) -> (r: SandboxPaths)
    ensures
        r@ == sandbox_paths_of(store.root_text(), name@, pid as nat),
{
    let directory = store.environment_dir(name);
    let runtime = directory.join(
        "runtime-".to_owned().concat(number_text(pid as u64).as_str()).as_str(),
    );
    SandboxPaths {
        persistent_upper: store.upper_dir(name),
        control: directory.join("control"),
        stage_upper: runtime.join("upper"),
        stage_work: runtime.join("work"),
        merged: runtime.join("merged"),
        runtime,
    }
}

/// What is done to set up, run and tidy up a sandbox.
pub enum SandboxStep {
    MakeDirectory { path: FsPath },
    Run { command: CommandLine },
    /// Run a command and go on whatever comes of it.
    Attempt { command: CommandLine },
    CopyContents { source: FsPath, destination: FsPath },
    ReplaceContents { source: FsPath, destination: FsPath },
    /// Put the program itself where the sandbox finds it.
    InstallBinary { destination: FsPath },
    /// Run the command in the sandbox.
    Enter { root: FsPath },
    RemoveTree { path: FsPath },
}

#[verifier::ext_equal]
pub enum SandboxStepView {
    MakeDirectory { path: Seq<char> },
    Run { command: CommandView },
    Attempt { command: CommandView },
    CopyContents { source: Seq<char>, destination: Seq<char> },
    ReplaceContents { source: Seq<char>, destination: Seq<char> },
    InstallBinary { destination: Seq<char> },
    Enter { root: Seq<char> },
    RemoveTree { path: Seq<char> },
}

impl View for SandboxStep {
    type V = SandboxStepView;

    open spec fn view(&self) -> SandboxStepView {
        match self {
            SandboxStep::MakeDirectory { path } => SandboxStepView::MakeDirectory { path: path@ },
            SandboxStep::Run { command } => SandboxStepView::Run { command: command@ },
            SandboxStep::Attempt { command } => SandboxStepView::Attempt { command: command@ },
            SandboxStep::CopyContents { source, destination } => SandboxStepView::CopyContents {
                source: source@,
                destination: destination@,
            },
            SandboxStep::ReplaceContents { source, destination } =>
                SandboxStepView::ReplaceContents {
                source: source@,
                destination: destination@,
            },
            SandboxStep::InstallBinary { destination } => SandboxStepView::InstallBinary {
                destination: destination@,
            },
            SandboxStep::Enter { root } => SandboxStepView::Enter { root: root@ },
            SandboxStep::RemoveTree { path } => SandboxStepView::RemoveTree { path: path@ },
        }
    }
}

pub open spec fn mount(arguments: Seq<Seq<char>>) -> SandboxStepView {
    SandboxStepView::Run { command: command_of("mount"@, arguments) }
}

pub open spec fn unmount(arguments: Seq<Seq<char>>) -> SandboxStepView {
    SandboxStepView::Attempt { command: command_of("umount"@, arguments) }
}

pub open spec fn directory(path: Seq<char>) -> SandboxStepView {
    SandboxStepView::MakeDirectory { path }
}

fn mount_step(arguments: Vec<&str>) -> (r: SandboxStep)
    ensures
        r@ == mount(strs(arguments@)),
{
    SandboxStep::Run { command: command("mount", arguments) }
}

fn unmount_step(arguments: Vec<&str>) -> (r: SandboxStep)
    ensures
        r@ == unmount(strs(arguments@)),
{
    SandboxStep::Attempt { command: command("umount", arguments) }
}

fn directory_step(path: FsPath) -> (r: SandboxStep)
    ensures
        r@ == directory(path@),
{
    SandboxStep::MakeDirectory { path }
}

/// The options of the overlay that a sandbox sees.
pub open spec fn overlay_options(base: Seq<char>, paths: SandboxPathsView) -> Seq<char> {
    "lowerdir="@ + base + ",upperdir="@ + paths.stage_upper + ",workdir="@ + paths.stage_work
}

/// Where the control directory shows in a sandbox.
pub open spec fn control_mount(merged: Seq<char>) -> Seq<char> {
    joined(merged, "run/netsandbox-control"@)
}

/// The steps before anything has to be tidied up.
pub open spec fn sandbox_opening(paths: SandboxPathsView) -> Seq<SandboxStepView> {
    seq![directory(paths.runtime), mount(seq!["-t"@, "tmpfs"@, "tmpfs"@, paths.runtime])]
}

/// The steps that build a sandbox, run its command, and keep what it changed.
pub open spec fn sandbox_body(base: Seq<char>, paths: SandboxPathsView) -> Seq<SandboxStepView> {
    let merged = paths.merged;
    let control = control_mount(merged);
    seq![
        directory(paths.stage_upper),
        directory(paths.stage_work),
        directory(merged),
        SandboxStepView::CopyContents {
            source: paths.persistent_upper,
            destination: paths.stage_upper,
        },
        mount(seq!["--make-rprivate"@, "/"@]),
        mount(
            seq!["-t"@, "overlay"@, "overlay"@, "-o"@, overlay_options(base, paths), merged],
        ),
        directory(joined(merged, "dev"@)),
        directory(joined(merged, "proc"@)),
        directory(joined(merged, "sys"@)),
        directory(joined(merged, "run"@)),
        mount(seq!["--rbind"@, "/dev"@, joined(merged, "dev"@)]),
        mount(seq!["-t"@, "proc"@, "proc"@, joined(merged, "proc"@)]),
        mount(seq!["-t"@, "sysfs"@, "sysfs"@, joined(merged, "sys"@)]),
        mount(seq!["-t"@, "tmpfs"@, "tmpfs"@, joined(merged, "run"@)]),
        directory(paths.control),
        directory(control),
        mount(seq!["--bind"@, paths.control, control]),
        SandboxStepView::InstallBinary { destination: joined(paths.control, "netsandbox"@) },
        SandboxStepView::Enter { root: merged },
        unmount(seq!["-l"@, control]),
        unmount(seq!["-l"@, joined(merged, "run"@)]),
        unmount(seq!["-l"@, joined(merged, "sys"@)]),
        unmount(seq!["-l"@, joined(merged, "proc"@)]),
        unmount(seq!["-l"@, joined(merged, "dev"@)]),
        unmount(seq![merged]),
        SandboxStepView::ReplaceContents {
            source: paths.stage_upper,
            destination: paths.persistent_upper,
        },
    ]
}

/// The steps that end a sandbox, whatever came of it.
pub open spec fn sandbox_ending(paths: SandboxPathsView) -> Seq<SandboxStepView> {
    seq![unmount(seq![paths.runtime]), SandboxStepView::RemoveTree { path: paths.runtime }]
}

/// The steps of a sandbox, and how they run.
pub struct SandboxScript {
    pub opening: Vec<SandboxStep>,
    pub body: Vec<SandboxStep>,
    pub ending: Vec<SandboxStep>,
    pub shape: ScriptShape,
}

fn push_step(list: &mut Vec<SandboxStep>, step: SandboxStep)
    ensures
        views(final(list)@) == views(old(list)@).push(step@),
{
    let ghost before = views(list@);
    list.push(step);
    assert(views(list@) =~= before.push(step@));
}

/// The steps that build a sandbox, in the order in which they run.
#[verifier::rlimit(60)]
fn build_steps(base: &FsPath, paths: &SandboxPaths) -> (r: Vec<SandboxStep>)
    ensures
        views(r@) == sandbox_body(base@, paths@).take(18),
{
    let ghost body = sandbox_body(base@, paths@);
    let merged = &paths.merged;
    let control = merged.join("run/netsandbox-control");
    let dev = merged.join("dev");
    let proc = merged.join("proc");
    let sys = merged.join("sys");
    let run = merged.join("run");
    let options = "lowerdir=".to_owned().concat(base.text.as_str()).concat(",upperdir=").concat(
        paths.stage_upper.text.as_str(),
    ).concat(",workdir=").concat(paths.stage_work.text.as_str());
    let private = mount_step(vec!["--make-rprivate", "/"]);
    let overlay = mount_step(
        vec!["-t", "overlay", "overlay", "-o", options.as_str(), merged.text.as_str()],
    );
    let bind_dev = mount_step(vec!["--rbind", "/dev", dev.text.as_str()]);
    let mount_proc = mount_step(vec!["-t", "proc", "proc", proc.text.as_str()]);
    let mount_sys = mount_step(vec!["-t", "sysfs", "sysfs", sys.text.as_str()]);
    let mount_run = mount_step(vec!["-t", "tmpfs", "tmpfs", run.text.as_str()]);
    let bind_control = mount_step(
        vec!["--bind", paths.control.text.as_str(), control.text.as_str()],
    );
    assert(private@ == body[4]);
    assert(overlay@ == body[5]);
    assert(bind_dev@ == body[10]);
    assert(mount_proc@ == body[11]);
    assert(mount_sys@ == body[12]);
    assert(mount_run@ == body[13]);
    assert(bind_control@ == body[16]);
    let mut r: Vec<SandboxStep> = Vec::new();
    assert(views(r@) =~= Seq::empty());
    push_step(&mut r, directory_step(paths.stage_upper.copy()));
    push_step(&mut r, directory_step(paths.stage_work.copy()));
    push_step(&mut r, directory_step(merged.copy()));
    push_step(
        &mut r,
        SandboxStep::CopyContents {
            source: paths.persistent_upper.copy(),
            destination: paths.stage_upper.copy(),
        },
    );
    push_step(&mut r, private);
    push_step(&mut r, overlay);
    push_step(&mut r, directory_step(dev));
    push_step(&mut r, directory_step(proc));
    push_step(&mut r, directory_step(sys));
    push_step(&mut r, directory_step(run));
    push_step(&mut r, bind_dev);
    push_step(&mut r, mount_proc);
    push_step(&mut r, mount_sys);
    push_step(&mut r, mount_run);
    push_step(&mut r, directory_step(paths.control.copy()));
    push_step(&mut r, directory_step(control));
    push_step(&mut r, bind_control);
    push_step(
        &mut r,
        SandboxStep::InstallBinary { destination: paths.control.join("netsandbox") },
    );
    assert(views(r@) =~= body.take(18));
    r
}

/// The steps of a sandbox for an environment, unless its base cannot be overlaid.
#[verifier::rlimit(60)]
pub fn sandbox_init(
    environment: &Environment,
    store: &Store,
    pid: u32,
) -> (r: Result<SandboxScript, String>)
    ensures
        r is Ok <==> !environment@.base_root.contains(',') && !environment@.base_root.contains(':'),
        match r {
            Ok(script) => ({
                let paths = sandbox_paths_of(store.root_text(), environment@.name, pid as nat);
                &&& views(script.opening@) == sandbox_opening(paths)
                &&& views(script.body@) == sandbox_body(environment@.base_root, paths)
                &&& views(script.ending@) == sandbox_ending(paths)
                &&& script.shape == (ScriptShape {
                    opening: 2,
                    body: 26,
                    ending: 2,
                    always_tidy: true,
                })
            }),
            Err(e) => e@ == "base path cannot contain ',' or ':' for the OverlayFS backend"@,
        },
{
    match reject_overlay_delimiters(&environment.base_root) {
        Err(e) => return Err(e),
        Ok(()) => {},
    }
    let paths = sandbox_paths(store, environment.name.as_str(), pid);
    let ghost shown = paths@;
    let ghost whole = sandbox_body(environment@.base_root, shown);
    let mount_runtime = mount_step(
        vec!["-t", "tmpfs", "tmpfs", paths.runtime.text.as_str()],
    );
    assert(mount_runtime@ == sandbox_opening(shown)[1]);
    let mut opening: Vec<SandboxStep> = Vec::new();
    opening.push(directory_step(paths.runtime.copy()));
    opening.push(mount_runtime);
    assert(views(opening@) =~= sandbox_opening(shown));
    let mut body = build_steps(&environment.base_root, &paths);
    let merged = &paths.merged;
    let control = merged.join("run/netsandbox-control");
    let un_control = unmount_step(vec!["-l", control.text.as_str()]);
    let run = merged.join("run");
    let un_run = unmount_step(vec!["-l", run.text.as_str()]);
    let sys = merged.join("sys");
    let un_sys = unmount_step(vec!["-l", sys.text.as_str()]);
    let proc = merged.join("proc");
    let un_proc = unmount_step(vec!["-l", proc.text.as_str()]);
    let dev = merged.join("dev");
    let un_dev = unmount_step(vec!["-l", dev.text.as_str()]);
    let un_merged = unmount_step(vec![merged.text.as_str()]);
    assert(un_control@ == whole[19]);
    assert(un_run@ == whole[20]);
    assert(un_sys@ == whole[21]);
    assert(un_proc@ == whole[22]);
    assert(un_dev@ == whole[23]);
    assert(un_merged@ == whole[24]);
    push_step(&mut body, SandboxStep::Enter { root: merged.copy() });
    push_step(&mut body, un_control);
    push_step(&mut body, un_run);
    push_step(&mut body, un_sys);
    push_step(&mut body, un_proc);
    push_step(&mut body, un_dev);
    push_step(&mut body, un_merged);
    push_step(
        &mut body,
        SandboxStep::ReplaceContents {
            source: paths.stage_upper.copy(),
            destination: paths.persistent_upper.copy(),
        },
    );
    assert(views(body@) =~= whole);
    let un_runtime = unmount_step(vec![paths.runtime.text.as_str()]);
    assert(un_runtime@ == sandbox_ending(shown)[0]);
    let mut ending: Vec<SandboxStep> = Vec::new();
    ending.push(un_runtime);
    ending.push(SandboxStep::RemoveTree { path: paths.runtime.copy() });
    assert(views(ending@) =~= sandbox_ending(shown));
    let shape = ScriptShape { opening: 2, body: 26, ending: 2, always_tidy: true };
    Ok(SandboxScript { opening, body, ending, shape })
}

/// A variable of the environment of a command.
pub struct Variable {
    pub name: String,
    pub value: String,
}

#[verifier::ext_equal]
pub struct VariableView {
    pub name: Seq<char>,
    pub value: Seq<char>,
}

impl View for Variable {
    type V = VariableView;

    open spec fn view(&self) -> VariableView {
        VariableView { name: self.name@, value: self.value@ }
    }
}

pub open spec fn variable_of(name: Seq<char>, value: Seq<char>) -> VariableView {
    VariableView { name, value }
}

pub fn variable(name: &str, value: &str) -> (r: Variable)
    ensures
        r@ == variable_of(name@, value@),
{
    Variable { name: name.to_owned(), value: value.to_owned() }
}

/// The variables that a command in a sandbox finds.
pub open spec fn sandbox_variables_of(
    name: Seq<char>,
    path: Option<Seq<char>>,
    prompt: Option<Seq<char>>,
) -> Seq<VariableView> {
    seq![
        variable_of("NETSANDBOX_ACTIVE"@, name),
        variable_of("NETSANDBOX_SUPERVISED"@, "1"@),
        variable_of("NETSANDBOX_CONTROL"@, "/run/netsandbox-control"@),
        variable_of("NETSANDBOX_BIN"@, "/run/netsandbox-control/netsandbox"@),
        variable_of(
            "PATH"@,
            "/run/netsandbox-control:"@ + crate::text::text_or(
                path,
                "/usr/local/sbin:/usr/local/bin:/usr/sbin:/usr/bin:/sbin:/bin"@,
            ),
        ),
        variable_of(
            "PS1"@,
            "[nsb:"@ + name + "] "@ + crate::text::text_or(prompt, "\\u@\\h:\\w\\$ "@),
        ),
    ]
}

/// The variables that a command in a sandbox finds. `path` and `prompt` are those of the host.
pub fn sandbox_variables(
    name: &str,
    path: &Option<String>,
    prompt: &Option<String>,
) -> (r: Vec<Variable>)
    ensures
        views(r@) == sandbox_variables_of(name@, crate::text::opt_text(*path), crate::text::opt_text(*prompt)),
{
    let inherited = match path {
        Some(p) => p.clone(),
        None => "/usr/local/sbin:/usr/local/bin:/usr/sbin:/usr/bin:/sbin:/bin".to_owned(),
    };
    let shown = match prompt {
        Some(p) => p.clone(),
        None => "\\u@\\h:\\w\\$ ".to_owned(),
    };
    let search = "/run/netsandbox-control:".to_owned().concat(inherited.as_str());
    let ps1 = "[nsb:".to_owned().concat(name).concat("] ").concat(shown.as_str());
    let r = vec![
        variable("NETSANDBOX_ACTIVE", name),
        variable("NETSANDBOX_SUPERVISED", "1"),
        variable("NETSANDBOX_CONTROL", "/run/netsandbox-control"),
        variable("NETSANDBOX_BIN", "/run/netsandbox-control/netsandbox"),
        variable("PATH", search.as_str()),
        variable("PS1", ps1.as_str()),
    ];
    assert(views(r@) =~= sandbox_variables_of(name@, crate::text::opt_text(*path), crate::text::opt_text(*prompt)));
    r
}

/// What was found of the host for a report.
pub struct LinuxFindings {
    pub is_root: bool,
    /// The filesystems that the kernel knows; none where they cannot be read.
    pub filesystems: Option<String>,
    /// Which of the required tools are there.
    pub tools: Vec<bool>,
    /// Whether packets are forwarded; none where that cannot be read.
    pub forwarding: Option<String>,
}

pub open spec fn check_of(
    name: Seq<char>,
    ok: bool,
    required: bool,
    detail: Seq<char>,
) -> DoctorCheckView {
    DoctorCheckView { name, ok, required, detail }
}

pub fn check(name: &str, ok: bool, required: bool, detail: &str) -> (r: DoctorCheck)
    ensures
        r@ == check_of(name@, ok, required, detail@),
{
    DoctorCheck { name: name.to_owned(), ok, required, detail: detail.to_owned() }
}

pub open spec fn is_forwarding(contents: Option<Seq<char>>) -> bool {
    contents matches Some(c) && trimmed(c) == "1"@
}

/// The report on a Linux host.
pub open spec fn linux_report(findings: LinuxFindings) -> Seq<DoctorCheckView> {
    let forwarding = is_forwarding(crate::text::opt_text(findings.forwarding));
    let tool = "required runtime command"@;
    seq![
        check_of(
            "root privileges"@,
            findings.is_root,
            true,
            if findings.is_root {
                "available"@
            } else {
                "required for the current namespace backend"@
            },
        ),
        check_of(
            "OverlayFS"@,
            crate::text::opt_text(findings.filesystems) matches Some(f)
                && crate::text::has_substring(f, "overlay"@),
            true,
            "kernel differential filesystem"@,
        ),
        check_of("ip"@, findings.tools@[0], true, tool),
        check_of("nft"@, findings.tools@[1], true, tool),
        check_of("unshare"@, findings.tools@[2], true, tool),
        check_of("mount"@, findings.tools@[3], true, tool),
        check_of("umount"@, findings.tools@[4], true, tool),
        check_of("chroot"@, findings.tools@[5], true, tool),
        check_of("cp"@, findings.tools@[6], true, tool),
        check_of(
            "IPv4 forwarding"@,
            forwarding,
            false,
            if forwarding {
                "enabled"@
            } else {
                "will be enabled only while a supervised sandbox is active"@
            },
        ),
    ]
}

/// The report finds fault with a Linux host exactly if a sandbox could not run on it: without root,
/// without OverlayFS or without one of the required tools. That packets are not forwarded is no
/// fault: a sandbox turns that on while it runs.
pub proof fn law_report_finds_what_a_sandbox_needs(findings: LinuxFindings)
    requires
        findings.tools@.len() == required_tools().len(),
    ensures
        (exists|i: int|
            0 <= i < linux_report(findings).len() && (#[trigger] linux_report(findings)[i]).required
                && !linux_report(findings)[i].ok) <==> !(findings.is_root
            && (crate::text::opt_text(findings.filesystems) matches Some(f)
            && crate::text::has_substring(f, "overlay"@)) && forall|k: int|
            0 <= k < findings.tools@.len() ==> #[trigger] findings.tools@[k]),
        forall|k: int|
            0 <= k < required_tools().len() ==> linux_report(findings)[k + 2].name
                == #[trigger] required_tools()[k] && linux_report(findings)[k + 2].ok
                == findings.tools@[k],
{
    let all = linux_report(findings);
    assert forall|k: int| 0 <= k < required_tools().len() implies all[k + 2].name
        == #[trigger] required_tools()[k] && all[k + 2].ok == findings.tools@[k] && all[k
        + 2].required by {}
    if exists|k: int| 0 <= k < findings.tools@.len() && !#[trigger] findings.tools@[k] {
        let k = choose|k: int| 0 <= k < findings.tools@.len() && !#[trigger] findings.tools@[k];
        assert(required_tools()[k] == all[k + 2].name);
        assert(!all[k + 2].ok);
    }
    assert(all[0].required && all[1].required && !all[9].required);
}

/// Reports on a Linux host.
pub fn doctor(findings: &LinuxFindings) -> (r: Vec<DoctorCheck>)
    requires
        findings.tools@.len() == 7,
    ensures
        views(r@) == linux_report(*findings),
{
    let forwarding = match &findings.forwarding {
        Some(contents) => same_text(trim(contents.as_str()).as_str(), "1"),
        None => false,
    };
    let overlay = match &findings.filesystems {
        Some(contents) => crate::text::contains_substring(contents.as_str(), "overlay"),
        None => false,
    };
    let tool = "required runtime command";
    let r = vec![
        check(
            "root privileges",
            findings.is_root,
            true,
            if findings.is_root {
                "available"
            } else {
                "required for the current namespace backend"
            },
        ),
        check("OverlayFS", overlay, true, "kernel differential filesystem"),
        check("ip", findings.tools[0], true, tool),
        check("nft", findings.tools[1], true, tool),
        check("unshare", findings.tools[2], true, tool),
        check("mount", findings.tools[3], true, tool),
        check("umount", findings.tools[4], true, tool),
        check("chroot", findings.tools[5], true, tool),
        check("cp", findings.tools[6], true, tool),
        check(
            "IPv4 forwarding",
            forwarding,
            false,
            if forwarding {
                "enabled"
            } else {
                "will be enabled only while a supervised sandbox is active"
            },
        ),
    ];
    assert(views(r@) =~= linux_report(*findings));
    r
}

} // verus!
