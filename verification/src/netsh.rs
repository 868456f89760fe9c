//! Changing the IPv4 settings of an interface.

use vstd::prelude::*;

use crate::command::{
    output_text, run_failure, run_failure_text, text_of_output, CommandLine, CommandOutput,
    CommandView, OutputView,
};
use crate::text::texts;

verus! {

/// What to give an interface: DHCP where every part is missing, the static
/// settings where every part is there.
pub ghost struct ChangeView {
    pub interface: Seq<char>,
    pub ip: Option<Seq<char>>,
    pub mask: Option<Seq<char>>,
    pub gateway: Option<Seq<char>>,
}

/// What to give an interface.
#[derive(Debug, PartialEq, Eq)]
pub struct Change {
    pub interface: String,
    pub ip: Option<String>,
    pub mask: Option<String>,
    pub gateway: Option<String>,
}

/// The view of a text that may be missing.
pub open spec fn optional_text(s: Option<String>) -> Option<Seq<char>> {
    match s {
        Some(t) => Some(t@),
        None => None,
    }
}

impl View for Change {
    type V = ChangeView;

    open spec fn view(&self) -> ChangeView {
        ChangeView {
            interface: self.interface@,
            ip: optional_text(self.ip),
            mask: optional_text(self.mask),
            gateway: optional_text(self.gateway),
        }
    }
}

/// How a command ended: it ran, or it could not be run.
pub ghost enum OutcomeView {
    Ran(OutputView),
    NotRun(Seq<char>),
}

/// How a command ended: it ran, or it could not be run, and why.
pub enum Outcome {
    Ran(CommandOutput),
    NotRun(String),
}

impl View for Outcome {
    type V = OutcomeView;

    open spec fn view(&self) -> OutcomeView {
        match self {
            Outcome::Ran(output) => OutcomeView::Ran(output@),
            Outcome::NotRun(cause) => OutcomeView::NotRun(cause@),
        }
    }
}

/// The views of some outcomes.
pub open spec fn outcome_views(outcomes: Seq<Outcome>) -> Seq<OutcomeView> {
    outcomes.map_values(|o: Outcome| o@)
}

/// The command that has an interface get something by DHCP.
pub open spec fn dhcp_command(interface: Seq<char>, what: Seq<char>) -> CommandView {
    CommandView {
        program: "netsh"@,
        arguments: seq![
            "interface"@,
            "ipv4"@,
            "set"@,
            what,
            "name="@ + interface,
            "source=dhcp"@,
        ],
    }
}

/// The command that gives an interface a static address.
pub open spec fn static_command(
    interface: Seq<char>,
    ip: Seq<char>,
    mask: Seq<char>,
    gateway: Seq<char>,
) -> CommandView {
    CommandView {
        program: "netsh"@,
        arguments: seq![
            "interface"@,
            "ipv4"@,
            "set"@,
            "address"@,
            "name="@ + interface,
            "source=static"@,
            "address="@ + ip,
            "mask="@ + mask,
            "gateway="@ + gateway,
            "gwmetric=1"@,
        ],
    }
}

impl ChangeView {
    /// The commands of the change, in their order; none if some parts are
    /// there and others missing.
    pub open spec fn commands(self) -> Option<Seq<CommandView>> {
        match (self.ip, self.mask, self.gateway) {
            (None, None, None) => Some(
                seq![
                    dhcp_command(self.interface, "address"@),
                    dhcp_command(self.interface, "dnsservers"@),
                ],
            ),
            (Some(ip), Some(mask), Some(gateway)) => Some(
                seq![static_command(self.interface, ip, mask, gateway)],
            ),
            _ => None,
        }
    }
}

/// What a command that failed says of it: what is on its standard error, or
/// else on its standard output.
pub open spec fn complaint(stderr: Seq<char>, stdout: Seq<char>) -> Seq<char> {
    if stderr.len() > 0 {
        stderr
    } else if stdout.len() > 0 {
        stdout
    } else {
        "Unknown error"@
    }
}

/// The message for a command that failed.
pub open spec fn failure_text(interface: Seq<char>, error: Seq<char>) -> Seq<char> {
    "Failed to change IP settings for '"@ + interface + "': "@ + error
}

/// The message for the outcome of a command, if it is a failure.
pub open spec fn failure_of(interface: Seq<char>, outcome: OutcomeView) -> Option<Seq<char>> {
    match outcome {
        OutcomeView::NotRun(cause) => Some(run_failure_text("netsh"@, cause)),
        OutcomeView::Ran(output) => if output.success {
            None
        } else {
            Some(
                failure_text(
                    interface,
                    complaint(output_text(output.stderr), output_text(output.stdout)),
                ),
            )
        },
    }
}

/// The message for the first failure among some outcomes.
pub open spec fn first_failure(interface: Seq<char>, outcomes: Seq<OutcomeView>) -> Option<
    Seq<char>,
>
    decreases outcomes.len(),
{
    if outcomes.len() == 0 {
        None
    } else {
        match failure_of(interface, outcomes[0]) {
            Some(message) => Some(message),
            None => first_failure(interface, outcomes.drop_first()),
        }
    }
}

/// What is next in a change.
pub ghost enum StepView {
    Run(CommandView),
    Done,
    Failed(Seq<char>),
}

/// What is next in a change: a command to run, or the end.
#[derive(Debug, PartialEq, Eq)]
pub enum Step {
    Run(CommandLine),
    Done,
    Failed(String),
}

impl View for Step {
    type V = StepView;

    open spec fn view(&self) -> StepView {
        match self {
            Step::Run(command) => StepView::Run(command@),
            Step::Done => StepView::Done,
            Step::Failed(message) => StepView::Failed(message@),
        }
    }
}

/// What is next in a change after some of its commands: it ends with the first
/// failure, and when every command has run.
pub open spec fn next_step(change: ChangeView, outcomes: Seq<OutcomeView>) -> StepView {
    match change.commands() {
        None => StepView::Failed(
            "Provide all of ip, mask, and gateway, or provide none for DHCP."@,
        ),
        Some(commands) => match first_failure(change.interface, outcomes) {
            Some(message) => StepView::Failed(message),
            None => if outcomes.len() < commands.len() {
                StepView::Run(commands[outcomes.len() as int])
            } else {
                StepView::Done
            },
        },
    }
}

fn setting(key: &str, value: &str) -> (r: String)
    ensures
        r@ == key@ + value@,
{
    let mut r: String = key.to_owned();
    r.append(value);
    r
}

fn dhcp_command_line(interface: &str, what: &str) -> (r: CommandLine)
    ensures
        r@ == dhcp_command(interface@, what@),
{
    let mut arguments: Vec<String> = Vec::new();
    arguments.push("interface".to_owned());
    arguments.push("ipv4".to_owned());
    arguments.push("set".to_owned());
    arguments.push(what.to_owned());
    arguments.push(setting("name=", interface));
    arguments.push("source=dhcp".to_owned());
    assert(texts(arguments@) =~= dhcp_command(interface@, what@).arguments);
    CommandLine { program: "netsh".to_owned(), arguments }
}

fn static_command_line(interface: &str, ip: &str, mask: &str, gateway: &str) -> (r: CommandLine)
    ensures
        r@ == static_command(interface@, ip@, mask@, gateway@),
{
    let mut arguments: Vec<String> = Vec::new();
    arguments.push("interface".to_owned());
    arguments.push("ipv4".to_owned());
    arguments.push("set".to_owned());
    arguments.push("address".to_owned());
    arguments.push(setting("name=", interface));
    arguments.push("source=static".to_owned());
    arguments.push(setting("address=", ip));
    arguments.push(setting("mask=", mask));
    arguments.push(setting("gateway=", gateway));
    arguments.push("gwmetric=1".to_owned());
    assert(texts(arguments@) =~= static_command(interface@, ip@, mask@, gateway@).arguments);
    CommandLine { program: "netsh".to_owned(), arguments }
}

/// The views of some commands.
pub open spec fn command_views(commands: Seq<CommandLine>) -> Seq<CommandView> {
    commands.map_values(|c: CommandLine| c@)
}

/// The commands of a change, in their order; none if some parts are there and
/// others missing.
pub fn change_commands(change: &Change) -> (r: Option<Vec<CommandLine>>)
    ensures
        r is Some <==> change@.commands() is Some,
        r matches Some(commands) ==> change@.commands() == Some(command_views(commands@)),
{
    let mut commands: Vec<CommandLine> = Vec::new();
    match (&change.ip, &change.mask, &change.gateway) {
        (None, None, None) => {
            commands.push(dhcp_command_line(&change.interface, "address"));
            commands.push(dhcp_command_line(&change.interface, "dnsservers"));
        },
        (Some(ip), Some(mask), Some(gateway)) => {
            commands.push(static_command_line(&change.interface, ip, mask, gateway));
        },
        _ => {
            return None;
        },
    }
    assert(command_views(commands@) =~= change@.commands()->0);
    Some(commands)
}

/// The message for a command that failed, from the texts that it put out.
pub fn failure_message(interface: &str, stderr: &str, stdout: &str) -> (r: String)
    ensures
        r@ == failure_text(interface@, complaint(stderr@, stdout@)),
{
    let error = if !stderr.is_empty() {
        stderr
    } else if !stdout.is_empty() {
        stdout
    } else {
        "Unknown error"
    };
    let mut message: String = "Failed to change IP settings for '".to_owned();
    message.append(interface);
    message.append("': ");
    message.append(error);
    message
}

fn failure(interface: &str, outcome: &Outcome) -> (r: Option<String>)
    ensures
        optional_text(r) == failure_of(interface@, outcome@),
{
    match outcome {
        Outcome::NotRun(cause) => Some(run_failure("netsh", cause)),
        Outcome::Ran(output) => {
            if output.success {
                return None;
            }
            let stderr = text_of_output(&output.stderr);
            let stdout = text_of_output(&output.stdout);
            Some(failure_message(interface, &stderr, &stdout))
        },
    }
}

/// What is next in a change after some of its commands, from how they ended.
pub fn change_ip_address(change: &Change, outcomes: &Vec<Outcome>) -> (r: Step)
    ensures
        r@ == next_step(change@, outcome_views(outcomes@)),
{
    let mut commands = match change_commands(change) {
        Some(commands) => commands,
        None => {
            return Step::Failed(
                "Provide all of ip, mask, and gateway, or provide none for DHCP.".to_owned(),
            );
        },
    };
    let ghost all = outcome_views(outcomes@);
    let mut i: usize = 0;
    assert(all.skip(0) =~= all);
    while i < outcomes.len()
        invariant
            i <= outcomes@.len(),
            all == outcome_views(outcomes@),
            change@.commands() is Some,
            first_failure(change.interface@, all) == first_failure(
                change.interface@,
                all.skip(i as int),
            ),
        decreases outcomes@.len() - i,
    {
        assert(all.skip(i as int)[0] == outcomes@[i as int]@);
        match failure(&change.interface, &outcomes[i]) {
            Some(message) => {
                return Step::Failed(message);
            },
            None => {},
        }
        assert(all.skip(i as int).drop_first() =~= all.skip(i + 1));
        i += 1;
    }
    if i < commands.len() {
        let command = commands.swap_remove(i);
        Step::Run(command)
    } else {
        Step::Done
    }
}

/// Whether a command ran with success.
pub open spec fn is_success(outcome: OutcomeView) -> bool {
    outcome is Ran && outcome->Ran_0.success
}

proof fn lemma_no_failure(interface: Seq<char>, outcomes: Seq<OutcomeView>)
    requires
        forall|i: int| 0 <= i < outcomes.len() ==> is_success(#[trigger] outcomes[i]),
    ensures
        first_failure(interface, outcomes) is None,
    decreases outcomes.len(),
{
    if outcomes.len() > 0 {
        assert(is_success(outcomes[0]));
        let rest = outcomes.drop_first();
        assert forall|i: int| 0 <= i < rest.len() implies is_success(#[trigger] rest[i]) by {
            assert(rest[i] == outcomes[i + 1]);
        }
        lemma_no_failure(interface, rest);
    }
}

proof fn lemma_failure_stays(
    interface: Seq<char>,
    outcomes: Seq<OutcomeView>,
    outcome: OutcomeView,
)
    ensures
        first_failure(interface, outcomes) is Some ==> first_failure(
            interface,
            outcomes.push(outcome),
        ) == first_failure(interface, outcomes),
        first_failure(interface, outcomes) is None ==> first_failure(
            interface,
            outcomes.push(outcome),
        ) == failure_of(interface, outcome),
    decreases outcomes.len(),
{
    let all = outcomes.push(outcome);
    if outcomes.len() == 0 {
        assert(all.drop_first() =~= Seq::<OutcomeView>::empty());
        assert(first_failure(interface, all.drop_first()) is None);
    } else {
        assert(all.drop_first() =~= outcomes.drop_first().push(outcome));
        assert(all[0] == outcomes[0]);
        lemma_failure_stays(interface, outcomes.drop_first(), outcome);
    }
}

/// As long as its commands run with success, a change runs them one after the
/// other, each once and in their order, and is done after the last.
pub proof fn successful_change_runs_every_command(
    change: ChangeView,
    outcomes: Seq<OutcomeView>,
)
    requires
        change.commands() is Some,
        forall|i: int| 0 <= i < outcomes.len() ==> is_success(#[trigger] outcomes[i]),
    ensures
        outcomes.len() < change.commands()->0.len() ==> next_step(change, outcomes)
            == StepView::Run(change.commands()->0[outcomes.len() as int]),
        outcomes.len() >= change.commands()->0.len() ==> next_step(change, outcomes)
            == StepView::Done,
{
    lemma_no_failure(change.interface, outcomes);
}

/// A change ends at its first failure: what would come after it does not
/// matter.
pub proof fn failed_change_stays_failed(
    change: ChangeView,
    outcomes: Seq<OutcomeView>,
    outcome: OutcomeView,
)
    requires
        next_step(change, outcomes) is Failed,
    ensures
        next_step(change, outcomes.push(outcome)) == next_step(change, outcomes),
{
    lemma_failure_stays(change.interface, outcomes, outcome);
}

/// The command that was run last decides: after successes, its failure is what
/// the change fails with.
pub proof fn change_fails_with_its_command(
    change: ChangeView,
    outcomes: Seq<OutcomeView>,
    outcome: OutcomeView,
)
    requires
        change.commands() is Some,
        forall|i: int| 0 <= i < outcomes.len() ==> is_success(#[trigger] outcomes[i]),
        !is_success(outcome),
    ensures
        failure_of(change.interface, outcome) is Some,
        next_step(change, outcomes.push(outcome)) == StepView::Failed(
            failure_of(change.interface, outcome)->0,
        ),
{
    lemma_no_failure(change.interface, outcomes);
    lemma_failure_stays(change.interface, outcomes, outcome);
}

/// A change with some parts and without others runs no command and fails.
pub proof fn partial_change_runs_nothing(change: ChangeView, outcomes: Seq<OutcomeView>)
    requires
        change.commands() is None,
    ensures
        next_step(change, outcomes) is Failed,
{
}

/// A change to static settings is one command, which names the interface, the
/// address, the mask and the gateway, each under its own key and as it is.
pub proof fn static_command_names_every_part(
    interface: Seq<char>,
    ip: Seq<char>,
    mask: Seq<char>,
    gateway: Seq<char>,
)
    ensures
        ({
            let change = ChangeView {
                interface,
                ip: Some(ip),
                mask: Some(mask),
                gateway: Some(gateway),
            };
            let commands = change.commands()->0;
            &&& change.commands() is Some
            &&& commands.len() == 1
            &&& commands[0].program == "netsh"@
            &&& commands[0].arguments == seq![
                "interface"@,
                "ipv4"@,
                "set"@,
                "address"@,
                "name="@ + interface,
                "source=static"@,
                "address="@ + ip,
                "mask="@ + mask,
                "gateway="@ + gateway,
                "gwmetric=1"@,
            ]
        }),
{
}

/// A change to DHCP is two commands, for the address and then for the name
/// servers, which name the interface; they differ in that one word only.
pub proof fn dhcp_commands_name_the_interface(interface: Seq<char>)
    ensures
        ({
            let change = ChangeView { interface, ip: None, mask: None, gateway: None };
            let commands = change.commands()->0;
            &&& change.commands() is Some
            &&& commands.len() == 2
            &&& commands[0].program == "netsh"@ && commands[1].program == "netsh"@
            &&& commands[0].arguments == seq![
                "interface"@,
                "ipv4"@,
                "set"@,
                "address"@,
                "name="@ + interface,
                "source=dhcp"@,
            ]
            &&& commands[1].arguments == commands[0].arguments.update(3, "dnsservers"@)
        }),
{
    let change = ChangeView { interface, ip: None, mask: None, gateway: None };
    let commands = change.commands()->0;
    assert(commands[1].arguments =~= commands[0].arguments.update(3, "dnsservers"@));
}

/// Changes that differ run different commands.
pub proof fn commands_tell_changes_apart(one: ChangeView, other: ChangeView)
    requires
        one.commands() is Some,
        one.commands() == other.commands(),
    ensures
        one == other,
{
    let (x, y) = (one.commands()->0, other.commands()->0);
    reveal_strlit("name=");
    assert(x[0].arguments == y[0].arguments);
    assert(x[0].arguments[4] == "name="@ + one.interface);
    assert(y[0].arguments[4] == "name="@ + other.interface);
    lemma_same_after(one.interface, other.interface, "name="@);
    if one.ip is Some {
        assert(y.len() == 1);
        assert(x[0].arguments[6] == y[0].arguments[6]);
        assert(x[0].arguments[7] == y[0].arguments[7]);
        assert(x[0].arguments[8] == y[0].arguments[8]);
        lemma_same_after(one.ip->0, other.ip->0, "address="@);
        lemma_same_after(one.mask->0, other.mask->0, "mask="@);
        lemma_same_after(one.gateway->0, other.gateway->0, "gateway="@);
    } else {
        assert(y.len() == 2);
    }
}

proof fn lemma_same_after(x: Seq<char>, y: Seq<char>, start: Seq<char>)
    ensures
        start + x == start + y ==> x == y,
{
    if start + x == start + y {
        assert((start + x).skip(start.len() as int) =~= x);
        assert((start + y).skip(start.len() as int) =~= y);
    }
}

/// A command that failed is told by what it wrote to its standard error, or
/// else to its standard output; one that could not be run, by the cause.
pub proof fn failures_are_told_by_their_cause(
    interface: Seq<char>,
    output: OutputView,
    cause: Seq<char>,
)
    ensures
        failure_of(interface, OutcomeView::NotRun(cause)) == Some(
            "Failed to run "@ + "netsh"@ + ": "@ + cause,
        ),
        output.success ==> failure_of(interface, OutcomeView::Ran(output)) is None,
        !output.success ==> failure_of(interface, OutcomeView::Ran(output)) == Some(
            "Failed to change IP settings for '"@ + interface + "': "@ + (if output_text(
                output.stderr,
            ).len() > 0 {
                output_text(output.stderr)
            } else if output_text(output.stdout).len() > 0 {
                output_text(output.stdout)
            } else {
                "Unknown error"@
            }),
        ),
{
}

/// A change has commands exactly if it has all of its parts or none, and says
/// so where it has only some.
pub proof fn changes_need_all_parts_or_none(change: ChangeView, outcomes: Seq<OutcomeView>)
    ensures
        change.commands() is Some <==> (change.ip is Some && change.mask is Some && change.gateway
            is Some) || (change.ip is None && change.mask is None && change.gateway is None),
        change.commands() is None ==> next_step(change, outcomes) == StepView::Failed(
            "Provide all of ip, mask, and gateway, or provide none for DHCP."@,
        ),
{
}

} // verus!
