use vstd::prelude::*;

use crate::network::provider;
use crate::network::provider::Provider;
use crate::network::status;
use crate::text::chars;
use crate::text::join;
use crate::text::list;

verus! {

/// A link of the compose directory and the file that it is to point at.
pub struct ComposeLink {
    pub destination: String,
    pub source: String,
}

/// The links that select a provider, as pairs of link and target.
pub open spec fn links_of(provider: Provider) -> Seq<(Seq<char>, Seq<char>)> {
    seq![
        ("docker-compose.yml"@, "docker-compose.yml"@ + "."@ + provider.suffix()),
        (
            "docker-compose.override.yml"@,
            "docker-compose.override.yml"@ + "."@ + provider.suffix(),
        ),
    ]
}

/// The links to set in order to select a provider.
pub fn provider_links(provider: Provider) -> (r: Vec<ComposeLink>)
    ensures
        r@.map_values(|l: ComposeLink| (l.destination@, l.source@)) == links_of(provider),
{
    let mut r: Vec<ComposeLink> = Vec::new();
    r.push(
        ComposeLink {
            destination: "docker-compose.yml".to_owned(),
            source: join::plus3("docker-compose.yml", ".", provider.compose_suffix()),
        },
    );
    r.push(
        ComposeLink {
            destination: "docker-compose.override.yml".to_owned(),
            source: join::plus3("docker-compose.override.yml", ".", provider.compose_suffix()),
        },
    );
    assert(r@.map_values(|l: ComposeLink| (l.destination@, l.source@)) =~= links_of(provider));
    r
}

/// What became of the old link when it was taken away.
pub enum Removal {
    Removed,
    NotFound,
    Failed(String),
}

/// A provider can be selected only where its compose files exist.
pub fn check_source(link: &ComposeLink, source_is_file: bool) -> (r: Result<(), String>)
    ensures
        match r {
            Ok(_) => source_is_file,
            Err(e) => !source_is_file && e@ == "Compose source file is missing: "@ + link.source@,
        },
{
    if source_is_file {
        Ok(())
    } else {
        Err(join::plus("Compose source file is missing: ", link.source.as_str()))
    }
}

/// An old link that was not there need not be removed; any other failure ends
/// the switch.
pub fn check_removal(link: &ComposeLink, removal: &Removal) -> (r: Result<(), String>)
    ensures
        match r {
            Ok(_) => !(removal is Failed),
            Err(e) => removal matches Removal::Failed(error) && e@ == "Could not replace "@
                + link.destination@ + ": "@ + error@,
        },
{
    match removal {
        Removal::Removed => Ok(()),
        Removal::NotFound => Ok(()),
        Removal::Failed(error) => {
            let mut e = "Could not replace ".to_owned();
            e.append(link.destination.as_str());
            e.append(": ");
            e.append(error.as_str());
            Err(e)
        },
    }
}

/// Whether the new link could be set.
pub fn check_link(link: &ComposeLink, linked: &Result<(), String>) -> (r: Result<(), String>)
    ensures
        match r {
            Ok(_) => linked is Ok,
            Err(e) => linked matches Err(error) && e@ == "Could not link "@ + link.destination@
                + " to "@ + link.source@ + ": "@ + error@,
        },
{
    match linked {
        Ok(_) => Ok(()),
        Err(error) => {
            let mut e = "Could not link ".to_owned();
            e.append(link.destination.as_str());
            e.append(" to ");
            e.append(link.source.as_str());
            e.append(": ");
            e.append(error.as_str());
            Err(e)
        },
    }
}

/// A compose command.
#[derive(Clone, Copy, Debug, PartialEq, Eq, Structural)]
pub enum ComposeVerb {
    Down,
    Up,
}

impl ComposeVerb {
    pub open spec fn word(self) -> Seq<char> {
        match self {
            ComposeVerb::Down => "down"@,
            ComposeVerb::Up => "up"@,
        }
    }

    fn name(self) -> (r: &'static str)
        ensures
            r@ == self.word(),
    {
        match self {
            ComposeVerb::Down => "down",
            ComposeVerb::Up => "up",
        }
    }
}

/// How a compose command ended: it did not start, or its exit status.
pub enum ComposeExit {
    NotStarted(String),
    Exited { success: bool, status: String },
}

/// Whether a compose command did its work.
pub fn compose_result(verb: ComposeVerb, exit: &ComposeExit) -> (r: Result<(), String>)
    ensures
        match exit {
            ComposeExit::NotStarted(error) => r matches Err(e) && e@
                == "Could not start docker compose "@ + verb.word() + ": "@ + error@,
            ComposeExit::Exited { success, status } => if *success {
                r is Ok
            } else {
                r matches Err(e) && e@ == "docker compose "@ + verb.word()
                    + " exited with status "@ + status@
            },
        },
        r is Ok <==> (exit matches ComposeExit::Exited { success, .. } && *success),
{
    match exit {
        ComposeExit::NotStarted(error) => {
            let mut e = "Could not start docker compose ".to_owned();
            e.append(verb.name());
            e.append(": ");
            e.append(error.as_str());
            Err(e)
        },
        ComposeExit::Exited { success, status } => {
            if *success {
                return Ok(());
            }
            let mut e = "docker compose ".to_owned();
            e.append(verb.name());
            e.append(" exited with status ");
            e.append(status.as_str());
            Err(e)
        },
    }
}

/// The arguments that stop the stack.
pub open spec fn down_words() -> Seq<Seq<char>> {
    seq!["compose"@, "down"@, "--remove-orphans"@]
}

/// The arguments that start the stack: with an overlay, all three compose
/// files are named.
pub open spec fn up_words(overlay: Option<Seq<char>>) -> Seq<Seq<char>> {
    let files = match overlay {
        Some(path) => seq![
            "-f"@,
            "docker-compose.yml"@,
            "-f"@,
            "docker-compose.override.yml"@,
            "-f"@,
            path,
        ],
        None => Seq::empty(),
    };
    seq!["compose"@] + files + seq!["up"@, "-d"@, "--force-recreate"@]
}

pub fn compose_down_arguments() -> (r: Vec<String>)
    ensures
        list::texts(r@) == down_words(),
{
    let mut r: Vec<String> = Vec::new();
    r.push("compose".to_owned());
    r.push("down".to_owned());
    r.push("--remove-orphans".to_owned());
    assert(list::texts(r@) =~= down_words());
    r
}

pub fn compose_up_arguments(overlay: Option<&str>) -> (r: Vec<String>)
    ensures
        list::texts(r@) == up_words(
            match overlay {
                Some(path) => Some(path@),
                None => None,
            },
        ),
{
    let mut r: Vec<String> = Vec::new();
    r.push("compose".to_owned());
    match overlay {
        Some(path) => {
            r.push("-f".to_owned());
            r.push("docker-compose.yml".to_owned());
            r.push("-f".to_owned());
            r.push("docker-compose.override.yml".to_owned());
            r.push("-f".to_owned());
            r.push(path.to_owned());
        },
        None => {},
    }
    r.push("up".to_owned());
    r.push("-d".to_owned());
    r.push("--force-recreate".to_owned());
    assert(list::texts(r@) =~= up_words(
        match overlay {
            Some(path) => Some(path@),
            None => None,
        },
    ));
    r
}

/// Where the recreation of the stack stands.
pub enum StackPhase {
    /// The running stack is being stopped.
    Stopping,
    /// The links are being set to the new provider.
    Linking,
    /// The new stack is being started.
    Starting,
    /// Nothing is left to do but, where asked for, to put the old links back.
    Finished { restore_links: bool, result: Result<(), String> },
}

/// How the recreation of the stack goes on after a step.
pub open spec fn stack_follows(
    provider: Provider,
    previous: Option<Provider>,
    phase: StackPhase,
    outcome: Result<(), String>,
    next: StackPhase,
) -> bool {
    match phase {
        StackPhase::Stopping => next == match outcome {
            Ok(_) => StackPhase::Linking,
            Err(_) => StackPhase::Finished { restore_links: false, result: outcome },
        },
        StackPhase::Linking => next == match outcome {
            Ok(_) => StackPhase::Starting,
            Err(_) => StackPhase::Finished { restore_links: true, result: outcome },
        },
        StackPhase::Starting => next == match outcome {
            Ok(_) => StackPhase::Finished { restore_links: false, result: outcome },
            Err(_) => StackPhase::Finished {
                restore_links: previous != Some(provider),
                result: outcome,
            },
        },
        StackPhase::Finished { .. } => next == phase,
    }
}

/// Decides how the recreation of the stack goes on after a step.
pub fn recreate_stack(
    provider: Provider,
    previous: Option<Provider>,
    phase: StackPhase,
    outcome: Result<(), String>,
) -> (next: StackPhase)
    ensures
        stack_follows(provider, previous, phase, outcome, next),
{
    match phase {
        StackPhase::Stopping => if outcome.is_ok() {
            StackPhase::Linking
        } else {
            StackPhase::Finished { restore_links: false, result: outcome }
        },
        StackPhase::Linking => if outcome.is_ok() {
            StackPhase::Starting
        } else {
            StackPhase::Finished { restore_links: true, result: outcome }
        },
        StackPhase::Starting => {
            let same = match previous {
                Some(p) => p == provider,
                None => false,
            };
            let restore_links = outcome.is_err() && !same;
            StackPhase::Finished { restore_links, result: outcome }
        },
        StackPhase::Finished { restore_links, result } => {
            StackPhase::Finished { restore_links, result }
        },
    }
}

/// One step in a record of phases and outcomes.
pub open spec fn stack_step(
    provider: Provider,
    previous: Option<Provider>,
    phases: Seq<StackPhase>,
    outcomes: Seq<Result<(), String>>,
    i: int,
) -> bool {
    !(phases[i] is Finished) && stack_follows(
        provider,
        previous,
        phases[i],
        outcomes[i],
        phases[i + 1],
    )
}

/// A switch to another provider that fails once the links may have changed
/// puts the old links back, so that the next request does not take the switch
/// for done.
pub proof fn law_failed_switch_restores_links(
    provider: Provider,
    previous: Option<Provider>,
    phase: StackPhase,
    outcome: Result<(), String>,
    next: StackPhase,
)
    requires
        previous != Some(provider),
        phase is Linking || phase is Starting,
        outcome is Err,
        stack_follows(provider, previous, phase, outcome, next),
    ensures
        next == (StackPhase::Finished { restore_links: true, result: outcome }),
{
}

/// The stack counts as recreated only once it was stopped, linked and
/// started, each with success.
pub proof fn law_recreated_stack_took_every_step(
    provider: Provider,
    previous: Option<Provider>,
    phases: Seq<StackPhase>,
    outcomes: Seq<Result<(), String>>,
)
    requires
        phases.len() == outcomes.len() + 1,
        phases[0] is Stopping,
        forall|i: int|
            0 <= i < outcomes.len() ==> #[trigger] stack_step(
                provider,
                previous,
                phases,
                outcomes,
                i,
            ),
        phases.last() matches StackPhase::Finished { result, .. } && result is Ok,
    ensures
        outcomes.len() == 3,
        outcomes[0] is Ok,
        outcomes[1] is Ok,
        outcomes[2] is Ok,
        phases.last() == (StackPhase::Finished { restore_links: false, result: outcomes[2] }),
{
    assert(outcomes.len() > 0);
    assert(stack_step(provider, previous, phases, outcomes, 0));
    if outcomes.len() > 1 {
        assert(stack_step(provider, previous, phases, outcomes, 1));
        if outcomes.len() > 2 {
            assert(stack_step(provider, previous, phases, outcomes, 2));
            if outcomes.len() > 3 {
                assert(stack_step(provider, previous, phases, outcomes, 3));
            }
        }
    }
}

/// A provider's own links name it: once they are set, the provider counts as
/// the one in use, unless the directory's path already names one.
pub proof fn law_links_select_provider(directory: Seq<char>, provider: Provider)
    requires
        forall|p: Provider|
            !chars::mentions(directory + "/docker-compose.yml."@, #[trigger] p.suffix()),
    ensures
        provider::linked_provider(directory + "/"@ + links_of(provider)[0].1) == Some(provider),
{
    let base = directory + "/docker-compose.yml."@;
    let target = directory + "/"@ + links_of(provider)[0].1;
    reveal_strlit("/");
    reveal_strlit(".");
    reveal_strlit("docker-compose.yml");
    reveal_strlit("/docker-compose.yml.");
    reveal_strlit("direct");
    reveal_strlit("nordvpn");
    reveal_strlit("protonvpn");
    assert(target =~= base + provider.suffix());
    assert(target.subrange(base.len() as int, target.len() as int) =~= provider.suffix());
    assert(chars::occurs_at(target, provider.suffix(), base.len() as int));
    assert forall|p: Provider|
        p.suffix().len() > provider.suffix().len() implies !chars::mentions(
        target,
        #[trigger] p.suffix(),
    ) by {
        if chars::mentions(target, p.suffix()) {
            let at = choose|at: int| chars::occurs_at(target, p.suffix(), at);
            let w = p.suffix();
            if at + w.len() <= base.len() {
                assert(base.subrange(at, at + w.len()) =~= target.subrange(at, at + w.len()));
                assert(chars::occurs_at(base, w, at));
            } else {
                let dot = base.len() - 1;
                assert(target[dot] == '.');
                assert(w[dot - at] == target[dot]);
                assert(forall|i: int| 0 <= i < w.len() ==> w[i] != '.');
            }
        }
    }
    assert(Provider::ProtonVpn.suffix().len() == 9);
    assert(Provider::NordVpn.suffix().len() == 7);
    assert(Provider::Direct.suffix().len() == 6);
}

/// How often the addresses are compared before a new tunnel counts as failed.
pub const VERIFICATION_ATTEMPTS: u8 = 20;

/// Seconds to wait before the first comparison.
pub const STARTUP_DELAY_SECONDS: u64 = 15;

/// Seconds to wait between two comparisons.
pub const VERIFICATION_DELAY_SECONDS: u64 = 5;

/// What follows from one comparison of the addresses.
pub enum Verification {
    Passed,
    /// Wait, then compare again under this number.
    Again(u8),
    Failed(String),
}

pub open spec fn verification_follows(
    attempt: u8,
    host_ip: Seq<char>,
    vpn_ip: Seq<char>,
    next: Verification,
) -> bool {
    if !status::leaks(host_ip, vpn_ip) {
        next is Passed
    } else if attempt < VERIFICATION_ATTEMPTS {
        next == Verification::Again((attempt + 1) as u8)
    } else {
        next matches Verification::Failed(e) && e@
            == "host/VPN egress could not be verified as distinct"@
    }
}

/// Decides what follows from one comparison of the addresses; attempts are
/// counted from one.
pub fn wait_for_safe_vpn(attempt: u8, host_ip: &str, vpn_ip: &str) -> (next: Verification)
    ensures
        verification_follows(attempt, host_ip@, vpn_ip@, next),
{
    if !status::is_leak(host_ip, vpn_ip) {
        Verification::Passed
    } else if attempt < VERIFICATION_ATTEMPTS {
        Verification::Again(attempt + 1)
    } else {
        Verification::Failed("host/VPN egress could not be verified as distinct".to_owned())
    }
}

/// A tunnel passes only with two known addresses that differ, and verification
/// ends after the set number of attempts at the latest.
pub proof fn law_verification_is_strict_and_ends(
    attempt: u8,
    host_ip: Seq<char>,
    vpn_ip: Seq<char>,
    next: Verification,
)
    requires
        verification_follows(attempt, host_ip, vpn_ip, next),
    ensures
        next is Passed <==> host_ip != "Unknown"@ && vpn_ip != "Unknown"@ && host_ip != vpn_ip,
        next matches Verification::Again(n) ==> attempt < n <= VERIFICATION_ATTEMPTS,
{
}

/// A stack that stops, links and starts is recreated, and its links stay.
pub proof fn law_stack_is_recreated(
    provider: Provider,
    previous: Option<Provider>,
    done: Result<(), String>,
    a: StackPhase,
    b: StackPhase,
    c: StackPhase,
)
    requires
        done is Ok,
        stack_follows(provider, previous, StackPhase::Stopping, done, a),
        stack_follows(provider, previous, a, done, b),
        stack_follows(provider, previous, b, done, c),
    ensures
        a is Linking,
        b is Starting,
        c == (StackPhase::Finished { restore_links: false, result: done }),
{
}

/// A stack that cannot be stopped is left as it is; one whose start fails for
/// the provider that was in use before keeps its links.
pub proof fn law_untouched_links_are_not_restored(
    provider: Provider,
    previous: Option<Provider>,
    failed: Result<(), String>,
    a: StackPhase,
    b: StackPhase,
)
    requires
        failed is Err,
        stack_follows(provider, previous, StackPhase::Stopping, failed, a),
        stack_follows(provider, Some(provider), StackPhase::Starting, failed, b),
    ensures
        a == (StackPhase::Finished { restore_links: false, result: failed }),
        b == (StackPhase::Finished { restore_links: false, result: failed }),
{
}

/// Links that could not be set are put back whatever was in use before.
pub proof fn law_failed_links_are_restored(
    provider: Provider,
    previous: Option<Provider>,
    failed: Result<(), String>,
    next: StackPhase,
)
    requires
        failed is Err,
        stack_follows(provider, previous, StackPhase::Linking, failed, next),
    ensures
        next == (StackPhase::Finished { restore_links: true, result: failed }),
{
}

/// The overlay is named last, behind the two compose files, so that it takes
/// precedence; without one the files that are there by default are used.
pub proof fn law_overlay_takes_precedence(path: Seq<char>)
    ensures
        up_words(Some(path)) == seq![
            "compose"@,
            "-f"@,
            "docker-compose.yml"@,
            "-f"@,
            "docker-compose.override.yml"@,
            "-f"@,
            path,
            "up"@,
            "-d"@,
            "--force-recreate"@,
        ],
        up_words(None) == seq!["compose"@, "up"@, "-d"@, "--force-recreate"@],
        down_words() == seq!["compose"@, "down"@, "--remove-orphans"@],
{
}

/// Both compose files of a provider are linked, each under its common name.
pub proof fn law_links_bear_providers_name(provider: Provider)
    ensures
        links_of(provider).len() == 2,
        links_of(provider)[0].0 == "docker-compose.yml"@,
        links_of(provider)[1].0 == "docker-compose.override.yml"@,
        forall|i: int|
            0 <= i < 2 ==> (#[trigger] links_of(provider)[i]).1 == links_of(provider)[i].0 + seq![
                '.',
            ] + provider.suffix(),
{
    reveal_strlit(".");
    assert("."@ =~= seq!['.']);
}

/// Twenty comparisons are made before a tunnel counts as failed: each earlier
/// one that finds a leak is followed by the next.
pub proof fn law_twenty_comparisons_are_made(
    attempt: u8,
    host_ip: Seq<char>,
    vpn_ip: Seq<char>,
    next: Verification,
)
    requires
        verification_follows(attempt, host_ip, vpn_ip, next),
        status::leaks(host_ip, vpn_ip),
    ensures
        attempt < 20 ==> (next matches Verification::Again(n) && n == attempt + 1),
        attempt >= 20 ==> next is Failed,
{
}

} // verus!
