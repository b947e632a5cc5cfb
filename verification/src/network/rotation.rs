use vstd::prelude::*;

use crate::network::profile;
use crate::network::profile::ValidatedProfile;
use crate::network::provider::Provider;
use crate::network::selection;
use crate::network::selection::ProfileSelection;
use crate::network::state::RotationState;
use crate::network::status;
use crate::text::join;

verus! {

/// The answer to a rotation request.
pub struct RotationResponse {
    pub success: bool,
    pub message: String,
}

impl RotationResponse {
    pub open spec fn says(self, success: bool, message: Seq<char>) -> bool {
        self.success == success && self.message@ == message
    }
}

/// The answer to a request for a provider that does not exist.
pub fn unsupported_provider_response(provider: &str) -> (r: RotationResponse)
    ensures
        r.says(false, "Unsupported provider: "@ + provider@),
{
    RotationResponse { success: false, message: join::plus("Unsupported provider: ", provider) }
}

/// The provider that a request switches to, or the refusal.
pub fn rotate_provider(request: &str) -> (r: Result<Provider, RotationResponse>)
    ensures
        match Provider::requested(request@) {
            Some(provider) => r == Ok::<Provider, RotationResponse>(provider),
            None => r matches Err(answer) && answer.says(
                false,
                "Unsupported provider: "@ + request@,
            ),
        },
{
    match Provider::from_request(request) {
        Some(provider) => Ok(provider),
        None => Err(unsupported_provider_response(request)),
    }
}

/// The provider whose profile a request rotates, or the refusal.
pub fn rotate_profile(request: &str) -> (r: Result<Provider, RotationResponse>)
    ensures
        match Provider::requested(request@) {
            Some(Provider::Direct) => r matches Err(answer) && answer.says(
                false,
                "Direct mode has no VPN profiles to rotate."@,
            ),
            Some(provider) => r == Ok::<Provider, RotationResponse>(provider),
            None => r matches Err(answer) && answer.says(
                false,
                "Unsupported provider: "@ + request@,
            ),
        },
        r matches Ok(provider) ==> provider != Provider::Direct && Provider::requested(request@)
            == Some(provider),
        r matches Err(answer) ==> !answer.success,
{
    match Provider::from_request(request) {
        Some(Provider::Direct) => Err(
            RotationResponse {
                success: false,
                message: "Direct mode has no VPN profiles to rotate.".to_owned(),
            },
        ),
        Some(provider) => Ok(provider),
        None => Err(unsupported_provider_response(request)),
    }
}

/// What a switch makes live.
pub enum Choice {
    /// The configuration in the provider's own compose files.
    Static,
    /// The profile that an earlier rotation selected.
    Saved(ValidatedProfile),
    /// The next profile of the cycle.
    Next(ProfileSelection),
}

/// Where a switch stands, that is what has to be done next.
pub enum Rotation {
    /// Select the next profile.
    Choosing,
    /// Look up the profile that was selected last.
    Loading,
    /// Write the compose overlay for the profile.
    Preparing(Choice),
    /// Recreate the stack with this overlay.
    Recreating { choice: Choice, overlay: Option<String> },
    /// Compare the addresses.
    Verifying(Choice),
    /// Save the rotation state.
    Saving(ProfileSelection),
    /// Answer.
    Done(RotationResponse),
}

/// How a step of a switch came out.
pub enum RotationEvent {
    Chosen(Result<ProfileSelection, String>),
    Loaded(Result<Option<ValidatedProfile>, String>),
    Written(Result<String, String>),
    Recreated(Result<(), String>),
    Verified(Result<(), String>),
    Saved(Result<(), String>),
}

/// Whether a switch is over with the given answer.
pub open spec fn answered(next: Rotation, success: bool, message: Seq<char>) -> bool {
    next matches Rotation::Done(r) && r.says(success, message)
}

/// How a switch begins. A plain request for the provider in use changes
/// nothing; one for another provider keeps its selected profile.
pub open spec fn rotation_begins(
    provider: Provider,
    force_profile_rotation: bool,
    active_provider: Option<Provider>,
    next: Rotation,
) -> bool {
    if !force_profile_rotation && active_provider == Some(provider) {
        answered(next, true, "Already connected via "@ + provider.title())
    } else if provider == Provider::Direct {
        next == (Rotation::Recreating { choice: Choice::Static, overlay: None })
    } else if force_profile_rotation {
        next is Choosing
    } else {
        next is Loading
    }
}

/// Begins a switch.
pub fn rotate_to_provider(
    provider: Provider,
    force_profile_rotation: bool,
    active_provider: Option<Provider>,
) -> (next: Rotation)
    ensures
        rotation_begins(provider, force_profile_rotation, active_provider, next),
{
    let already = match active_provider {
        Some(p) => p == provider,
        None => false,
    };
    if !force_profile_rotation && already {
        Rotation::Done(
            RotationResponse {
                success: true,
                message: join::plus("Already connected via ", provider.display_name()),
            },
        )
    } else if provider == Provider::Direct {
        Rotation::Recreating { choice: Choice::Static, overlay: None }
    } else if force_profile_rotation {
        Rotation::Choosing
    } else {
        Rotation::Loading
    }
}

/// The answer once a switch is done and, for a tunnel, verified.
pub open spec fn switched_message(provider: Provider, choice: Choice) -> Seq<char> {
    match choice {
        Choice::Static => "Switched to "@ + provider.title()
            + " using its static Compose configuration and verified leak protection."@,
        Choice::Saved(p) => "Switched to "@ + provider.title() + " using the existing profile "@
            + p@.basename + " and verified leak protection."@,
        Choice::Next(s) => "Switched to "@ + provider.title() + " using profile "@
            + s.profile@.basename + " and verified leak protection."@,
    }
}

/// How a switch goes on after a step. An event that does not answer the step
/// changes nothing.
pub open spec fn rotation_follows(
    provider: Provider,
    phase: Rotation,
    event: RotationEvent,
    next: Rotation,
) -> bool {
    match (phase, event) {
        (Rotation::Choosing, RotationEvent::Chosen(r)) => match r {
            Ok(s) => next == Rotation::Preparing(Choice::Next(s)),
            Err(e) => answered(
                next,
                false,
                "Could not select a "@ + provider.title() + " profile: "@ + e@,
            ),
        },
        (Rotation::Loading, RotationEvent::Loaded(r)) => match r {
            Ok(Some(p)) => next == Rotation::Preparing(Choice::Saved(p)),
            _ => next == (Rotation::Recreating { choice: Choice::Static, overlay: None }),
        },
        (Rotation::Preparing(choice), RotationEvent::Written(r)) => match r {
            Ok(path) => next == (Rotation::Recreating { choice, overlay: Some(path) }),
            Err(e) => answered(
                next,
                false,
                if choice is Next {
                    "Could not prepare profile selection: "@ + e@
                } else {
                    "Could not prepare saved profile selection: "@ + e@
                },
            ),
        },
        (Rotation::Recreating { choice, .. }, RotationEvent::Recreated(r)) => match r {
            Ok(_) => if provider == Provider::Direct {
                answered(next, true, "Switched to Direct"@)
            } else {
                next == Rotation::Verifying(choice)
            },
            Err(e) => answered(next, false, "Network rotation failed: "@ + e@),
        },
        (Rotation::Verifying(choice), RotationEvent::Verified(r)) => match r {
            Ok(_) => match choice {
                Choice::Next(s) => next == Rotation::Saving(s),
                _ => answered(next, true, switched_message(provider, choice)),
            },
            Err(e) => answered(
                next,
                false,
                "Network rotation failed safety verification: "@ + e@,
            ),
        },
        (Rotation::Saving(s), RotationEvent::Saved(r)) => match r {
            Ok(_) => answered(next, true, switched_message(provider, Choice::Next(s))),
            Err(_) => answered(
                next,
                true,
                "Switched to "@ + provider.title() + " using profile "@ + s.profile@.basename
                    + ", but could not persist rotation history."@,
            ),
        },
        _ => next == phase,
    }
}

fn refused(reason: &str, error: &String) -> (next: Rotation)
    ensures
        answered(next, false, reason@ + error@),
{
    Rotation::Done(
        RotationResponse { success: false, message: join::plus(reason, error.as_str()) },
    )
}

/// Goes on with a switch to a provider whose saved profile has been looked up:
/// a profile that cannot be reused gives way to the static configuration.
pub fn activate_existing_provider_selection(
    loaded: Result<Option<ValidatedProfile>, String>,
) -> (next: Rotation)
    ensures
        next == match loaded {
            Ok(Some(p)) => Rotation::Preparing(Choice::Saved(p)),
            _ => Rotation::Recreating { choice: Choice::Static, overlay: None },
        },
{
    match loaded {
        Ok(Some(p)) => Rotation::Preparing(Choice::Saved(p)),
        _ => Rotation::Recreating { choice: Choice::Static, overlay: None },
    }
}

/// The answer once the stack was recreated for the direct connection.
pub fn recreate_direct_stack(recreated: &Result<(), String>) -> (r: RotationResponse)
    ensures
        match recreated {
            Ok(_) => r.says(true, "Switched to Direct"@),
            Err(e) => r.says(false, "Network rotation failed: "@ + e@),
        },
{
    match recreated {
        Ok(_) => RotationResponse { success: true, message: "Switched to Direct".to_owned() },
        Err(e) => RotationResponse {
            success: false,
            message: join::plus("Network rotation failed: ", e.as_str()),
        },
    }
}

fn switched(provider: Provider, choice: &Choice) -> (next: Rotation)
    ensures
        answered(next, true, switched_message(provider, *choice)),
{
    let mut message = join::plus("Switched to ", provider.display_name());
    match choice {
        Choice::Static => {
            message.append(
                " using its static Compose configuration and verified leak protection.",
            );
        },
        Choice::Saved(p) => {
            message.append(" using the existing profile ");
            message.append(p.basename.as_str());
            message.append(" and verified leak protection.");
        },
        Choice::Next(s) => {
            message.append(" using profile ");
            message.append(s.profile.basename.as_str());
            message.append(" and verified leak protection.");
        },
    }
    Rotation::Done(RotationResponse { success: true, message })
}

/// Goes on with a switch after a step.
pub fn continue_rotation(provider: Provider, phase: Rotation, event: RotationEvent) -> (next:
    Rotation)
    ensures
        rotation_follows(provider, phase, event, next),
{
    match (phase, event) {
        (Rotation::Choosing, RotationEvent::Chosen(r)) => match r {
            Ok(s) => Rotation::Preparing(Choice::Next(s)),
            Err(e) => {
                let reason = join::plus3(
                    "Could not select a ",
                    provider.display_name(),
                    " profile: ",
                );
                refused(reason.as_str(), &e)
            },
        },
        (Rotation::Loading, RotationEvent::Loaded(r)) => activate_existing_provider_selection(r),
        (Rotation::Preparing(choice), RotationEvent::Written(r)) => match r {
            Ok(path) => Rotation::Recreating { choice, overlay: Some(path) },
            Err(e) => match choice {
                Choice::Next(_) => refused("Could not prepare profile selection: ", &e),
                _ => refused("Could not prepare saved profile selection: ", &e),
            },
        },
        (Rotation::Recreating { choice, .. }, RotationEvent::Recreated(r)) => {
            if provider == Provider::Direct {
                return Rotation::Done(recreate_direct_stack(&r));
            }
            match r {
                Ok(_) => Rotation::Verifying(choice),
                Err(e) => refused("Network rotation failed: ", &e),
            }
        },
        (Rotation::Verifying(choice), RotationEvent::Verified(r)) => match r {
            Ok(_) => match choice {
                Choice::Next(s) => Rotation::Saving(s),
                other => switched(provider, &other),
            },
            Err(e) => refused("Network rotation failed safety verification: ", &e),
        },
        (Rotation::Saving(s), RotationEvent::Saved(r)) => match r {
            Ok(_) => switched(provider, &Choice::Next(s)),
            Err(_) => {
                let mut message = join::plus("Switched to ", provider.display_name());
                message.append(" using profile ");
                message.append(s.profile.basename.as_str());
                message.append(", but could not persist rotation history.");
                Rotation::Done(RotationResponse { success: true, message })
            },
        },
        (phase, _) => phase,
    }
}

/// One step in the record of a switch.
pub open spec fn rotation_step(
    provider: Provider,
    phases: Seq<Rotation>,
    events: Seq<RotationEvent>,
    i: int,
) -> bool {
    rotation_follows(provider, phases[i], events[i], phases[i + 1])
}

/// The record of a switch: the phases it went through and what came out of
/// each.
pub open spec fn rotation_record(
    provider: Provider,
    force_profile_rotation: bool,
    active_provider: Option<Provider>,
    phases: Seq<Rotation>,
    events: Seq<RotationEvent>,
) -> bool {
    &&& phases.len() == events.len() + 1
    &&& rotation_begins(provider, force_profile_rotation, active_provider, phases[0])
    &&& forall|i: int|
        0 <= i < events.len() ==> #[trigger] rotation_step(provider, phases, events, i)
}

/// Whether the addresses were compared and found distinct at this step.
pub open spec fn passed_at(phases: Seq<Rotation>, events: Seq<RotationEvent>, i: int) -> bool {
    phases[i] is Verifying && (events[i] matches RotationEvent::Verified(r) && r is Ok)
}

pub open spec fn passed_before(phases: Seq<Rotation>, events: Seq<RotationEvent>, n: int) -> bool {
    exists|i: int| 0 <= i < n && #[trigger] passed_at(phases, events, i)
}

/// A plain request for the provider in use is answered at once, with success.
pub proof fn law_provider_in_use_is_left_alone(provider: Provider, next: Rotation)
    requires
        rotation_begins(provider, false, Some(provider), next),
    ensures
        next matches Rotation::Done(r) && r.success,
{
}

/// A switch to a tunnel reports success, and reaches the saving of its state,
/// only after the addresses were found distinct; the one exception is the
/// request for the provider in use.
pub proof fn law_success_was_verified(
    provider: Provider,
    force_profile_rotation: bool,
    active_provider: Option<Provider>,
    phases: Seq<Rotation>,
    events: Seq<RotationEvent>,
    n: int,
)
    requires
        provider != Provider::Direct,
        force_profile_rotation || active_provider != Some(provider),
        rotation_record(provider, force_profile_rotation, active_provider, phases, events),
        0 <= n < phases.len(),
    ensures
        phases[n] is Saving ==> passed_before(phases, events, n),
        phases[n] matches Rotation::Done(r) && r.success ==> passed_before(phases, events, n),
    decreases n,
{
    if n > 0 {
        law_success_was_verified(
            provider,
            force_profile_rotation,
            active_provider,
            phases,
            events,
            n - 1,
        );
        assert(rotation_step(provider, phases, events, n - 1));
        if passed_before(phases, events, n - 1) {
            let i = choose|i: int| 0 <= i < n - 1 && #[trigger] passed_at(phases, events, i);
            assert(passed_at(phases, events, i));
        }
        if phases[n - 1] is Verifying && (events[n - 1] matches RotationEvent::Verified(r)
            && r is Ok) {
            assert(passed_at(phases, events, n - 1));
        }
    }
}

/// A plain request never takes a profile from the cycle and never saves the
/// rotation state.
pub proof fn law_plain_request_keeps_state(
    provider: Provider,
    active_provider: Option<Provider>,
    phases: Seq<Rotation>,
    events: Seq<RotationEvent>,
    n: int,
)
    requires
        rotation_record(provider, false, active_provider, phases, events),
        0 <= n < phases.len(),
    ensures
        !(phases[n] is Choosing),
        !(phases[n] is Saving),
        !(phases[n] matches Rotation::Preparing(c) && c is Next),
        !(phases[n] matches Rotation::Recreating { choice, .. } && choice is Next),
        !(phases[n] matches Rotation::Verifying(c) && c is Next),
    decreases n,
{
    if n > 0 {
        law_plain_request_keeps_state(provider, active_provider, phases, events, n - 1);
        assert(rotation_step(provider, phases, events, n - 1));
    }
}

/// Whether this step selected the profile and the state.
pub open spec fn chosen_at(
    phases: Seq<Rotation>,
    events: Seq<RotationEvent>,
    i: int,
    s: ProfileSelection,
) -> bool {
    phases[i] is Choosing && events[i] == RotationEvent::Chosen(Ok(s))
}

/// What is made live and saved is what was selected.
pub open spec fn chosen_before(
    phases: Seq<Rotation>,
    events: Seq<RotationEvent>,
    n: int,
    s: ProfileSelection,
) -> bool {
    exists|i: int| 0 <= i < n && #[trigger] chosen_at(phases, events, i, s)
}

/// The selection that a phase carries.
pub open spec fn carried(phase: Rotation) -> Option<ProfileSelection> {
    match phase {
        Rotation::Preparing(Choice::Next(s)) => Some(s),
        Rotation::Recreating { choice: Choice::Next(s), .. } => Some(s),
        Rotation::Verifying(Choice::Next(s)) => Some(s),
        Rotation::Saving(s) => Some(s),
        _ => None,
    }
}

/// The profile made live and the state saved are the ones that were selected.
pub proof fn law_selection_is_carried_through(
    provider: Provider,
    force_profile_rotation: bool,
    active_provider: Option<Provider>,
    phases: Seq<Rotation>,
    events: Seq<RotationEvent>,
    n: int,
)
    requires
        rotation_record(provider, force_profile_rotation, active_provider, phases, events),
        0 <= n < phases.len(),
    ensures
        carried(phases[n]) matches Some(s) ==> chosen_before(phases, events, n, s),
    decreases n,
{
    if n > 0 {
        law_selection_is_carried_through(
            provider,
            force_profile_rotation,
            active_provider,
            phases,
            events,
            n - 1,
        );
        assert(rotation_step(provider, phases, events, n - 1));
        match carried(phases[n]) {
            Some(s) => {
                if chosen_before(phases, events, n - 1, s) {
                    let i = choose|i: int|
                        0 <= i < n - 1 && #[trigger] chosen_at(phases, events, i, s);
                    assert(chosen_at(phases, events, i, s));
                } else {
                    assert(chosen_at(phases, events, n - 1, s));
                }
            },
            None => {},
        }
    }
}

/// A rotation that is live and verified is a success even where its state
/// could not be saved.
pub proof fn law_unsaved_state_is_no_failure(
    provider: Provider,
    s: ProfileSelection,
    r: Result<(), String>,
    next: Rotation,
)
    requires
        rotation_follows(provider, Rotation::Saving(s), RotationEvent::Saved(r), next),
    ensures
        next matches Rotation::Done(answer) && answer.success,
{
}

/// The profile that a rotation selected is the one that a later switch back to
/// the provider looks up, and as long as it exists it is found.
pub proof fn law_selection_is_reused(
    provider: Provider,
    profiles: Seq<ValidatedProfile>,
    state: RotationState,
    draws: Seq<usize>,
    selected: ProfileSelection,
    later: Seq<ValidatedProfile>,
)
    requires
        provider != Provider::Direct,
        selection::selects_from(provider, profiles, state, draws, Ok(selected)),
        profile::is_basename(selected.profile@.basename),
        profile::named(later, selected.profile@.basename) == Some(selected.profile@),
    ensures
        status::remembered(selected.proposed_state, provider) matches Some(name)
            && profile::named(later, name) == Some(selected.profile@),
{
    let found = profile::names(profiles);
    let pool = state.pool(provider).unwrap();
    profile::lemma_named(profiles, selection::next_name(pool, found, draws));
}

/// A rotation that is asked for takes the next profile, whichever provider is
/// in use, the same one included.
pub proof fn law_forced_rotation_takes_next_profile(
    provider: Provider,
    active_provider: Option<Provider>,
    next: Rotation,
)
    requires
        provider != Provider::Direct,
        rotation_begins(provider, true, active_provider, next),
    ensures
        next is Choosing,
{
}

/// A plain request for another tunnel looks up its profile, and one for the
/// direct connection needs none; only the provider in use is left alone.
pub proof fn law_plain_request_begins(
    provider: Provider,
    active_provider: Option<Provider>,
    next: Rotation,
)
    requires
        rotation_begins(provider, false, active_provider, next),
    ensures
        next is Done <==> active_provider == Some(provider),
        next is Loading <==> active_provider != Some(provider) && provider != Provider::Direct,
        next is Recreating <==> active_provider != Some(provider) && provider
            == Provider::Direct,
        next matches Rotation::Recreating { choice, overlay } ==> choice is Static && overlay
            is None,
        next matches Rotation::Done(r) ==> r.success && r.message@ == "Already connected via "@
            + provider.title(),
{
}

/// Whether this step recreated the stack with the selected profile's overlay.
pub open spec fn live_at(
    phases: Seq<Rotation>,
    events: Seq<RotationEvent>,
    i: int,
    s: ProfileSelection,
) -> bool {
    &&& phases[i] matches Rotation::Recreating { choice: Choice::Next(t), overlay: Some(_) } && t
        == s
    &&& events[i] matches RotationEvent::Recreated(r) && r is Ok
}

pub open spec fn live_before(
    phases: Seq<Rotation>,
    events: Seq<RotationEvent>,
    n: int,
    s: ProfileSelection,
) -> bool {
    exists|i: int| 0 <= i < n && #[trigger] live_at(phases, events, i, s)
}

proof fn lemma_chosen_longer(
    phases: Seq<Rotation>,
    events: Seq<RotationEvent>,
    m: int,
    n: int,
    s: ProfileSelection,
)
    requires
        m <= n,
    ensures
        chosen_before(phases, events, m, s) ==> chosen_before(phases, events, n, s),
        live_before(phases, events, m, s) ==> live_before(phases, events, n, s),
{
    if chosen_before(phases, events, m, s) {
        let i = choose|i: int| 0 <= i < m && #[trigger] chosen_at(phases, events, i, s);
        assert(chosen_at(phases, events, i, s));
    }
    if live_before(phases, events, m, s) {
        let i = choose|i: int| 0 <= i < m && #[trigger] live_at(phases, events, i, s);
        assert(live_at(phases, events, i, s));
    }
}

/// How far a rotation that was asked for has come.
spec fn forced_state(phases: Seq<Rotation>, events: Seq<RotationEvent>, n: int) -> bool {
    match phases[n] {
        Rotation::Choosing => true,
        Rotation::Loading => false,
        Rotation::Preparing(c) => c matches Choice::Next(s) && chosen_before(
            phases,
            events,
            n,
            s,
        ),
        Rotation::Recreating { choice, overlay } => overlay is Some && (choice matches Choice::Next(
            s,
        ) && chosen_before(phases, events, n, s)),
        Rotation::Verifying(c) => c matches Choice::Next(s) && chosen_before(phases, events, n, s)
            && live_before(phases, events, n, s),
        Rotation::Saving(s) => chosen_before(phases, events, n, s) && live_before(
            phases,
            events,
            n,
            s,
        ),
        Rotation::Done(r) => r.success ==> exists|s: ProfileSelection|
            chosen_before(phases, events, n, s) && live_before(phases, events, n, s),
    }
}

proof fn lemma_forced(
    provider: Provider,
    active_provider: Option<Provider>,
    phases: Seq<Rotation>,
    events: Seq<RotationEvent>,
    n: int,
)
    requires
        provider != Provider::Direct,
        rotation_record(provider, true, active_provider, phases, events),
        0 <= n < phases.len(),
    ensures
        forced_state(phases, events, n),
    decreases n,
{
    if n > 0 {
        lemma_forced(provider, active_provider, phases, events, n - 1);
        assert(rotation_step(provider, phases, events, n - 1));
        assert forall|s: ProfileSelection|
            chosen_before(phases, events, n - 1, s) implies #[trigger] chosen_before(
            phases,
            events,
            n,
            s,
        ) by {
            lemma_chosen_longer(phases, events, n - 1, n, s);
        }
        assert forall|s: ProfileSelection|
            live_before(phases, events, n - 1, s) implies #[trigger] live_before(
            phases,
            events,
            n,
            s,
        ) by {
            lemma_chosen_longer(phases, events, n - 1, n, s);
        }
        match (phases[n - 1], events[n - 1]) {
            (Rotation::Choosing, RotationEvent::Chosen(Ok(s))) => {
                assert(chosen_at(phases, events, n - 1, s));
            },
            (Rotation::Recreating { choice: Choice::Next(s), .. }, RotationEvent::Recreated(Ok(_)))
            => {
                assert(live_at(phases, events, n - 1, s));
                assert(live_before(phases, events, n, s));
            },
            (Rotation::Saving(s), _) => {
                lemma_chosen_longer(phases, events, n - 1, n, s);
            },
            (Rotation::Verifying(Choice::Next(s)), _) => {
                lemma_chosen_longer(phases, events, n - 1, n, s);
            },
            (Rotation::Preparing(Choice::Next(s)), _) => {
                lemma_chosen_longer(phases, events, n - 1, n, s);
            },
            (Rotation::Recreating { choice: Choice::Next(s), .. }, _) => {
                lemma_chosen_longer(phases, events, n - 1, n, s);
            },
            (Rotation::Done(r), _) => {
                if r.success {
                    let m: int = n - 1;
                    let s = choose|s: ProfileSelection|
                        chosen_before(phases, events, m, s) && live_before(phases, events, m, s);
                    lemma_chosen_longer(phases, events, m, n, s);
                }
            },
            _ => {},
        }
    }
}

/// A rotation that was asked for ends in success only after a profile was
/// selected and the stack was recreated with that very profile.
pub proof fn law_forced_success_made_selection_live(
    provider: Provider,
    active_provider: Option<Provider>,
    phases: Seq<Rotation>,
    events: Seq<RotationEvent>,
    n: int,
)
    requires
        provider != Provider::Direct,
        rotation_record(provider, true, active_provider, phases, events),
        0 <= n < phases.len(),
        phases[n] matches Rotation::Done(r) && r.success,
    ensures
        exists|s: ProfileSelection|
            chosen_before(phases, events, n, s) && live_before(phases, events, n, s),
{
    lemma_forced(provider, active_provider, phases, events, n);
}

/// A rotation whose steps come out well goes through with the selected
/// profile and the overlay written for it, and says so; where the state could
/// not be saved it says that too.
pub proof fn law_rotation_goes_through(
    provider: Provider,
    active_provider: Option<Provider>,
    selected: ProfileSelection,
    path: String,
    saved: Result<(), String>,
    phases: Seq<Rotation>,
)
    requires
        provider != Provider::Direct,
        rotation_record(
            provider,
            true,
            active_provider,
            phases,
            seq![
                RotationEvent::Chosen(Ok(selected)),
                RotationEvent::Written(Ok(path)),
                RotationEvent::Recreated(Ok(())),
                RotationEvent::Verified(Ok(())),
                RotationEvent::Saved(saved),
            ],
        ),
    ensures
        phases[1] == Rotation::Preparing(Choice::Next(selected)),
        phases[2] == (Rotation::Recreating { choice: Choice::Next(selected), overlay: Some(path) }),
        phases[3] == Rotation::Verifying(Choice::Next(selected)),
        phases[4] == Rotation::Saving(selected),
        phases[5] matches Rotation::Done(r) && r.success && r.message@ == "Switched to "@
            + provider.title() + " using profile "@ + selected.profile@.basename + if saved is Ok {
            " and verified leak protection."@
        } else {
            ", but could not persist rotation history."@
        },
{
    let events = seq![
        RotationEvent::Chosen(Ok(selected)),
        RotationEvent::Written(Ok(path)),
        RotationEvent::Recreated(Ok(())),
        RotationEvent::Verified(Ok(())),
        RotationEvent::Saved(saved),
    ];
    assert(rotation_step(provider, phases, events, 0));
    assert(rotation_step(provider, phases, events, 1));
    assert(rotation_step(provider, phases, events, 2));
    assert(rotation_step(provider, phases, events, 3));
    assert(rotation_step(provider, phases, events, 4));
}

/// A switch back to a tunnel goes through with the profile selected for it
/// last and the overlay written for it.
pub proof fn law_switch_back_goes_through(
    provider: Provider,
    active_provider: Option<Provider>,
    profile: ValidatedProfile,
    path: String,
    phases: Seq<Rotation>,
)
    requires
        provider != Provider::Direct,
        active_provider != Some(provider),
        rotation_record(
            provider,
            false,
            active_provider,
            phases,
            seq![
                RotationEvent::Loaded(Ok(Some(profile))),
                RotationEvent::Written(Ok(path)),
                RotationEvent::Recreated(Ok(())),
                RotationEvent::Verified(Ok(())),
            ],
        ),
    ensures
        phases[1] == Rotation::Preparing(Choice::Saved(profile)),
        phases[2] == (Rotation::Recreating { choice: Choice::Saved(profile), overlay: Some(path) }),
        phases[3] == Rotation::Verifying(Choice::Saved(profile)),
        phases[4] matches Rotation::Done(r) && r.success && r.message@ == "Switched to "@
            + provider.title() + " using the existing profile "@ + profile@.basename
            + " and verified leak protection."@,
{
    let events = seq![
        RotationEvent::Loaded(Ok(Some(profile))),
        RotationEvent::Written(Ok(path)),
        RotationEvent::Recreated(Ok(())),
        RotationEvent::Verified(Ok(())),
    ];
    assert(rotation_step(provider, phases, events, 0));
    assert(rotation_step(provider, phases, events, 1));
    assert(rotation_step(provider, phases, events, 2));
    assert(rotation_step(provider, phases, events, 3));
}

/// A switch to a tunnel without a profile that can be reused goes through
/// with the provider's own configuration and no overlay, also where the look
/// up failed.
pub proof fn law_static_switch_goes_through(
    provider: Provider,
    active_provider: Option<Provider>,
    loaded: Result<Option<ValidatedProfile>, String>,
    phases: Seq<Rotation>,
)
    requires
        provider != Provider::Direct,
        active_provider != Some(provider),
        !(loaded matches Ok(found) && found is Some),
        rotation_record(
            provider,
            false,
            active_provider,
            phases,
            seq![
                RotationEvent::Loaded(loaded),
                RotationEvent::Recreated(Ok(())),
                RotationEvent::Verified(Ok(())),
            ],
        ),
    ensures
        phases[1] == (Rotation::Recreating { choice: Choice::Static, overlay: None }),
        phases[2] == Rotation::Verifying(Choice::Static),
        phases[3] matches Rotation::Done(r) && r.success && r.message@ == "Switched to "@
            + provider.title()
            + " using its static Compose configuration and verified leak protection."@,
{
    let events = seq![
        RotationEvent::Loaded(loaded),
        RotationEvent::Recreated(Ok(())),
        RotationEvent::Verified(Ok(())),
    ];
    assert(rotation_step(provider, phases, events, 0));
    assert(rotation_step(provider, phases, events, 1));
    assert(rotation_step(provider, phases, events, 2));
}

/// A switch to the direct connection is over once the stack is recreated.
pub proof fn law_direct_switch_goes_through(
    force_profile_rotation: bool,
    active_provider: Option<Provider>,
    recreated: Result<(), String>,
    phases: Seq<Rotation>,
)
    requires
        force_profile_rotation || active_provider != Some(Provider::Direct),
        rotation_record(
            Provider::Direct,
            force_profile_rotation,
            active_provider,
            phases,
            seq![RotationEvent::Recreated(recreated)],
        ),
    ensures
        phases[0] == (Rotation::Recreating { choice: Choice::Static, overlay: None }),
        phases[1] matches Rotation::Done(r) && r.success == (recreated is Ok) && r.message@
            == match recreated {
            Ok(_) => "Switched to Direct"@,
            Err(e) => "Network rotation failed: "@ + e@,
        },
{
    let events = seq![RotationEvent::Recreated(recreated)];
    assert(rotation_step(Provider::Direct, phases, events, 0));
}

/// The error that a step came out with, where it ends the switch. A saved
/// profile that could not be looked up and a state that could not be saved
/// end nothing.
pub open spec fn fatal(phase: Rotation, event: RotationEvent) -> Option<Seq<char>> {
    match (phase, event) {
        (Rotation::Choosing, RotationEvent::Chosen(Err(e))) => Some(e@),
        (Rotation::Preparing(_), RotationEvent::Written(Err(e))) => Some(e@),
        (Rotation::Recreating { .. }, RotationEvent::Recreated(Err(e))) => Some(e@),
        (Rotation::Verifying(_), RotationEvent::Verified(Err(e))) => Some(e@),
        _ => None,
    }
}

/// A step that fails ends the switch without success, and the answer ends with
/// the step's own words.
pub proof fn law_failed_step_ends_switch(
    provider: Provider,
    phase: Rotation,
    event: RotationEvent,
    next: Rotation,
)
    requires
        rotation_follows(provider, phase, event, next),
        fatal(phase, event) is Some,
    ensures
        next matches Rotation::Done(r) && !r.success && exists|reason: Seq<char>|
            r.message@ == #[trigger] (reason + fatal(phase, event).unwrap()),
        next matches Rotation::Done(r) && r.message@ == match phase {
            Rotation::Choosing => "Could not select a "@ + provider.title() + " profile: "@,
            Rotation::Preparing(Choice::Next(_)) => "Could not prepare profile selection: "@,
            Rotation::Preparing(_) => "Could not prepare saved profile selection: "@,
            Rotation::Recreating { .. } => "Network rotation failed: "@,
            _ => "Network rotation failed safety verification: "@,
        } + fatal(phase, event).unwrap(),
{
    let e = fatal(phase, event).unwrap();
    match (phase, event) {
        (Rotation::Choosing, RotationEvent::Chosen(Err(_))) => {
            let reason = "Could not select a "@ + provider.title() + " profile: "@;
            assert(next->Done_0.message@ == reason + e);
        },
        (Rotation::Preparing(choice), RotationEvent::Written(Err(_))) => {
            let reason = if choice is Next {
                "Could not prepare profile selection: "@
            } else {
                "Could not prepare saved profile selection: "@
            };
            assert(next->Done_0.message@ == reason + e);
        },
        (Rotation::Recreating { .. }, RotationEvent::Recreated(Err(_))) => {
            assert(next->Done_0.message@ == "Network rotation failed: "@ + e);
        },
        (Rotation::Verifying(_), RotationEvent::Verified(Err(_))) => {
            assert(next->Done_0.message@ == "Network rotation failed safety verification: "@ + e);
        },
        _ => {},
    }
}

/// Whether an outcome is that of the step a switch stands at.
pub open spec fn answers(phase: Rotation, event: RotationEvent) -> bool {
    match event {
        RotationEvent::Chosen(_) => phase is Choosing,
        RotationEvent::Loaded(_) => phase is Loading,
        RotationEvent::Written(_) => phase is Preparing,
        RotationEvent::Recreated(_) => phase is Recreating,
        RotationEvent::Verified(_) => phase is Verifying,
        RotationEvent::Saved(_) => phase is Saving,
    }
}

/// How far a phase is from the answer.
pub open spec fn steps_left(phase: Rotation) -> nat {
    match phase {
        Rotation::Choosing => 5,
        Rotation::Loading => 4,
        Rotation::Preparing(_) => 4,
        Rotation::Recreating { .. } => 3,
        Rotation::Verifying(_) => 2,
        Rotation::Saving(_) => 1,
        Rotation::Done(_) => 0,
    }
}

/// The outcome of the step that a switch stands at brings it on, except from
/// its look up to the writing of the overlay, and any other outcome, as of a
/// step long past, leaves it where it is; what is answered stays answered.
pub proof fn law_only_awaited_outcomes_count(
    provider: Provider,
    phase: Rotation,
    event: RotationEvent,
    next: Rotation,
)
    requires
        rotation_follows(provider, phase, event, next),
    ensures
        !answers(phase, event) ==> next == phase,
        answers(phase, event) ==> steps_left(next) < steps_left(phase) || (phase is Loading
            && next is Preparing),
        phase is Done ==> next == phase,
{
}

} // verus!
