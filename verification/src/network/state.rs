use vstd::prelude::*;

use crate::network::provider::Provider;
use crate::text::list;

verus! {

/// How far one provider has come through its shuffled profiles.
pub struct ProviderRotationState {
    /// The profile that the last successful rotation made active.
    pub active_profile: Option<String>,
    /// The last successful selection, kept apart so that a new cycle does not
    /// begin with it.
    pub last_profile: Option<String>,
    /// The profiles that this cycle has not selected yet, the next one last.
    pub remaining_profiles: Vec<String>,
    /// The profiles known to this cycle, selected or not.
    pub cycle_profiles: Vec<String>,
}

/// The rotation state of one provider as plain names.
#[verifier::ext_equal]
pub struct Pool {
    pub active: Option<Seq<char>>,
    pub last: Option<Seq<char>>,
    pub remaining: Seq<Seq<char>>,
    pub cycle: Seq<Seq<char>>,
}

impl View for ProviderRotationState {
    type V = Pool;

    open spec fn view(&self) -> Pool {
        Pool {
            active: list::text_of(self.active_profile),
            last: list::text_of(self.last_profile),
            remaining: list::texts(self.remaining_profiles@),
            cycle: list::texts(self.cycle_profiles@),
        }
    }
}

/// A pool that nothing has been selected from.
pub open spec fn fresh_pool() -> Pool {
    Pool { active: None, last: None, remaining: Seq::empty(), cycle: Seq::empty() }
}

impl Default for ProviderRotationState {
    fn default() -> (r: Self)
        ensures
            r@ == fresh_pool(),
    {
        let r = ProviderRotationState {
            active_profile: None,
            last_profile: None,
            remaining_profiles: Vec::new(),
            cycle_profiles: Vec::new(),
        };
        assert(r@ =~= fresh_pool());
        r
    }
}

/// The rotation states of the providers that have profiles.
pub struct RotationState {
    pub nordvpn: ProviderRotationState,
    pub protonvpn: ProviderRotationState,
}

impl Default for RotationState {
    fn default() -> (r: Self)
        ensures
            r.nordvpn@ == fresh_pool(),
            r.protonvpn@ == fresh_pool(),
    {
        RotationState {
            nordvpn: ProviderRotationState::default(),
            protonvpn: ProviderRotationState::default(),
        }
    }
}

impl RotationState {
    /// The pool of a provider; there is none for the direct connection.
    pub open spec fn pool(self, provider: Provider) -> Option<Pool> {
        match provider {
            Provider::Direct => None,
            Provider::NordVpn => Some(self.nordvpn@),
            Provider::ProtonVpn => Some(self.protonvpn@),
        }
    }

    pub fn provider_state(&self, provider: Provider) -> (r: Option<&ProviderRotationState>)
        ensures
            match r {
                Some(s) => self.pool(provider) == Some(s@),
                None => self.pool(provider) is None,
            },
    {
        match provider {
            Provider::NordVpn => Some(&self.nordvpn),
            Provider::ProtonVpn => Some(&self.protonvpn),
            Provider::Direct => None,
        }
    }

    pub fn provider_state_mut(&mut self, provider: Provider) -> (r: Option<
        &mut ProviderRotationState,
    >)
        ensures
            match r {
                Some(s) => match provider {
                    Provider::NordVpn => *s == old(self).nordvpn && final(self).nordvpn == *final(s)
                        && final(self).protonvpn == old(self).protonvpn,
                    Provider::ProtonVpn => *s == old(self).protonvpn && final(self).protonvpn
                        == *final(s) && final(self).nordvpn == old(self).nordvpn,
                    Provider::Direct => false,
                },
                None => provider == Provider::Direct && *final(self) == *old(self),
            },
    {
        match provider {
            Provider::NordVpn => Some(&mut self.nordvpn),
            Provider::ProtonVpn => Some(&mut self.protonvpn),
            Provider::Direct => None,
        }
    }
}

/// A provider that nothing was selected for has no profile active, none to
/// set apart, and none known or waiting.
pub proof fn law_fresh_pool_is_empty(n: Seq<char>)
    ensures
        fresh_pool().active is None,
        fresh_pool().last is None,
        !fresh_pool().remaining.contains(n),
        !fresh_pool().cycle.contains(n),
{
}

/// Each provider with profiles has a state of its own; the direct connection
/// has none.
pub proof fn law_providers_have_their_own_state(
    state: RotationState,
    other: ProviderRotationState,
)
    ensures
        state.pool(Provider::Direct) is None,
        (RotationState { nordvpn: other, ..state }).pool(Provider::NordVpn) == Some(other@),
        (RotationState { nordvpn: other, ..state }).pool(Provider::ProtonVpn) == state.pool(
            Provider::ProtonVpn,
        ),
        (RotationState { protonvpn: other, ..state }).pool(Provider::ProtonVpn) == Some(other@),
        (RotationState { protonvpn: other, ..state }).pool(Provider::NordVpn) == state.pool(
            Provider::NordVpn,
        ),
{
}

} // verus!
