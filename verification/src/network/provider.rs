use vstd::prelude::*;

use crate::text::chars;

verus! {

/// The way in which the voice gateway reaches the network.
#[derive(Clone, Copy, Debug, PartialEq, Eq, Structural)]
pub enum Provider {
    Direct,
    NordVpn,
    ProtonVpn,
}

impl Provider {
    /// The suffix of the compose files of a provider, which is also its name
    /// in requests.
    pub open spec fn suffix(self) -> Seq<char> {
        match self {
            Provider::Direct => "direct"@,
            Provider::NordVpn => "nordvpn"@,
            Provider::ProtonVpn => "protonvpn"@,
        }
    }

    /// The name shown to people.
    pub open spec fn title(self) -> Seq<char> {
        match self {
            Provider::Direct => "Direct"@,
            Provider::NordVpn => "NordVPN"@,
            Provider::ProtonVpn => "ProtonVPN"@,
        }
    }

    /// The provider that a request names, in whatever case.
    pub open spec fn requested(value: Seq<char>) -> Option<Provider> {
        let name = chars::lower(value);
        if name == Provider::Direct.suffix() {
            Some(Provider::Direct)
        } else if name == Provider::NordVpn.suffix() {
            Some(Provider::NordVpn)
        } else if name == Provider::ProtonVpn.suffix() {
            Some(Provider::ProtonVpn)
        } else {
            None
        }
    }

    pub open spec fn directory_key(self) -> Option<Seq<char>> {
        match self {
            Provider::Direct => None,
            Provider::NordVpn => Some("NORDVPN_PROFILE_DIRECTORY"@),
            Provider::ProtonVpn => Some("PROTONVPN_PROFILE_DIRECTORY"@),
        }
    }

    pub open spec fn extensions_key(self) -> Option<Seq<char>> {
        match self {
            Provider::Direct => None,
            Provider::NordVpn => Some("NORDVPN_PROFILE_EXTENSIONS"@),
            Provider::ProtonVpn => Some("PROTONVPN_PROFILE_EXTENSIONS"@),
        }
    }

    /// Reads the provider named in a request; case does not matter.
    pub fn from_request(value: &str) -> (r: Option<Provider>)
        ensures
            r == Provider::requested(value@),
    {
        let v = chars::chars_of(value);
        let name = chars::to_lower(v.as_slice());
        if chars::spells(name.as_slice(), "direct") {
            Some(Provider::Direct)
        } else if chars::spells(name.as_slice(), "nordvpn") {
            Some(Provider::NordVpn)
        } else if chars::spells(name.as_slice(), "protonvpn") {
            Some(Provider::ProtonVpn)
        } else {
            None
        }
    }

    pub fn compose_suffix(self) -> (r: &'static str)
        ensures
            r@ == self.suffix(),
    {
        match self {
            Provider::Direct => "direct",
            Provider::NordVpn => "nordvpn",
            Provider::ProtonVpn => "protonvpn",
        }
    }

    pub fn display_name(self) -> (r: &'static str)
        ensures
            r@ == self.title(),
    {
        match self {
            Provider::Direct => "Direct",
            Provider::NordVpn => "NordVPN",
            Provider::ProtonVpn => "ProtonVPN",
        }
    }

    /// The setting that names the directory with the provider's profiles.
    pub fn profile_directory_key(self) -> (r: Option<&'static str>)
        ensures
            match r {
                Some(key) => self.directory_key() == Some(key@),
                None => self.directory_key() is None,
            },
    {
        match self {
            Provider::NordVpn => Some("NORDVPN_PROFILE_DIRECTORY"),
            Provider::ProtonVpn => Some("PROTONVPN_PROFILE_DIRECTORY"),
            Provider::Direct => None,
        }
    }

    /// The setting that lists the file extensions of the provider's profiles.
    pub fn profile_extensions_key(self) -> (r: Option<&'static str>)
        ensures
            match r {
                Some(key) => self.extensions_key() == Some(key@),
                None => self.extensions_key() is None,
            },
    {
        match self {
            Provider::NordVpn => Some("NORDVPN_PROFILE_EXTENSIONS"),
            Provider::ProtonVpn => Some("PROTONVPN_PROFILE_EXTENSIONS"),
            Provider::Direct => None,
        }
    }
}

/// The provider whose compose file a link target names.
pub open spec fn linked_provider(target: Seq<char>) -> Option<Provider> {
    if chars::mentions(target, Provider::ProtonVpn.suffix()) {
        Some(Provider::ProtonVpn)
    } else if chars::mentions(target, Provider::NordVpn.suffix()) {
        Some(Provider::NordVpn)
    } else if chars::mentions(target, Provider::Direct.suffix()) {
        Some(Provider::Direct)
    } else {
        None
    }
}

/// The provider in use: the one that the compose link points at, if there is
/// such a link.
pub fn current_provider(target: Option<&str>) -> (r: Option<Provider>)
    ensures
        r == match target {
            Some(t) => linked_provider(t@),
            None => None,
        },
{
    match target {
        Some(t) => {
            let c = chars::chars_of(t);
            if chars::contains(c.as_slice(), "protonvpn") {
                Some(Provider::ProtonVpn)
            } else if chars::contains(c.as_slice(), "nordvpn") {
                Some(Provider::NordVpn)
            } else if chars::contains(c.as_slice(), "direct") {
                Some(Provider::Direct)
            } else {
                None
            }
        },
        None => None,
    }
}

/// A request that spells a provider's own name, in whatever case, selects
/// that provider.
pub proof fn law_name_selects_provider(provider: Provider, value: Seq<char>)
    requires
        chars::lower(value) == provider.suffix(),
    ensures
        Provider::requested(value) == Some(provider),
{
    reveal_strlit("direct");
    reveal_strlit("nordvpn");
    reveal_strlit("protonvpn");
    assert("direct"@.len() != "nordvpn"@.len());
    assert("direct"@.len() != "protonvpn"@.len());
    assert("nordvpn"@.len() != "protonvpn"@.len());
}

/// Exactly the three names select a provider, each in whatever case.
pub proof fn law_three_names_are_known(value: Seq<char>)
    ensures
        Provider::requested(value) == Some(Provider::Direct) <==> chars::lower(value) == "direct"@,
        Provider::requested(value) == Some(Provider::NordVpn) <==> chars::lower(value)
            == "nordvpn"@,
        Provider::requested(value) == Some(Provider::ProtonVpn) <==> chars::lower(value)
            == "protonvpn"@,
{
    reveal_strlit("direct");
    reveal_strlit("nordvpn");
    reveal_strlit("protonvpn");
    assert("direct"@.len() == 6 && "nordvpn"@.len() == 7 && "protonvpn"@.len() == 9);
}

/// A link that ends in the name of a provider and mentions no other says that
/// the provider is in use.
pub proof fn law_link_names_provider(stem: Seq<char>)
    ensures
        linked_provider(stem + "protonvpn"@) == Some(Provider::ProtonVpn),
        !chars::mentions(stem + "nordvpn"@, "protonvpn"@) ==> linked_provider(stem + "nordvpn"@)
            == Some(Provider::NordVpn),
        !chars::mentions(stem + "direct"@, "protonvpn"@) && !chars::mentions(
            stem + "direct"@,
            "nordvpn"@,
        ) ==> linked_provider(stem + "direct"@) == Some(Provider::Direct),
{
    let none = Seq::<char>::empty();
    chars::law_parts_are_recognised(stem, "direct"@, none);
    chars::law_parts_are_recognised(stem, "nordvpn"@, none);
    chars::law_parts_are_recognised(stem, "protonvpn"@, none);
    assert(stem + "direct"@ + none =~= stem + "direct"@);
    assert(stem + "nordvpn"@ + none =~= stem + "nordvpn"@);
    assert(stem + "protonvpn"@ + none =~= stem + "protonvpn"@);
}

/// A link target that names no provider says nothing.
pub proof fn law_other_targets_name_none(target: Seq<char>)
    ensures
        linked_provider(target) is None <==> (!chars::mentions(target, "direct"@)
            && !chars::mentions(target, "nordvpn"@) && !chars::mentions(target, "protonvpn"@)),
{
}

/// The names of providers as people read them.
pub proof fn law_titles()
    ensures
        Provider::Direct.title() == "Direct"@,
        Provider::NordVpn.title() == "NordVPN"@,
        Provider::ProtonVpn.title() == "ProtonVPN"@,
{
}

} // verus!
