use vstd::prelude::*;

use crate::text::list;

verus! {

/// A tunnel profile that passed validation.
pub struct ValidatedProfile {
    pub basename: String,
    pub path: String,
    /// The host that the profile's server is selected by, for the provider
    /// that selects servers so.
    pub endpoint_hostname: Option<String>,
}

/// What a profile says.
pub struct ProfileView {
    pub basename: Seq<char>,
    pub path: Seq<char>,
    pub endpoint_hostname: Option<Seq<char>>,
}

impl View for ValidatedProfile {
    type V = ProfileView;

    open spec fn view(&self) -> ProfileView {
        ProfileView {
            basename: self.basename@,
            path: self.path@,
            endpoint_hostname: list::text_of(self.endpoint_hostname),
        }
    }
}

impl ValidatedProfile {
    pub fn duplicate(&self) -> (r: ValidatedProfile)
        ensures
            r@ == self@,
    {
        ValidatedProfile {
            basename: self.basename.clone(),
            path: self.path.clone(),
            endpoint_hostname: match &self.endpoint_hostname {
                Some(h) => Some(h.clone()),
                None => None,
            },
        }
    }
}

/// The file names of several profiles.
pub open spec fn names(profiles: Seq<ValidatedProfile>) -> Seq<Seq<char>> {
    profiles.map_values(|p: ValidatedProfile| p@.basename)
}

/// The first profile with the given name, if there is one.
pub open spec fn named(profiles: Seq<ValidatedProfile>, name: Seq<char>) -> Option<ProfileView>
    decreases profiles.len(),
{
    if profiles.len() == 0 {
        None
    } else if profiles[0]@.basename == name {
        Some(profiles[0]@)
    } else {
        named(profiles.skip(1), name)
    }
}

/// Finds the first profile with the given name.
pub fn find_profile(profiles: &Vec<ValidatedProfile>, name: &str) -> (r: Option<ValidatedProfile>)
    ensures
        match r {
            Some(p) => named(profiles@, name@) == Some(p@),
            None => named(profiles@, name@) is None,
        },
{
    let mut i: usize = 0;
    assert(profiles@.skip(0) == profiles@);
    while i < profiles.len()
        invariant
            i <= profiles.len(),
            named(profiles@, name@) == named(profiles@.skip(i as int), name@),
        decreases profiles.len() - i,
    {
        if crate::text::chars::equal(profiles[i].basename.as_str(), name) {
            return Some(profiles[i].duplicate());
        }
        assert(profiles@.skip(i as int).skip(1) == profiles@.skip(i + 1));
        i += 1;
    }
    None
}

pub proof fn lemma_named(profiles: Seq<ValidatedProfile>, name: Seq<char>)
    ensures
        named(profiles, name) is Some <==> names(profiles).contains(name),
        named(profiles, name) is Some ==> named(profiles, name).unwrap().basename == name,
        named(profiles, name) is Some ==> exists|i: int|
            0 <= i < profiles.len() && profiles[i]@ == named(profiles, name).unwrap(),
    decreases profiles.len(),
{
    let n = names(profiles);
    if profiles.len() > 0 {
        let rest = profiles.skip(1);
        assert(n[0] == profiles[0]@.basename);
        lemma_named(rest, name);
        assert(names(rest) == n.skip(1));
        if profiles[0]@.basename != name {
            if named(rest, name) is Some {
                let i = choose|i: int| 0 <= i < rest.len() && rest[i]@ == named(rest, name).unwrap();
                assert(profiles[i + 1] == rest[i]);
                let j = choose|j: int| 0 <= j < names(rest).len() && names(rest)[j] == name;
                assert(n[j + 1] == name);
            }
            if n.contains(name) {
                let j = choose|j: int| 0 <= j < n.len() && n[j] == name;
                assert(names(rest)[j - 1] == name);
            }
        }
    }
}

/// Whether a text is the name of a file and nothing else: no path, and not one
/// of the names that stand for a directory.
pub open spec fn is_basename(s: Seq<char>) -> bool {
    &&& s.len() > 0
    &&& s != "."@
    &&& s != ".."@
    &&& forall|i: int| 0 <= i < s.len() ==> #[trigger] s[i] != '/'
}

/// The value itself, where it is a plain file name.
pub fn safe_basename(value: &str) -> (r: Option<String>)
    ensures
        match r {
            Some(name) => is_basename(value@) && name@ == value@,
            None => !is_basename(value@),
        },
{
    let v = crate::text::chars::chars_of(value);
    if v.len() == 0 || crate::text::chars::spells(v.as_slice(), ".") || crate::text::chars::spells(
        v.as_slice(),
        "..",
    ) {
        return None;
    }
    proof {
        crate::text::split::lemma_position(value@, '/');
    }
    if crate::text::split::find(v.as_slice(), '/').is_some() {
        return None;
    }
    Some(value.to_owned())
}

/// A file's name as shown in messages; `None` stands for a name that is not
/// valid text.
pub fn display_filename(name: Option<&str>) -> (r: String)
    ensures
        r@ == match name {
            Some(n) => n@,
            None => "<non-UTF-8 filename>"@,
        },
{
    match name {
        Some(n) => n.to_owned(),
        None => "<non-UTF-8 filename>".to_owned(),
    }
}

/// A name with a slash in it, the empty name and the two names for directories
/// are no file names; every other text is one.
pub proof fn law_basename_is_no_path(a: Seq<char>, b: Seq<char>)
    ensures
        !is_basename(a + seq!['/'] + b),
        !is_basename(Seq::empty()),
        !is_basename(seq!['.']),
        !is_basename(seq!['.', '.']),
        a.len() > 0 && crate::text::split::lacks(a, '/') && a != seq!['.'] && a != seq!['.', '.']
            ==> is_basename(a),
{
    let s = a + seq!['/'] + b;
    assert(s[a.len() as int] == '/');
    reveal_strlit(".");
    reveal_strlit("..");
    assert("."@ =~= seq!['.']);
    assert(".."@ =~= seq!['.', '.']);
}

/// The profile with a name is the first that bears it.
pub proof fn law_named_profile_is_first(profiles: Seq<ValidatedProfile>, k: int)
    requires
        0 <= k < profiles.len(),
        forall|j: int|
            0 <= j < k ==> (#[trigger] profiles[j])@.basename != profiles[k]@.basename,
    ensures
        named(profiles, profiles[k]@.basename) == Some(profiles[k]@),
    decreases k,
{
    if k > 0 {
        assert(profiles[0]@.basename != profiles[k]@.basename);
        let rest = profiles.skip(1);
        assert forall|j: int| 0 <= j < k - 1 implies (#[trigger] rest[j])@.basename != rest[k
            - 1]@.basename by {
            assert(rest[j] == profiles[j + 1]);
        }
        assert(rest[k - 1] == profiles[k]);
        law_named_profile_is_first(rest, k - 1);
    }
}

} // verus!
