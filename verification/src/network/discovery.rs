use vstd::prelude::*;

use crate::network::profile::ProfileView;
use crate::network::profile::ValidatedProfile;
use crate::network::provider::Provider;
use crate::network::settings::ProfileSettings;
use crate::network::wireguard;
use crate::text::chars;
use crate::text::join;
use crate::text::list;
use crate::text::order;
use crate::text::split;

verus! {

/// Larger files are never read as profiles.
pub const MAX_PROFILE_BYTES: u64 = 131072;

/// A file of the profile directory.
pub struct ProfileFile {
    /// The file's name, where it is valid text.
    pub name: Option<String>,
    pub path: String,
    pub is_file: bool,
    pub is_symlink: bool,
    pub length: u64,
    /// The file's text; only that of candidates is looked at.
    pub contents: Option<String>,
}

/// Why the profile directory could not be listed.
pub enum ListingError {
    Unavailable(String),
    NotADirectory,
    NotEnumerable(String),
}

impl ListingError {
    pub open spec fn text(self) -> Seq<char> {
        match self {
            ListingError::Unavailable(e) => "profile directory is unavailable: "@ + e@,
            ListingError::NotADirectory => "configured profile directory is not a directory"@,
            ListingError::NotEnumerable(e) => "could not enumerate profile directory: "@ + e@,
        }
    }

    pub fn message(&self) -> (r: String)
        ensures
            r@ == self.text(),
    {
        match self {
            ListingError::Unavailable(e) => join::plus(
                "profile directory is unavailable: ",
                e.as_str(),
            ),
            ListingError::NotADirectory => {
                "configured profile directory is not a directory".to_owned()
            },
            ListingError::NotEnumerable(e) => join::plus(
                "could not enumerate profile directory: ",
                e.as_str(),
            ),
        }
    }
}

/// The extension of a file name: what follows its last dot, unless the name
/// only begins with one.
pub open spec fn extension(name: Seq<char>) -> Option<Seq<char>> {
    match split::last_position(name, '.') {
        Some(i) => if i > 0 {
            Some(name.skip(i + 1))
        } else {
            None
        },
        None => None,
    }
}

/// Whether a file may be a profile: an ordinary file, not too large, with one
/// of the extensions in whatever case.
pub open spec fn candidate(extensions: Seq<Seq<char>>, file: ProfileFile) -> bool {
    &&& file.is_file
    &&& !file.is_symlink
    &&& file.length <= MAX_PROFILE_BYTES
    &&& file.name matches Some(name)
    &&& extension(name@) matches Some(ext)
    &&& extensions.contains(seq!['.'] + chars::lower(ext))
}

/// Whether a file may be a profile and is worth reading.
pub fn is_candidate(settings: &ProfileSettings, file: &ProfileFile) -> (r: bool)
    ensures
        r == candidate(list::texts(settings.extensions@), *file),
{
    if !file.is_file || file.is_symlink || file.length > MAX_PROFILE_BYTES {
        return false;
    }
    let name = match &file.name {
        Some(n) => chars::chars_of(n.as_str()),
        None => return false,
    };
    match split::rsplit_once(name.as_slice(), '.') {
        None => false,
        Some((stem, ext)) => {
            proof {
                split::lemma_last_position(name@, '.');
            }
            if stem.len() == 0 {
                return false;
            }
            let small = chars::to_lower(ext);
            let dotted = join::plus(".", chars::string_of(small.as_slice()).as_str());
            assert("."@ =~= seq!['.']) by {
                reveal_strlit(".");
            }
            list::holds(&settings.extensions, dotted.as_str())
        },
    }
}

/// The profile in a file, if the file is a candidate and valid.
pub open spec fn profile_in(
    provider: Provider,
    extensions: Seq<Seq<char>>,
    file: ProfileFile,
) -> Option<ProfileView> {
    if candidate(extensions, file) {
        match wireguard::profile_of(
            provider,
            file.path@,
            list::text_of(file.name),
            list::text_of(file.contents),
        ) {
            Ok(p) => Some(p),
            Err(_) => None,
        }
    } else {
        None
    }
}

/// A profile put in its place in a list ordered by name, after those with the
/// same name.
pub open spec fn placed(profiles: Seq<ProfileView>, p: ProfileView) -> Seq<ProfileView>
    decreases profiles.len(),
{
    if profiles.len() > 0 && order::precedes(p.basename, profiles.last().basename) {
        placed(profiles.drop_last(), p).push(profiles.last())
    } else {
        profiles.push(p)
    }
}

/// The valid profiles among the files, ordered by name.
pub open spec fn discovered(
    provider: Provider,
    extensions: Seq<Seq<char>>,
    files: Seq<ProfileFile>,
) -> Seq<ProfileView>
    decreases files.len(),
{
    if files.len() == 0 {
        Seq::empty()
    } else {
        let before = discovered(provider, extensions, files.drop_last());
        match profile_in(provider, extensions, files.last()) {
            Some(p) => placed(before, p),
            None => before,
        }
    }
}

/// What several profiles say.
pub open spec fn profile_views(profiles: Seq<ValidatedProfile>) -> Seq<ProfileView> {
    profiles.map_values(|p: ValidatedProfile| p@)
}

fn place(profiles: &mut Vec<ValidatedProfile>, p: ValidatedProfile)
    ensures
        profile_views(final(profiles)@) == placed(profile_views(old(profiles)@), p@),
{
    let ghost v = profile_views(profiles@);
    let mut at: usize = profiles.len();
    assert(v.take(at as int) == v);
    assert(v.skip(at as int) == Seq::<ProfileView>::empty());
    assert(placed(v, p@) == placed(v.take(at as int), p@) + v.skip(at as int));
    while at > 0 && order::comes_before(p.basename.as_str(), profiles[at - 1].basename.as_str())
        invariant
            at <= profiles.len(),
            v == profile_views(profiles@),
            placed(v, p@) == placed(v.take(at as int), p@) + v.skip(at as int),
        decreases at,
    {
        let ghost head = v.take(at as int);
        assert(head.last() == profiles@[at - 1]@);
        assert(head.drop_last() == v.take(at - 1));
        assert(seq![head.last()] + v.skip(at as int) == v.skip(at - 1));
        assert(placed(head, p@) + v.skip(at as int) == placed(v.take(at - 1), p@) + v.skip(
            at - 1,
        ));
        at -= 1;
    }
    let ghost head = v.take(at as int);
    if at > 0 {
        assert(head.last() == profiles@[at - 1]@);
    }
    assert(placed(head, p@) == head.push(p@));
    profiles.insert(at, p);
    assert(profile_views(profiles@) =~= head.push(p@) + v.skip(at as int));
}

/// The valid profiles among the files of the profile directory, ordered by
/// name; files that hold none are passed over.
pub fn discover_profiles(
    provider: Provider,
    settings: &ProfileSettings,
    listing: &Result<Vec<ProfileFile>, ListingError>,
) -> (r: Result<Vec<ValidatedProfile>, String>)
    ensures
        match listing {
            Ok(files) => r matches Ok(profiles) && profile_views(profiles@) == discovered(
                provider,
                list::texts(settings.extensions@),
                files@,
            ),
            Err(e) => r matches Err(m) && m@ == e.text(),
        },
{
    let files = match listing {
        Ok(files) => files,
        Err(e) => return Err(e.message()),
    };
    let ghost extensions = list::texts(settings.extensions@);
    let mut profiles: Vec<ValidatedProfile> = Vec::new();
    let mut i: usize = 0;
    assert(profile_views(profiles@) == discovered(provider, extensions, files@.take(0)));
    while i < files.len()
        invariant
            i <= files.len(),
            extensions == list::texts(settings.extensions@),
            profile_views(profiles@) == discovered(provider, extensions, files@.take(i as int)),
        decreases files.len() - i,
    {
        assert(files@.take(i + 1).drop_last() == files@.take(i as int));
        assert(files@.take(i + 1).last() == files@[i as int]);
        let file = &files[i];
        if is_candidate(settings, file) {
            let name = match &file.name {
                Some(n) => Some(n.as_str()),
                None => None,
            };
            let contents = match &file.contents {
                Some(c) => Some(c.as_str()),
                None => None,
            };
            match wireguard::validate_wireguard_profile(
                provider,
                file.path.as_str(),
                name,
                contents,
            ) {
                Ok(p) => {
                    place(&mut profiles, p);
                },
                Err(_) => {},
            }
        }
        i += 1;
    }
    assert(files@.take(files@.len() as int) == files@);
    Ok(profiles)
}

pub open spec fn sorted_by_name(profiles: Seq<ProfileView>) -> bool {
    forall|i: int, j: int|
        0 <= i < j < profiles.len() ==> !order::precedes(
            (#[trigger] profiles[j]).basename,
            (#[trigger] profiles[i]).basename,
        )
}

proof fn lemma_placed(profiles: Seq<ProfileView>, p: ProfileView)
    requires
        sorted_by_name(profiles),
    ensures
        sorted_by_name(placed(profiles, p)),
        placed(profiles, p).to_multiset() == profiles.to_multiset().insert(p),
        placed(profiles, p).len() == profiles.len() + 1,
        forall|q: ProfileView| #[trigger]
            placed(profiles, p).contains(q) <==> profiles.contains(q) || q == p,
    decreases profiles.len(),
{
    broadcast use vstd::seq_lib::group_to_multiset_ensures;
    broadcast use vstd::multiset::group_multiset_axioms;

    let r = placed(profiles, p);
    if profiles.len() > 0 && order::precedes(p.basename, profiles.last().basename) {
        let head = profiles.drop_last();
        let end = profiles.last();
        lemma_placed(head, p);
        let h = placed(head, p);
        assert(profiles == head.push(end));
        assert(r == h.push(end));
        assert(r.to_multiset() =~= profiles.to_multiset().insert(p));
        order::lemma_precedes_total(p.basename, end.basename);
        assert forall|i: int, j: int| 0 <= i < j < r.len() implies !order::precedes(
            (#[trigger] r[j]).basename,
            (#[trigger] r[i]).basename,
        ) by {
            if j == h.len() {
                assert(h.contains(h[i]));
                if h[i] != p {
                    assert(head.contains(h[i]));
                    let k = choose|k: int| 0 <= k < head.len() && head[k] == h[i];
                    assert(profiles[k] == h[i]);
                    assert(profiles[profiles.len() - 1] == end);
                }
            } else {
                assert(r[j] == h[j] && r[i] == h[i]);
            }
        }
        assert forall|q: ProfileView| #[trigger] r.contains(q) <==> profiles.contains(q) || q
            == p by {
            list::lemma_push_contains(h, end, q);
            list::lemma_push_contains(head, end, q);
            assert(h.contains(q) <==> head.contains(q) || q == p);
        }
    } else {
        assert(r == profiles.push(p));
        assert forall|i: int, j: int| 0 <= i < j < r.len() implies !order::precedes(
            (#[trigger] r[j]).basename,
            (#[trigger] r[i]).basename,
        ) by {
            if j == profiles.len() {
                let end = profiles.last();
                if i < profiles.len() - 1 {
                    assert(profiles[profiles.len() - 1] == end);
                    assert(!order::precedes(end.basename, profiles[i].basename));
                    order::lemma_not_precedes_transitive(
                        profiles[i].basename,
                        end.basename,
                        p.basename,
                    );
                }
            } else {
                assert(r[j] == profiles[j] && r[i] == profiles[i]);
            }
        }
        assert forall|q: ProfileView| #[trigger] r.contains(q) <==> profiles.contains(q) || q
            == p by {
            list::lemma_push_contains(profiles, p, q);
        }
    }
}

/// Whether some file holds the profile.
pub open spec fn held(
    provider: Provider,
    extensions: Seq<Seq<char>>,
    files: Seq<ProfileFile>,
    p: ProfileView,
) -> bool {
    exists|i: int|
        0 <= i < files.len() && #[trigger] profile_in(provider, extensions, files[i]) == Some(p)
}

/// Discovery finds exactly the profiles that the files hold, in the order of
/// their names.
pub proof fn law_discovery_is_complete_and_sorted(
    provider: Provider,
    extensions: Seq<Seq<char>>,
    files: Seq<ProfileFile>,
    p: ProfileView,
)
    ensures
        sorted_by_name(discovered(provider, extensions, files)),
        discovered(provider, extensions, files).contains(p) <==> held(
            provider,
            extensions,
            files,
            p,
        ),
    decreases files.len(),
{
    if files.len() > 0 {
        let head = files.drop_last();
        law_discovery_is_complete_and_sorted(provider, extensions, head, p);
        let before = discovered(provider, extensions, head);
        match profile_in(provider, extensions, files.last()) {
            Some(q) => {
                lemma_placed(before, q);
                assert(placed(before, q).contains(p) <==> before.contains(p) || p == q);
            },
            None => {},
        }
        if held(provider, extensions, files, p) {
            let i = choose|i: int|
                0 <= i < files.len() && #[trigger] profile_in(provider, extensions, files[i])
                    == Some(p);
            if i < head.len() {
                assert(head[i] == files[i]);
            }
        }
        if held(provider, extensions, head, p) {
            let i = choose|i: int|
                0 <= i < head.len() && #[trigger] profile_in(provider, extensions, head[i])
                    == Some(p);
            assert(files[i] == head[i]);
        }
        if profile_in(provider, extensions, files.last()) == Some(p) {
            assert(files[files.len() - 1] == files.last());
        }
    }
}

/// Files with different names give profiles with different names, as a
/// rotation needs them.
pub proof fn law_discovered_names_differ(
    provider: Provider,
    extensions: Seq<Seq<char>>,
    files: Seq<ProfileFile>,
)
    requires
        forall|i: int, j: int|
            0 <= i < j < files.len() && files[i].name is Some && files[j].name is Some ==> (
            #[trigger] files[i]).name.unwrap()@ != (#[trigger] files[j]).name.unwrap()@,
    ensures
        discovered(provider, extensions, files).map_values(
            |p: ProfileView| p.basename,
        ).no_duplicates(),
    decreases files.len(),
{
    if files.len() > 0 {
        let head = files.drop_last();
        assert forall|i: int, j: int|
            0 <= i < j < head.len() && head[i].name is Some && head[j].name is Some implies (
        #[trigger] head[i]).name.unwrap()@ != (#[trigger] head[j]).name.unwrap()@ by {
            assert(head[i] == files[i] && head[j] == files[j]);
        }
        law_discovered_names_differ(provider, extensions, head);
        let before = discovered(provider, extensions, head);
        match profile_in(provider, extensions, files.last()) {
            Some(p) => {
                assert forall|k: int| 0 <= k < before.len() implies (#[trigger]
                before[k]).basename != p.basename by {
                    law_discovery_is_complete_and_sorted(provider, extensions, head, before[k]);
                    assert(before.contains(before[k]));
                    let i = choose|i: int|
                        0 <= i < head.len() && #[trigger] profile_in(provider, extensions, head[i])
                            == Some(before[k]);
                    assert(head[i] == files[i]);
                    assert(files[files.len() - 1] == files.last());
                    assert(files[i].name.unwrap()@ != files[files.len() - 1].name.unwrap()@);
                }
                lemma_placed_names_differ(before, p);
            },
            None => {},
        }
    }
}

proof fn lemma_placed_names_differ(profiles: Seq<ProfileView>, p: ProfileView)
    requires
        profiles.map_values(|q: ProfileView| q.basename).no_duplicates(),
        forall|k: int| 0 <= k < profiles.len() ==> (#[trigger] profiles[k]).basename != p.basename,
    ensures
        placed(profiles, p).map_values(|q: ProfileView| q.basename).no_duplicates(),
        placed(profiles, p).len() == profiles.len() + 1,
        forall|k: int|
            0 <= k < placed(profiles, p).len() ==> (#[trigger] placed(profiles, p)[k]) == p
                || profiles.contains(placed(profiles, p)[k]),
    decreases profiles.len(),
{
    let f = |q: ProfileView| q.basename;
    let n = profiles.map_values(f);
    let r = placed(profiles, p);
    assert forall|i: int, j: int| 0 <= i < j < profiles.len() implies (#[trigger]
    profiles[i]).basename != (#[trigger] profiles[j]).basename by {
        assert(n[i] != n[j]);
    }
    if profiles.len() > 0 && order::precedes(p.basename, profiles.last().basename) {
        let head = profiles.drop_last();
        assert(head.map_values(f) =~= n.drop_last());
        lemma_placed_names_differ(head, p);
        let h = placed(head, p);
        assert(r == h.push(profiles.last()));
        let m = r.map_values(f);
        assert forall|i: int, j: int| 0 <= i < m.len() && 0 <= j < m.len() && i != j implies m[i]
            != m[j] by {
            if i < h.len() && j < h.len() {
                assert(h.map_values(f)[i] != h.map_values(f)[j]);
            } else {
                let k = if i < j {
                    i
                } else {
                    j
                };
                assert(h[k] == p || head.contains(h[k]));
                if h[k] != p {
                    let l = choose|l: int| 0 <= l < head.len() && head[l] == h[k];
                    assert(profiles[l] == head[l]);
                    assert(profiles[l].basename != profiles[profiles.len() - 1].basename);
                }
            }
        }
        assert forall|k: int| 0 <= k < r.len() implies (#[trigger] r[k]) == p || profiles.contains(
            r[k],
        ) by {
            if k < h.len() {
                assert(r[k] == h[k]);
                if h[k] != p {
                    let l = choose|l: int| 0 <= l < head.len() && head[l] == h[k];
                    assert(profiles[l] == head[l]);
                }
            } else {
                assert(profiles[profiles.len() - 1] == r[k]);
            }
        }
    } else {
        let m = r.map_values(f);
        assert forall|i: int, j: int| 0 <= i < m.len() && 0 <= j < m.len() && i != j implies m[i]
            != m[j] by {
            if i < profiles.len() && j < profiles.len() {
                if i < j {
                    assert(profiles[i].basename != profiles[j].basename);
                } else {
                    assert(profiles[j].basename != profiles[i].basename);
                }
            }
        }
        assert forall|k: int| 0 <= k < r.len() implies (#[trigger] r[k]) == p || profiles.contains(
            r[k],
        ) by {
            if k < profiles.len() {
                assert(profiles[k] == r[k]);
            }
        }
    }
}

/// The extension is what follows the last dot, wherever other dots stand; a
/// dot in front of the whole name sets none off.
pub proof fn law_extension_follows_last_dot(stem: Seq<char>, ext: Seq<char>)
    requires
        split::lacks(ext, '.'),
    ensures
        extension(stem + seq!['.'] + ext) == if stem.len() > 0 {
            Some(ext)
        } else {
            None
        },
        extension(ext) is None,
{
    let name = stem + seq!['.'] + ext;
    assert forall|j: int| stem.len() < j < name.len() implies name[j] != '.' by {
        assert(name[j] == ext[j - stem.len() - 1]);
    }
    split::lemma_last_position_is(name, '.', stem.len() as int);
    assert(name.skip(stem.len() as int + 1) =~= ext);
    split::lemma_last_position(ext, '.');
}

/// A file counts where it is an ordinary file, no link, of 128 KiB at most,
/// and its extension is one of those asked for, in whatever case.
pub proof fn law_candidates_are_small_plain_files(
    extensions: Seq<Seq<char>>,
    file: ProfileFile,
    stem: Seq<char>,
    ext: Seq<char>,
)
    requires
        stem.len() > 0,
        split::lacks(ext, '.'),
        file.name matches Some(name) && name@ == stem + seq!['.'] + ext,
    ensures
        candidate(extensions, file) <==> (file.is_file && !file.is_symlink && file.length <= 128
            * 1024 && extensions.contains(seq!['.'] + chars::lower(ext))),
{
    law_extension_follows_last_dot(stem, ext);
}

/// A file whose name is no text, or has no extension, never counts.
pub proof fn law_nameless_files_are_passed_over(
    provider: Provider,
    extensions: Seq<Seq<char>>,
    file: ProfileFile,
)
    requires
        file.name matches Some(name) ==> split::lacks(name@, '.'),
    ensures
        profile_in(provider, extensions, file) is None,
{
    match file.name {
        Some(name) => {
            split::lemma_last_position(name@, '.');
        },
        None => {},
    }
}

/// Every file that holds a profile counts once: none is lost and none is
/// doubled.
pub proof fn law_each_file_counts_once(
    provider: Provider,
    extensions: Seq<Seq<char>>,
    files: Seq<ProfileFile>,
)
    ensures
        discovered(provider, extensions, files).len() == files.filter(
            |f: ProfileFile| profile_in(provider, extensions, f) is Some,
        ).len(),
    decreases files.len(),
{
    reveal(Seq::filter);
    if files.len() > 0 {
        let front = files.drop_last();
        law_each_file_counts_once(provider, extensions, front);
        match profile_in(provider, extensions, files.last()) {
            Some(p) => {
                lemma_placed_length(discovered(provider, extensions, front), p);
            },
            None => {},
        }
    }
}

proof fn lemma_placed_length(profiles: Seq<ProfileView>, p: ProfileView)
    ensures
        placed(profiles, p).len() == profiles.len() + 1,
    decreases profiles.len(),
{
    if profiles.len() > 0 {
        lemma_placed_length(profiles.drop_last(), p);
    }
}

/// The profile found in a file bears the name and the path of that file.
pub proof fn law_profile_bears_its_files_name(
    provider: Provider,
    extensions: Seq<Seq<char>>,
    file: ProfileFile,
)
    ensures
        profile_in(provider, extensions, file) matches Some(p) ==> p.path == file.path@ && (
        file.name matches Some(name) && p.basename == name@),
{
}

/// Where a profile is put: behind every one whose name does not come after its
/// own, so that profiles of one name stay in the order of their files.
pub proof fn law_profile_is_placed_behind_its_equals(
    profiles: Seq<ProfileView>,
    p: ProfileView,
) -> (at: int)
    requires
        sorted_by_name(profiles),
    ensures
        0 <= at <= profiles.len(),
        placed(profiles, p) == profiles.take(at) + seq![p] + profiles.skip(at),
        forall|i: int|
            0 <= i < at ==> !order::precedes(p.basename, (#[trigger] profiles[i]).basename),
        forall|i: int|
            at <= i < profiles.len() ==> order::precedes(
                p.basename,
                (#[trigger] profiles[i]).basename,
            ),
    decreases profiles.len(),
{
    let n = profiles.len() as int;
    if n > 0 && order::precedes(p.basename, profiles.last().basename) {
        let front = profiles.drop_last();
        assert forall|i: int, j: int| 0 <= i < j < front.len() implies !order::precedes(
            (#[trigger] front[j]).basename,
            (#[trigger] front[i]).basename,
        ) by {
            assert(front[i] == profiles[i] && front[j] == profiles[j]);
        }
        let at = law_profile_is_placed_behind_its_equals(front, p);
        assert forall|i: int| 0 <= i < at implies !order::precedes(
            p.basename,
            (#[trigger] profiles[i]).basename,
        ) by {
            assert(front[i] == profiles[i]);
        }
        assert forall|i: int| at <= i < n implies order::precedes(
            p.basename,
            (#[trigger] profiles[i]).basename,
        ) by {
            if i < n - 1 {
                assert(front[i] == profiles[i]);
            }
        }
        assert(placed(profiles, p) =~= profiles.take(at) + seq![p] + profiles.skip(at));
        at
    } else {
        assert forall|i: int| 0 <= i < n implies !order::precedes(
            p.basename,
            (#[trigger] profiles[i]).basename,
        ) by {
            if i < n - 1 {
                assert(!order::precedes(profiles[n - 1].basename, profiles[i].basename));
                order::lemma_not_precedes_transitive(
                    profiles[i].basename,
                    profiles[n - 1].basename,
                    p.basename,
                );
            }
        }
        assert(placed(profiles, p) =~= profiles.take(n) + seq![p] + profiles.skip(n));
        n
    }
}

} // verus!
