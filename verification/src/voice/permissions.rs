use vstd::prelude::*;

use crate::text::join;
use crate::text::list;
use crate::text::number;
use crate::voice::request::PermissionTarget;

verus! {

/// What the catalog says of a permission.
pub struct PermissionName {
    pub name: String,
    pub description: String,
}

impl View for PermissionName {
    type V = (Seq<char>, Seq<char>);

    open spec fn view(&self) -> (Seq<char>, Seq<char>) {
        (self.name@, self.description@)
    }
}

/// A permission as the server reports it, by number.
#[derive(Clone, Copy, Debug, PartialEq, Eq, Structural)]
pub struct RawPermission {
    pub id: u32,
    pub value: i32,
    pub negated: bool,
    pub skip: bool,
}

/// A permission as the server lists it; some come without a number.
#[derive(Clone, Copy, Debug, PartialEq, Eq, Structural)]
pub struct ListedPermission {
    pub id: Option<u32>,
    pub value: i32,
    pub negated: bool,
    pub skip: bool,
}

/// A permission as shown to people.
pub struct PermissionEntry {
    pub name: String,
    pub description: String,
    pub value: i32,
    pub negated: bool,
    pub skip: bool,
}

/// A permission as shown to people, as plain values.
pub struct EntryView {
    pub name: Seq<char>,
    pub description: Seq<char>,
    pub value: i32,
    pub negated: bool,
    pub skip: bool,
}

impl View for PermissionEntry {
    type V = EntryView;

    open spec fn view(&self) -> EntryView {
        EntryView {
            name: self.name@,
            description: self.description@,
            value: self.value,
            negated: self.negated,
            skip: self.skip,
        }
    }
}

/// A line of the catalog.
pub struct CatalogEntry {
    pub id: u32,
    pub name: String,
    pub description: String,
}

/// A line of the catalog as it arrives.
pub struct CatalogLine {
    pub name: Option<String>,
    pub description: Option<String>,
}

impl View for CatalogLine {
    type V = (Option<Seq<char>>, Option<Seq<char>>);

    open spec fn view(&self) -> (Option<Seq<char>>, Option<Seq<char>>) {
        (list::text_of(self.name), list::text_of(self.description))
    }
}

/// What a permission is called: by its number where the catalog has no name
/// for it. The catalog gives no numbers; a permission's number is its place in
/// the catalog.
pub open spec fn name_of(names: Seq<(Seq<char>, Seq<char>)>, id: u32) -> (Seq<char>, Seq<char>) {
    if id < names.len() {
        names[id as int]
    } else {
        ("#"@ + number::decimal_text(id as nat), Seq::empty())
    }
}

/// A reported permission with its name.
pub open spec fn resolved_one(names: Seq<(Seq<char>, Seq<char>)>, p: RawPermission) -> EntryView {
    let (name, description) = name_of(names, p.id);
    EntryView { name, description, value: p.value, negated: p.negated, skip: p.skip }
}

/// Reported permissions with their names.
pub open spec fn resolved(
    names: Seq<(Seq<char>, Seq<char>)>,
    raw: Seq<RawPermission>,
) -> Seq<EntryView> {
    raw.map_values(|p: RawPermission| resolved_one(names, p))
}

/// The entries as plain values.
pub open spec fn entry_views(entries: Seq<PermissionEntry>) -> Seq<EntryView> {
    entries.map_values(|e: PermissionEntry| e@)
}

/// The names as plain values.
pub open spec fn name_views(names: Seq<PermissionName>) -> Seq<(Seq<char>, Seq<char>)> {
    names.map_values(|n: PermissionName| n@)
}

/// The catalog lines as plain values.
pub open spec fn line_views(lines: Seq<CatalogLine>) -> Seq<
    (Option<Seq<char>>, Option<Seq<char>>),
> {
    lines.map_values(|l: CatalogLine| l@)
}

/// The names that catalog lines bring.
pub open spec fn names_in(lines: Seq<(Option<Seq<char>>, Option<Seq<char>>)>) -> Seq<
    (Seq<char>, Seq<char>),
> {
    lines.map_values(
        |l: (Option<Seq<char>>, Option<Seq<char>>)| (list::or_empty(l.0), list::or_empty(l.1)),
    )
}

/// Whether a list is the whole catalog, numbered by place.
pub open spec fn is_catalog(
    names: Seq<(Seq<char>, Seq<char>)>,
    entries: Seq<CatalogEntry>,
) -> bool {
    &&& entries.len() == names.len()
    &&& forall|i: int|
        0 <= i < entries.len() ==> (#[trigger] entries[i]).id == i && (
        entries[i].name@,
        entries[i].description@,
    ) == names[i]
}

/// The permissions in a list that have a number.
pub open spec fn numbered(listed: Seq<ListedPermission>) -> Seq<RawPermission>
    decreases listed.len(),
{
    if listed.len() == 0 {
        Seq::empty()
    } else {
        let before = numbered(listed.drop_last());
        let p = listed.last();
        match p.id {
            Some(id) => before.push(
                RawPermission { id, value: p.value, negated: p.negated, skip: p.skip },
            ),
            None => before,
        }
    }
}

/// What is known and awaited about permissions.
///
/// Reports name permissions by number only, so the catalog is fetched once;
/// what arrives before its end waits.
pub struct PermissionBook {
    pub names: Vec<PermissionName>,
    /// The catalog is on its way.
    pub fetching: bool,
    /// An overview of the own permissions is awaited.
    pub overview_asked: bool,
    /// An overview that waits for the catalog.
    pub overview: Option<Vec<RawPermission>>,
    /// The target whose permissions are awaited.
    pub listed: Option<PermissionTarget>,
    /// A list that waits for the catalog.
    pub list: Option<Vec<RawPermission>>,
    /// The catalog itself was asked for.
    pub catalog_asked: bool,
}

/// The same as plain values.
#[verifier::ext_equal]
pub struct BookView {
    pub names: Seq<(Seq<char>, Seq<char>)>,
    pub fetching: bool,
    pub overview_asked: bool,
    pub overview: Option<Seq<RawPermission>>,
    pub listed: Option<PermissionTarget>,
    pub list: Option<Seq<RawPermission>>,
    pub catalog_asked: bool,
}

pub open spec fn raw_of(o: Option<Vec<RawPermission>>) -> Option<Seq<RawPermission>> {
    match o {
        Some(v) => Some(v@),
        None => None,
    }
}

impl View for PermissionBook {
    type V = BookView;

    open spec fn view(&self) -> BookView {
        BookView {
            names: name_views(self.names@),
            fetching: self.fetching,
            overview_asked: self.overview_asked,
            overview: raw_of(self.overview),
            listed: self.listed,
            list: raw_of(self.list),
            catalog_asked: self.catalog_asked,
        }
    }
}

/// What a request for the catalog comes to.
pub enum CatalogStep {
    /// Nothing has to be sent; the catalog is already on its way.
    Wait,
    /// The catalog has to be fetched.
    Fetch,
    /// The catalog is known.
    Known(Vec<CatalogEntry>),
}

/// What the end of the catalog brings to light.
pub struct CatalogDone {
    pub overview: Option<Vec<PermissionEntry>>,
    pub list: Option<(PermissionTarget, Vec<PermissionEntry>)>,
    pub catalog: Option<Vec<CatalogEntry>>,
}

pub open spec fn entries_of(o: Option<Vec<PermissionEntry>>) -> Option<Seq<EntryView>> {
    match o {
        Some(v) => Some(entry_views(v@)),
        None => None,
    }
}

pub open spec fn list_of(o: Option<(PermissionTarget, Vec<PermissionEntry>)>) -> Option<
    (PermissionTarget, Seq<EntryView>),
> {
    match o {
        Some((target, v)) => Some((target, entry_views(v@))),
        None => None,
    }
}

impl BookView {
    /// Whether the catalog has to be fetched before anything can be shown.
    pub open spec fn lacks_names(self) -> bool {
        self.names.len() == 0 && !self.fetching
    }

    /// After more of the catalog arrived.
    pub open spec fn with_lines(
        self,
        lines: Seq<(Option<Seq<char>>, Option<Seq<char>>)>,
    ) -> BookView {
        if self.fetching {
            BookView { names: self.names + names_in(lines), ..self }
        } else {
            self
        }
    }

    /// After an overview arrived, and what is shown of it at once.
    pub open spec fn with_overview(self, raw: Seq<RawPermission>) -> (
        BookView,
        Option<Seq<EntryView>>,
    ) {
        if !self.overview_asked {
            (self, None)
        } else if self.fetching {
            (BookView { overview_asked: false, overview: Some(raw), ..self }, None)
        } else {
            (BookView { overview_asked: false, ..self }, Some(resolved(self.names, raw)))
        }
    }

    /// After a list arrived, and what is shown of it at once.
    pub open spec fn with_list(self, listed: Seq<ListedPermission>) -> (
        BookView,
        Option<(PermissionTarget, Seq<EntryView>)>,
    ) {
        match self.listed {
            Some(target) => if self.fetching {
                (BookView { list: Some(numbered(listed)), ..self }, None)
            } else {
                (
                    BookView { listed: None, ..self },
                    Some((target, resolved(self.names, numbered(listed)))),
                )
            },
            None => (self, None),
        }
    }

    /// After the end of the catalog: nothing waits for it any more.
    pub open spec fn completed(self) -> BookView {
        BookView {
            fetching: false,
            overview: None,
            list: None,
            listed: if self.list is Some {
                None
            } else {
                self.listed
            },
            catalog_asked: false,
            ..self
        }
    }

    /// The overview that waited for the catalog.
    pub open spec fn waiting_overview(self) -> Option<Seq<EntryView>> {
        match self.overview {
            Some(raw) => Some(resolved(self.names, raw)),
            None => None,
        }
    }

    /// The list that waited for the catalog.
    pub open spec fn waiting_list(self) -> Option<(PermissionTarget, Seq<EntryView>)> {
        match (self.list, self.listed) {
            (Some(raw), Some(target)) => Some((target, resolved(self.names, raw))),
            _ => None,
        }
    }
}

fn resolve_one(names: &Vec<PermissionName>, p: RawPermission) -> (r: PermissionEntry)
    ensures
        r@ == resolved_one(name_views(names@), p),
{
    let (name, description) = if (p.id as u64) < (names.len() as u64) {
        let n = &names[p.id as usize];
        assert(name_views(names@)[p.id as int] == names@[p.id as int]@);
        (n.name.clone(), n.description.clone())
    } else {
        (join::plus("#", number::decimal(p.id as u64).as_str()), String::new())
    };
    PermissionEntry { name, description, value: p.value, negated: p.negated, skip: p.skip }
}

fn resolve(names: &Vec<PermissionName>, raw: &Vec<RawPermission>) -> (r: Vec<PermissionEntry>)
    ensures
        entry_views(r@) == resolved(name_views(names@), raw@),
{
    let mut r: Vec<PermissionEntry> = Vec::new();
    let mut i: usize = 0;
    while i < raw.len()
        invariant
            i <= raw.len(),
            r@.len() == i,
            forall|j: int|
                0 <= j < i ==> (#[trigger] r@[j])@ == resolved_one(name_views(names@), raw@[j]),
        decreases raw.len() - i,
    {
        r.push(resolve_one(names, raw[i]));
        i += 1;
    }
    assert(entry_views(r@) =~= resolved(name_views(names@), raw@));
    r
}

fn number_listed(listed: &Vec<ListedPermission>) -> (r: Vec<RawPermission>)
    ensures
        r@ == numbered(listed@),
{
    let mut r: Vec<RawPermission> = Vec::new();
    let mut i: usize = 0;
    while i < listed.len()
        invariant
            i <= listed.len(),
            r@ == numbered(listed@.take(i as int)),
        decreases listed.len() - i,
    {
        assert(listed@.take(i + 1).drop_last() =~= listed@.take(i as int));
        let p = listed[i];
        match p.id {
            Some(id) => r.push(
                RawPermission { id, value: p.value, negated: p.negated, skip: p.skip },
            ),
            None => {},
        }
        i += 1;
    }
    assert(listed@.take(listed@.len() as int) =~= listed@);
    r
}

fn catalog(names: &Vec<PermissionName>) -> (r: Vec<CatalogEntry>)
    requires
        names@.len() <= u32::MAX,
    ensures
        is_catalog(name_views(names@), r@),
{
    let mut r: Vec<CatalogEntry> = Vec::new();
    let mut i: usize = 0;
    while i < names.len()
        invariant
            i <= names.len(),
            names@.len() <= u32::MAX,
            r@.len() == i,
            forall|j: int|
                0 <= j < i ==> (#[trigger] r@[j]).id == j && (r@[j].name@, r@[j].description@)
                    == name_views(names@)[j],
        decreases names.len() - i,
    {
        assert(name_views(names@)[i as int] == names@[i as int]@);
        r.push(
            CatalogEntry {
                id: i as u32,
                name: names[i].name.clone(),
                description: names[i].description.clone(),
            },
        );
        i += 1;
    }
    r
}

impl PermissionBook {
    /// Permissions are numbered with 32 bits.
    pub open spec fn well_formed(self) -> bool {
        self.names@.len() <= u32::MAX
    }

    pub fn new() -> (r: PermissionBook)
        ensures
            r.well_formed(),
            r@ == (BookView {
                names: Seq::empty(),
                fetching: false,
                overview_asked: false,
                overview: None,
                listed: None,
                list: None,
                catalog_asked: false,
            }),
    {
        let r = PermissionBook {
            names: Vec::new(),
            fetching: false,
            overview_asked: false,
            overview: None,
            listed: None,
            list: None,
            catalog_asked: false,
        };
        assert(r@.names =~= Seq::empty());
        r
    }

    /// Whether the catalog has to be fetched along with a request.
    pub fn needs_names(&self) -> (r: bool)
        ensures
            r == self@.lacks_names(),
    {
        assert(self@.names.len() == self.names@.len());
        self.names.len() == 0 && !self.fetching
    }

    /// Notes that the catalog is on its way.
    pub fn names_asked(&mut self)
        requires
            old(self).well_formed(),
        ensures
            final(self).well_formed(),
            final(self)@ == (BookView { fetching: true, ..old(self)@ }),
    {
        self.fetching = true;
    }

    /// Notes that an overview is awaited.
    pub fn overview_requested(&mut self)
        requires
            old(self).well_formed(),
        ensures
            final(self).well_formed(),
            final(self)@ == (BookView { overview_asked: true, ..old(self)@ }),
    {
        self.overview_asked = true;
    }

    /// Notes that the permissions of a target are awaited.
    pub fn list_requested(&mut self, target: PermissionTarget)
        requires
            old(self).well_formed(),
        ensures
            final(self).well_formed(),
            final(self)@ == (BookView { listed: Some(target), ..old(self)@ }),
    {
        self.listed = Some(target);
    }

    /// Decides what a request for the catalog comes to. Two fetches at once
    /// would mix up their numbers.
    pub fn ask_catalog(&mut self) -> (r: CatalogStep)
        requires
            old(self).well_formed(),
        ensures
            final(self).well_formed(),
            match r {
                CatalogStep::Wait => old(self)@.fetching && final(self)@ == (BookView {
                    catalog_asked: true,
                    ..old(self)@
                }),
                CatalogStep::Fetch => old(self)@.lacks_names() && final(self)@ == old(self)@,
                CatalogStep::Known(entries) => !old(self)@.fetching && old(self)@.names.len() > 0
                    && is_catalog(old(self)@.names, entries@) && final(self)@ == old(self)@,
            },
    {
        assert(self@.names.len() == self.names@.len());
        if self.fetching {
            self.catalog_asked = true;
            CatalogStep::Wait
        } else if self.names.len() == 0 {
            CatalogStep::Fetch
        } else {
            CatalogStep::Known(catalog(&self.names))
        }
    }

    /// Notes that the catalog is on its way, and was asked for itself.
    pub fn catalog_requested(&mut self)
        requires
            old(self).well_formed(),
        ensures
            final(self).well_formed(),
            final(self)@ == (BookView { fetching: true, catalog_asked: true, ..old(self)@ }),
    {
        self.fetching = true;
        self.catalog_asked = true;
    }

    /// Takes in a part of the catalog.
    pub fn names_received(&mut self, lines: &Vec<CatalogLine>)
        requires
            old(self).well_formed(),
            old(self).fetching ==> old(self).names@.len() + lines@.len() <= u32::MAX,
        ensures
            final(self).well_formed(),
            final(self)@ == old(self)@.with_lines(line_views(lines@)),
    {
        if !self.fetching {
            return;
        }
        let ghost before = self@;
        let ghost brought = names_in(line_views(lines@));
        let mut i: usize = 0;
        assert(before.names + brought.take(0) =~= before.names);
        while i < lines.len()
            invariant
                i <= lines.len(),
                brought == names_in(line_views(lines@)),
                before.fetching,
                before.names.len() + lines@.len() <= u32::MAX,
                self.names@.len() == before.names.len() + i,
                self@ == (BookView { names: before.names + brought.take(i as int), ..before }),
            decreases lines.len() - i,
        {
            let ghost names = self.names@;
            let name = list::unwrap_text(&lines[i].name);
            let description = list::unwrap_text(&lines[i].description);
            assert(brought[i as int] == (name@, description@)) by {
                assert(line_views(lines@)[i as int] == lines@[i as int]@);
            }
            self.names.push(PermissionName { name, description });
            assert(name_views(self.names@) =~= name_views(names).push((name@, description@)));
            assert(brought.take(i + 1) =~= brought.take(i as int).push(brought[i as int]));
            assert(self@.names =~= before.names + brought.take(i + 1));
            i += 1;
        }
        assert(brought.take(brought.len() as int) =~= brought);
    }

    /// Takes in an overview; shows it unless it has to wait for the catalog.
    pub fn overview_received(&mut self, raw: Vec<RawPermission>) -> (r: Option<
        Vec<PermissionEntry>,
    >)
        requires
            old(self).well_formed(),
        ensures
            final(self).well_formed(),
            final(self)@ == old(self)@.with_overview(raw@).0,
            entries_of(r) == old(self)@.with_overview(raw@).1,
    {
        if !self.overview_asked {
            return None;
        }
        self.overview_asked = false;
        if self.fetching {
            self.overview = Some(raw);
            None
        } else {
            Some(resolve(&self.names, &raw))
        }
    }

    /// Takes in the permissions of a target; shows them unless they have to
    /// wait for the catalog.
    pub fn list_received(&mut self, listed: &Vec<ListedPermission>) -> (r: Option<
        (PermissionTarget, Vec<PermissionEntry>),
    >)
        requires
            old(self).well_formed(),
        ensures
            final(self).well_formed(),
            final(self)@ == old(self)@.with_list(listed@).0,
            list_of(r) == old(self)@.with_list(listed@).1,
    {
        let target = match self.listed {
            Some(target) => target,
            None => return None,
        };
        let raw = number_listed(listed);
        if self.fetching {
            self.list = Some(raw);
            None
        } else {
            self.listed = None;
            Some((target, resolve(&self.names, &raw)))
        }
    }

    /// The catalog is complete: shows what waited for it.
    pub fn names_complete(&mut self) -> (r: CatalogDone)
        requires
            old(self).well_formed(),
        ensures
            final(self).well_formed(),
            final(self)@ == old(self)@.completed(),
            entries_of(r.overview) == old(self)@.waiting_overview(),
            list_of(r.list) == old(self)@.waiting_list(),
            match r.catalog {
                Some(entries) => old(self)@.catalog_asked && is_catalog(
                    old(self)@.names,
                    entries@,
                ),
                None => !old(self)@.catalog_asked,
            },
    {
        self.fetching = false;
        let overview = match &self.overview {
            Some(raw) => Some(resolve(&self.names, raw)),
            None => None,
        };
        self.overview = None;
        let shown = match (&self.list, self.listed) {
            (Some(raw), Some(target)) => Some((target, resolve(&self.names, raw))),
            _ => None,
        };
        if self.list.is_some() {
            self.list = None;
            self.listed = None;
        }
        let catalog = if self.catalog_asked {
            Some(catalog(&self.names))
        } else {
            None
        };
        self.catalog_asked = false;
        CatalogDone { overview, list: shown, catalog }
    }
}

/// In how many parts the catalog arrives makes no difference.
pub proof fn law_catalog_may_arrive_in_parts(
    book: BookView,
    first: Seq<(Option<Seq<char>>, Option<Seq<char>>)>,
    second: Seq<(Option<Seq<char>>, Option<Seq<char>>)>,
)
    ensures
        book.with_lines(first).with_lines(second) == book.with_lines(first + second),
{
    assert(names_in(first) + names_in(second) =~= names_in(first + second));
    assert(book.names + names_in(first) + names_in(second) =~= book.names + names_in(
        first + second,
    ));
    assert(book.with_lines(first).with_lines(second) =~= book.with_lines(first + second));
}

/// A permission is called by the line of the catalog whose place is its
/// number.
pub proof fn law_number_is_place(
    book: BookView,
    lines: Seq<(Option<Seq<char>>, Option<Seq<char>>)>,
    id: u32,
)
    requires
        book.fetching,
        book.names.len() == 0,
        id < lines.len(),
    ensures
        name_of(book.with_lines(lines).names, id) == (
            list::or_empty(lines[id as int].0),
            list::or_empty(lines[id as int].1),
        ),
{
    assert(book.names + names_in(lines) =~= names_in(lines));
}

/// An overview that arrives while the catalog is on its way is shown at its
/// end as it would be shown had it arrived afterwards.
pub proof fn law_overview_waits_for_names(
    book: BookView,
    raw: Seq<RawPermission>,
    lines: Seq<(Option<Seq<char>>, Option<Seq<char>>)>,
)
    requires
        book.fetching,
        book.overview_asked,
        book.overview is None,
    ensures
        book.with_overview(raw).1 is None,
        book.with_overview(raw).0.with_lines(lines).waiting_overview() == book.with_lines(
            lines,
        ).completed().with_overview(raw).1,
        book.with_overview(raw).0.with_lines(lines).completed() == book.with_lines(
            lines,
        ).completed().with_overview(raw).0,
{
}

/// A list that arrives while the catalog is on its way is shown at its end as
/// it would be shown had it arrived afterwards.
pub proof fn law_list_waits_for_names(
    book: BookView,
    listed: Seq<ListedPermission>,
    lines: Seq<(Option<Seq<char>>, Option<Seq<char>>)>,
)
    requires
        book.fetching,
        book.listed is Some,
        book.list is None,
    ensures
        book.with_list(listed).1 is None,
        book.with_list(listed).0.with_lines(lines).waiting_list() == book.with_lines(
            lines,
        ).completed().with_list(listed).1,
        book.with_list(listed).0.with_lines(lines).completed() == book.with_lines(
            lines,
        ).completed().with_list(listed).0,
{
}

/// While the catalog is on its way no second fetch begins.
pub proof fn law_one_fetch_at_a_time(book: BookView)
    requires
        book.fetching,
    ensures
        !book.lacks_names(),
{
}

/// A permission that the catalog does not hold is called by its number.
pub proof fn law_unknown_permission_is_called_by_number(
    names: Seq<(Seq<char>, Seq<char>)>,
    id: u32,
)
    ensures
        id >= names.len() ==> name_of(names, id).0 == seq!['#'] + number::decimal_text(id as nat)
            && name_of(names, id).1.len() == 0,
        id < names.len() ==> name_of(names, id) == names[id as int],
{
    reveal_strlit("#");
    assert("#"@ =~= seq!['#']);
}

/// A reported permission is shown in its place, with its own value and flags
/// and the name of its number.
pub proof fn law_permissions_are_shown_in_place(
    names: Seq<(Seq<char>, Seq<char>)>,
    raw: Seq<RawPermission>,
    i: int,
)
    requires
        0 <= i < raw.len(),
    ensures
        resolved(names, raw).len() == raw.len(),
        ({
            let e = resolved(names, raw)[i];
            &&& e.value == raw[i].value
            &&& e.negated == raw[i].negated
            &&& e.skip == raw[i].skip
            &&& (e.name, e.description) == name_of(names, raw[i].id)
        }),
{
}

/// Of a list the permissions with a number count, each with its value and
/// flags, and in order.
pub proof fn law_numbered_permissions_count(
    first: Seq<ListedPermission>,
    second: Seq<ListedPermission>,
    p: ListedPermission,
)
    ensures
        numbered(first + second) == numbered(first) + numbered(second),
        p.id is None ==> numbered(seq![p]) == Seq::<RawPermission>::empty(),
        p.id matches Some(id) ==> numbered(seq![p]) == seq![
            RawPermission { id, value: p.value, negated: p.negated, skip: p.skip },
        ],
    decreases second.len(),
{
    assert(seq![p].drop_last() =~= Seq::empty());
    assert(numbered(seq![p].drop_last()) =~= Seq::<RawPermission>::empty());
    if second.len() == 0 {
        assert(first + second =~= first);
        assert(numbered(second) =~= Seq::<RawPermission>::empty());
    } else {
        law_numbered_permissions_count(first, second.drop_last(), p);
        assert((first + second).drop_last() =~= first + second.drop_last());
        assert((first + second).last() == second.last());
        assert(numbered(first + second) =~= numbered(first) + numbered(second));
    }
}

/// What was asked for is shown once the names are known, and once only; what
/// was not asked for is never shown.
pub proof fn law_asked_permissions_are_shown_once(
    book: BookView,
    raw: Seq<RawPermission>,
    listed: Seq<ListedPermission>,
)
    ensures
        !book.overview_asked ==> book.with_overview(raw) == (
            book,
            None::<Seq<EntryView>>,
        ),
        book.overview_asked && !book.fetching ==> book.with_overview(raw).1 == Some(
            resolved(book.names, raw),
        ) && !book.with_overview(raw).0.overview_asked,
        book.listed is None ==> book.with_list(listed) == (
            book,
            None::<(PermissionTarget, Seq<EntryView>)>,
        ),
        book.listed is Some && !book.fetching ==> book.with_list(listed).1 == Some(
            (book.listed.unwrap(), resolved(book.names, numbered(listed))),
        ) && book.with_list(listed).0.listed is None,
{
}

/// The catalog is fetched where nothing of it is known and nothing of it is on
/// its way, and only there; lines that nobody fetched are dropped.
pub proof fn law_catalog_is_fetched_when_unknown(
    book: BookView,
    lines: Seq<(Option<Seq<char>>, Option<Seq<char>>)>,
)
    ensures
        book.lacks_names() <==> book.names.len() == 0 && !book.fetching,
        !book.fetching ==> book.with_lines(lines) == book,
        book.fetching ==> book.with_lines(lines).names.len() == book.names.len() + lines.len(),
        !book.completed().fetching && !book.completed().catalog_asked,
        book.completed().names == book.names,
        book.completed().overview is None && book.completed().list is None,
{
}

} // verus!
