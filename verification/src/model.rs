//! Places: local paths as bytes, and the addresses of virtual places.
use vstd::prelude::*;

use crate::text::{has_prefix, lossy_text, starts_with, to_lossy_text};

verus! {

/// A place that can be browsed: a native path, or a URI of a virtual file system.
///
/// A native path is kept as the bytes that the file system gave. It is turned into text for
/// display only.
#[derive(Debug)]
pub enum Location {
    Local(Vec<u8>),
    Uri(String),
}

/// What a location holds.
pub enum LocationView {
    Local(Seq<u8>),
    Uri(Seq<char>),
}

/// The components of a native path: whether it starts at the root, and the names on the way.
pub struct PathParts {
    pub absolute: bool,
    pub names: Seq<Seq<u8>>,
}

/// What tells two locations apart.
pub enum LocationKey {
    Local(PathParts),
    Uri(Seq<char>),
}

/// The pieces of `path` between its slashes.
pub open spec fn pieces(path: Seq<u8>) -> Seq<Seq<u8>>
    decreases path.len(),
{
    if path.len() == 0 {
        seq![Seq::<u8>::empty()]
    } else {
        let before = pieces(path.drop_last());
        if path.last() == 47u8 {
            before.push(Seq::<u8>::empty())
        } else {
            before.update(before.len() - 1, before.last().push(path.last()))
        }
    }
}

/// Whether a piece names nothing: it is empty, or a dot that does not start the path.
pub open spec fn is_filler(piece: Seq<u8>, index: int) -> bool {
    piece.len() == 0 || (index > 0 && piece == seq![46u8])
}

/// The pieces that name something, in order.
pub open spec fn named_pieces(pieces: Seq<Seq<u8>>) -> Seq<Seq<u8>>
    decreases pieces.len(),
{
    if pieces.len() == 0 {
        Seq::empty()
    } else {
        let before = named_pieces(pieces.drop_last());
        if is_filler(pieces.last(), pieces.len() - 1) {
            before
        } else {
            before.push(pieces.last())
        }
    }
}

/// The components of a native path. Repeated and trailing slashes, and dots inside the path,
/// make no difference.
pub open spec fn path_parts(path: Seq<u8>) -> PathParts {
    PathParts { absolute: path.len() > 0 && path[0] == 47u8, names: named_pieces(pieces(path)) }
}

impl LocationView {
    /// Two locations are the same place where their keys are the same.
    pub open spec fn key(self) -> LocationKey {
        match self {
            LocationView::Local(path) => LocationKey::Local(path_parts(path)),
            LocationView::Uri(uri) => LocationKey::Uri(uri),
        }
    }
}

impl View for Location {
    type V = LocationView;

    open spec fn view(&self) -> LocationView {
        match self {
            Location::Local(path) => LocationView::Local(path@),
            Location::Uri(uri) => LocationView::Uri(uri@),
        }
    }
}

/// The names of a list of names.
pub open spec fn names_of(names: Seq<Vec<u8>>) -> Seq<Seq<u8>> {
    names.map_values(|name: Vec<u8>| name@)
}

/// Whether the two names are the same.
pub fn same_bytes(a: &Vec<u8>, b: &Vec<u8>) -> (same: bool)
    ensures
        same == (a@ == b@),
{
    if a.len() != b.len() {
        return false;
    }
    let mut i: usize = 0;
    while i < a.len()
        invariant
            a@.len() == b@.len(),
            i <= a@.len(),
            forall|k: int| 0 <= k < i ==> a@[k] == b@[k],
        decreases a@.len() - i,
    {
        if a[i] != b[i] {
            return false;
        }
        i += 1;
    }
    assert(a@ =~= b@);
    true
}

/// A copy of the bytes.
pub fn copy_bytes(bytes: &Vec<u8>) -> (copy: Vec<u8>)
    ensures
        copy@ == bytes@,
{
    let mut copy: Vec<u8> = Vec::new();
    let mut i: usize = 0;
    while i < bytes.len()
        invariant
            i <= bytes@.len(),
            copy@ == bytes@.take(i as int),
        decreases bytes@.len() - i,
    {
        copy.push(bytes[i]);
        i += 1;
        assert(copy@ =~= bytes@.take(i as int));
    }
    assert(copy@ =~= bytes@);
    copy
}

/// The names on the way of a native path.
pub fn path_names(path: &Vec<u8>) -> (names: Vec<Vec<u8>>)
    ensures
        names_of(names@) == path_parts(path@).names,
{
    let mut names: Vec<Vec<u8>> = Vec::new();
    let mut piece: Vec<u8> = Vec::new();
    let mut first = true;
    let mut i: usize = 0;
    let ghost mut done: Seq<Seq<u8>> = Seq::empty();
    proof {
        assert(path@.take(0) =~= Seq::<u8>::empty());
        assert(pieces(path@.take(0)) =~= done.push(piece@));
        assert(names_of(names@) =~= named_pieces(done));
    }
    loop
        invariant_except_break
            i <= path@.len(),
            first == (done.len() == 0),
            pieces(path@.take(i as int)) == done.push(piece@),
            names_of(names@) == named_pieces(done),
        ensures
            names_of(names@) == named_pieces(pieces(path@)),
        decreases path@.len() - i,
    {
        if i == path.len() || path[i] == 47 {
            let filler = piece.len() == 0 || (!first && piece.len() == 1 && piece[0] == 46);
            proof {
                assert(filler == is_filler(piece@, done.len() as int)) by {
                    if piece@.len() == 1 && piece@[0] == 46u8 {
                        assert(piece@ =~= seq![46u8]);
                    }
                }
                assert(done.push(piece@).drop_last() =~= done);
            }
            let ghost before = names@;
            if !filler {
                names.push(piece);
                assert(names_of(names@) =~= names_of(before).push(names@.last()@));
            }
            proof {
                assert(names_of(names@) == named_pieces(done.push(pieces(path@.take(i as int)).last())));
                done = pieces(path@.take(i as int));
            }
            if i == path.len() {
                assert(path@.take(i as int) =~= path@);
                break;
            }
            piece = Vec::new();
            first = false;
            i += 1;
            proof {
                assert(path@.take(i as int).drop_last() =~= path@.take(i - 1));
                assert(pieces(path@.take(i as int)) =~= done.push(piece@));
            }
        } else {
            let ghost before = piece@;
            piece.push(path[i]);
            i += 1;
            proof {
                assert(path@.take(i as int).drop_last() =~= path@.take(i - 1));
                assert(done.push(before).update(done.len() as int, piece@) =~= done.push(piece@));
                assert(pieces(path@.take(i as int)) =~= done.push(piece@));
            }
        }
    }
    names
}

/// Whether the two lists hold the same names.
fn same_names(a: &Vec<Vec<u8>>, b: &Vec<Vec<u8>>) -> (same: bool)
    ensures
        same == (names_of(a@) == names_of(b@)),
{
    if a.len() != b.len() {
        assert(names_of(a@).len() != names_of(b@).len());
        return false;
    }
    let mut i: usize = 0;
    while i < a.len()
        invariant
            a@.len() == b@.len(),
            i <= a@.len(),
            forall|k: int| 0 <= k < i ==> (#[trigger] a@[k])@ == b@[k]@,
        decreases a@.len() - i,
    {
        if !same_bytes(&a[i], &b[i]) {
            assert(names_of(a@)[i as int] != names_of(b@)[i as int]);
            return false;
        }
        i += 1;
    }
    assert(names_of(a@) =~= names_of(b@));
    true
}

/// Whether two native paths have the same components.
pub fn same_path(a: &Vec<u8>, b: &Vec<u8>) -> (same: bool)
    ensures
        same == (path_parts(a@) == path_parts(b@)),
{
    let a_absolute = a.len() > 0 && a[0] == 47;
    let b_absolute = b.len() > 0 && b[0] == 47;
    let names = same_names(&path_names(a), &path_names(b));
    a_absolute == b_absolute && names
}

/// The native path that leads from the start of `parts` over its first `count` names.
pub open spec fn path_to(parts: PathParts, count: int) -> Seq<u8>
    decreases count,
{
    if count <= 0 {
        if parts.absolute {
            seq![47u8]
        } else {
            Seq::empty()
        }
    } else if count == 1 {
        path_to(parts, 0) + parts.names[0]
    } else {
        path_to(parts, count - 1) + seq![47u8] + parts.names[count - 1]
    }
}

/// The places on the way to a location, from the outermost one to the location itself.
pub open spec fn trail(location: LocationView) -> Seq<LocationView> {
    match location {
        LocationView::Uri(_) => seq![location],
        LocationView::Local(path) => {
            let parts = path_parts(path);
            let first: int = if parts.absolute { 0 } else { 1 };
            let count: int = if parts.names.len() < first { 0 } else { parts.names.len() - first };
            Seq::new(count as nat, |i: int| LocationView::Local(path_to(parts, i + first))).push(location)
        },
    }
}

/// The text by which a location is known: a URI as it is, a path by its characters.
pub open spec fn path_text(location: LocationView) -> Seq<char> {
    match location {
        LocationView::Local(path) => lossy_text(path),
        LocationView::Uri(uri) => uri,
    }
}

/// The name under which a location is shown: the last name of its path, or all of it where
/// the path has no names.
pub open spec fn name_text(location: LocationView) -> Seq<char> {
    match location {
        LocationView::Local(path) => {
            let names = path_parts(path).names;
            if names.len() == 0 {
                lossy_text(path)
            } else {
                lossy_text(names.last())
            }
        },
        LocationView::Uri(uri) => uri,
    }
}

/// Whether the location is the trash, or lies in it.
pub open spec fn in_trash(location: LocationView) -> bool {
    match location {
        LocationView::Local(_) => false,
        LocationView::Uri(uri) => has_prefix(uri, "trash:"@),
    }
}

/// Whether the location is the root of the native file system.
pub open spec fn is_root(location: LocationView) -> bool {
    match location {
        LocationView::Local(path) => path_parts(path).absolute && path_parts(path).names.len() == 0,
        LocationView::Uri(_) => false,
    }
}

impl Clone for Location {
    fn clone(&self) -> (copy: Self)
        ensures
            copy@ == self@,
    {
        match self {
            Location::Local(path) => Location::Local(copy_bytes(path)),
            Location::Uri(uri) => Location::Uri(uri.clone()),
        }
    }
}

impl PartialEq for Location {
    fn eq(&self, other: &Self) -> (same: bool) {
        self.same(other)
    }
}

impl vstd::std_specs::cmp::PartialEqSpecImpl for Location {
    open spec fn obeys_eq_spec() -> bool {
        true
    }

    open spec fn eq_spec(&self, other: &Self) -> bool {
        self@.key() == other@.key()
    }
}

impl Location {
    /// The place at a native path.
    pub fn local(path: Vec<u8>) -> (location: Self)
        ensures
            location@ == LocationView::Local(path@),
    {
        Location::Local(path)
    }

    /// The place that a URI names.
    pub fn uri(text: String) -> (location: Self)
        ensures
            location@ == LocationView::Uri(text@),
    {
        Location::Uri(text)
    }

    /// The bytes of the native path, unchanged.
    pub fn native_path(&self) -> (path: Option<&Vec<u8>>)
        ensures
            match self@ {
                LocationView::Local(bytes) => path is Some && path->0@ == bytes,
                LocationView::Uri(_) => path is None,
            },
    {
        match self {
            Location::Local(path) => Some(path),
            Location::Uri(_) => None,
        }
    }

    /// The URI of a place that has no native path.
    pub fn uri_value(&self) -> (uri: Option<&String>)
        ensures
            match self@ {
                LocationView::Local(_) => uri is None,
                LocationView::Uri(text) => uri is Some && uri->0@ == text,
            },
    {
        match self {
            Location::Local(_) => None,
            Location::Uri(uri) => Some(uri),
        }
    }

    /// Whether both are the same place.
    pub fn same(&self, other: &Location) -> (same: bool)
        ensures
            same == (self@.key() == other@.key()),
    {
        match (self, other) {
            (Location::Local(a), Location::Local(b)) => same_path(a, b),
            (Location::Uri(a), Location::Uri(b)) => *a == *b,
            _ => false,
        }
    }

    /// The whole place as text.
    pub fn display_path(&self) -> (text: String)
        ensures
            text@ == path_text(self@),
    {
        match self {
            Location::Local(path) => to_lossy_text(path),
            Location::Uri(uri) => uri.clone(),
        }
    }

    /// The last name of the place as text.
    pub fn display_name(&self) -> (text: String)
        ensures
            text@ == name_text(self@),
    {
        match self {
            Location::Local(path) => {
                let names = path_names(path);
                if names.len() == 0 {
                    assert(names_of(names@).len() == 0);
                    to_lossy_text(path)
                } else {
                    assert(names_of(names@).last() == names@.last()@);
                    to_lossy_text(&names[names.len() - 1])
                }
            },
            Location::Uri(uri) => uri.clone(),
        }
    }

    /// The places on the way to this one, the outermost one first, this one last.
    pub fn breadcrumbs(&self) -> (places: Vec<Location>)
        ensures
            locations_of(places@) == trail(self@),
    {
        let mut places: Vec<Location> = Vec::new();
        if let Location::Local(path) = self {
            let names = path_names(path);
            let absolute = path.len() > 0 && path[0] == 47;
            let ghost parts = path_parts(path@);
            let first: usize = if absolute { 0 } else { 1 };
            let mut prefix: Vec<u8> = Vec::new();
            if absolute {
                prefix.push(47);
            }
            assert(prefix@ =~= path_to(parts, 0));
            let mut i: usize = 0;
            while i < names.len()
                invariant
                    names_of(names@) == parts.names,
                    parts.absolute == absolute,
                    first == if absolute { 0int } else { 1int },
                    i <= names@.len(),
                    prefix@ == path_to(parts, i as int),
                    i == 0 ==> places@.len() == 0,
                    i > 0 ==> places@.len() == i - first,
                    forall|k: int|
                        0 <= k < places@.len() ==> (#[trigger] places@[k])@ == LocationView::Local(
                            path_to(parts, k + first),
                        ),
                decreases names@.len() - i,
            {
                if i >= first {
                    places.push(Location::Local(copy_bytes(&prefix)));
                }
                if i > 0 {
                    prefix.push(47);
                }
                let ghost base = prefix@;
                let mut k: usize = 0;
                while k < names[i].len()
                    invariant
                        i < names@.len(),
                        k <= names@[i as int]@.len(),
                        prefix@ == base + names@[i as int]@.take(k as int),
                    decreases names@[i as int]@.len() - k,
                {
                    prefix.push(names[i][k]);
                    k += 1;
                    assert(prefix@ =~= base + names@[i as int]@.take(k as int));
                }
                proof {
                    assert(names@[i as int]@.take(k as int) =~= names@[i as int]@);
                    assert(names_of(names@)[i as int] == names@[i as int]@);
                    assert(base + names@[i as int]@ =~= path_to(parts, i + 1));
                }
                i += 1;
            }
            proof {
                let count: int = if parts.names.len() < first { 0 } else { parts.names.len() - first };
                assert(names_of(names@).len() == names@.len());
                assert(locations_of(places@) =~= Seq::new(
                    count as nat,
                    |k: int| LocationView::Local(path_to(parts, k + first)),
                ));
            }
        }
        let ghost before = places@;
        places.push(self.clone());
        assert(locations_of(places@) =~= locations_of(before).push(self@));
        places
    }

    /// Whether the place is the trash, or lies in it.
    pub fn is_trash_location(&self) -> (trash: bool)
        ensures
            trash == in_trash(self@),
    {
        match self {
            Location::Local(_) => false,
            Location::Uri(uri) => starts_with(uri.as_str(), "trash:"),
        }
    }

    /// Whether the place is the root of the native file system.
    pub fn is_root(&self) -> (root: bool)
        ensures
            root == is_root(self@),
    {
        match self {
            Location::Local(path) => {
                let names = path_names(path);
                assert(names_of(names@).len() == names@.len());
                path.len() > 0 && path[0] == 47 && names.len() == 0
            },
            Location::Uri(_) => false,
        }
    }
}

/// The views of a list of locations.
pub open spec fn locations_of(locations: Seq<Location>) -> Seq<LocationView> {
    locations.map_values(|location: Location| location@)
}

} // verus!
