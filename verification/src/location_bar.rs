//! How places are written for the user: as a trail of crumbs, and as a short path.
use vstd::prelude::*;
use vstd::string::*;

use crate::model::{
    is_filler, is_root, locations_of, name_text, named_pieces, names_of, path_names, path_parts,
    path_text, pieces, same_bytes, same_path, trail, Location, LocationKey, LocationView,
};
use crate::text::{lossy_text, to_lossy_text};

verus! {

/// One place on the way to a location.
#[derive(Debug)]
pub struct Crumb {
    pub location: Location,
    pub label: String,
    /// Whether a slash stands before it.
    pub separated: bool,
    /// Whether it is the location itself.
    pub current: bool,
    /// Whether it is a way to the root of the native file system.
    pub root: bool,
}

/// What a crumb holds.
#[verifier::ext_equal]
pub struct CrumbView {
    pub location: LocationView,
    pub label: Seq<char>,
    pub separated: bool,
    pub current: bool,
    pub root: bool,
}

impl View for Crumb {
    type V = CrumbView;

    open spec fn view(&self) -> CrumbView {
        CrumbView {
            location: self.location@,
            label: self.label@,
            separated: self.separated,
            current: self.current,
            root: self.root,
        }
    }
}

/// The views of a list of crumbs.
pub open spec fn crumbs_of(crumbs: Seq<Crumb>) -> Seq<CrumbView> {
    crumbs.map_values(|crumb: Crumb| crumb@)
}

/// The first place from `at` on with this key.
pub open spec fn place_from(places: Seq<LocationView>, key: LocationKey, at: int) -> Option<int>
    decreases places.len() - at,
{
    if at < 0 || at >= places.len() {
        None
    } else if places[at].key() == key {
        Some(at)
    } else {
        place_from(places, key, at + 1)
    }
}

/// The places of a trail that are shown: those from the home directory on, where it is on the way.
pub open spec fn shown_trail(location: LocationView, home: LocationView) -> Seq<LocationView> {
    match place_from(trail(location), home.key(), 0) {
        Some(at) => trail(location).skip(at),
        None => trail(location),
    }
}

/// One crumb of a trail. The root is its own slash, so none follows it.
pub open spec fn crumb_at(places: Seq<LocationView>, home: LocationView, index: int) -> CrumbView {
    CrumbView {
        location: places[index],
        label: if places[index].key() == home.key() {
            "~"@
        } else {
            name_text(places[index])
        },
        separated: index > 0 && !(is_root(places[0]) && index == 1),
        current: index == places.len() - 1,
        root: index < places.len() - 1 && is_root(places[index]),
    }
}

/// The crumbs that lead to a location.
pub open spec fn crumbs(location: LocationView, home: LocationView) -> Seq<CrumbView> {
    let places = shown_trail(location, home);
    Seq::new(places.len(), |index: int| crumb_at(places, home, index))
}

/// The crumbs that lead to a location.
pub fn location_crumbs(location: &Location, home: &Location) -> (shown: Vec<Crumb>)
    ensures
        crumbs_of(shown@) == crumbs(location@, home@),
{
    let all = location.breadcrumbs();
    let ghost whole = trail(location@);
    let mut from: usize = 0;
    assert(locations_of(all@).len() == all@.len());
    while from < all.len() && !all[from].same(home)
        invariant
            locations_of(all@) == whole,
            whole.len() == all@.len(),
            from <= all@.len(),
            place_from(whole, home@.key(), 0) == place_from(whole, home@.key(), from as int),
        decreases all@.len() - from,
    {
        assert(whole[from as int] == all@[from as int]@);
        from += 1;
    }
    proof {
        if from < all@.len() {
            assert(whole[from as int] == all@[from as int]@);
        }
    }
    if from == all.len() {
        from = 0;
    }
    let ghost places = shown_trail(location@, home@);
    assert(places =~= whole.skip(from as int));
    let starts_at_root = from < all.len() && all[from].is_root();
    let mut shown: Vec<Crumb> = Vec::new();
    let mut i: usize = from;
    while i < all.len()
        invariant
            locations_of(all@) == whole,
            whole.len() == all@.len(),
            places == shown_trail(location@, home@),
            places == whole.skip(from as int),
            from <= i <= all@.len(),
            from < all@.len() ==> starts_at_root == is_root(places[0]),
            shown@.len() == i - from,
            forall|k: int| 0 <= k < shown@.len() ==> (#[trigger] shown@[k])@ == crumb_at(places, home@, k),
        decreases all@.len() - i,
    {
        let ghost index = i - from;
        assert(places[index] == all@[i as int]@);
        let current = i == all.len() - 1;
        let crumb = Crumb {
            location: all[i].clone(),
            label: if all[i].same(home) {
                "~".to_owned()
            } else {
                all[i].display_name()
            },
            separated: i > from && !(starts_at_root && i - from == 1),
            current,
            root: !current && all[i].is_root(),
        };
        assert(crumb@ =~= crumb_at(places, home@, index));
        shown.push(crumb);
        i += 1;
    }
    assert(crumbs_of(shown@) =~= crumbs(location@, home@));
    shown
}

/// A trail ends at its location, and that crumb alone is the current one. Where the home directory
/// is on the way, the trail starts there.
pub proof fn lemma_crumbs(location: LocationView, home: LocationView)
    ensures
        crumbs(location, home).len() > 0,
        crumbs(location, home).last().location == location,
        forall|k: int|
            0 <= k < crumbs(location, home).len() ==> ((#[trigger] crumbs(location, home)[k]).current
                <==> k == crumbs(location, home).len() - 1),
        place_from(trail(location), home.key(), 0) is Some ==> crumbs(
            location,
            home,
        )[0].location.key() == home.key() && crumbs(location, home)[0].label == "~"@,
        forall|k: int|
            0 < k < crumbs(location, home).len() ==> ((#[trigger] crumbs(location, home)[k]).separated
                <==> !(k == 1 && is_root(crumbs(location, home)[0].location))),
{
    lemma_place_from(trail(location), home.key(), 0);
    assert(trail(location).len() > 0);
    assert(trail(location).last() == location);
}

proof fn lemma_place_from(places: Seq<LocationView>, key: LocationKey, at: int)
    requires
        0 <= at,
    ensures
        place_from(places, key, at) matches Some(found) ==> at <= found < places.len()
            && places[found].key() == key,
    decreases places.len() - at,
{
    if at < places.len() && places[at].key() != key {
        lemma_place_from(places, key, at + 1);
    }
}

// Short paths.

/// Where each piece of a path begins and ends.
pub open spec fn spans(path: Seq<u8>) -> Seq<(int, int)>
    decreases path.len(),
{
    if path.len() == 0 {
        seq![(0, 0)]
    } else {
        let before = spans(path.drop_last());
        let end = path.len() as int;
        if path.last() == 47u8 {
            before.push((end, end))
        } else {
            before.update(before.len() - 1, (before.last().0, end))
        }
    }
}

/// Where those pieces begin and end that name something.
pub open spec fn named_spans(pieces: Seq<Seq<u8>>, spans: Seq<(int, int)>) -> Seq<(int, int)>
    decreases pieces.len(),
{
    if pieces.len() == 0 {
        Seq::empty()
    } else {
        let before = named_spans(pieces.drop_last(), spans.drop_last());
        if is_filler(pieces.last(), pieces.len() - 1) {
            before
        } else {
            before.push(spans.last())
        }
    }
}

/// Where the names on the way of a path begin and end.
pub open spec fn name_spans(path: Seq<u8>) -> Seq<(int, int)> {
    named_spans(pieces(path), spans(path))
}

/// Where the last name of a path ends, or its root where it has no names.
pub open spec fn body_end(path: Seq<u8>) -> int {
    if name_spans(path).len() > 0 {
        name_spans(path).last().1
    } else if path_parts(path).absolute {
        1
    } else {
        0
    }
}

/// What leads from a directory to a path in it, as it is written in the path.
pub open spec fn suffix_behind(path: Seq<u8>, home: Seq<u8>) -> Option<Seq<u8>> {
    let from = path_parts(home);
    let to = path_parts(path);
    if !from.absolute && from.names.len() == 0 {
        Some(path.take(body_end(path)))
    } else if from.absolute == to.absolute && from.names.len() < to.names.len()
        && from.names.is_prefix_of(to.names) {
        Some(path.subrange(name_spans(path)[from.names.len() as int].0, body_end(path)))
    } else {
        None
    }
}

/// A place in short: the home directory as a tilde, what lies in it from there on.
pub open spec fn compact_text(location: LocationView, home: LocationView) -> Seq<char> {
    match (location, home) {
        (LocationView::Local(path), LocationView::Local(start)) => if path_parts(path)
            == path_parts(start) {
            "~"@
        } else {
            match suffix_behind(path, start) {
                Some(suffix) => "~/"@ + lossy_text(suffix),
                None => path_text(location),
            }
        },
        _ => path_text(location),
    }
}

proof fn lemma_spans(path: Seq<u8>)
    ensures
        spans(path).len() == pieces(path).len(),
        pieces(path).len() > 0,
        forall|k: int|
            0 <= k < spans(path).len() ==> 0 <= (#[trigger] spans(path)[k]).0 <= spans(path)[k].1
                <= path.len(),
        forall|j: int, k: int|
            0 <= j < k < spans(path).len() ==> (#[trigger] spans(path)[j]).1 <= (#[trigger] spans(
                path,
            )[k]).0,
        spans(path).last().1 == path.len(),
    decreases path.len(),
{
    if path.len() > 0 {
        lemma_spans(path.drop_last());
    }
}

proof fn lemma_named_spans(pieces: Seq<Seq<u8>>, spans: Seq<(int, int)>, length: int)
    requires
        pieces.len() == spans.len(),
        forall|k: int|
            0 <= k < spans.len() ==> 0 <= (#[trigger] spans[k]).0 <= spans[k].1 <= length,
        forall|j: int, k: int|
            0 <= j < k < spans.len() ==> (#[trigger] spans[j]).1 <= (#[trigger] spans[k]).0,
    ensures
        named_spans(pieces, spans).len() == named_pieces(pieces).len(),
        forall|k: int|
            0 <= k < named_spans(pieces, spans).len() ==> {
                &&& 0 <= (#[trigger] named_spans(pieces, spans)[k]).0
                &&& named_spans(pieces, spans)[k].0 <= named_spans(pieces, spans)[k].1 <= length
                &&& spans.len() > 0
                &&& named_spans(pieces, spans)[k].1 <= spans.last().1
            },
        forall|j: int, k: int|
            0 <= j < k < named_spans(pieces, spans).len() ==> (#[trigger] named_spans(
                pieces,
                spans,
            )[j]).1 <= (#[trigger] named_spans(pieces, spans)[k]).0,
    decreases pieces.len(),
{
    if pieces.len() > 0 {
        let shorter = spans.drop_last();
        assert forall|j: int, k: int| 0 <= j < k < shorter.len() implies (#[trigger] shorter[j]).1
            <= (#[trigger] shorter[k]).0 by {
            assert(spans[j].1 <= spans[k].0);
        }
        assert forall|k: int| 0 <= k < shorter.len() implies 0 <= (#[trigger] shorter[k]).0
            <= shorter[k].1 <= length by {
            assert(spans[k].0 >= 0);
        }
        lemma_named_spans(pieces.drop_last(), shorter, length);
        if shorter.len() > 0 {
            assert(spans[shorter.len() - 1].1 <= spans[spans.len() - 1].0);
        }
    }
}

/// Where the names on the way of a path begin and end.
fn path_spans(path: &Vec<u8>) -> (found: Vec<(usize, usize)>)
    ensures
        found@.len() == name_spans(path@).len(),
        forall|k: int|
            0 <= k < found@.len() ==> (#[trigger] found@[k]).0 == name_spans(path@)[k].0
                && found@[k].1 == name_spans(path@)[k].1,
{
    let mut found: Vec<(usize, usize)> = Vec::new();
    let mut begin: usize = 0;
    let mut first = true;
    let mut i: usize = 0;
    let ghost mut done: Seq<Seq<u8>> = Seq::empty();
    let ghost mut past: Seq<(int, int)> = Seq::empty();
    proof {
        assert(path@.take(0) =~= Seq::<u8>::empty());
        assert(pieces(path@.take(0)) =~= done.push(path@.subrange(0, 0)));
        assert(spans(path@.take(0)) =~= past.push((0, 0)));
    }
    loop
        invariant_except_break
            begin <= i <= path@.len(),
            first == (done.len() == 0),
            done.len() == past.len(),
            pieces(path@.take(i as int)) == done.push(path@.subrange(begin as int, i as int)),
            spans(path@.take(i as int)) == past.push((begin as int, i as int)),
            found@.len() == named_spans(done, past).len(),
            forall|k: int|
                0 <= k < found@.len() ==> (#[trigger] found@[k]).0 == named_spans(done, past)[k].0
                    && found@[k].1 == named_spans(done, past)[k].1,
        ensures
            found@.len() == name_spans(path@).len(),
            forall|k: int|
                0 <= k < found@.len() ==> (#[trigger] found@[k]).0 == name_spans(path@)[k].0
                    && found@[k].1 == name_spans(path@)[k].1,
        decreases path@.len() - i,
    {
        if i == path.len() || path[i] == 47 {
            let filler = begin == i || (!first && i - begin == 1 && path[begin] == 46);
            proof {
                let piece = path@.subrange(begin as int, i as int);
                assert(filler == is_filler(piece, done.len() as int)) by {
                    if piece.len() == 1 && piece[0] == 46u8 {
                        assert(piece =~= seq![46u8]);
                    }
                }
                assert(done.push(piece).drop_last() =~= done);
                assert(past.push((begin as int, i as int)).drop_last() =~= past);
            }
            if !filler {
                found.push((begin, i));
            }
            proof {
                done = pieces(path@.take(i as int));
                past = spans(path@.take(i as int));
            }
            if i == path.len() {
                assert(path@.take(i as int) =~= path@);
                break;
            }
            first = false;
            i += 1;
            begin = i;
            proof {
                assert(path@.take(i as int).drop_last() =~= path@.take(i - 1));
                assert(path@.subrange(begin as int, i as int) =~= Seq::<u8>::empty());
                assert(pieces(path@.take(i as int)) =~= done.push(
                    path@.subrange(begin as int, i as int),
                ));
                assert(spans(path@.take(i as int)) =~= past.push((begin as int, i as int)));
            }
        } else {
            i += 1;
            proof {
                let piece = path@.subrange(begin as int, i as int);
                assert(path@.take(i as int).drop_last() =~= path@.take(i - 1));
                assert(piece =~= path@.subrange(begin as int, i - 1).push(path@[i - 1]));
                assert(pieces(path@.take(i as int)) =~= done.push(piece));
                assert(spans(path@.take(i as int)) =~= past.push((begin as int, i as int)));
            }
        }
    }
    found
}

/// A part of a path.
fn path_between(path: &Vec<u8>, from: usize, to: usize) -> (part: Vec<u8>)
    requires
        from <= to <= path@.len(),
    ensures
        part@ == path@.subrange(from as int, to as int),
{
    let mut part: Vec<u8> = Vec::new();
    let mut i: usize = from;
    while i < to
        invariant
            from <= i <= to <= path@.len(),
            part@ == path@.subrange(from as int, i as int),
        decreases to - i,
    {
        part.push(path[i]);
        i += 1;
        assert(part@ =~= path@.subrange(from as int, i as int));
    }
    part
}

/// Whether a list of names starts with another one.
fn starts_with_names(names: &Vec<Vec<u8>>, first: &Vec<Vec<u8>>) -> (found: bool)
    ensures
        found == names_of(first@).is_prefix_of(names_of(names@)),
{
    assert(names_of(names@).len() == names@.len());
    assert(names_of(first@).len() == first@.len());
    if first.len() > names.len() {
        return false;
    }
    let mut i: usize = 0;
    while i < first.len()
        invariant
            first@.len() <= names@.len(),
            i <= first@.len(),
            forall|k: int| 0 <= k < i ==> (#[trigger] first@[k])@ == names@[k]@,
        decreases first@.len() - i,
    {
        if !same_bytes(&first[i], &names[i]) {
            proof {
                let whole = names_of(names@).subrange(0, first@.len() as int);
                assert(whole[i as int] == names@[i as int]@);
                assert(names_of(first@)[i as int] == first@[i as int]@);
            }
            return false;
        }
        i += 1;
    }
    assert(names_of(first@) =~= names_of(names@).subrange(0, first@.len() as int));
    true
}

/// What leads from a directory to a path in it, as it is written in the path.
fn path_behind(path: &Vec<u8>, home: &Vec<u8>) -> (suffix: Option<Vec<u8>>)
    ensures
        match suffix {
            Some(bytes) => suffix_behind(path@, home@) == Some(bytes@),
            None => suffix_behind(path@, home@) is None,
        },
{
    let from = path_names(home);
    let to = path_names(path);
    let found = path_spans(path);
    let absolute = path.len() > 0 && path[0] == 47;
    let home_absolute = home.len() > 0 && home[0] == 47;
    proof {
        assert(names_of(from@).len() == from@.len());
        assert(names_of(to@).len() == to@.len());
        lemma_spans(path@);
        lemma_named_spans(pieces(path@), spans(path@), path@.len() as int);
    }
    let end: usize = if found.len() > 0 {
        found[found.len() - 1].1
    } else if absolute {
        1
    } else {
        0
    };
    proof {
        assert(end == body_end(path@));
        assert(end <= path@.len());
    }
    if !home_absolute && from.len() == 0 {
        let suffix = path_between(path, 0, end);
        assert(suffix@ =~= path@.take(body_end(path@)));
        return Some(suffix);
    }
    if home_absolute == absolute && from.len() < to.len() && starts_with_names(&to, &from) {
        let begin: usize = found[from.len()].0;
        proof {
            let k = from@.len() as int;
            let last = found@.len() - 1;
            assert(name_spans(path@)[k].0 <= name_spans(path@)[k].1);
            if k < last {
                assert(name_spans(path@)[k].1 <= name_spans(path@)[last].0);
            }
            assert(name_spans(path@)[last].0 <= name_spans(path@)[last].1);
        }
        return Some(path_between(path, begin, end));
    }
    None
}

/// A place in short.
pub fn compact_display_path(location: &Location, home: &Location) -> (text: String)
    ensures
        text@ == compact_text(location@, home@),
{
    match (location, home) {
        (Location::Local(path), Location::Local(start)) => {
            if same_path(path, start) {
                return "~".to_owned();
            }
            match path_behind(path, start) {
                Some(suffix) => {
                    let mut text = "~/".to_owned();
                    text.append(to_lossy_text(&suffix).as_str());
                    text
                },
                None => location.display_path(),
            }
        },
        _ => location.display_path(),
    }
}

} // verus!
