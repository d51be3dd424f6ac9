//! What makes two places the same, which places lie on the way to one, and how places are named.
use vstd::prelude::*;

use crate::location_bar::{
    body_end, compact_text, crumbs, name_spans, named_spans, place_from, spans,
};
use crate::model::{
    in_trash, is_root, name_text, named_pieces, path_parts, path_text, path_to, pieces, trail,
    LocationKey, LocationView, PathParts,
};
use crate::text::lossy_text;

verus! {

// Names on a path.

/// Whether a name can stand between two slashes and leads anywhere: it is not empty, holds no slash
/// and is not a single dot.
pub open spec fn leads_on(name: Seq<u8>) -> bool {
    &&& name.len() > 0
    &&& !name.contains(47u8)
    &&& name != seq![46u8]
}

/// The pieces one after the other, with a slash between neighbours.
pub open spec fn glued(pieces: Seq<Seq<u8>>) -> Seq<u8>
    decreases pieces.len(),
{
    if pieces.len() == 0 {
        Seq::empty()
    } else if pieces.len() == 1 {
        pieces[0]
    } else {
        glued(pieces.drop_last()).push(47u8) + pieces.last()
    }
}

/// The pieces of a path hold no slash, and make up the path again with slashes between them.
pub proof fn lemma_pieces_make_up_the_path(path: Seq<u8>)
    ensures
        pieces(path).len() > 0,
        forall|k: int| 0 <= k < pieces(path).len() ==> !(#[trigger] pieces(path)[k]).contains(47u8),
        glued(pieces(path)) == path,
    decreases path.len(),
{
    if path.len() == 0 {
        assert(glued(pieces(path)) =~= path);
    } else {
        let before = pieces(path.drop_last());
        let after = pieces(path);
        lemma_pieces_make_up_the_path(path.drop_last());
        assert(path =~= path.drop_last().push(path.last()));
        if path.last() == 47u8 {
            assert(after.drop_last() =~= before);
            assert(glued(after) =~= glued(before).push(47u8) + Seq::<u8>::empty());
            assert(glued(after) =~= path);
        } else {
            let last = before.last();
            assert(!before[before.len() - 1].contains(47u8));
            assert(!last.push(path.last()).contains(47u8)) by {
                if last.push(path.last()).contains(47u8) {
                    let k = choose|k: int|
                        0 <= k < last.push(path.last()).len() && last.push(path.last())[k] == 47u8;
                    if k < last.len() {
                        assert(last[k] == 47u8);
                    }
                }
            }
            assert(after.drop_last() =~= before.drop_last());
            assert(after.last() == last.push(path.last()));
            if before.len() == 1 {
                assert(glued(after) =~= path);
            } else {
                assert(glued(after) =~= glued(before).push(path.last()));
            }
        }
    }
}

proof fn lemma_pieces_of_longer(path: Seq<u8>, name: Seq<u8>)
    requires
        !name.contains(47u8),
    ensures
        pieces(path).len() > 0,
        pieces(path + name) == pieces(path).update(
            pieces(path).len() - 1,
            pieces(path).last() + name,
        ),
    decreases name.len(),
{
    lemma_pieces_make_up_the_path(path);
    let before = pieces(path);
    if name.len() == 0 {
        assert(path + name =~= path);
        assert(before.last() + name =~= before.last());
        assert(before.update(before.len() - 1, before.last() + name) =~= before);
    } else {
        let shorter = name.drop_last();
        assert(!shorter.contains(47u8)) by {
            if shorter.contains(47u8) {
                let k = choose|k: int| 0 <= k < shorter.len() && shorter[k] == 47u8;
                assert(name[k] == 47u8);
            }
        }
        lemma_pieces_of_longer(path, shorter);
        assert((path + name).drop_last() =~= path + shorter);
        assert((path + name).last() == name.last());
        assert(name[name.len() - 1] == name.last());
        assert((before.last() + shorter).push(name.last()) =~= before.last() + name);
        assert(pieces(path + name) =~= before.update(before.len() - 1, before.last() + name));
    }
}

proof fn lemma_pieces_of_child(path: Seq<u8>, name: Seq<u8>)
    requires
        !name.contains(47u8),
    ensures
        pieces(path.push(47u8)) == pieces(path).push(Seq::<u8>::empty()),
        pieces(path.push(47u8) + name) == pieces(path).push(name),
{
    assert(path.push(47u8).drop_last() =~= path);
    lemma_pieces_of_longer(path.push(47u8), name);
    let before = pieces(path);
    assert(Seq::<u8>::empty() + name =~= name);
    assert(before.push(Seq::<u8>::empty()).update(before.len() as int, name) =~= before.push(name));
}

/// A slash at the end of a path, and a single dot behind it, make no other place of it. A name that
/// leads on adds that name to the names on the way.
pub proof fn lemma_names_on_the_way(path: Seq<u8>, name: Seq<u8>)
    requires
        path.len() > 0,
        leads_on(name),
    ensures
        LocationView::Local(path.push(47u8)).key() == LocationView::Local(path).key(),
        LocationView::Local(path.push(47u8).push(46u8)).key() == LocationView::Local(path).key(),
        path_parts(path.push(47u8) + name) == (PathParts {
            absolute: path_parts(path).absolute,
            names: path_parts(path).names.push(name),
        }),
{
    lemma_pieces_make_up_the_path(path);
    lemma_pieces_of_child(path, name);
    let dot = seq![46u8];
    lemma_pieces_of_child(path, dot);
    assert(path.push(47u8).push(46u8) =~= path.push(47u8) + dot);
    let before = pieces(path);
    assert(before.push(name).drop_last() =~= before);
    assert(before.push(dot).drop_last() =~= before);
    assert(before.push(Seq::<u8>::empty()).drop_last() =~= before);
    assert((path.push(47u8) + name)[0] == path[0]);
    assert((path.push(47u8) + dot)[0] == path[0]);
    assert(path.push(47u8)[0] == path[0]);
}

/// Places of different kinds are never the same. Two addresses are the same where their texts are,
/// and two paths where they start alike and have the same names on the way.
pub proof fn lemma_same_places(a: Seq<u8>, b: Seq<u8>, x: Seq<char>, y: Seq<char>)
    ensures
        LocationView::Local(a).key() != LocationView::Uri(x).key(),
        LocationView::Uri(x).key() == LocationView::Uri(y).key() <==> x == y,
        LocationView::Local(a).key() == LocationView::Local(b).key() <==> (a.len() > 0 && a[0]
            == 47u8) == (b.len() > 0 && b[0] == 47u8) && named_pieces(pieces(a)) == named_pieces(
            pieces(b),
        ),
{
}

/// Two files of one directory with different names are different places.
pub proof fn lemma_names_tell_files_apart(directory: Seq<u8>, a: Seq<u8>, b: Seq<u8>)
    requires
        directory.len() > 0,
        leads_on(a),
        leads_on(b),
    ensures
        LocationView::Local(directory.push(47u8) + a).key() == LocationView::Local(
            directory.push(47u8) + b,
        ).key() <==> a == b,
        LocationView::Local(directory.push(47u8) + a).key() != LocationView::Local(directory).key(),
{
    lemma_names_on_the_way(directory, a);
    lemma_names_on_the_way(directory, b);
    let names = path_parts(directory).names;
    if names.push(a) == names.push(b) {
        assert(names.push(a).last() == names.push(b).last());
    }
    assert(names.push(a).len() != names.len());
}

// The way to a place.

proof fn lemma_named_pieces(pieces: Seq<Seq<u8>>)
    requires
        forall|k: int| 0 <= k < pieces.len() ==> !(#[trigger] pieces[k]).contains(47u8),
    ensures
        forall|k: int|
            0 <= k < named_pieces(pieces).len() ==> (#[trigger] named_pieces(pieces)[k]).len() > 0
                && !named_pieces(pieces)[k].contains(47u8),
        forall|k: int| 0 < k < named_pieces(pieces).len() ==> leads_on(#[trigger] named_pieces(pieces)[k]),
        pieces.len() > 0 && pieces[0].len() == 0 ==> forall|k: int|
            0 <= k < named_pieces(pieces).len() ==> leads_on(#[trigger] named_pieces(pieces)[k]),
        named_pieces(pieces).len() <= pieces.len(),
    decreases pieces.len(),
{
    if pieces.len() > 0 {
        let before = pieces.drop_last();
        assert forall|k: int| 0 <= k < before.len() implies !(#[trigger] before[k]).contains(47u8) by {
            assert(before[k] == pieces[k]);
        }
        lemma_named_pieces(before);
        assert(!pieces[pieces.len() - 1].contains(47u8));
        let all = named_pieces(pieces);
        assert forall|k: int| 0 <= k < all.len() implies (#[trigger] all[k]).len() > 0
            && !all[k].contains(47u8) by {
            if k < named_pieces(before).len() {
                assert(all[k] == named_pieces(before)[k]);
            }
        }
        assert forall|k: int| 0 < k < all.len() implies leads_on(#[trigger] all[k]) by {
            if k < named_pieces(before).len() {
                assert(all[k] == named_pieces(before)[k]);
            } else {
                assert(before.len() > 0);
            }
        }
        if pieces[0].len() == 0 {
            assert forall|k: int| 0 <= k < all.len() implies leads_on(#[trigger] all[k]) by {
                if k < named_pieces(before).len() {
                    assert(all[k] == named_pieces(before)[k]);
                    assert(before[0] == pieces[0]);
                } else {
                    assert(before.len() > 0);
                }
            }
        }
    }
}

proof fn lemma_parts(path: Seq<u8>)
    ensures
        ({
            let parts = path_parts(path);
            &&& forall|k: int|
                0 <= k < parts.names.len() ==> (#[trigger] parts.names[k]).len() > 0
                    && !parts.names[k].contains(47u8)
            &&& forall|k: int| 0 < k < parts.names.len() ==> leads_on(#[trigger] parts.names[k])
            &&& parts.absolute ==> forall|k: int|
                0 <= k < parts.names.len() ==> leads_on(#[trigger] parts.names[k])
        }),
{
    lemma_pieces_make_up_the_path(path);
    lemma_named_pieces(pieces(path));
    if path_parts(path).absolute {
        lemma_first_piece(path);
    }
}

proof fn lemma_first_piece(path: Seq<u8>)
    requires
        path.len() > 0,
        path[0] == 47u8,
    ensures
        pieces(path).len() > 1,
        pieces(path)[0].len() == 0,
    decreases path.len(),
{
    if path.len() == 1 {
        assert(path.drop_last() =~= Seq::empty());
    } else {
        assert(path.drop_last()[0] == path[0]);
        lemma_first_piece(path.drop_last());
    }
}

/// The path that is made of the first names of a path leads over just those names, from the same
/// start.
pub proof fn lemma_way_to_a_place(path: Seq<u8>, count: int)
    requires
        0 <= count <= path_parts(path).names.len(),
        path_parts(path).absolute || count > 0,
    ensures
        path_parts(path_to(path_parts(path), count)) == (PathParts {
            absolute: path_parts(path).absolute,
            names: path_parts(path).names.take(count),
        }),
        path_to(path_parts(path), count).len() > 0,
    decreases count,
{
    let parts = path_parts(path);
    let way = path_to(parts, count);
    lemma_parts(path);
    let none = Seq::<u8>::empty();
    let root = seq![47u8];
    assert(root =~= none.push(47u8));
    assert(root.drop_last() =~= none);
    assert(pieces(none) =~= seq![none]);
    if count == 0 {
        assert(pieces(root) =~= seq![none, none]);
        assert(seq![none, none].drop_last() =~= seq![none]);
        assert(seq![none].drop_last() =~= Seq::<Seq<u8>>::empty());
        reveal_with_fuel(named_pieces, 3);
        assert(named_pieces(pieces(root)) =~= Seq::empty());
        assert(parts.names.take(0) =~= Seq::empty());
    } else if count == 1 {
        let name = parts.names[0];
        reveal_with_fuel(path_to, 2);
        assert(parts.names.take(1) =~= seq![name]);
        if parts.absolute {
            lemma_pieces_of_child(none, name);
            assert(way =~= none.push(47u8) + name);
            assert(pieces(way) =~= seq![none, name]);
            assert(seq![none, name].drop_last() =~= seq![none]);
            assert(seq![none].drop_last() =~= Seq::<Seq<u8>>::empty());
            reveal_with_fuel(named_pieces, 3);
            assert(named_pieces(pieces(way)) =~= seq![name]);
        } else {
            lemma_pieces_of_longer(none, name);
            assert(way =~= none + name);
            assert(none + name =~= name);
            assert(pieces(way) =~= seq![name]);
            assert(seq![name].drop_last() =~= Seq::<Seq<u8>>::empty());
            reveal_with_fuel(named_pieces, 2);
            assert(named_pieces(pieces(way)) =~= seq![name]);
            assert(way[0] != 47u8) by {
                if way[0] == 47u8 {
                    assert(name[0] == 47u8);
                }
            }
        }
    } else {
        lemma_way_to_a_place(path, count - 1);
        let before = path_to(parts, count - 1);
        let name = parts.names[count - 1];
        assert(before + seq![47u8] =~= before.push(47u8));
        lemma_names_on_the_way(before, name);
        assert(parts.names.take(count - 1).push(name) =~= parts.names.take(count));
    }
}

/// The trail of a path leads over all places on the way, each one name further than the one before
/// it, and ends with the place itself. That of an absolute path starts at the root. An address is
/// its own trail.
pub proof fn lemma_trail(path: Seq<u8>, uri: Seq<char>, k: int)
    requires
        path_parts(path).names.len() > 0,
    ensures
        ({
            let places = trail(LocationView::Local(path));
            let names = path_parts(path).names;
            let absolute = path_parts(path).absolute;
            let skipped: int = if absolute {
                0
            } else {
                1
            };
            &&& places.len() == names.len() + 1 - skipped
            &&& places.last() == LocationView::Local(path)
            &&& 0 <= k < places.len() ==> places[k].key() == LocationKey::Local(
                PathParts { absolute, names: names.take(k + skipped) },
            )
            &&& absolute ==> is_root(places[0])
        }),
        trail(LocationView::Uri(uri)) == seq![LocationView::Uri(uri)],
{
    let places = trail(LocationView::Local(path));
    let parts = path_parts(path);
    let skipped: int = if parts.absolute {
        0
    } else {
        1
    };
    if 0 <= k < places.len() {
        if k < places.len() - 1 {
            lemma_way_to_a_place(path, k + skipped);
            assert(places[k] == LocationView::Local(path_to(parts, k + skipped)));
        } else {
            assert(parts.names.take(parts.names.len() as int) =~= parts.names);
        }
    }
    if parts.absolute {
        lemma_way_to_a_place(path, 0);
        assert(places[0] == LocationView::Local(path_to(parts, 0)));
    }
}

/// A place on a path is shown by its last name, as text, and one without names by all of it. An
/// address is shown as it is. The text of a place is all of it.
pub proof fn lemma_names_of_places(path: Seq<u8>, name: Seq<u8>, uri: Seq<char>)
    requires
        path.len() > 0,
        leads_on(name),
    ensures
        name_text(LocationView::Local(path.push(47u8) + name)) == lossy_text(name),
        name_text(LocationView::Local((path.push(47u8) + name).push(47u8))) == lossy_text(name),
        path_parts(path).names.len() == 0 ==> name_text(LocationView::Local(path)) == lossy_text(
            path,
        ),
        name_text(LocationView::Uri(uri)) == uri,
        path_text(LocationView::Uri(uri)) == uri,
        path_text(LocationView::Local(path)) == lossy_text(path),
{
    lemma_names_on_the_way(path, name);
    lemma_names_on_the_way(path.push(47u8) + name, name);
}

/// What begins with the address of the trash lies in the trash, and no native path does. The root
/// is the place that starts with a slash and has no names.
pub proof fn lemma_trash_and_root(path: Seq<u8>, uri: Seq<char>)
    ensures
        !in_trash(LocationView::Local(path)),
        in_trash(LocationView::Uri(uri)) == (uri.len() >= 6 && uri.take(6) == seq![
            't',
            'r',
            'a',
            's',
            'h',
            ':',
        ]),
        !is_root(LocationView::Uri(uri)),
        is_root(LocationView::Local(path)) == (path.len() > 0 && path[0] == 47u8 && path_parts(
            path,
        ).names.len() == 0),
{
    reveal_strlit("trash:");
    assert("trash:"@ =~= seq!['t', 'r', 'a', 's', 'h', ':']);
    if uri.len() >= 6 {
        assert(uri.subrange(0, 6) =~= uri.take(6));
    }
}

// The location bar.

/// The crumbs are the places of the trail in order: all of them where the home directory is not on
/// the way, and else those from the home directory on. Each bears the name of its place, and the
/// home directory bears a tilde.
pub proof fn lemma_crumbs_follow_the_trail(location: LocationView, home: LocationView, k: int)
    requires
        0 <= k < crumbs(location, home).len(),
    ensures
        ({
            let shown = crumbs(location, home);
            let places = trail(location);
            let skipped = places.len() - shown.len();
            &&& 0 <= skipped
            &&& shown[k].location == places[skipped + k]
            &&& shown[k].label == if places[skipped + k].key() == home.key() {
                "~"@
            } else {
                name_text(places[skipped + k])
            }
            &&& skipped > 0 ==> places[skipped].key() == home.key()
            &&& forall|j: int| 0 <= j < skipped ==> (#[trigger] places[j]).key() != home.key()
            &&& skipped == 0 ==> places[0].key() == home.key() || forall|j: int|
                0 <= j < places.len() ==> (#[trigger] places[j]).key() != home.key()
            &&& shown[k].root == (k < shown.len() - 1 && is_root(shown[k].location))
        }),
{
    lemma_first_place(trail(location), home.key(), 0);
}

proof fn lemma_first_place(places: Seq<LocationView>, key: LocationKey, at: int)
    requires
        0 <= at,
    ensures
        match place_from(places, key, at) {
            Some(found) => {
                &&& at <= found < places.len()
                &&& places[found].key() == key
                &&& forall|j: int| at <= j < found ==> (#[trigger] places[j]).key() != key
            },
            None => forall|j: int| at <= j < places.len() ==> (#[trigger] places[j]).key() != key,
        },
    decreases places.len() - at,
{
    if at < places.len() && places[at].key() != key {
        lemma_first_place(places, key, at + 1);
    }
}

proof fn lemma_spans_of_longer(path: Seq<u8>, name: Seq<u8>)
    requires
        !name.contains(47u8),
        spans(path).len() > 0,
        spans(path).last().1 == path.len(),
    ensures
        spans(path + name) == spans(path).update(
            spans(path).len() - 1,
            (spans(path).last().0, (path.len() + name.len()) as int),
        ),
    decreases name.len(),
{
    let before = spans(path);
    if name.len() == 0 {
        assert(path + name =~= path);
        assert(before.update(before.len() - 1, (before.last().0, path.len() as int)) =~= before);
    } else {
        let shorter = name.drop_last();
        assert(!shorter.contains(47u8)) by {
            if shorter.contains(47u8) {
                let k = choose|k: int| 0 <= k < shorter.len() && shorter[k] == 47u8;
                assert(name[k] == 47u8);
            }
        }
        lemma_spans_of_longer(path, shorter);
        assert((path + name).drop_last() =~= path + shorter);
        assert(name[name.len() - 1] == name.last());
        assert((path + name).last() == name.last());
        assert(spans(path + name) =~= before.update(
            before.len() - 1,
            (before.last().0, (path.len() + name.len()) as int),
        ));
    }
}

/// The home directory is a tilde in short. A file in it is its name behind a tilde, and a place
/// that does not lie in it is written out.
pub proof fn lemma_short_paths(home: Seq<u8>, name: Seq<u8>, other: Seq<u8>, uri: Seq<char>)
    requires
        home.len() > 0,
        leads_on(name),
        path_parts(home).absolute || path_parts(home).names.len() > 0,
    ensures
        ({
            let base = LocationView::Local(home);
            &&& compact_text(base, base) == "~"@
            &&& compact_text(LocationView::Local(home.push(47u8) + name), base) == "~/"@
                + lossy_text(name)
            &&& path_parts(other) != path_parts(home) && !path_parts(home).names.is_prefix_of(
                path_parts(other).names,
            ) ==> compact_text(LocationView::Local(other), base) == lossy_text(other)
            &&& compact_text(LocationView::Uri(uri), base) == uri
        }),
{
    let path = home.push(47u8) + name;
    lemma_names_on_the_way(home, name);
    lemma_pieces_of_child(home, name);
    let names = path_parts(home).names;
    let before = spans(home);
    let opened = spans(home.push(47u8));
    assert(home.push(47u8).drop_last() =~= home);
    let start = (home.len() + 1) as int;
    assert(opened == before.push((start, start)));
    lemma_spans_of_longer(home.push(47u8), name);
    let span = (start, path.len() as int);
    assert(opened.update(opened.len() - 1, span) =~= before.push(span));
    assert(spans(path) == before.push(span));
    assert(before.push(span).drop_last() =~= before);
    assert(pieces(home).push(name).drop_last() =~= pieces(home));
    lemma_pieces_make_up_the_path(home);
    assert(name_spans(path) == name_spans(home).push(span));
    lemma_as_many_spans(pieces(home), before);
    assert(name_spans(home).len() == names.len());
    assert(name_spans(path)[names.len() as int] == span);
    assert(body_end(path) == path.len());
    assert(path.subrange(start, path.len() as int) =~= name);
    assert(names.is_prefix_of(names.push(name)));
    assert(names.push(name) != names) by {
        assert(names.push(name).len() != names.len());
    }
}

proof fn lemma_as_many_spans(pieces: Seq<Seq<u8>>, spans: Seq<(int, int)>)
    ensures
        named_spans(pieces, spans).len() == named_pieces(pieces).len(),
    decreases pieces.len(),
{
    if pieces.len() > 0 {
        lemma_as_many_spans(pieces.drop_last(), spans.drop_last());
    }
}

} // verus!
