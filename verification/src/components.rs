//! The components of paths.

use crate::split::{
    free_of, join_with, law_join_of_split, law_split_of_join, split_on,
};
use crate::text::{lemma_views_push, push_bytes, views};
use vstd::prelude::*;

verus! {

/// `/`
pub const SEPARATOR: u8 = 47;

/// `.`
pub const DOT: u8 = 46;

/// Whether a piece of a path names something: the empty piece and `.` do not.
pub open spec fn names_something(piece: Seq<u8>) -> bool {
    piece.len() > 0 && piece != seq![DOT]
}

/// Those of `pieces` that name something, in their order.
pub open spec fn naming(pieces: Seq<Seq<u8>>) -> Seq<Seq<u8>>
    decreases pieces.len(),
{
    if pieces.len() == 0 {
        Seq::empty()
    } else if names_something(pieces.last()) {
        naming(pieces.drop_last()).push(pieces.last())
    } else {
        naming(pieces.drop_last())
    }
}

/// The components of a path, as they are written.
pub open spec fn written(path: Seq<u8>) -> Seq<Seq<u8>> {
    naming(split_on(path, SEPARATOR))
}

/// The component that leads to the directory above.
pub open spec fn parent() -> Seq<u8> {
    seq![DOT, DOT]
}

/// Where `part` leads from `at`. There is nothing above the root of the file system, and of what a
/// relative path starts from nothing is known.
pub open spec fn entered(at: Seq<Seq<u8>>, part: Seq<u8>, rooted: bool) -> Seq<Seq<u8>> {
    if part != parent() {
        at.push(part)
    } else if at.len() == 0 && rooted {
        at
    } else if at.len() == 0 || at.last() == parent() {
        at.push(part)
    } else {
        at.drop_last()
    }
}

/// Where `parts` lead one after the other.
pub open spec fn reduced(parts: Seq<Seq<u8>>, rooted: bool) -> Seq<Seq<u8>>
    decreases parts.len(),
{
    if parts.len() == 0 {
        Seq::empty()
    } else {
        entered(reduced(parts.drop_last(), rooted), parts.last(), rooted)
    }
}

/// Whether `parts` are as short as they can be: they go up at the start only, and from the root of
/// the file system not at all.
pub open spec fn settled(parts: Seq<Seq<u8>>, rooted: bool) -> bool {
    &&& rooted ==> !parts.contains(parent())
    &&& forall|i: int|
        0 < i < parts.len() && #[trigger] parts[i] == parent() ==> parts[i - 1] == parent()
}

/// Whether all of `parts` can be components of a path.
pub open spec fn can_be_written(parts: Seq<Seq<u8>>) -> bool {
    &&& free_of(parts, SEPARATOR)
    &&& forall|i: int| 0 <= i < parts.len() ==> names_something(#[trigger] parts[i])
}

/// The relative path made of `parts`; `.` where there are none.
pub open spec fn relative_path(parts: Seq<Seq<u8>>) -> Seq<u8> {
    if parts.len() == 0 {
        seq![DOT]
    } else {
        join_with(parts, SEPARATOR)
    }
}

/// The path made of `parts`.
pub open spec fn assembled(parts: Seq<Seq<u8>>, rooted: bool) -> Seq<u8> {
    if rooted {
        seq![SEPARATOR] + join_with(parts, SEPARATOR)
    } else {
        relative_path(parts)
    }
}

proof fn lemma_naming(pieces: Seq<Seq<u8>>)
    requires
        free_of(pieces, SEPARATOR),
    ensures
        can_be_written(naming(pieces)),
    decreases pieces.len(),
{
    if pieces.len() > 0 {
        lemma_naming(pieces.drop_last());
        assert(!pieces[pieces.len() - 1].contains(SEPARATOR));
    }
}

/// The components of a path name something and hold no separator.
pub proof fn lemma_written(path: Seq<u8>)
    ensures
        can_be_written(written(path)),
{
    law_join_of_split(path, SEPARATOR);
    lemma_naming(split_on(path, SEPARATOR));
}

proof fn lemma_naming_all(pieces: Seq<Seq<u8>>)
    requires
        forall|i: int| 0 <= i < pieces.len() ==> names_something(#[trigger] pieces[i]),
    ensures
        naming(pieces) == pieces,
    decreases pieces.len(),
{
    if pieces.len() > 0 {
        lemma_naming_all(pieces.drop_last());
        assert(names_something(pieces[pieces.len() - 1]));
        assert(pieces.drop_last().push(pieces.last()) =~= pieces);
    }
}

/// A path that was made of components has those components, and it starts at the root of the file
/// system if it was made to.
pub proof fn law_written_of_assembled(parts: Seq<Seq<u8>>, rooted: bool)
    requires
        can_be_written(parts),
    ensures
        written(assembled(parts, rooted)) == parts,
        assembled(parts, rooted).len() > 0,
        assembled(parts, rooted)[0] == SEPARATOR <==> rooted,
{
    let empty = Seq::<u8>::empty();
    if parts.len() == 0 {
        let piece = if rooted {
            empty
        } else {
            seq![DOT]
        };
        let pieces = if rooted {
            seq![empty, empty]
        } else {
            seq![piece]
        };
        assert(free_of(pieces, SEPARATOR)) by {
            assert(!empty.contains(SEPARATOR));
            assert(!piece.contains(SEPARATOR));
        }
        law_split_of_join(pieces, SEPARATOR);
        if rooted {
            assert(pieces.drop_last() =~= seq![empty]);
            assert(seq![empty].drop_last() =~= Seq::empty());
            assert(join_with(pieces.drop_last(), SEPARATOR) =~= empty);
            assert(join_with(pieces, SEPARATOR) =~= assembled(parts, rooted));
            assert(naming(seq![empty].drop_last()) =~= parts);
            assert(naming(seq![empty]) =~= parts);
        } else {
            assert(pieces.drop_last() =~= Seq::empty());
            assert(join_with(pieces, SEPARATOR) =~= assembled(parts, rooted));
            assert(naming(pieces.drop_last()) =~= parts);
        }
        assert(naming(pieces) =~= parts);
    } else if rooted {
        let pieces = seq![empty] + parts;
        assert(free_of(pieces, SEPARATOR)) by {
            assert forall|i: int| 0 <= i < pieces.len() implies !(#[trigger] pieces[i]).contains(
                SEPARATOR,
            ) by {
                if i > 0 {
                    assert(pieces[i] == parts[i - 1]);
                }
            }
        }
        law_split_of_join(pieces, SEPARATOR);
        lemma_join_with_first(empty, parts);
        assert(assembled(parts, rooted) =~= join_with(pieces, SEPARATOR));
        lemma_naming_first(empty, parts);
        lemma_naming_all(parts);
    } else {
        law_split_of_join(parts, SEPARATOR);
        lemma_naming_all(parts);
        lemma_join_with_first(parts[0], parts.drop_first());
        assert(seq![parts[0]] + parts.drop_first() =~= parts);
        let whole = join_with(parts, SEPARATOR);
        assert(whole[0] == parts[0][0]);
        assert(!parts[0].contains(SEPARATOR));
    }
}

/// What is joined starts with the first piece.
proof fn lemma_join_with_first(first: Seq<u8>, rest: Seq<Seq<u8>>)
    ensures
        join_with(seq![first] + rest, SEPARATOR) == (if rest.len() == 0 {
            first
        } else {
            first.push(SEPARATOR) + join_with(rest, SEPARATOR)
        }),
    decreases rest.len(),
{
    let all = seq![first] + rest;
    if rest.len() > 0 {
        assert(all.drop_last() =~= seq![first] + rest.drop_last());
        assert(all.last() == rest.last());
        lemma_join_with_first(first, rest.drop_last());
        assert(join_with(all, SEPARATOR) =~= first.push(SEPARATOR) + join_with(rest, SEPARATOR));
    }
}

/// A piece at the start that names nothing does not count.
proof fn lemma_naming_first(first: Seq<u8>, rest: Seq<Seq<u8>>)
    requires
        !names_something(first),
    ensures
        naming(seq![first] + rest) == naming(rest),
    decreases rest.len(),
{
    let all = seq![first] + rest;
    if rest.len() == 0 {
        assert(all.drop_last() =~= rest);
        assert(all.last() == first);
    } else {
        assert(all.drop_last() =~= seq![first] + rest.drop_last());
        assert(all.last() == rest.last());
        lemma_naming_first(first, rest.drop_last());
    }
}

/// What is left of components can be components again, and is as short as it can be.
pub proof fn lemma_reduced(parts: Seq<Seq<u8>>, rooted: bool)
    requires
        can_be_written(parts),
    ensures
        can_be_written(reduced(parts, rooted)),
        settled(reduced(parts, rooted), rooted),
    decreases parts.len(),
{
    if parts.len() > 0 {
        let before = reduced(parts.drop_last(), rooted);
        let after = reduced(parts, rooted);
        let part = parts[parts.len() - 1];
        lemma_reduced(parts.drop_last(), rooted);
        assert(names_something(part) && !part.contains(SEPARATOR));
        assert(after == entered(before, part, rooted));
        if rooted {
            assert forall|i: int| 0 <= i < before.len() implies before[i] != parent() by {
                assert(before.contains(before[i]));
            }
            if after.contains(parent()) {
                let i = choose|i: int| 0 <= i < after.len() && after[i] == parent();
                assert(i < before.len() && after[i] == before[i]);
            }
        }
        assert forall|i: int|
            0 < i < after.len() && #[trigger] after[i] == parent() implies after[i - 1]
            == parent() by {
            if i < before.len() {
                assert(after[i] == before[i]);
            } else {
                assert(before.last() == parent());
            }
        }
    }
}

/// What is as short as it can be stays as it is.
pub proof fn lemma_settled(parts: Seq<Seq<u8>>, rooted: bool)
    requires
        settled(parts, rooted),
    ensures
        reduced(parts, rooted) == parts,
    decreases parts.len(),
{
    if parts.len() > 0 {
        let front = parts.drop_last();
        assert(settled(front, rooted)) by {
            if rooted && front.contains(parent()) {
                let i = choose|i: int| 0 <= i < front.len() && front[i] == parent();
                assert(parts[i] == parent());
            }
            assert forall|i: int|
                0 < i < front.len() && #[trigger] front[i] == parent() implies front[i - 1]
                == parent() by {
                assert(parts[i] == parent());
            }
        }
        lemma_settled(front, rooted);
        let last = parts[parts.len() - 1];
        assert(parts.contains(last));
        if front.len() > 0 && last == parent() {
            assert(parts[parts.len() - 2] == parent());
        }
        assert(front.push(last) =~= parts);
    }
}

/// Parts that come first can be reduced first.
pub proof fn lemma_reduced_add(a: Seq<Seq<u8>>, b: Seq<Seq<u8>>, rooted: bool)
    requires
        can_be_written(a),
    ensures
        reduced(a + b, rooted) == reduced(reduced(a, rooted) + b, rooted),
    decreases b.len(),
{
    let less = reduced(a, rooted);
    if b.len() == 0 {
        assert(a + b =~= a);
        assert(less + b =~= less);
        lemma_reduced(a, rooted);
        lemma_settled(less, rooted);
    } else {
        assert((a + b).drop_last() =~= a + b.drop_last());
        assert((less + b).drop_last() =~= less + b.drop_last());
        assert((a + b).last() == b.last() && (less + b).last() == b.last());
        lemma_reduced_add(a, b.drop_last(), rooted);
    }
}

/// Appends `piece` to `parts` if it names something.
fn keep_piece(parts: &mut Vec<Vec<u8>>, piece: Vec<u8>)
    ensures
        views(final(parts)@) == (if names_something(piece@) {
            views(old(parts)@).push(piece@)
        } else {
            views(old(parts)@)
        }),
{
    broadcast use lemma_views_push;

    let dot = piece.len() == 1 && piece[0] == DOT;
    assert(dot <==> piece@ =~= seq![DOT]);
    if piece.len() > 0 && !dot {
        parts.push(piece);
    }
}

/// Splits a path at its separators and keeps the pieces that name something.
pub fn to_written(path: &[u8]) -> (parts: Vec<Vec<u8>>)
    ensures
        views(parts@) == written(path@),
{
    let mut parts: Vec<Vec<u8>> = Vec::new();
    let mut piece: Vec<u8> = Vec::new();
    let ghost mut done: Seq<Seq<u8>> = Seq::empty();
    assert(done.push(piece@) =~= split_on(path@.take(0), SEPARATOR));
    assert(views(parts@) =~= naming(done));
    for i in 0..path.len()
        invariant
            done.push(piece@) == split_on(path@.take(i as int), SEPARATOR),
            views(parts@) == naming(done),
    {
        let ghost before = path@.take(i as int);
        let ghost after = path@.take(i + 1);
        assert(after.drop_last() =~= before);
        assert(done.push(piece@).drop_last() =~= done);
        let byte = path[i];
        if byte == SEPARATOR {
            let ghost full = done.push(piece@);
            assert(full.drop_last() =~= done);
            keep_piece(&mut parts, piece);
            proof {
                done = full;
            }
            piece = Vec::new();
            assert(piece@ =~= Seq::<u8>::empty());
        } else {
            piece.push(byte);
        }
    }
    assert(path@.take(path@.len() as int) =~= path@);
    assert(done.push(piece@).drop_last() =~= done);
    keep_piece(&mut parts, piece);
    parts
}

/// Whether a component leads to the directory above.
pub fn is_parent(part: &Vec<u8>) -> (yes: bool)
    ensures
        yes == (part@ == parent()),
{
    let yes = part.len() == 2 && part[0] == DOT && part[1] == DOT;
    assert(yes <==> part@ =~= parent());
    yes
}

/// Follows `part`.
fn enter(at: &mut Vec<Vec<u8>>, part: Vec<u8>, rooted: bool)
    ensures
        views(final(at)@) == entered(views(old(at)@), part@, rooted),
{
    broadcast use lemma_views_push;

    let len = at.len();
    if !is_parent(&part) {
        at.push(part);
    } else if len == 0 {
        if !rooted {
            at.push(part);
        }
    } else if is_parent(&at[len - 1]) {
        at.push(part);
    } else {
        at.pop();
        assert(views(at@) =~= views(old(at)@).drop_last());
    }
}

/// Follows `parts` one after the other.
pub fn reduce(parts: Vec<Vec<u8>>, rooted: bool) -> (at: Vec<Vec<u8>>)
    ensures
        views(at@) == reduced(views(parts@), rooted),
{
    let ghost all = views(parts@);
    let mut rest = parts;
    let mut at: Vec<Vec<u8>> = Vec::new();
    let ghost mut done: int = 0;
    assert(views(at@) =~= reduced(all.take(0), rooted));
    while rest.len() > 0
        invariant
            0 <= done,
            done + rest@.len() == all.len(),
            views(rest@) == all.skip(done),
            views(at@) == reduced(all.take(done), rooted),
        decreases rest@.len(),
    {
        let ghost before = rest@;
        let part = rest.remove(0);
        proof {
            assert(views(before)[0] == all[done]);
            assert(rest@ =~= before.drop_first());
            assert(views(rest@) =~= views(before).drop_first());
            assert(all.skip(done).drop_first() =~= all.skip(done + 1));
            assert(all.take(done + 1).drop_last() =~= all.take(done));
            done = done + 1;
        }
        enter(&mut at, part, rooted);
    }
    assert(all.take(all.len() as int) =~= all);
    at
}

/// Makes a path of `parts`.
pub fn assemble(parts: &Vec<Vec<u8>>, rooted: bool) -> (path: Vec<u8>)
    ensures
        path@ == assembled(views(parts@), rooted),
{
    let ghost all = views(parts@);
    let mut path: Vec<u8> = Vec::new();
    if rooted {
        path.push(SEPARATOR);
    }
    let ghost start = path@;
    assert(start + join_with(all.take(0), SEPARATOR) =~= start);
    for i in 0..parts.len()
        invariant
            all == views(parts@),
            path@ == start + join_with(all.take(i as int), SEPARATOR),
    {
        assert(all.take(i + 1).drop_last() =~= all.take(i as int));
        if i > 0 {
            path.push(SEPARATOR);
        }
        push_bytes(&mut path, parts[i].as_slice());
        assert(path@ =~= start + join_with(all.take(i + 1), SEPARATOR));
    }
    assert(all.take(all.len() as int) =~= all);
    if !rooted && parts.len() == 0 {
        path.push(DOT);
    }
    assert(path@ =~= assembled(all, rooted));
    path
}

/// Between the separators of a path that was made of components stand those components and nothing
/// else; where there are none the path is `/` or `.`.
pub proof fn law_assembled_is_tight(parts: Seq<Seq<u8>>, rooted: bool)
    requires
        can_be_written(parts),
    ensures
        parts.len() > 0 && rooted ==> split_on(assembled(parts, rooted), SEPARATOR) == seq![
            Seq::<u8>::empty(),
        ] + parts,
        parts.len() > 0 && !rooted ==> split_on(assembled(parts, rooted), SEPARATOR) == parts,
        parts.len() == 0 && rooted ==> assembled(parts, rooted) == seq![SEPARATOR],
        parts.len() == 0 && !rooted ==> assembled(parts, rooted) == seq![DOT],
{
    let empty = Seq::<u8>::empty();
    if parts.len() == 0 {
        assert(join_with(parts, SEPARATOR) =~= empty);
        assert(seq![SEPARATOR] + empty =~= seq![SEPARATOR]);
    } else if rooted {
        let pieces = seq![empty] + parts;
        assert(free_of(pieces, SEPARATOR)) by {
            assert forall|i: int| 0 <= i < pieces.len() implies !(#[trigger] pieces[i]).contains(
                SEPARATOR,
            ) by {
                if i > 0 {
                    assert(pieces[i] == parts[i - 1]);
                }
            }
        }
        law_split_of_join(pieces, SEPARATOR);
        lemma_join_with_first(empty, parts);
        assert(assembled(parts, rooted) =~= join_with(pieces, SEPARATOR));
    } else {
        law_split_of_join(parts, SEPARATOR);
    }
}

/// Pieces that name nothing do not count, and each other piece of a path does, in order.
pub proof fn law_pieces_that_count(before: Seq<Seq<u8>>, piece: Seq<u8>)
    ensures
        naming(Seq::empty()) == Seq::<Seq<u8>>::empty(),
        piece.len() == 0 || piece == seq![DOT] ==> naming(before.push(piece)) == naming(before),
        piece.len() > 0 && piece != seq![DOT] ==> naming(before.push(piece)) == naming(before).push(
            piece,
        ),
{
    assert(before.push(piece).drop_last() =~= before);
}

} // verus!
