//! Splitting sequences at a separator and joining them again.

use vstd::prelude::*;

verus! {

/// The pieces of `whole` between the separators: one more than there are separators, each of them
/// possibly empty.
pub open spec fn split_on<T>(whole: Seq<T>, sep: T) -> Seq<Seq<T>>
    decreases whole.len(),
{
    if whole.len() == 0 {
        seq![Seq::empty()]
    } else if whole.last() == sep {
        split_on(whole.drop_last(), sep).push(Seq::empty())
    } else {
        let pieces = split_on(whole.drop_last(), sep);
        pieces.drop_last().push(pieces.last().push(whole.last()))
    }
}

/// `pieces`, with the separator between every two of them.
pub open spec fn join_with<T>(pieces: Seq<Seq<T>>, sep: T) -> Seq<T>
    decreases pieces.len(),
{
    if pieces.len() == 0 {
        Seq::empty()
    } else if pieces.len() == 1 {
        pieces[0]
    } else {
        join_with(pieces.drop_last(), sep).push(sep) + pieces.last()
    }
}

/// No piece holds the separator.
pub open spec fn free_of<T>(pieces: Seq<Seq<T>>, sep: T) -> bool {
    forall|i: int| 0 <= i < pieces.len() ==> !(#[trigger] pieces[i]).contains(sep)
}

/// There is always at least one piece.
pub proof fn lemma_split_nonempty<T>(whole: Seq<T>, sep: T)
    ensures
        split_on(whole, sep).len() >= 1,
    decreases whole.len(),
{
    if whole.len() > 0 {
        lemma_split_nonempty(whole.drop_last(), sep);
    }
}

/// Splitting loses nothing: the pieces hold no separator, and joined they give the whole back.
pub proof fn law_join_of_split<T>(whole: Seq<T>, sep: T)
    ensures
        join_with(split_on(whole, sep), sep) == whole,
        free_of(split_on(whole, sep), sep),
    decreases whole.len(),
{
    if whole.len() > 0 {
        let front = whole.drop_last();
        law_join_of_split(front, sep);
        lemma_split_nonempty(front, sep);
        let pieces = split_on(front, sep);
        if whole.last() == sep {
            let all = pieces.push(Seq::empty());
            assert(all.drop_last() =~= pieces);
            assert(join_with(all, sep) =~= whole);
        } else {
            let last = pieces.last().push(whole.last());
            let all = pieces.drop_last().push(last);
            assert(all.drop_last() =~= pieces.drop_last());
            assert(!pieces.last().contains(sep));
            assert(!last.contains(sep)) by {
                if last.contains(sep) {
                    let k = choose|k: int| 0 <= k < last.len() && last[k] == sep;
                    assert(pieces.last()[k] == sep);
                }
            }
            assert(whole =~= join_with(pieces, sep).push(whole.last()));
            assert(join_with(all, sep) =~= whole) by {
                if pieces.len() == 1 {
                    assert(all[0] == last);
                }
            }
            assert forall|i: int| 0 <= i < all.len() implies !(#[trigger] all[i]).contains(sep) by {
                if i < pieces.len() - 1 {
                    assert(all[i] == pieces[i]);
                }
            }
        }
    }
}

/// Appending something free of separators makes the last piece longer.
proof fn lemma_split_append<T>(whole: Seq<T>, tail: Seq<T>, sep: T)
    requires
        !tail.contains(sep),
    ensures
        split_on(whole + tail, sep) == split_on(whole, sep).drop_last().push(
            split_on(whole, sep).last() + tail,
        ),
    decreases tail.len(),
{
    lemma_split_nonempty(whole, sep);
    let pieces = split_on(whole, sep);
    if tail.len() == 0 {
        assert(whole + tail =~= whole);
        assert(pieces.last() + tail =~= pieces.last());
        assert(pieces.drop_last().push(pieces.last()) =~= pieces);
    } else {
        let front = tail.drop_last();
        assert(!front.contains(sep)) by {
            if front.contains(sep) {
                let k = choose|k: int| 0 <= k < front.len() && front[k] == sep;
                assert(tail[k] == sep);
            }
        }
        assert(tail[tail.len() - 1] != sep);
        lemma_split_append(whole, front, sep);
        assert((whole + tail).drop_last() =~= whole + front);
        let before = split_on(whole + front, sep);
        assert(before.drop_last() =~= pieces.drop_last());
        assert((pieces.last() + front).push(tail.last()) =~= pieces.last() + tail);
    }
}

/// Joining loses nothing either, where there is a piece and none of them holds the separator.
pub proof fn law_split_of_join<T>(pieces: Seq<Seq<T>>, sep: T)
    requires
        pieces.len() >= 1,
        free_of(pieces, sep),
    ensures
        split_on(join_with(pieces, sep), sep) == pieces,
    decreases pieces.len(),
{
    if pieces.len() == 1 {
        let nothing = Seq::<T>::empty();
        lemma_split_append(nothing, pieces[0], sep);
        assert(nothing + pieces[0] =~= pieces[0]);
        assert(split_on(nothing, sep).drop_last().push(nothing + pieces[0]) =~= pieces);
    } else {
        let front = pieces.drop_last();
        law_split_of_join(front, sep);
        let head = join_with(front, sep).push(sep);
        assert(head.drop_last() =~= join_with(front, sep));
        assert(split_on(head, sep) =~= front.push(Seq::empty()));
        lemma_split_append(head, pieces.last(), sep);
        assert(front.push(Seq::empty()).drop_last() =~= front);
        assert(Seq::<T>::empty() + pieces.last() =~= pieces.last());
        assert(front.push(pieces.last()) =~= pieces);
    }
}

} // verus!
