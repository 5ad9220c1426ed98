//! Paths, as byte strings whose components are separated by `/`.

use crate::components::{
    assemble, assembled, can_be_written, is_parent, law_written_of_assembled, lemma_reduced,
    lemma_reduced_add, lemma_settled, lemma_written, names_something, naming, parent, reduce,
    reduced, settled, to_written, written, DOT, SEPARATOR,
};
use crate::split::{join_with, split_on};
use crate::text::{push_bytes, views};
use vstd::prelude::*;

verus! {

/// `:`, which separates the paths in a search path.
pub const LIST_SEPARATOR: u8 = 58;

/// A path.
#[derive(Debug, PartialEq, Eq)]
pub struct Path {
    /// The bytes of the path.
    pub repr: Vec<u8>,
}

impl View for Path {
    type V = Seq<u8>;

    open spec fn view(&self) -> Seq<u8> {
        self.repr@
    }
}

impl Clone for Path {
    fn clone(&self) -> (path: Path)
        ensures
            path@ == self@,
    {
        let mut repr: Vec<u8> = Vec::new();
        push_bytes(&mut repr, self.repr.as_slice());
        Path { repr }
    }
}

/// Whether a path starts at the root of the file system.
pub open spec fn absolute(path: Seq<u8>) -> bool {
    path.len() > 0 && path[0] == SEPARATOR
}

/// The components of a path, as few as possible: each `..` is taken together with the component that
/// it undoes.
pub open spec fn components(path: Seq<u8>) -> Seq<Seq<u8>> {
    reduced(written(path), absolute(path))
}

/// The path in its shortest form: without empty components, and without `.` and `..` where they can
/// be spared.
pub open spec fn normal(path: Seq<u8>) -> Seq<u8> {
    assembled(components(path), absolute(path))
}

/// The path that `tail` names when it is read below `base`, in its shortest form. An absolute `tail`
/// names itself.
pub open spec fn joined(base: Seq<u8>, tail: Seq<u8>) -> Seq<u8> {
    if absolute(tail) {
        normal(tail)
    } else {
        assembled(reduced(written(base) + written(tail), absolute(base)), absolute(base))
    }
}

/// The directory that `path` lies in, in its shortest form. The root of the file system and a path
/// that ends in `..` stand for themselves.
pub open spec fn directory(path: Seq<u8>) -> Seq<u8> {
    let parts = components(path);
    if parts.len() == 0 || parts.last() == parent() {
        normal(path)
    } else {
        assembled(parts.drop_last(), absolute(path))
    }
}

/// Whether `path` starts at the root of the file system.
fn starts_at_root(path: &[u8]) -> (yes: bool)
    ensures
        yes == absolute(path@),
{
    path.len() > 0 && path[0] == SEPARATOR
}

impl Path {
    /// The path that `path` spells, in its shortest form.
    pub fn new(path: &[u8]) -> (normalised: Path)
        ensures
            normalised@ == normal(path@),
    {
        let rooted = starts_at_root(path);
        let parts = reduce(to_written(path), rooted);
        Path { repr: assemble(&parts, rooted) }
    }

    /// Whether the path starts at the root of the file system.
    pub fn is_absolute(&self) -> (yes: bool)
        ensures
            yes == absolute(self@),
    {
        starts_at_root(self.repr.as_slice())
    }

    /// The components of the path, as few as possible.
    pub fn to_components(&self) -> (parts: Vec<Vec<u8>>)
        ensures
            views(parts@) == components(self@),
    {
        reduce(to_written(self.repr.as_slice()), self.is_absolute())
    }

    /// The path that `tail` names when it is read below this one.
    pub fn join(&self, tail: &[u8]) -> (path: Path)
        ensures
            path@ == joined(self@, tail@),
    {
        if starts_at_root(tail) {
            return Path::new(tail);
        }
        let rooted = self.is_absolute();
        let mut parts = to_written(self.repr.as_slice());
        let mut more = to_written(tail);
        let ghost start = parts@;
        let ghost end = more@;
        parts.append(&mut more);
        assert(views(parts@) =~= views(start) + views(end));
        let parts = reduce(parts, rooted);
        Path { repr: assemble(&parts, rooted) }
    }

    /// The directory that the path lies in.
    pub fn dir_path(&self) -> (dir: Path)
        ensures
            dir@ == directory(self@),
    {
        let rooted = self.is_absolute();
        let mut parts = self.to_components();
        let count = parts.len();
        if count > 0 && !is_parent(&parts[count - 1]) {
            let ghost before = views(parts@);
            parts.pop();
            assert(views(parts@) =~= before.drop_last());
        }
        Path { repr: assemble(&parts, rooted) }
    }
}

/// The shortest form of a path is its own shortest form, and it starts at the root of the file system
/// if the path does.
pub proof fn law_normal_of_normal(path: Seq<u8>)
    ensures
        normal(normal(path)) == normal(path),
        absolute(normal(path)) == absolute(path),
        components(normal(path)) == components(path),
{
    let rooted = absolute(path);
    lemma_written(path);
    lemma_reduced(written(path), rooted);
    law_written_of_assembled(components(path), rooted);
    lemma_settled(components(path), rooted);
}

/// What is below a path is below its shortest form too, and what is named below a path is in its
/// shortest form.
pub proof fn law_joined_to_normal(base: Seq<u8>, tail: Seq<u8>)
    ensures
        joined(normal(base), tail) == joined(base, tail),
        normal(joined(base, tail)) == joined(base, tail),
{
    let rooted = absolute(base);
    law_normal_of_normal(base);
    law_normal_of_normal(tail);
    lemma_written(base);
    lemma_written(tail);
    lemma_reduced(written(base), rooted);
    law_written_of_assembled(components(base), rooted);
    lemma_reduced_add(written(base), written(tail), rooted);
    if !absolute(tail) {
        let all = written(base) + written(tail);
        lemma_reduced(all, rooted);
        law_written_of_assembled(reduced(all, rooted), rooted);
        lemma_settled(reduced(all, rooted), rooted);
    }
}

/// No path in `paths` holds the list separator.
pub open spec fn joinable(paths: Seq<Path>) -> bool {
    forall|i: int| 0 <= i < paths.len() ==> !(#[trigger] paths[i])@.contains(LIST_SEPARATOR)
}

/// Joins `paths` into a search path.
pub fn join_paths(paths: &Vec<Path>) -> (list: Vec<u8>)
    requires
        joinable(paths@),
    ensures
        list@ == join_with(views(paths@), LIST_SEPARATOR),
{
    let mut list: Vec<u8> = Vec::new();
    let ghost all = views(paths@);
    for i in 0..paths.len()
        invariant
            all == views(paths@),
            list@ == join_with(all.take(i as int), LIST_SEPARATOR),
    {
        let ghost shorter = all.take(i as int);
        let ghost longer = all.take(i + 1);
        assert(longer.drop_last() =~= shorter);
        if i > 0 {
            list.push(LIST_SEPARATOR);
        }
        push_bytes(&mut list, paths[i].repr.as_slice());
        assert(list@ =~= join_with(longer, LIST_SEPARATOR));
    }
    assert(all.take(all.len() as int) =~= all);
    list
}

/// Whether `name` can be the name of a single file or directory.
pub open spec fn plain_name(name: Seq<u8>) -> bool {
    &&& name.len() > 0
    &&& !name.contains(SEPARATOR)
    &&& name != seq![DOT]
    &&& name != seq![DOT, DOT]
}

proof fn lemma_written_single(part: Seq<u8>)
    requires
        part.len() > 0,
        !part.contains(SEPARATOR),
        part != seq![DOT],
    ensures
        written(part) == seq![part],
        !absolute(part),
{
    let parts = seq![part];
    law_written_of_assembled(parts, false);
    assert(assembled(parts, false) == part);
    if absolute(part) {
        assert(part.contains(part[0]));
    }
}

/// What is joined with a plain name has that name as its last component and lies in the directory
/// that it was joined to; going up from there leads back.
pub proof fn law_joined_with_name(base: Seq<u8>, name: Seq<u8>)
    requires
        plain_name(name),
    ensures
        components(joined(base, name)) == components(base).push(name),
        absolute(joined(base, name)) == absolute(base),
        directory(joined(base, name)) == normal(base),
        joined(joined(base, name), seq![DOT, DOT]) == normal(base),
{
    let rooted = absolute(base);
    let up = seq![DOT, DOT];
    lemma_written_single(name);
    assert(up[0] == DOT && up.len() == 2);
    assert(!up.contains(SEPARATOR));
    lemma_written_single(up);
    lemma_written(base);
    let parts = written(base) + seq![name];
    assert(parts.drop_last() =~= written(base));
    assert(reduced(parts, rooted) == components(base).push(name));
    assert(can_be_written(parts)) by {
        assert forall|i: int| 0 <= i < parts.len() implies names_something(#[trigger] parts[i])
            && !parts[i].contains(SEPARATOR) by {
            if i < written(base).len() {
                assert(parts[i] == written(base)[i]);
            }
        }
    }
    let there = components(base).push(name);
    lemma_reduced(parts, rooted);
    law_written_of_assembled(there, rooted);
    lemma_settled(there, rooted);
    assert(there.drop_last() =~= components(base));
    let back = there + seq![up];
    assert(back.drop_last() =~= there);
    assert(back.last() == up);
    assert(reduced(back, rooted) == components(base));
}

/// What is joined with nothing stays where it is, and an absolute path stays itself whatever it is
/// joined to.
pub proof fn law_joined_with_nothing(base: Seq<u8>, tail: Seq<u8>)
    ensures
        joined(base, Seq::empty()) == normal(base),
        absolute(tail) ==> joined(base, tail) == normal(tail),
{
    let empty = Seq::<u8>::empty();
    assert(split_on(empty, SEPARATOR) =~= seq![empty]);
    assert(seq![empty].drop_last() =~= Seq::empty());
    assert(naming(seq![empty].drop_last()) =~= Seq::empty());
    assert(written(empty) =~= Seq::empty());
    assert(written(base) + written(empty) =~= written(base));
}

/// A path that is made of plain names and starts at the root of the file system has just those
/// names as its components and is in its shortest form; nothing lies above the root.
pub proof fn law_plain_paths(names: Seq<Seq<u8>>)
    requires
        forall|i: int| 0 <= i < names.len() ==> plain_name(#[trigger] names[i]),
    ensures
        components(assembled(names, true)) == names,
        normal(assembled(names, true)) == assembled(names, true),
        names.len() == 0 ==> directory(assembled(names, true)) == assembled(names, true),
        names.len() == 0 ==> joined(assembled(names, true), seq![DOT, DOT]) == assembled(
            names,
            true,
        ),
{
    let up = seq![DOT, DOT];
    assert(can_be_written(names)) by {
        assert forall|i: int| 0 <= i < names.len() implies names_something(#[trigger] names[i])
            && !names[i].contains(SEPARATOR) by {
            assert(plain_name(names[i]));
        }
    }
    law_written_of_assembled(names, true);
    assert(!names.contains(up)) by {
        if names.contains(up) {
            let i = choose|i: int| 0 <= i < names.len() && names[i] == up;
            assert(plain_name(names[i]));
        }
    }
    assert(settled(names, true)) by {
        assert forall|i: int| 0 < i < names.len() && #[trigger] names[i] == parent() implies names[i
            - 1] == parent() by {
            assert(names.contains(names[i]));
        }
    }
    lemma_settled(names, true);
    if names.len() == 0 {
        assert(up[0] == DOT && up.len() == 2);
        lemma_written_single(up);
        let back = names + seq![up];
        assert(back.drop_last() =~= names);
        assert(reduced(names, true) =~= Seq::empty());
        assert(reduced(back, true) =~= names);
    }
}

/// Where a relative path has come to what it starts from, or above that, going up leads further up.
pub proof fn law_up_from_a_relative_path(base: Seq<u8>)
    requires
        !absolute(base),
        components(base).len() == 0 || components(base).last() == seq![DOT, DOT],
    ensures
        components(joined(base, seq![DOT, DOT])) == components(base).push(seq![DOT, DOT]),
        directory(base) == normal(base),
{
    let up = seq![DOT, DOT];
    assert(up[0] == DOT && up.len() == 2);
    lemma_written_single(up);
    lemma_written(base);
    let parts = written(base) + seq![up];
    assert(parts.drop_last() =~= written(base));
    assert(reduced(parts, false) == components(base).push(up));
    assert(can_be_written(parts)) by {
        assert forall|i: int| 0 <= i < parts.len() implies names_something(#[trigger] parts[i])
            && !parts[i].contains(SEPARATOR) by {
            if i < written(base).len() {
                assert(parts[i] == written(base)[i]);
            }
        }
    }
    lemma_reduced(parts, false);
    law_written_of_assembled(reduced(parts, false), false);
    lemma_settled(reduced(parts, false), false);
}

} // verus!
