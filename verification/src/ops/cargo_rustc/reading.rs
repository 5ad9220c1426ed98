//! How the tools read the arguments that they are run with.

use crate::ops::cargo_rustc::args::flagged;
use crate::text::utf8;
use vstd::prelude::*;
use vstd::utf8::{decode_utf8, encode_utf8_decode_utf8};

verus! {

/// Whether the argument behind `arg` is its value.
pub open spec fn takes_value(arg: Seq<u8>) -> bool {
    ||| arg == utf8("--crate-name"@)
    ||| arg == utf8("--crate-type"@)
    ||| arg == utf8("--opt-level"@)
    ||| arg == utf8("--cfg"@)
    ||| arg == utf8("-C"@)
    ||| arg == utf8("--out-dir"@)
    ||| arg == utf8("--dep-info"@)
    ||| arg == utf8("--target"@)
    ||| arg == utf8("-L"@)
    ||| arg == utf8("--extern"@)
    ||| arg == utf8("-o"@)
}

/// The values that `args` give to `flag`, in order.
pub open spec fn values(args: Seq<Seq<u8>>, flag: Seq<u8>) -> Seq<Seq<u8>>
    decreases args.len(),
{
    if args.len() == 0 {
        Seq::empty()
    } else if takes_value(args[0]) && args.len() >= 2 {
        if args[0] == flag {
            seq![args[1]] + values(args.skip(2), flag)
        } else {
            values(args.skip(2), flag)
        }
    } else {
        values(args.skip(1), flag)
    }
}

/// Those of `args` that stand for themselves: they are no value, and they take none.
pub open spec fn switches(args: Seq<Seq<u8>>) -> Seq<Seq<u8>>
    decreases args.len(),
{
    if args.len() == 0 {
        Seq::empty()
    } else if takes_value(args[0]) && args.len() >= 2 {
        switches(args.skip(2))
    } else {
        seq![args[0]] + switches(args.skip(1))
    }
}

/// Each flag that takes a value has one.
pub open spec fn whole(args: Seq<Seq<u8>>) -> bool
    decreases args.len(),
{
    if args.len() == 0 {
        true
    } else if takes_value(args[0]) {
        args.len() >= 2 && whole(args.skip(2))
    } else {
        whole(args.skip(1))
    }
}

/// Arguments behind others are read on their own.
pub proof fn lemma_read_add(a: Seq<Seq<u8>>, b: Seq<Seq<u8>>)
    requires
        whole(a),
    ensures
        whole(a + b) == whole(b),
        switches(a + b) == switches(a) + switches(b),
        forall|flag: Seq<u8>| #[trigger] values(a + b, flag) == values(a, flag) + values(b, flag),
    decreases a.len(),
{
    if a.len() == 0 {
        assert(a + b =~= b);
        assert(switches(a) + switches(b) =~= switches(b));
        assert forall|flag: Seq<u8>| #[trigger]
            values(a + b, flag) == values(a, flag) + values(b, flag) by {
            assert(values(a, flag) + values(b, flag) =~= values(b, flag));
        }
    } else {
        let n = if takes_value(a[0]) {
            2int
        } else {
            1int
        };
        assert((a + b).skip(n) =~= a.skip(n) + b);
        assert((a + b)[0] == a[0]);
        lemma_read_add(a.skip(n), b);
        assert(switches(a + b) =~= switches(a) + switches(b));
        assert forall|flag: Seq<u8>| #[trigger]
            values(a + b, flag) == values(a, flag) + values(b, flag) by {
            assert(values(a.skip(n) + b, flag) == values(a.skip(n), flag) + values(b, flag));
            if n == 2 {
                assert((a + b)[1] == a[1]);
            }
            assert(values(a + b, flag) =~= values(a, flag) + values(b, flag));
        }
    }
}

/// How nothing is read.
pub proof fn lemma_read_nothing(args: Seq<Seq<u8>>)
    requires
        args.len() == 0,
    ensures
        whole(args),
        switches(args) == Seq::<Seq<u8>>::empty(),
        forall|flag: Seq<u8>| #[trigger] values(args, flag) == Seq::<Seq<u8>>::empty(),
{
}

/// How a flag and its value are read.
pub proof fn lemma_read_flag(args: Seq<Seq<u8>>, flag: Seq<u8>, value: Seq<u8>)
    requires
        takes_value(flag),
        args == seq![flag, value],
    ensures
        whole(args),
        switches(args) == Seq::<Seq<u8>>::empty(),
        forall|other: Seq<u8>| #[trigger]
            values(args, other) == (if other == flag {
                seq![value]
            } else {
                Seq::empty()
            }),
{
    assert(args.skip(2) =~= Seq::empty());
    assert(whole(args.skip(2)));
    assert(switches(args.skip(2)) =~= Seq::empty());
    assert forall|other: Seq<u8>| #[trigger]
        values(args, other) == (if other == flag {
            seq![value]
        } else {
            Seq::empty()
        }) by {
        assert(values(args.skip(2), other) =~= Seq::empty());
        assert(seq![value] + Seq::empty() =~= seq![value]);
    }
}

/// How an argument that takes no value is read.
pub proof fn lemma_read_switch(args: Seq<Seq<u8>>, switch: Seq<u8>)
    requires
        !takes_value(switch),
        args == seq![switch],
    ensures
        whole(args),
        switches(args) == args,
        forall|flag: Seq<u8>| #[trigger] values(args, flag) == Seq::<Seq<u8>>::empty(),
{
    assert(args.skip(1) =~= Seq::empty());
    assert(whole(args.skip(1)));
    assert(switches(args.skip(1)) =~= Seq::empty());
    assert(seq![switch] + Seq::empty() =~= seq![switch]);
    assert forall|flag: Seq<u8>| #[trigger] values(args, flag) == Seq::<Seq<u8>>::empty() by {
        assert(values(args.skip(1), flag) =~= Seq::empty());
    }
}

/// How a flag before each of some values is read.
pub proof fn lemma_read_flagged(flag: Seq<u8>, given: Seq<Seq<u8>>)
    requires
        takes_value(flag),
    ensures
        whole(flagged(flag, given)),
        switches(flagged(flag, given)) == Seq::<Seq<u8>>::empty(),
        forall|other: Seq<u8>| #[trigger]
            values(flagged(flag, given), other) == (if other == flag {
                given
            } else {
                Seq::empty()
            }),
    decreases given.len(),
{
    let args = flagged(flag, given);
    if given.len() == 0 {
        assert(given =~= Seq::empty());
        lemma_read_nothing(args);
    } else {
        let front = given.drop_last();
        let pair = seq![flag, given.last()];
        lemma_read_flagged(flag, front);
        lemma_read_flag(pair, flag, given.last());
        lemma_read_add(flagged(flag, front), pair);
        assert(args == flagged(flag, front) + pair);
        assert(switches(args) =~= Seq::empty());
        assert(front + seq![given.last()] =~= given);
        assert forall|other: Seq<u8>| #[trigger]
            values(args, other) == (if other == flag {
                given
            } else {
                Seq::empty()
            }) by {
            assert(values(args, other) == values(flagged(flag, front), other) + values(pair, other));
            if other == flag {
                assert(values(args, other) =~= given);
            } else {
                assert(values(args, other) =~= Seq::empty());
            }
        }
    }
}

proof fn lemma_spelling(text: Seq<char>)
    ensures
        decode_utf8(utf8(text)) == text,
{
    encode_utf8_decode_utf8(text);
}

/// No two flags that take a value are spelled alike, and `-g` and `--test` take none.
pub proof fn lemma_flags()
    ensures
        !takes_value(utf8("-g"@)),
        !takes_value(utf8("--test"@)),
        utf8("-g"@) != utf8("--test"@),
        flag_number(utf8("--crate-name"@)) == 0,
        flag_number(utf8("--crate-type"@)) == 1,
        flag_number(utf8("--opt-level"@)) == 2,
        flag_number(utf8("--cfg"@)) == 3,
        flag_number(utf8("-C"@)) == 4,
        flag_number(utf8("--out-dir"@)) == 5,
        flag_number(utf8("--dep-info"@)) == 6,
        flag_number(utf8("--target"@)) == 7,
        flag_number(utf8("-L"@)) == 8,
        flag_number(utf8("--extern"@)) == 9,
        flag_number(utf8("-o"@)) == 10,
{
    lemma_spelling("--crate-name"@);
    reveal_strlit("--crate-name");
    lemma_spelling("--crate-type"@);
    reveal_strlit("--crate-type");
    lemma_spelling("--opt-level"@);
    reveal_strlit("--opt-level");
    lemma_spelling("--cfg"@);
    reveal_strlit("--cfg");
    lemma_spelling("-C"@);
    reveal_strlit("-C");
    lemma_spelling("--out-dir"@);
    reveal_strlit("--out-dir");
    lemma_spelling("--dep-info"@);
    reveal_strlit("--dep-info");
    lemma_spelling("--target"@);
    reveal_strlit("--target");
    lemma_spelling("-L"@);
    reveal_strlit("-L");
    lemma_spelling("--extern"@);
    reveal_strlit("--extern");
    lemma_spelling("-o"@);
    reveal_strlit("-o");
    lemma_spelling("-g"@);
    reveal_strlit("-g");
    lemma_spelling("--test"@);
    reveal_strlit("--test");
    assert("--crate-name"@[8] == 'n' && "--crate-type"@[8] == 't');
    assert("--target"@[2] == 't' && "--extern"@[2] == 'e');
    assert("-C"@[1] == 'C' && "-L"@[1] == 'L' && "-o"@[1] == 'o' && "-g"@[1] == 'g');
}

/// The place of a flag among those that take a value.
pub open spec fn flag_number(flag: Seq<u8>) -> int {
    if flag == utf8("--crate-name"@) {
        0
    } else if flag == utf8("--crate-type"@) {
        1
    } else if flag == utf8("--opt-level"@) {
        2
    } else if flag == utf8("--cfg"@) {
        3
    } else if flag == utf8("-C"@) {
        4
    } else if flag == utf8("--out-dir"@) {
        5
    } else if flag == utf8("--dep-info"@) {
        6
    } else if flag == utf8("--target"@) {
        7
    } else if flag == utf8("-L"@) {
        8
    } else if flag == utf8("--extern"@) {
        9
    } else if flag == utf8("-o"@) {
        10
    } else {
        -1
    }
}

} // verus!
