//! What the compiler is told about a target.

use crate::context::{Context, Kind};
use crate::ops::cargo_rustc::args::{
    base_args, debug_args, encoded, flagged, metadata_args, opt_level_args, optional_args,
    plugin_args, settings, target_settings, test_args,
};
use crate::ops::cargo_rustc::reading::{
    lemma_flags, lemma_read_add, lemma_read_flag, lemma_read_flagged, lemma_read_nothing,
    lemma_read_switch, switches, takes_value, values, whole,
};
use crate::package::{Metadata, Target};
use crate::text::{decimal, utf8};
use vstd::prelude::*;

verus! {

/// The encodings of optional texts that are there, each behind its prefix.
pub open spec fn prefixed(prefix: Seq<char>, value: Option<String>) -> Seq<Seq<u8>> {
    match value {
        Some(value) => seq![utf8(prefix) + utf8(value@)],
        None => Seq::empty(),
    }
}

proof fn lemma_opt_level_args(opt_level: usize)
    ensures
        whole(opt_level_args(opt_level)),
        switches(opt_level_args(opt_level)) == Seq::<Seq<u8>>::empty(),
        forall|flag: Seq<u8>| #[trigger]
            values(opt_level_args(opt_level), flag) == (if flag == utf8("--opt-level"@) && opt_level
                != 0 {
                seq![decimal(opt_level as nat)]
            } else {
                Seq::empty()
            }),
{
    let args = opt_level_args(opt_level);
    if opt_level != 0 {
        lemma_read_flag(args, utf8("--opt-level"@), decimal(opt_level as nat));
    } else {
        lemma_read_nothing(args);
    }
}

proof fn lemma_debug_args(debug: bool)
    ensures
        whole(debug_args(debug)),
        switches(debug_args(debug)) == (if debug {
            seq![utf8("-g"@)]
        } else {
            Seq::empty()
        }),
        forall|flag: Seq<u8>| #[trigger]
            values(debug_args(debug), flag) == (if flag == utf8("--cfg"@) && !debug {
                seq![utf8("ndebug"@)]
            } else {
                Seq::empty()
            }),
{
    let args = debug_args(debug);
    lemma_flags();
    if debug {
        lemma_read_switch(args, utf8("-g"@));
    } else {
        lemma_read_flag(args, utf8("--cfg"@), utf8("ndebug"@));
    }
}

proof fn lemma_test_args(target: Target)
    ensures
        whole(test_args(target)),
        switches(test_args(target)) == (if target.profile.test && target.profile.harness {
            seq![utf8("--test"@)]
        } else {
            Seq::empty()
        }),
        forall|flag: Seq<u8>| #[trigger]
            values(test_args(target), flag) == Seq::<Seq<u8>>::empty(),
{
    let args = test_args(target);
    lemma_flags();
    if target.profile.test && target.profile.harness {
        lemma_read_switch(args, utf8("--test"@));
    } else {
        lemma_read_nothing(args);
    }
}

/// The values of `-C` for the metadata of a target.
pub open spec fn metadata_values(metadata: Option<Metadata>) -> Seq<Seq<u8>> {
    match metadata {
        Some(m) => seq![
            utf8("metadata="@) + utf8(m.metadata@),
            utf8("extra-filename="@) + utf8(m.extra_filename@),
        ],
        None => Seq::empty(),
    }
}

proof fn lemma_metadata_args(target: Target)
    ensures
        whole(metadata_args(target)),
        switches(metadata_args(target)) == Seq::<Seq<u8>>::empty(),
        forall|flag: Seq<u8>| #[trigger]
            values(metadata_args(target), flag) == (if flag == utf8("-C"@) {
                metadata_values(target.metadata)
            } else {
                Seq::empty()
            }),
{
    let args = metadata_args(target);
    let given = metadata_values(target.metadata);
    let flag = utf8("-C"@);
    lemma_read_flagged(flag, given);
    if target.metadata is Some {
        assert(given.drop_last() =~= seq![given[0]]);
        assert(given.drop_last().drop_last() =~= Seq::empty());
        assert(flagged(flag, given.drop_last().drop_last()) =~= Seq::empty());
        assert(flagged(flag, given.drop_last()) =~= seq![flag, given[0]]);
        assert(flagged(flag, given) =~= args);
    } else {
        assert(flagged(flag, given) =~= args);
    }
}

/// What the compiler is told about a target, as it reads it behind the source file: the name, the
/// kinds of crate, the level of optimisation if there is one, `ndebug` or else `-g`, `--test` for a
/// test with a harness, the metadata, and nothing else.
pub proof fn law_base_args_as_read(cx: Context, target: Target, crate_types: Seq<String>)
    ensures
        ({
            let all = base_args(cx, target, crate_types);
            let args = all.skip(1);
            let (opt_level, debug) = target_settings(cx, target);
            &&& all.len() > 0 && all[0] == target.src_path@
            &&& whole(args)
            &&& values(args, utf8("--crate-name"@)) == seq![utf8(target.name@)]
            &&& values(args, utf8("--crate-type"@)).len() == crate_types.len()
            &&& forall|i: int|
                0 <= i < crate_types.len() ==> #[trigger] values(args, utf8("--crate-type"@))[i]
                    == utf8(crate_types[i]@)
            &&& values(args, utf8("--opt-level"@)) == (if opt_level == 0 {
                Seq::empty()
            } else {
                seq![decimal(opt_level as nat)]
            })
            &&& values(args, utf8("--cfg"@)) == (if debug {
                Seq::empty()
            } else {
                seq![utf8("ndebug"@)]
            })
            &&& values(args, utf8("-C"@)) == metadata_values(target.metadata)
            &&& switches(args).no_duplicates()
            &&& switches(args).contains(utf8("-g"@)) <==> debug
            &&& switches(args).contains(utf8("--test"@)) <==> target.profile.test
                && target.profile.harness
            &&& forall|i: int|
                0 <= i < switches(args).len() ==> #[trigger] switches(args)[i] == utf8("-g"@)
                    || switches(args)[i] == utf8("--test"@)
            &&& forall|flag: Seq<u8>|
                flag != utf8("--crate-name"@) && flag != utf8("--crate-type"@) && flag != utf8(
                    "--opt-level"@,
                ) && flag != utf8("--cfg"@) && flag != utf8("-C"@) ==> (#[trigger] values(
                    args,
                    flag,
                )).len() == 0
        }),
{
    let all = base_args(cx, target, crate_types);
    let args = all.skip(1);
    let (opt_level, debug) = target_settings(cx, target);
    let name = seq![utf8("--crate-name"@), utf8(target.name@)];
    let types = flagged(utf8("--crate-type"@), encoded(crate_types));
    let a = name + types;
    let b = a + opt_level_args(opt_level);
    let c = b + debug_args(debug);
    let d = c + test_args(target);
    let e = d + metadata_args(target);
    lemma_flags();
    lemma_read_flag(name, utf8("--crate-name"@), utf8(target.name@));
    lemma_read_flagged(utf8("--crate-type"@), encoded(crate_types));
    lemma_opt_level_args(opt_level);
    lemma_debug_args(debug);
    lemma_test_args(target);
    lemma_metadata_args(target);
    lemma_read_add(name, types);
    lemma_read_add(a, opt_level_args(opt_level));
    lemma_read_add(b, debug_args(debug));
    lemma_read_add(c, test_args(target));
    lemma_read_add(d, metadata_args(target));
    assert(all =~= seq![target.src_path@] + e);
    assert(args =~= e);
    let none = Seq::<Seq<u8>>::empty();
    assert forall|flag: Seq<u8>| #[trigger]
        values(args, flag) == values(name, flag) + values(types, flag) + values(
            opt_level_args(opt_level),
            flag,
        ) + values(debug_args(debug), flag) + values(test_args(target), flag) + values(
            metadata_args(target),
            flag,
        ) by {
        assert(values(a, flag) == values(name, flag) + values(types, flag));
        assert(values(b, flag) == values(a, flag) + values(opt_level_args(opt_level), flag));
        assert(values(c, flag) == values(b, flag) + values(debug_args(debug), flag));
        assert(values(d, flag) == values(c, flag) + values(test_args(target), flag));
    }
    assert(values(args, utf8("--crate-name"@)) =~= seq![utf8(target.name@)]);
    assert(values(args, utf8("--crate-type"@)) =~= encoded(crate_types));
    assert(values(args, utf8("--opt-level"@)) =~= values(
        opt_level_args(opt_level),
        utf8("--opt-level"@),
    ));
    assert(values(args, utf8("--cfg"@)) =~= values(debug_args(debug), utf8("--cfg"@)));
    assert(values(args, utf8("-C"@)) =~= metadata_values(target.metadata));
    let own = if debug {
        seq![utf8("-g"@)]
    } else {
        none
    };
    let test = if target.profile.test && target.profile.harness {
        seq![utf8("--test"@)]
    } else {
        none
    };
    assert(switches(args) =~= own + test);
    if debug {
        assert(switches(args)[0] == utf8("-g"@));
    }
    if target.profile.test && target.profile.harness {
        assert(switches(args)[own.len() as int] == utf8("--test"@));
    }
}

/// A test harness is built for exactly the tests that use one, be they libraries or programs.
pub proof fn law_harness_for_tests(cx: Context, target: Target, crate_types: Seq<String>)
    ensures
        switches(base_args(cx, target, crate_types).skip(1)).contains(utf8("--test"@)) <==> (
        target.profile.test && target.profile.harness),
{
    law_base_args_as_read(cx, target, crate_types);
}

/// Whether a target is a library, a program or a static library makes no difference to what the
/// compiler is told about it, and neither does whether its package was asked for.
pub proof fn law_base_args_whatever_the_target_is(
    a: Context,
    b: Context,
    one: Target,
    other: Target,
    crate_types: Seq<String>,
)
    requires
        a.ws == b.ws,
        one == (Target { lib: one.lib, bin: one.bin, staticlib: one.staticlib, ..other }),
    ensures
        base_args(a, one, crate_types) == base_args(b, other, crate_types),
{
}

/// The settings that count are those of the last target of the root package that is built for the
/// same thing.
pub proof fn law_last_root_settings_count(cx: Context, target: Target, at: int)
    requires
        0 <= at < cx.ws.root().targets@.len(),
        cx.ws.root().targets@[at].profile.env@ == target.profile.env@,
        forall|j: int|
            at < j < cx.ws.root().targets@.len() ==> (
            #[trigger] cx.ws.root().targets@[j]).profile.env@ != target.profile.env@,
    ensures
        target_settings(cx, target) == (
            cx.ws.packages@[cx.ws.resolve.root as int].targets@[at].profile.opt_level,
            cx.ws.packages@[cx.ws.resolve.root as int].targets@[at].profile.debug,
        ),
{
    lemma_last_settings(
        cx.ws.root().targets@,
        target.profile.env@,
        (target.profile.opt_level, target.profile.debug),
        at,
    );
}

proof fn lemma_last_settings(targets: Seq<Target>, env: Seq<char>, own: (usize, bool), at: int)
    requires
        0 <= at < targets.len(),
        targets[at].profile.env@ == env,
        forall|j: int| at < j < targets.len() ==> (#[trigger] targets[j]).profile.env@ != env,
    ensures
        settings(targets, env, own) == (targets[at].profile.opt_level, targets[at].profile.debug),
    decreases targets.len(),
{
    if at < targets.len() - 1 {
        let front = targets.drop_last();
        assert(targets[targets.len() - 1].profile.env@ != env);
        assert forall|j: int| at < j < front.len() implies (#[trigger] front[j]).profile.env@
            != env by {
            assert(front[j] == targets[j]);
        }
        lemma_last_settings(front, env, own, at);
    }
}

proof fn lemma_optional_args(key: Seq<char>, prefix: Seq<u8>, value: Option<String>)
    requires
        takes_value(utf8(key)),
    ensures
        whole(optional_args(key, prefix, value)),
        switches(optional_args(key, prefix, value)) == Seq::<Seq<u8>>::empty(),
        forall|flag: Seq<u8>| #[trigger]
            values(optional_args(key, prefix, value), flag) == (if flag == utf8(key) && value is Some {
                seq![prefix + utf8(value->0@)]
            } else {
                Seq::empty()
            }),
{
    let args = optional_args(key, prefix, value);
    match value {
        Some(value) => {
            lemma_read_flag(args, utf8(key), prefix + utf8(value@));
        },
        None => {
            lemma_read_nothing(args);
        },
    }
}

/// What the compiler is told about the results of a kind: where they go, where it lists what they
/// were made from, and for the platform that is built for, but not for plugins, that platform and
/// the tools for it; and nothing else.
pub proof fn law_plugin_args_as_read(cx: Context, pkg: int, target: int, kind: Kind)
    ensures
        ({
            let args = plugin_args(cx, pkg, target, kind);
            let config = cx.ws.config;
            &&& whole(args)
            &&& switches(args).len() == 0
            &&& values(args, utf8("--out-dir"@)) == seq![cx.layout_of(kind).root@]
            &&& kind == Kind::KindTarget ==> values(args, utf8("--dep-info"@)) == seq![
                cx.data.packages@[pkg].targets@[target].target_dep_info@,
            ]
            &&& kind == Kind::KindPlugin ==> values(args, utf8("--dep-info"@)) == seq![
                cx.data.packages@[pkg].targets@[target].plugin_dep_info@,
            ]
            &&& kind == Kind::KindTarget ==> {
                &&& values(args, utf8("--target"@)) == prefixed(Seq::empty(), config.target)
                &&& values(args, utf8("-C"@)) == prefixed("ar="@, config.ar) + prefixed(
                    "linker="@,
                    config.linker,
                )
            }
            &&& kind == Kind::KindPlugin ==> values(args, utf8("--target"@)).len() == 0 && values(
                args,
                utf8("-C"@),
            ).len() == 0
            &&& forall|flag: Seq<u8>|
                flag != utf8("--out-dir"@) && flag != utf8("--dep-info"@) && flag != utf8(
                    "--target"@,
                ) && flag != utf8("-C"@) ==> (#[trigger] values(args, flag)).len() == 0
        }),
{
    let args = plugin_args(cx, pkg, target, kind);
    let config = cx.ws.config;
    let data = cx.data.packages@[pkg].targets@[target];
    let info = match kind {
        Kind::KindPlugin => data.plugin_dep_info@,
        Kind::KindTarget => data.target_dep_info@,
    };
    let out = seq![utf8("--out-dir"@), cx.layout_of(kind).root@];
    let dep = seq![utf8("--dep-info"@), info];
    lemma_flags();
    lemma_read_flag(out, utf8("--out-dir"@), cx.layout_of(kind).root@);
    lemma_read_flag(dep, utf8("--dep-info"@), info);
    lemma_read_add(out, dep);
    let empty = Seq::<u8>::empty();
    let t = optional_args("--target"@, empty, config.target);
    let a = optional_args("-C"@, utf8("ar="@), config.ar);
    let l = optional_args("-C"@, utf8("linker="@), config.linker);
    lemma_optional_args("--target"@, empty, config.target);
    lemma_optional_args("-C"@, utf8("ar="@), config.ar);
    lemma_optional_args("-C"@, utf8("linker="@), config.linker);
    lemma_read_add(t, a);
    lemma_read_add(t + a, l);
    let platform = match kind {
        Kind::KindPlugin => Seq::empty(),
        Kind::KindTarget => t + a + l,
    };
    lemma_read_nothing(Seq::empty());
    lemma_read_add(out + dep, platform);
    assert(args =~= out + dep + platform);
    assert forall|flag: Seq<u8>| #[trigger]
        values(args, flag) == values(out, flag) + values(dep, flag) + values(platform, flag) by {
        assert(values(out + dep, flag) == values(out, flag) + values(dep, flag));
    }
    assert forall|flag: Seq<u8>| #[trigger]
        values(t + a + l, flag) == values(t, flag) + values(a, flag) + values(l, flag) by {
        assert(values(t + a, flag) == values(t, flag) + values(a, flag));
    }
    assert(switches(args) =~= Seq::empty());
    assert(values(args, utf8("--out-dir"@)) =~= seq![cx.layout_of(kind).root@]);
    assert(values(args, utf8("--dep-info"@)) =~= seq![info]);
    if kind == Kind::KindTarget {
        assert(utf8(Seq::empty()) =~= empty);
        assert(values(args, utf8("--target"@)) =~= prefixed(Seq::empty(), config.target));
        assert(values(args, utf8("-C"@)) =~= prefixed("ar="@, config.ar) + prefixed(
            "linker="@,
            config.linker,
        ));
    }
}

} // verus!
