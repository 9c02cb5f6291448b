//! Facts about parsing, proved from the phase definitions: what the result bag holds
//! afterwards, when a parse fails and with which message, and how tokens match forms.

use vstd::prelude::*;
use crate::command_line_parsing_results::{CmdParsingResults, StoreModel};
use crate::default_argument::DefaultArgument;
use crate::flag_argument::FlagArgument;
use crate::optional_argument::OptionalArgument;
use crate::parser::{
    defaults_outcome, flags_filled, flags_outcome, flags_phase, is_first_action, optional_defaults_outcome,
    optionals_outcome, optionals_phase, positionals_outcome, Parser,
};
use crate::positional_argument::{missing_positional, PositionalArgument};
use crate::text::{is_help, names_form, starts_with_help, wrapped_error};
use crate::value::{converted, ValueModel};

verus! {

/// Every name that `s` holds, `s1` holds too.
pub open spec fn keeps_names(s: StoreModel, s1: StoreModel) -> bool {
    forall|k: Seq<char>| s.values.contains_key(k) ==> #[trigger] s1.values.contains_key(k)
}

/// No two positionals share a name.
pub open spec fn distinct_positional_names(ps: Seq<PositionalArgument>) -> bool {
    forall|a: int, b: int| 0 <= a < b < ps.len() ==> ps[a].spec_name() != ps[b].spec_name()
}

/// No two optionals share a name.
pub open spec fn distinct_optional_names(os: Seq<OptionalArgument>) -> bool {
    forall|a: int, b: int| 0 <= a < b < os.len() ==> os[a].spec_name() != os[b].spec_name()
}

// ---- growth of the result bag through the phases ----

proof fn defaults_keep_names(ds: Seq<DefaultArgument>, s: StoreModel, toks: Seq<String>, help: Seq<char>)
    requires
        defaults_outcome(ds, s, toks, help) is Ok,
    ensures
        keeps_names(s, defaults_outcome(ds, s, toks, help)->Ok_0.0),
    decreases ds.len(),
{
    if ds.len() > 0 {
        let (s1, t1) = ds[0].parse_spec(s, toks)->Ok_0;
        defaults_keep_names(ds.drop_first(), s1, t1, help);
    }
}

proof fn positionals_keep_names(ps: Seq<PositionalArgument>, s: StoreModel, toks: Seq<String>, help: Seq<char>)
    requires
        positionals_outcome(ps, s, toks, help) is Ok,
    ensures
        keeps_names(s, positionals_outcome(ps, s, toks, help)->Ok_0.0),
    decreases ps.len(),
{
    if ps.len() > 0 {
        let (s1, t1) = ps[0].parse_spec(s, toks)->Ok_0;
        positionals_keep_names(ps.drop_first(), s1, t1, help);
    }
}

proof fn optionals_keep_names(os: Seq<OptionalArgument>, s: StoreModel, toks: Seq<String>, help: Seq<char>)
    requires
        optionals_outcome(os, s, toks, help) is Ok,
    ensures
        keeps_names(s, optionals_outcome(os, s, toks, help)->Ok_0.0),
    decreases os.len(),
{
    if os.len() > 0 {
        let (s1, t1) = os[0].parse_spec(s, toks)->Ok_0;
        optionals_keep_names(os.drop_first(), s1, t1, help);
    }
}

/// Filling in defaults changes no value that was already there.
proof fn optional_defaults_keep_values(os: Seq<OptionalArgument>, s: StoreModel, help: Seq<char>)
    requires
        optional_defaults_outcome(os, s, help) is Ok,
    ensures
        forall|k: Seq<char>|
            #[trigger] s.values.contains_key(k) ==> optional_defaults_outcome(os, s, help)->Ok_0.values.contains_key(k)
                && optional_defaults_outcome(os, s, help)->Ok_0.values[k] == s.values[k],
    decreases os.len(),
{
    if os.len() > 0 {
        let o = os[0];
        if !s.values.contains_key(o.spec_name()) && o.spec_default() is Some {
            let v = converted(o.spec_parser(), o.spec_default()->0)->0;
            let s1 = s.with_value(o.spec_name(), v);
            optional_defaults_keep_values(os.drop_first(), s1, help);
            assert forall|k: Seq<char>| #[trigger] s.values.contains_key(k) implies optional_defaults_outcome(
                os,
                s,
                help,
            )->Ok_0.values.contains_key(k) && optional_defaults_outcome(os, s, help)->Ok_0.values[k] == s.values[k] by {
                assert(s1.values.contains_key(k));
            }
        } else {
            optional_defaults_keep_values(os.drop_first(), s, help);
        }
    }
}

proof fn flags_keep_names(fs: Seq<FlagArgument>, s: StoreModel, toks: Seq<String>, help: Seq<char>)
    requires
        flags_outcome(fs, s, toks, help) is Ok,
    ensures
        keeps_names(s, flags_outcome(fs, s, toks, help)->Ok_0.0),
    decreases fs.len(),
{
    if fs.len() > 0 {
        let (s1, t1) = fs[0].parse_spec(s, toks)->Ok_0;
        flags_keep_names(fs.drop_first(), s1, t1, help);
    }
}

/// After filling, every flag holds a value; one that held none holds `false`, and the rest
/// keep theirs.
proof fn flags_filled_facts(fs: Seq<FlagArgument>, s: StoreModel)
    ensures
        keeps_names(s, flags_filled(fs, s)),
        forall|k: Seq<char>| s.values.contains_key(k) ==> #[trigger] flags_filled(fs, s).values[k] == s.values[k],
        forall|i: int| 0 <= i < fs.len() ==> flags_filled(fs, s).values.contains_key(#[trigger] fs[i].spec_name()),
        forall|i: int|
            0 <= i < fs.len() && !s.values.contains_key(#[trigger] fs[i].spec_name()) ==> flags_filled(
                fs,
                s,
            ).values[fs[i].spec_name()] == ValueModel::Flag(false),
    decreases fs.len(),
{
    if fs.len() > 0 {
        let f = fs[0];
        let s1 = if !s.values.contains_key(f.spec_name()) {
            s.with_value(f.spec_name(), ValueModel::Flag(false))
        } else {
            s
        };
        flags_filled_facts(fs.drop_first(), s1);
        assert forall|i: int| 0 <= i < fs.len() implies flags_filled(fs, s).values.contains_key(
            #[trigger] fs[i].spec_name(),
        ) by {
            if i > 0 {
                assert(fs[i] == fs.drop_first()[i - 1]);
            }
        }
        assert forall|i: int|
            0 <= i < fs.len() && !s.values.contains_key(#[trigger] fs[i].spec_name()) implies flags_filled(
                fs,
                s,
            ).values[fs[i].spec_name()] == ValueModel::Flag(false) by {
            if i > 0 {
                assert(fs[i] == fs.drop_first()[i - 1]);
                if fs[i].spec_name() == f.spec_name() {
                } else {
                    assert(!s1.values.contains_key(fs[i].spec_name()));
                }
            }
        }
    }
}

proof fn node_keeps_names(p: Parser, s: StoreModel, toks: Seq<String>)
    requires
        p.node_outcome(s, toks) is Ok,
    ensures
        keeps_names(s, p.node_outcome(s, toks)->Ok_0.0),
    decreases p, 1int,
{
    let help = p.help_spec();
    let s0 = s.with_action(p.spec_name());
    defaults_keep_names(p.spec_defaults(), s0, toks, help);
    let (s1, t1) = defaults_outcome(p.spec_defaults(), s0, toks, help)->Ok_0;
    positionals_keep_names(p.spec_positionals(), s1, t1, help);
    let (s2, t2) = positionals_outcome(p.spec_positionals(), s1, t1, help)->Ok_0;
    optionals_keep_names(p.spec_optionals(), s2, t2, help);
    let (s2b, t3) = optionals_outcome(p.spec_optionals(), s2, t2, help)->Ok_0;
    optional_defaults_keep_values(p.spec_optionals(), s2b, help);
    let s3 = optional_defaults_outcome(p.spec_optionals(), s2b, help)->Ok_0;
    flags_keep_names(p.spec_flags(), s3, t3, help);
    let (s3b, t4) = flags_outcome(p.spec_flags(), s3, t3, help)->Ok_0;
    flags_filled_facts(p.spec_flags(), s3b);
    let s4 = flags_filled(p.spec_flags(), s3b);
    actions_keep_names(p, s4, t4);
    let fin = p.actions_outcome(s4, t4)->Ok_0.0;
    assert forall|k: Seq<char>| s.values.contains_key(k) implies #[trigger] fin.values.contains_key(k) by {
        assert(s0.values.contains_key(k));
        assert(s1.values.contains_key(k));
        assert(s2.values.contains_key(k));
        assert(s2b.values.contains_key(k));
        assert(s3.values.contains_key(k));
        assert(s3b.values.contains_key(k));
        assert(s4.values.contains_key(k));
    }
}

proof fn actions_keep_names(p: Parser, s: StoreModel, toks: Seq<String>)
    requires
        p.actions_outcome(s, toks) is Ok,
    ensures
        keeps_names(s, p.actions_outcome(s, toks)->Ok_0.0),
    decreases p, 0int,
{
    if p.spec_actions().len() > 0 {
        let k = choose|k: int| is_first_action(p.spec_actions(), toks[0]@, k);
        node_keeps_names(p.spec_actions()[k], s, toks.drop_first());
    }
}

/// After a successful parse, every flag that the parser declares holds a value.
pub proof fn flags_always_present(p: Parser, toks: Seq<String>)
    requires
        p.parse_spec(toks) is Ok,
    ensures
        forall|i: int|
            0 <= i < p.spec_flags().len() ==> p.parse_spec(toks)->Ok_0.values.contains_key(
                #[trigger] p.spec_flags()[i].spec_name(),
            ),
{
    let s = StoreModel::empty();
    let help = p.help_spec();
    let s0 = s.with_action(p.spec_name());
    let (s1, t1) = defaults_outcome(p.spec_defaults(), s0, toks, help)->Ok_0;
    let (s2, t2) = positionals_outcome(p.spec_positionals(), s1, t1, help)->Ok_0;
    let (s2b, t3) = optionals_outcome(p.spec_optionals(), s2, t2, help)->Ok_0;
    let s3 = optional_defaults_outcome(p.spec_optionals(), s2b, help)->Ok_0;
    let (s3b, t4) = flags_outcome(p.spec_flags(), s3, t3, help)->Ok_0;
    flags_filled_facts(p.spec_flags(), s3b);
    let s4 = flags_filled(p.spec_flags(), s3b);
    actions_keep_names(p, s4, t4);
}

/// In the flags' phase every declared flag ends up holding `true` or `false`, where the
/// bag held no value of another kind under a flag's name before.
pub proof fn flags_phase_sets_booleans(fs: Seq<FlagArgument>, s: StoreModel, toks: Seq<String>, help: Seq<char>)
    requires
        flags_phase(fs, s, toks, help) is Ok,
        forall|i: int|
            0 <= i < fs.len() && s.values.contains_key(#[trigger] fs[i].spec_name()) ==> s.values[fs[i].spec_name()] is Flag,
    ensures
        forall|i: int|
            0 <= i < fs.len() ==> flags_phase(fs, s, toks, help)->Ok_0.0.values.contains_key(
                #[trigger] fs[i].spec_name(),
            ) && flags_phase(fs, s, toks, help)->Ok_0.0.values[fs[i].spec_name()] is Flag,
{
    flags_scan_sets_booleans(fs, fs, s, toks, help);
    let s1 = flags_outcome(fs, s, toks, help)->Ok_0.0;
    flags_filled_facts(fs, s1);
}

proof fn flags_scan_sets_booleans(all: Seq<FlagArgument>, fs: Seq<FlagArgument>, s: StoreModel, toks: Seq<String>, help: Seq<char>)
    requires
        flags_outcome(fs, s, toks, help) is Ok,
        forall|i: int|
            0 <= i < all.len() && s.values.contains_key(#[trigger] all[i].spec_name()) ==> s.values[all[i].spec_name()] is Flag,
        forall|j: int| 0 <= j < fs.len() ==> exists|i: int| 0 <= i < all.len() && #[trigger] fs[j].spec_name() == all[i].spec_name(),
    ensures
        forall|i: int|
            0 <= i < all.len() && flags_outcome(fs, s, toks, help)->Ok_0.0.values.contains_key(#[trigger] all[i].spec_name())
                ==> flags_outcome(fs, s, toks, help)->Ok_0.0.values[all[i].spec_name()] is Flag,
    decreases fs.len(),
{
    if fs.len() > 0 {
        let (s1, t1) = fs[0].parse_spec(s, toks)->Ok_0;
        assert(exists|i: int| 0 <= i < all.len() && fs[0].spec_name() == all[i].spec_name());
        assert forall|j: int| 0 <= j < fs.drop_first().len() implies exists|i: int|
            0 <= i < all.len() && #[trigger] fs.drop_first()[j].spec_name() == all[i].spec_name() by {
            assert(fs.drop_first()[j] == fs[j + 1]);
        }
        flags_scan_sets_booleans(all, fs.drop_first(), s1, t1, help);
    }
}

// ---- positionals ----

/// The positionals' phase changes no value under a name that none of them carries.
proof fn positionals_touch_own_names(ps: Seq<PositionalArgument>, s: StoreModel, toks: Seq<String>, help: Seq<char>, k: Seq<char>)
    requires
        positionals_outcome(ps, s, toks, help) is Ok,
        forall|i: int| 0 <= i < ps.len() ==> (#[trigger] ps[i]).spec_name() != k,
    ensures
        positionals_outcome(ps, s, toks, help)->Ok_0.0.values.contains_key(k) == s.values.contains_key(k),
        positionals_outcome(ps, s, toks, help)->Ok_0.0.values[k] == s.values[k],
    decreases ps.len(),
{
    if ps.len() > 0 {
        let (s1, t1) = ps[0].parse_spec(s, toks)->Ok_0;
        assert(ps[0].spec_name() != k);
        assert forall|i: int| 0 <= i < ps.drop_first().len() implies (#[trigger] ps.drop_first()[i]).spec_name() != k by {
            assert(ps.drop_first()[i] == ps[i + 1]);
        }
        positionals_touch_own_names(ps.drop_first(), s1, t1, help, k);
    }
}

/// When the positionals' phase succeeds, positional `i` holds the conversion of the `i`-th
/// token, and the tokens after the positionals are left.
pub proof fn positionals_store_conversions(ps: Seq<PositionalArgument>, s: StoreModel, toks: Seq<String>, help: Seq<char>)
    requires
        positionals_outcome(ps, s, toks, help) is Ok,
        distinct_positional_names(ps),
    ensures
        ps.len() <= toks.len(),
        positionals_outcome(ps, s, toks, help)->Ok_0.1 == toks.subrange(ps.len() as int, toks.len() as int),
        forall|i: int|
            0 <= i < ps.len() ==> positionals_outcome(ps, s, toks, help)->Ok_0.0.values.contains_key(
                #[trigger] ps[i].spec_name(),
            ) && converted(ps[i].spec_parser(), toks[i]@) == Some(
                positionals_outcome(ps, s, toks, help)->Ok_0.0.values[ps[i].spec_name()],
            ),
    decreases ps.len(),
{
    if ps.len() == 0 {
        assert(toks.subrange(0, toks.len() as int) =~= toks);
    } else {
        let (s1, t1) = ps[0].parse_spec(s, toks)->Ok_0;
        let rest = ps.drop_first();
        assert forall|a: int, b: int| 0 <= a < b < rest.len() implies rest[a].spec_name() != rest[b].spec_name() by {
            assert(rest[a] == ps[a + 1] && rest[b] == ps[b + 1]);
        }
        positionals_store_conversions(rest, s1, t1, help);
        assert(t1 == toks.drop_first());
        assert(toks.drop_first().subrange(rest.len() as int, toks.len() - 1) =~= toks.subrange(ps.len() as int, toks.len() as int));
        let fin = positionals_outcome(ps, s, toks, help)->Ok_0.0;
        assert forall|j: int| 0 <= j < rest.len() implies (#[trigger] rest[j]).spec_name() != ps[0].spec_name() by {
            assert(rest[j] == ps[j + 1]);
        }
        positionals_touch_own_names(rest, s1, t1, help, ps[0].spec_name());
        assert forall|i: int| 0 <= i < ps.len() implies {
            &&& fin.values.contains_key(#[trigger] ps[i].spec_name())
            &&& converted(ps[i].spec_parser(), toks[i]@) == Some(fin.values[ps[i].spec_name()])
        } by {
            if i > 0 {
                assert(ps[i] == rest[i - 1]);
                assert(toks[i] == t1[i - 1]);
            }
        }
    }
}

/// A required positional that finds no token fails the parse with a message that names
/// it, whatever the result bag held.
pub proof fn missing_positional_is_named(ps: Seq<PositionalArgument>, s: StoreModel, toks: Seq<String>, help: Seq<char>)
    requires
        toks.len() < ps.len(),
        forall|i: int| 0 <= i < toks.len() ==> !is_help(#[trigger] toks[i]@),
        forall|i: int| 0 <= i < toks.len() ==> converted((#[trigger] ps[i]).spec_parser(), toks[i]@) is Some,
    ensures
        positionals_outcome(ps, s, toks, help) == Err::<(StoreModel, Seq<String>), Seq<char>>(
            wrapped_error(missing_positional(ps[toks.len() as int].spec_name()), help),
        ),
        ({
            let m = positionals_outcome(ps, s, toks, help)->Err_0;
            let name = ps[toks.len() as int].spec_name();
            exists|at: int| 0 <= at && at + name.len() <= m.len() && #[trigger] m.subrange(at, at + name.len()) == name
        }),
    decreases toks.len(),
{
    let name = ps[toks.len() as int].spec_name();
    if toks.len() == 0 {
        let m = wrapped_error(missing_positional(name), help);
        let a = "Bad Cmd Arguments: "@;
        let b = "missing required positional argument: "@;
        let at: int = (a.len() + b.len()) as int;
        assert(missing_positional(name) == b + name);
        assert(m == a + (b + name) + " \n\n "@ + help);
        assert forall|j: int| 0 <= j < name.len() implies #[trigger] m[at + j] == name[j] by {
            assert((a + (b + name))[at + j] == name[j]);
        }
        assert(m.subrange(at, at + name.len()) =~= name);
        assert(at + name.len() <= m.len());
        assert(positionals_outcome(ps, s, toks, help)->Err_0 == m);
    } else {
        let (s1, t1) = ps[0].parse_spec(s, toks)->Ok_0;
        assert(t1 == toks.drop_first());
        assert forall|i: int| 0 <= i < t1.len() implies !is_help(#[trigger] t1[i]@) by {
            assert(t1[i] == toks[i + 1]);
        }
        assert forall|i: int| 0 <= i < t1.len() implies converted((#[trigger] ps.drop_first()[i]).spec_parser(), t1[i]@) is Some by {
            assert(t1[i] == toks[i + 1]);
            assert(ps.drop_first()[i] == ps[i + 1]);
        }
        missing_positional_is_named(ps.drop_first(), s1, t1, help);
        assert(ps.drop_first()[t1.len() as int] == ps[toks.len() as int]);
        assert(positionals_outcome(ps, s, toks, help) == positionals_outcome(ps.drop_first(), s1, t1, help));
    }
}

// ---- names that a phase leaves alone ----

proof fn defaults_touch_own_names(ds: Seq<DefaultArgument>, s: StoreModel, toks: Seq<String>, help: Seq<char>, k: Seq<char>)
    requires
        defaults_outcome(ds, s, toks, help) is Ok,
        forall|i: int| 0 <= i < ds.len() ==> (#[trigger] ds[i]).spec_name() != k,
    ensures
        defaults_outcome(ds, s, toks, help)->Ok_0.0.values.contains_key(k) == s.values.contains_key(k),
        defaults_outcome(ds, s, toks, help)->Ok_0.0.values[k] == s.values[k],
    decreases ds.len(),
{
    if ds.len() > 0 {
        let (s1, t1) = ds[0].parse_spec(s, toks)->Ok_0;
        assert(ds[0].spec_name() != k);
        assert forall|i: int| 0 <= i < ds.drop_first().len() implies (#[trigger] ds.drop_first()[i]).spec_name() != k by {
            assert(ds.drop_first()[i] == ds[i + 1]);
        }
        defaults_touch_own_names(ds.drop_first(), s1, t1, help, k);
    }
}

proof fn optionals_touch_own_names(os: Seq<OptionalArgument>, s: StoreModel, toks: Seq<String>, help: Seq<char>, k: Seq<char>)
    requires
        optionals_phase(os, s, toks, help) is Ok,
        forall|i: int| 0 <= i < os.len() ==> (#[trigger] os[i]).spec_name() != k,
    ensures
        optionals_phase(os, s, toks, help)->Ok_0.0.values.contains_key(k) == s.values.contains_key(k),
        optionals_phase(os, s, toks, help)->Ok_0.0.values[k] == s.values[k],
{
    optionals_scan_touch_own_names(os, s, toks, help, k);
    let s1 = optionals_outcome(os, s, toks, help)->Ok_0.0;
    optional_defaults_touch_own_names(os, s1, help, k);
}

proof fn optionals_scan_touch_own_names(os: Seq<OptionalArgument>, s: StoreModel, toks: Seq<String>, help: Seq<char>, k: Seq<char>)
    requires
        optionals_outcome(os, s, toks, help) is Ok,
        forall|i: int| 0 <= i < os.len() ==> (#[trigger] os[i]).spec_name() != k,
    ensures
        optionals_outcome(os, s, toks, help)->Ok_0.0.values.contains_key(k) == s.values.contains_key(k),
        optionals_outcome(os, s, toks, help)->Ok_0.0.values[k] == s.values[k],
    decreases os.len(),
{
    if os.len() > 0 {
        let (s1, t1) = os[0].parse_spec(s, toks)->Ok_0;
        assert(os[0].spec_name() != k);
        assert forall|i: int| 0 <= i < os.drop_first().len() implies (#[trigger] os.drop_first()[i]).spec_name() != k by {
            assert(os.drop_first()[i] == os[i + 1]);
        }
        optionals_scan_touch_own_names(os.drop_first(), s1, t1, help, k);
    }
}

proof fn optional_defaults_touch_own_names(os: Seq<OptionalArgument>, s: StoreModel, help: Seq<char>, k: Seq<char>)
    requires
        optional_defaults_outcome(os, s, help) is Ok,
        forall|i: int| 0 <= i < os.len() ==> (#[trigger] os[i]).spec_name() != k,
    ensures
        optional_defaults_outcome(os, s, help)->Ok_0.values.contains_key(k) == s.values.contains_key(k),
        optional_defaults_outcome(os, s, help)->Ok_0.values[k] == s.values[k],
    decreases os.len(),
{
    if os.len() > 0 {
        let o = os[0];
        assert(o.spec_name() != k);
        assert forall|i: int| 0 <= i < os.drop_first().len() implies (#[trigger] os.drop_first()[i]).spec_name() != k by {
            assert(os.drop_first()[i] == os[i + 1]);
        }
        if !s.values.contains_key(o.spec_name()) && o.spec_default() is Some {
            let v = converted(o.spec_parser(), o.spec_default()->0)->0;
            optional_defaults_touch_own_names(os.drop_first(), s.with_value(o.spec_name(), v), help, k);
        } else {
            optional_defaults_touch_own_names(os.drop_first(), s, help, k);
        }
    }
}

/// After a successful parse by a parser without actions, every flag it declares holds
/// `true` or `false`, where no default, positional or optional shares the flag's name.
pub proof fn flags_hold_booleans(p: Parser, toks: Seq<String>)
    requires
        p.parse_spec(toks) is Ok,
        p.spec_actions().len() == 0,
        forall|i: int, j: int|
            0 <= i < p.spec_flags().len() && 0 <= j < p.spec_defaults().len() ==> (#[trigger] p.spec_flags()[i]).spec_name()
                != (#[trigger] p.spec_defaults()[j]).spec_name(),
        forall|i: int, j: int|
            0 <= i < p.spec_flags().len() && 0 <= j < p.spec_positionals().len() ==> (#[trigger] p.spec_flags()[i]).spec_name()
                != (#[trigger] p.spec_positionals()[j]).spec_name(),
        forall|i: int, j: int|
            0 <= i < p.spec_flags().len() && 0 <= j < p.spec_optionals().len() ==> (#[trigger] p.spec_flags()[i]).spec_name()
                != (#[trigger] p.spec_optionals()[j]).spec_name(),
    ensures
        forall|i: int|
            0 <= i < p.spec_flags().len() ==> p.parse_spec(toks)->Ok_0.values.contains_key(
                #[trigger] p.spec_flags()[i].spec_name(),
            ) && p.parse_spec(toks)->Ok_0.values[p.spec_flags()[i].spec_name()] is Flag,
{
    let fs = p.spec_flags();
    let help = p.help_spec();
    let s0 = StoreModel::empty().with_action(p.spec_name());
    let (s1, t1) = defaults_outcome(p.spec_defaults(), s0, toks, help)->Ok_0;
    let (s2, t2) = positionals_outcome(p.spec_positionals(), s1, t1, help)->Ok_0;
    let (s3, t3) = optionals_phase(p.spec_optionals(), s2, t2, help)->Ok_0;
    assert forall|i: int| 0 <= i < fs.len() && s3.values.contains_key(#[trigger] fs[i].spec_name()) implies s3.values[fs[i].spec_name()] is Flag by {
        let k = fs[i].spec_name();
        assert forall|j: int| 0 <= j < p.spec_defaults().len() implies (#[trigger] p.spec_defaults()[j]).spec_name() != k by {
            assert(fs[i].spec_name() != p.spec_defaults()[j].spec_name());
        }
        assert forall|j: int| 0 <= j < p.spec_positionals().len() implies (#[trigger] p.spec_positionals()[j]).spec_name() != k by {
            assert(fs[i].spec_name() != p.spec_positionals()[j].spec_name());
        }
        assert forall|j: int| 0 <= j < p.spec_optionals().len() implies (#[trigger] p.spec_optionals()[j]).spec_name() != k by {
            assert(fs[i].spec_name() != p.spec_optionals()[j].spec_name());
        }
        defaults_touch_own_names(p.spec_defaults(), s0, toks, help, k);
        positionals_touch_own_names(p.spec_positionals(), s1, t1, help, k);
        optionals_touch_own_names(p.spec_optionals(), s2, t2, help, k);
        assert(!s0.values.contains_key(k));
    }
    flags_phase_sets_booleans(fs, s3, t3, help);
}

// ---- optionals ----

/// Filling in defaults: an optional that holds a value keeps it, and one that holds none
/// and has a default holds the default's conversion.
pub proof fn optional_default_resolution(os: Seq<OptionalArgument>, s: StoreModel, help: Seq<char>, i: int)
    requires
        optional_defaults_outcome(os, s, help) is Ok,
        distinct_optional_names(os),
        0 <= i < os.len(),
    ensures
        ({
            let s1 = optional_defaults_outcome(os, s, help)->Ok_0;
            let name = os[i].spec_name();
            &&& s.values.contains_key(name) ==> s1.values.contains_key(name) && s1.values[name] == s.values[name]
            &&& !s.values.contains_key(name) && os[i].spec_default() is Some ==> s1.values.contains_key(name) && Some(
                s1.values[name],
            ) == converted(os[i].spec_parser(), os[i].spec_default()->0)
        }),
    decreases os.len(),
{
    optional_defaults_keep_values(os, s, help);
    let o = os[0];
    let rest = os.drop_first();
    assert forall|a: int, b: int| 0 <= a < b < rest.len() implies rest[a].spec_name() != rest[b].spec_name() by {
        assert(rest[a] == os[a + 1] && rest[b] == os[b + 1]);
    }
    let s1 = if !s.values.contains_key(o.spec_name()) && o.spec_default() is Some {
        s.with_value(o.spec_name(), converted(o.spec_parser(), o.spec_default()->0)->0)
    } else {
        s
    };
    optional_defaults_keep_values(rest, s1, help);
    assert(s1.values.contains_key(o.spec_name()) || !s.values.contains_key(o.spec_name()));
    if i > 0 {
        let name = os[i].spec_name();
        assert(os[i] == rest[i - 1]);
        assert(os[i].spec_name() != o.spec_name()) by {
            assert(distinct_optional_names(os));
        }
        assert(s1.values.contains_key(name) == s.values.contains_key(name));
        if s.values.contains_key(name) {
            assert(s1.values[name] == s.values[name]);
        }
        optional_default_resolution(rest, s1, help, i - 1);
    } else {
        if !s.values.contains_key(o.spec_name()) && o.spec_default() is Some {
            assert(s1.values.contains_key(o.spec_name()));
        }
    }
}

/// The optionals' phase, end to end: an optional already given keeps its value; one not
/// given that has a default holds the default's conversion.
pub proof fn optionals_phase_resolution(os: Seq<OptionalArgument>, s: StoreModel, toks: Seq<String>, help: Seq<char>, i: int)
    requires
        optionals_phase(os, s, toks, help) is Ok,
        distinct_optional_names(os),
        0 <= i < os.len(),
    ensures
        ({
            let scanned = optionals_outcome(os, s, toks, help)->Ok_0.0;
            let s1 = optionals_phase(os, s, toks, help)->Ok_0.0;
            let name = os[i].spec_name();
            &&& scanned.values.contains_key(name) ==> s1.values[name] == scanned.values[name]
            &&& !scanned.values.contains_key(name) && os[i].spec_default() is Some ==> s1.values.contains_key(name)
                && Some(s1.values[name]) == converted(os[i].spec_parser(), os[i].spec_default()->0)
        }),
{
    let scanned = optionals_outcome(os, s, toks, help)->Ok_0.0;
    optional_default_resolution(os, scanned, help, i);
}

// ---- flag forms ----

/// Form matching is exact: `-x` matches the short character `x` and `--long` the long form
/// `long`; a `--` token with anything else after it, or a `-` token with another
/// character, does not match.
pub proof fn form_match_is_exact(long: Seq<char>, short: char, other: Seq<char>, c: char)
    ensures
        names_form(seq!['-', short], long, short),
        names_form("--"@ + long, long, short),
        other != long && short != '-' ==> !names_form("--"@ + other, long, short),
        c != short && long.len() > 0 ==> !names_form(seq!['-', c], long, short),
{
    reveal_strlit("--");
    assert(("--"@ + long).subrange(2, ("--"@ + long).len() as int) =~= long);
    assert(("--"@ + other).subrange(2, ("--"@ + other).len() as int) =~= other);
    assert(("--"@ + other)[1] == '-');
    assert(seq!['-', c].subrange(2, 2) =~= Seq::<char>::empty());
}

// ---- help ----

proof fn defaults_convertible_keep_tokens(ds: Seq<DefaultArgument>, s: StoreModel, toks: Seq<String>, help: Seq<char>)
    requires
        forall|i: int| 0 <= i < ds.len() ==> converted((#[trigger] ds[i]).spec_parser(), ds[i].spec_value()) is Some,
    ensures
        defaults_outcome(ds, s, toks, help) is Ok,
        defaults_outcome(ds, s, toks, help)->Ok_0.1 == toks,
    decreases ds.len(),
{
    if ds.len() > 0 {
        let (s1, t1) = ds[0].parse_spec(s, toks)->Ok_0;
        assert forall|i: int| 0 <= i < ds.drop_first().len() implies converted(
            (#[trigger] ds.drop_first()[i]).spec_parser(),
            ds.drop_first()[i].spec_value(),
        ) is Some by {
            assert(ds.drop_first()[i] == ds[i + 1]);
        }
        defaults_convertible_keep_tokens(ds.drop_first(), s1, t1, help);
    }
}

/// A request for help before a node's first positional ends its parse with that node's
/// own help text, verbatim.
pub proof fn help_before_positionals(p: Parser, s: StoreModel, toks: Seq<String>)
    requires
        p.spec_positionals().len() > 0,
        starts_with_help(toks),
        forall|i: int|
            0 <= i < p.spec_defaults().len() ==> converted(
                (#[trigger] p.spec_defaults()[i]).spec_parser(),
                p.spec_defaults()[i].spec_value(),
            ) is Some,
    ensures
        p.node_outcome(s, toks) == Err::<(StoreModel, Seq<String>), Seq<char>>(p.help_spec()),
{
    defaults_convertible_keep_tokens(p.spec_defaults(), s.with_action(p.spec_name()), toks, p.help_spec());
}

/// An error in the parser of the chosen action, help included, is the error of the whole
/// node, unchanged.
pub proof fn action_errors_pass_through(p: Parser, s: StoreModel, toks: Seq<String>, k: int)
    requires
        toks.len() > 0,
        is_first_action(p.spec_actions(), toks[0]@, k),
        p.spec_actions()[k].node_outcome(s, toks.drop_first()) is Err,
    ensures
        p.actions_outcome(s, toks) == p.spec_actions()[k].node_outcome(s, toks.drop_first()),
{
    assert forall|k2: int| is_first_action(p.spec_actions(), toks[0]@, k2) implies k2 == k by {
        if k2 < k {
            assert(p.spec_actions()[k2].spec_name() != toks[0]@);
        } else if k2 > k {
            assert(p.spec_actions()[k].spec_name() != toks[0]@);
        }
    }
}

// ---- repeatability ----

/// Parsing the same tokens with the same parser twice gives equal result bags, or equal
/// messages.
pub proof fn parse_is_repeatable(
    p: Parser,
    toks: Seq<String>,
    first: Result<CmdParsingResults, String>,
    second: Result<CmdParsingResults, String>,
)
    requires
        match p.parse_spec(toks) {
            Ok(s) => first matches Ok(a) && a@ == s,
            Err(m) => first matches Err(e) && e@ == m,
        },
        match p.parse_spec(toks) {
            Ok(s) => second matches Ok(a) && a@ == s,
            Err(m) => second matches Err(e) && e@ == m,
        },
    ensures
        match (first, second) {
            (Ok(a), Ok(b)) => a@ == b@,
            (Err(a), Err(b)) => a@ == b@,
            _ => false,
        },
{
}

} // verus!
