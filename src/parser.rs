//! The parser node: five phases over the tokens, descent into actions, and help text.

use vstd::prelude::*;
use crate::command_line_parsing::Outcome;
use crate::command_line_parsing_results::{CmdParsingResults, StoreModel};
use crate::default_argument::DefaultArgument;
use crate::flag_argument::FlagArgument;
use crate::optional_argument::OptionalArgument;
use crate::positional_argument::PositionalArgument;
use crate::text::{
    append_token_list, help_line, help_line_text, push_char, starts_with_help,
    starts_with_help_token, token_list, wrapped_error, wrapped_error_text,
};
use crate::value::{conversion_error, conversion_error_text, converted, Conversion, Value, ValueModel};

verus! {

/// A node of the declared argument tree: its own arguments of each kind, and nested
/// parsers chosen by name (actions).
pub struct Parser {
    pub(crate) name: String,
    pub(crate) doc: String,
    pub(crate) defaults: Vec<DefaultArgument>,
    pub(crate) actions: Vec<Parser>,
    pub(crate) positionals: Vec<PositionalArgument>,
    pub(crate) optionals: Vec<OptionalArgument>,
    pub(crate) flags: Vec<FlagArgument>,
}

/// Applies the defaults in order.
pub open spec fn defaults_outcome(ds: Seq<DefaultArgument>, s: StoreModel, toks: Seq<String>, help: Seq<char>) -> Outcome
    decreases ds.len(),
{
    if ds.len() == 0 {
        Ok((s, toks))
    } else {
        match ds[0].parse_spec(s, toks) {
            Err(e) => Err(wrapped_error(e, help)),
            Ok((s1, t1)) => defaults_outcome(ds.drop_first(), s1, t1, help),
        }
    }
}

/// Takes one token per positional, in order; a request for help before any of them
/// stops the parse with the help text.
pub open spec fn positionals_outcome(ps: Seq<PositionalArgument>, s: StoreModel, toks: Seq<String>, help: Seq<char>) -> Outcome
    decreases ps.len(),
{
    if ps.len() == 0 {
        Ok((s, toks))
    } else if starts_with_help(toks) {
        Err(help)
    } else {
        match ps[0].parse_spec(s, toks) {
            Err(e) => Err(wrapped_error(e, help)),
            Ok((s1, t1)) => positionals_outcome(ps.drop_first(), s1, t1, help),
        }
    }
}

/// Lets each optional, in order, take its form and value from the front of the tokens; a
/// request for help before any of them stops the parse with the help text.
pub open spec fn optionals_outcome(os: Seq<OptionalArgument>, s: StoreModel, toks: Seq<String>, help: Seq<char>) -> Outcome
    decreases os.len(),
{
    if os.len() == 0 {
        Ok((s, toks))
    } else if starts_with_help(toks) {
        Err(help)
    } else {
        match os[0].parse_spec(s, toks) {
            Err(e) => Err(wrapped_error(e, help)),
            Ok((s1, t1)) => optionals_outcome(os.drop_first(), s1, t1, help),
        }
    }
}

/// Stores the converted default of each optional that has one and holds no value yet.
pub open spec fn optional_defaults_outcome(os: Seq<OptionalArgument>, s: StoreModel, help: Seq<char>) -> Result<StoreModel, Seq<char>>
    decreases os.len(),
{
    if os.len() == 0 {
        Ok(s)
    } else {
        let o = os[0];
        if !s.values.contains_key(o.spec_name()) && o.spec_default() is Some {
            let d = o.spec_default()->0;
            match converted(o.spec_parser(), d) {
                Some(v) => optional_defaults_outcome(os.drop_first(), s.with_value(o.spec_name(), v), help),
                None => Err(wrapped_error(conversion_error(o.spec_name(), d), help)),
            }
        } else {
            optional_defaults_outcome(os.drop_first(), s, help)
        }
    }
}

/// Lets each flag, in order, take its form from the front of the tokens; a request for
/// help before any of them stops the parse with the help text.
pub open spec fn flags_outcome(fs: Seq<FlagArgument>, s: StoreModel, toks: Seq<String>, help: Seq<char>) -> Outcome
    decreases fs.len(),
{
    if fs.len() == 0 {
        Ok((s, toks))
    } else if starts_with_help(toks) {
        Err(help)
    } else {
        match fs[0].parse_spec(s, toks) {
            Err(e) => Err(wrapped_error(e, help)),
            Ok((s1, t1)) => flags_outcome(fs.drop_first(), s1, t1, help),
        }
    }
}

/// Stores `false` for each flag that holds no value yet.
pub open spec fn flags_filled(fs: Seq<FlagArgument>, s: StoreModel) -> StoreModel
    decreases fs.len(),
{
    if fs.len() == 0 {
        s
    } else if !s.values.contains_key(fs[0].spec_name()) {
        flags_filled(fs.drop_first(), s.with_value(fs[0].spec_name(), ValueModel::Flag(false)))
    } else {
        flags_filled(fs.drop_first(), s)
    }
}

/// `k` is the first action named `tok`.
pub open spec fn is_first_action(actions: Seq<Parser>, tok: Seq<char>, k: int) -> bool {
    0 <= k < actions.len() && actions[k].spec_name() == tok
        && forall|j: int| 0 <= j < k ==> (#[trigger] actions[j]).spec_name() != tok
}

/// The message given when actions are declared and no token is left to choose one.
pub open spec fn no_action_error(help: Seq<char>) -> Seq<char> {
    "You have to chose an action. \n\n "@ + help
}

/// The message given when the token in place of an action names none.
pub open spec fn unknown_action_error(tok: Seq<char>, help: Seq<char>) -> Seq<char> {
    "Unknown action "@ + tok + " \n\n "@ + help
}

/// The message given when an action's parser leaves tokens over.
pub open spec fn leftover_after_action_error(rest: Seq<String>, help: Seq<char>) -> Seq<char> {
    "Too many supplied arguments after: "@ + token_list(rest) + "\n\n"@ + help
}

/// The message given when the whole parse leaves tokens over.
pub open spec fn leftover_error(rest: Seq<String>, help: Seq<char>) -> Seq<char> {
    "Too many cmd arguments after: "@ + token_list(rest) + " \n\n "@ + help
}

/// The positionals in the usage line: ` [<name>]` each.
pub open spec fn positional_usage(ps: Seq<PositionalArgument>) -> Seq<char>
    decreases ps.len(),
{
    if ps.len() == 0 {
        Seq::empty()
    } else {
        positional_usage(ps.drop_last()) + " ["@ + ps.last().spec_name() + "]"@
    }
}

/// The short forms `-<c>`, separated by commas.
pub open spec fn short_forms(cs: Seq<char>) -> Seq<char>
    decreases cs.len(),
{
    if cs.len() == 0 {
        Seq::empty()
    } else {
        short_forms(cs.drop_last()) + (if cs.len() > 1 {
            ","@
        } else {
            Seq::empty()
        }) + seq!['-', cs.last()]
    }
}

/// The action names, separated by commas.
pub open spec fn action_names(actions: Seq<Parser>) -> Seq<char>
    decreases actions.len(),
{
    if actions.len() == 0 {
        Seq::empty()
    } else {
        action_names(actions.drop_last()) + (if actions.len() > 1 {
            ","@
        } else {
            Seq::empty()
        }) + actions.last().spec_name()
    }
}

/// One help line per positional.
pub open spec fn positional_lines(ps: Seq<PositionalArgument>) -> Seq<char>
    decreases ps.len(),
{
    if ps.len() == 0 {
        Seq::empty()
    } else {
        positional_lines(ps.drop_last()) + ps.last().help_spec() + "\n"@
    }
}

/// One help line per optional.
pub open spec fn optional_lines(os: Seq<OptionalArgument>) -> Seq<char>
    decreases os.len(),
{
    if os.len() == 0 {
        Seq::empty()
    } else {
        optional_lines(os.drop_last()) + os.last().help_spec() + "\n"@
    }
}

/// One help line per flag.
pub open spec fn flag_lines(fs: Seq<FlagArgument>) -> Seq<char>
    decreases fs.len(),
{
    if fs.len() == 0 {
        Seq::empty()
    } else {
        flag_lines(fs.drop_last()) + fs.last().help_spec() + "\n"@
    }
}

/// One help line per action: its name, padded to the help column, then its doc string.
pub open spec fn action_lines(actions: Seq<Parser>) -> Seq<char>
    decreases actions.len(),
{
    if actions.len() == 0 {
        Seq::empty()
    } else {
        action_lines(actions.drop_last()) + help_line(actions.last().spec_name(), actions.last().spec_doc()) + "\n"@
    }
}

/// The optionals' phase: the scan, then the defaults of those that hold no value.
pub open spec fn optionals_phase(os: Seq<OptionalArgument>, s: StoreModel, toks: Seq<String>, help: Seq<char>) -> Outcome {
    match optionals_outcome(os, s, toks, help) {
        Err(m) => Err(m),
        Ok((s1, t1)) => match optional_defaults_outcome(os, s1, help) {
            Err(m) => Err(m),
            Ok(s2) => Ok((s2, t1)),
        },
    }
}

/// The flags' phase: the scan, then `false` for those that hold no value.
pub open spec fn flags_phase(fs: Seq<FlagArgument>, s: StoreModel, toks: Seq<String>, help: Seq<char>) -> Outcome {
    match flags_outcome(fs, s, toks, help) {
        Err(m) => Err(m),
        Ok((s1, t1)) => Ok((flags_filled(fs, s1), t1)),
    }
}

impl Parser {
    pub open(crate) spec fn spec_name(&self) -> Seq<char> {
        self.name@
    }

    pub open(crate) spec fn spec_doc(&self) -> Seq<char> {
        self.doc@
    }

    pub open(crate) spec fn spec_defaults(&self) -> Seq<DefaultArgument> {
        self.defaults@
    }

    pub open(crate) spec fn spec_actions(&self) -> Seq<Parser> {
        self.actions@
    }

    pub open(crate) spec fn spec_positionals(&self) -> Seq<PositionalArgument> {
        self.positionals@
    }

    pub open(crate) spec fn spec_optionals(&self) -> Seq<OptionalArgument> {
        self.optionals@
    }

    pub open(crate) spec fn spec_flags(&self) -> Seq<FlagArgument> {
        self.flags@
    }

    /// The short characters of the optionals, then of the flags.
    pub open(crate) spec fn short_chars(&self) -> Seq<char> {
        self.optionals@.map_values(|o: OptionalArgument| o.spec_short()) + self.flags@.map_values(
            |f: FlagArgument| f.spec_short(),
        )
    }

    /// The usage line: the name, the positionals, the short forms in braces where there
    /// are any, and the action names where there are any.
    pub open(crate) spec fn usage_spec(&self) -> Seq<char> {
        "usage: "@ + self.name@ + positional_usage(self.positionals@) + (if self.short_chars().len() > 0 {
            " {"@ + short_forms(self.short_chars()) + "}"@
        } else {
            Seq::empty()
        }) + (if self.actions.len() > 0 {
            " "@ + action_names(self.actions@)
        } else {
            Seq::empty()
        })
    }

    /// The help lines of the positionals, optionals, flags and actions.
    pub open(crate) spec fn body_spec(&self) -> Seq<char> {
        positional_lines(self.positionals@) + optional_lines(self.optionals@) + flag_lines(self.flags@)
            + action_lines(self.actions@)
    }

    /// Parsing on this node: the action becomes this node's name, then the defaults, the
    /// positionals, the optionals, the flags and the actions, each on what the one before
    /// left.
    pub open(crate) spec fn node_outcome(&self, s: StoreModel, toks: Seq<String>) -> Outcome
        decreases *self, 1int,
    {
        let help = self.help_spec();
        match defaults_outcome(self.defaults@, s.with_action(self.name@), toks, help) {
            Err(m) => Err(m),
            Ok((s1, t1)) => match positionals_outcome(self.positionals@, s1, t1, help) {
                Err(m) => Err(m),
                Ok((s2, t2)) => match optionals_phase(self.optionals@, s2, t2, help) {
                    Err(m) => Err(m),
                    Ok((s3, t3)) => match flags_phase(self.flags@, s3, t3, help) {
                        Err(m) => Err(m),
                        Ok((s4, t4)) => self.actions_outcome(s4, t4),
                    },
                },
            },
        }
    }

    /// The actions' phase. With no actions declared, the tokens are left as they are.
    /// Otherwise the first token must name an action, whose parser must take all the
    /// tokens after it.
    pub open(crate) spec fn actions_outcome(&self, s: StoreModel, toks: Seq<String>) -> Outcome
        decreases *self, 0int,
    {
        let help = self.help_spec();
        if self.actions.len() == 0 {
            Ok((s, toks))
        } else if toks.len() == 0 {
            Err(no_action_error(help))
        } else if exists|k: int| is_first_action(self.actions@, toks[0]@, k) {
            let k = choose|k: int| is_first_action(self.actions@, toks[0]@, k);
            match self.actions@[k].node_outcome(s, toks.drop_first()) {
                Err(m) => Err(m),
                Ok((s1, t1)) => if t1.len() == 0 {
                    Ok((s1, t1))
                } else {
                    Err(leftover_after_action_error(t1, help))
                },
            }
        } else {
            Err(unknown_action_error(toks[0]@, help))
        }
    }

    /// The outcome of a whole parse: a fresh result bag, this node's phases, and no token
    /// left over.
    pub open(crate) spec fn parse_spec(&self, toks: Seq<String>) -> Result<StoreModel, Seq<char>> {
        match self.node_outcome(StoreModel::empty(), toks) {
            Err(m) => Err(m),
            Ok((s, rest)) => if rest.len() == 0 {
                Ok(s)
            } else {
                Err(leftover_error(rest, self.help_spec()))
            },
        }
    }

    /// The help text: a head line, the usage line and the body, separated by blank lines.
    pub open(crate) spec fn help_spec(&self) -> Seq<char> {
        self.name@ + " - "@ + self.doc@ + "\n\n"@ + self.usage_spec() + "\n\n"@ + self.body_spec()
    }
}

impl Parser {
    /// Fails with this node's help text where the next token asks for help.
    fn check_for_help(&self, cmdline: &[String]) -> (r: Result<(), String>)
        ensures
            match r {
                Ok(()) => !starts_with_help(cmdline@),
                Err(m) => starts_with_help(cmdline@) && m@ == self.help_spec(),
            },
    {
        if starts_with_help_token(cmdline) {
            Err(self.help())
        } else {
            Ok(())
        }
    }

    fn parse_default_arguments<'b>(&self, result: &mut CmdParsingResults, cmdline: &'b [String]) -> (r: Result<
        &'b [String],
        String,
    >)
        ensures
            match defaults_outcome(self.defaults@, old(result)@, cmdline@, self.help_spec()) {
                Ok((s, rest)) => r matches Ok(rem) && rem@ == rest && final(result)@ == s,
                Err(m) => r matches Err(e) && e@ == m,
            },
    {
        let ghost help = self.help_spec();
        let ghost goal = defaults_outcome(self.defaults@, result@, cmdline@, help);
        let ghost start = result@;
        let mut remaining: &[String] = cmdline;
        let mut i: usize = 0;
        assert(self.defaults@.subrange(0, self.defaults.len() as int) =~= self.defaults@);
        while i < self.defaults.len()
            invariant
                i <= self.defaults.len(),
                help == self.help_spec(),
                start == old(result)@,
                goal == defaults_outcome(self.defaults@, start, cmdline@, help),
                goal == defaults_outcome(self.defaults@.subrange(i as int, self.defaults.len() as int), result@, remaining@, help),
            decreases self.defaults.len() - i,
        {
            proof {
                let rest = self.defaults@.subrange(i as int, self.defaults.len() as int);
                assert(rest.drop_first() =~= self.defaults@.subrange(i + 1, self.defaults.len() as int));
            }
            match self.defaults[i].parse(result, remaining) {
                Ok(rem) => remaining = rem,
                Err(e) => return Err(wrapped_error_text(&e, &self.help())),
            }
            i = i + 1;
        }
        Ok(remaining)
    }

    fn parse_positional_arguments<'b>(&self, result: &mut CmdParsingResults, cmdline: &'b [String]) -> (r: Result<
        &'b [String],
        String,
    >)
        ensures
            match positionals_outcome(self.positionals@, old(result)@, cmdline@, self.help_spec()) {
                Ok((s, rest)) => r matches Ok(rem) && rem@ == rest && final(result)@ == s,
                Err(m) => r matches Err(e) && e@ == m,
            },
    {
        let ghost help = self.help_spec();
        let ghost goal = positionals_outcome(self.positionals@, result@, cmdline@, help);
        let ghost start = result@;
        let mut remaining: &[String] = cmdline;
        let mut i: usize = 0;
        assert(self.positionals@.subrange(0, self.positionals.len() as int) =~= self.positionals@);
        while i < self.positionals.len()
            invariant
                i <= self.positionals.len(),
                help == self.help_spec(),
                start == old(result)@,
                goal == positionals_outcome(self.positionals@, start, cmdline@, help),
                goal == positionals_outcome(
                    self.positionals@.subrange(i as int, self.positionals.len() as int),
                    result@,
                    remaining@,
                    help,
                ),
            decreases self.positionals.len() - i,
        {
            proof {
                let rest = self.positionals@.subrange(i as int, self.positionals.len() as int);
                assert(rest.drop_first() =~= self.positionals@.subrange(i + 1, self.positionals.len() as int));
            }
            match self.check_for_help(remaining) {
                Ok(()) => {},
                Err(h) => return Err(h),
            }
            match self.positionals[i].parse(result, remaining) {
                Ok(rem) => remaining = rem,
                Err(e) => return Err(wrapped_error_text(&e, &self.help())),
            }
            i = i + 1;
        }
        Ok(remaining)
    }

    fn parse_optional_arguments<'b>(&self, result: &mut CmdParsingResults, cmdline: &'b [String]) -> (r: Result<
        &'b [String],
        String,
    >)
        ensures
            match optionals_phase(self.optionals@, old(result)@, cmdline@, self.help_spec()) {
                Ok((s, rest)) => r matches Ok(rem) && rem@ == rest && final(result)@ == s,
                Err(m) => r matches Err(e) && e@ == m,
            },
    {
        let ghost help = self.help_spec();
        let ghost goal = optionals_outcome(self.optionals@, result@, cmdline@, help);
        let ghost start = result@;
        let mut remaining: &[String] = cmdline;
        let mut i: usize = 0;
        assert(self.optionals@.subrange(0, self.optionals.len() as int) =~= self.optionals@);
        while i < self.optionals.len()
            invariant
                i <= self.optionals.len(),
                help == self.help_spec(),
                start == old(result)@,
                goal == optionals_outcome(self.optionals@, start, cmdline@, help),
                goal == optionals_outcome(
                    self.optionals@.subrange(i as int, self.optionals.len() as int),
                    result@,
                    remaining@,
                    help,
                ),
            decreases self.optionals.len() - i,
        {
            proof {
                let rest = self.optionals@.subrange(i as int, self.optionals.len() as int);
                assert(rest.drop_first() =~= self.optionals@.subrange(i + 1, self.optionals.len() as int));
            }
            match self.check_for_help(remaining) {
                Ok(()) => {},
                Err(h) => return Err(h),
            }
            match self.optionals[i].parse(result, remaining) {
                Ok(rem) => remaining = rem,
                Err(e) => return Err(wrapped_error_text(&e, &self.help())),
            }
            i = i + 1;
        }
        let ghost mid = result@;
        let ghost filled = optional_defaults_outcome(self.optionals@, result@, help);
        let mut j: usize = 0;
        assert(self.optionals@.subrange(0, self.optionals.len() as int) =~= self.optionals@);
        while j < self.optionals.len()
            invariant
                j <= self.optionals.len(),
                help == self.help_spec(),
                start == old(result)@,
                goal == optionals_outcome(self.optionals@, start, cmdline@, help),
                goal == Ok::<(StoreModel, Seq<String>), Seq<char>>((mid, remaining@)),
                filled == optional_defaults_outcome(self.optionals@, mid, help),
                filled == optional_defaults_outcome(
                    self.optionals@.subrange(j as int, self.optionals.len() as int),
                    result@,
                    help,
                ),
            decreases self.optionals.len() - j,
        {
            proof {
                let rest = self.optionals@.subrange(j as int, self.optionals.len() as int);
                assert(rest.drop_first() =~= self.optionals@.subrange(j + 1, self.optionals.len() as int));
                assert(rest[0] == self.optionals@[j as int]);
            }
            let item = &self.optionals[j];
            if !result.contains(item.name.as_str()) {
                match item.default() {
                    Some(d) => match item.parser().convert(&d) {
                        Some(v) => result.add_result_value(item.name(), v),
                        None => {
                            let e = conversion_error_text(&item.name, &d);
                            return Err(wrapped_error_text(&e, &self.help()));
                        },
                    },
                    None => {},
                }
            }
            j = j + 1;
        }
        Ok(remaining)
    }

    fn parse_flag_arguments<'b>(&self, result: &mut CmdParsingResults, cmdline: &'b [String]) -> (r: Result<
        &'b [String],
        String,
    >)
        ensures
            match flags_phase(self.flags@, old(result)@, cmdline@, self.help_spec()) {
                Ok((s, rest)) => r matches Ok(rem) && rem@ == rest && final(result)@ == s,
                Err(m) => r matches Err(e) && e@ == m,
            },
    {
        let ghost help = self.help_spec();
        let ghost goal = flags_outcome(self.flags@, result@, cmdline@, help);
        let ghost start = result@;
        let mut remaining: &[String] = cmdline;
        let mut i: usize = 0;
        assert(self.flags@.subrange(0, self.flags.len() as int) =~= self.flags@);
        while i < self.flags.len()
            invariant
                i <= self.flags.len(),
                help == self.help_spec(),
                start == old(result)@,
                goal == flags_outcome(self.flags@, start, cmdline@, help),
                goal == flags_outcome(self.flags@.subrange(i as int, self.flags.len() as int), result@, remaining@, help),
            decreases self.flags.len() - i,
        {
            proof {
                let rest = self.flags@.subrange(i as int, self.flags.len() as int);
                assert(rest.drop_first() =~= self.flags@.subrange(i + 1, self.flags.len() as int));
            }
            match self.check_for_help(remaining) {
                Ok(()) => {},
                Err(h) => return Err(h),
            }
            match self.flags[i].parse(result, remaining) {
                Ok(rem) => remaining = rem,
                Err(e) => return Err(wrapped_error_text(&e, &self.help())),
            }
            i = i + 1;
        }
        let ghost filled = flags_filled(self.flags@, result@);
        let mut j: usize = 0;
        assert(self.flags@.subrange(0, self.flags.len() as int) =~= self.flags@);
        while j < self.flags.len()
            invariant
                j <= self.flags.len(),
                filled == flags_filled(self.flags@.subrange(j as int, self.flags.len() as int), result@),
            decreases self.flags.len() - j,
        {
            proof {
                let rest = self.flags@.subrange(j as int, self.flags.len() as int);
                assert(rest.drop_first() =~= self.flags@.subrange(j + 1, self.flags.len() as int));
            }
            let item = &self.flags[j];
            if !result.contains(item.name()) {
                result.add_result_value(item.name.clone(), Value::Flag(false));
            }
            j = j + 1;
        }
        Ok(remaining)
    }

    fn parse_action_arguments<'b>(&self, result: &mut CmdParsingResults, cmdline: &'b [String]) -> (r: Result<
        &'b [String],
        String,
    >)
        ensures
            match self.actions_outcome(old(result)@, cmdline@) {
                Ok((s, rest)) => r matches Ok(rem) && rem@ == rest && final(result)@ == s,
                Err(m) => r matches Err(e) && e@ == m,
            },
        decreases *self, 0int,
    {
        if self.actions.len() == 0 {
            return Ok(cmdline);
        }
        if cmdline.len() == 0 {
            let mut msg = "You have to chose an action. \n\n ".to_owned();
            msg.append(self.help().as_str());
            return Err(msg);
        }
        let mut k: usize = 0;
        while k < self.actions.len()
            invariant
                k <= self.actions.len(),
                cmdline@.len() > 0,
                result@ == old(result)@,
                forall|j: int| 0 <= j < k ==> (#[trigger] self.actions@[j]).spec_name() != cmdline@[0]@,
            decreases self.actions.len() - k,
        {
            let item = &self.actions[k];
            if item.name == cmdline[0] {
                assert(is_first_action(self.actions@, cmdline@[0]@, k as int));
                assert forall|k2: int| is_first_action(self.actions@, cmdline@[0]@, k2) implies k2 == k by {
                    if k2 < k {
                        assert(self.actions@[k2].spec_name() != cmdline@[0]@);
                    } else if k2 > k {
                        assert(self.actions@[k as int].spec_name() != cmdline@[0]@);
                    }
                }
                let after = vstd::slice::slice_subrange(cmdline, 1, cmdline.len());
                assert(after@ =~= cmdline@.drop_first());
                return match item.consume(result, after) {
                    Ok(rem) => if rem.len() == 0 {
                        Ok(rem)
                    } else {
                        let mut msg = "Too many supplied arguments after: ".to_owned();
                        append_token_list(&mut msg, rem);
                        msg.append("\n\n");
                        msg.append(self.help().as_str());
                        Err(msg)
                    },
                    Err(e) => Err(e),
                };
            }
            k = k + 1;
        }
        let mut msg = "Unknown action ".to_owned();
        msg.append(cmdline[0].as_str());
        msg.append(" \n\n ");
        msg.append(self.help().as_str());
        Err(msg)
    }

    /// Runs this node's phases on the tokens, and gives back what they left.
    fn consume<'b>(&self, result: &mut CmdParsingResults, cmdline: &'b [String]) -> (r: Result<
        &'b [String],
        String,
    >)
        ensures
            match self.node_outcome(old(result)@, cmdline@) {
                Ok((s, rest)) => r matches Ok(rem) && rem@ == rest && final(result)@ == s,
                Err(m) => r matches Err(e) && e@ == m,
            },
        decreases *self, 1int,
    {
        result.set_action(self.name.clone());
        let remaining = match self.parse_default_arguments(result, cmdline) {
            Ok(rem) => rem,
            Err(e) => return Err(e),
        };
        let remaining = match self.parse_positional_arguments(result, remaining) {
            Ok(rem) => rem,
            Err(e) => return Err(e),
        };
        let remaining = match self.parse_optional_arguments(result, remaining) {
            Ok(rem) => rem,
            Err(e) => return Err(e),
        };
        let remaining = match self.parse_flag_arguments(result, remaining) {
            Ok(rem) => rem,
            Err(e) => return Err(e),
        };
        self.parse_action_arguments(result, remaining)
    }

    /// Parses the tokens against this parser's tree: the values found, or a message that
    /// carries the help of the parser that failed (or that help alone, where it was asked
    /// for).
    pub fn parse(&self, cmdline_args: Vec<String>) -> (r: Result<CmdParsingResults, String>)
        ensures
            match self.parse_spec(cmdline_args@) {
                Ok(s) => r matches Ok(res) && res@ == s,
                Err(m) => r matches Err(e) && e@ == m,
            },
    {
        let mut result = CmdParsingResults::new();
        result.set_action(self.name.clone());
        proof {
            assert(result@.with_action(self.name@) == StoreModel::empty().with_action(self.name@));
        }
        match self.consume(&mut result, cmdline_args.as_slice()) {
            Ok(remaining) => if remaining.len() == 0 {
                Ok(result)
            } else {
                let mut msg = "Too many cmd arguments after: ".to_owned();
                append_token_list(&mut msg, remaining);
                msg.append(" \n\n ");
                msg.append(self.help().as_str());
                Err(msg)
            },
            Err(e) => Err(e),
        }
    }

    /// The help text of this node alone: nested actions show only their names and docs.
    pub fn help(&self) -> (r: String)
        ensures
            r@ == self.help_spec(),
    {
        let mut usage = "usage: ".to_owned();
        usage.append(self.name.as_str());
        let mut body = String::new();
        let ghost u0 = usage@;
        let mut i: usize = 0;
        while i < self.positionals.len()
            invariant
                i <= self.positionals.len(),
                usage@ == u0 + positional_usage(self.positionals@.subrange(0, i as int)),
                body@ == positional_lines(self.positionals@.subrange(0, i as int)),
            decreases self.positionals.len() - i,
        {
            usage.append(" [");
            usage.append(self.positionals[i].name());
            usage.append("]");
            let line = self.positionals[i].help();
            body.append(line.as_str());
            body.append("\n");
            proof {
                let next = self.positionals@.subrange(0, i + 1);
                assert(next.drop_last() =~= self.positionals@.subrange(0, i as int));
                assert(usage@ =~= u0 + positional_usage(next));
                assert(body@ =~= positional_lines(next));
            }
            i = i + 1;
        }
        proof {
            assert(self.positionals@.subrange(0, self.positionals.len() as int) =~= self.positionals@);
        }
        let ghost u1 = usage@;
        let ghost b1 = body@;
        let ghost cs = self.short_chars();
        let n_optionals = self.optionals.len();
        let any_forms = n_optionals > 0 || self.flags.len() > 0;
        if any_forms {
            usage.append(" {");
        }
        let ghost u2 = usage@;
        proof {
            reveal_strlit("-");
            assert(cs.subrange(0, 0) =~= Seq::<char>::empty());
        }
        let mut j: usize = 0;
        while j < n_optionals
            invariant
                j <= n_optionals,
                n_optionals == self.optionals.len(),
                cs == self.short_chars(),
                "-"@ == seq!['-'],
                usage@ == u2 + short_forms(cs.subrange(0, j as int)),
                body@ == b1 + optional_lines(self.optionals@.subrange(0, j as int)),
            decreases n_optionals - j,
        {
            if j > 0 {
                usage.append(",");
            }
            usage.append("-");
            push_char(&mut usage, self.optionals[j].short());
            let line = self.optionals[j].help();
            body.append(line.as_str());
            body.append("\n");
            proof {
                let next = self.optionals@.subrange(0, j + 1);
                assert(next.drop_last() =~= self.optionals@.subrange(0, j as int));
                assert(cs.subrange(0, j + 1).drop_last() =~= cs.subrange(0, j as int));
                assert(cs[j as int] == self.optionals@[j as int].spec_short());
                assert(usage@ =~= u2 + short_forms(cs.subrange(0, j + 1)));
                assert(body@ =~= b1 + optional_lines(next));
            }
            j = j + 1;
        }
        proof {
            assert(self.optionals@.subrange(0, n_optionals as int) =~= self.optionals@);
        }
        let ghost b2 = body@;
        let mut k: usize = 0;
        while k < self.flags.len()
            invariant
                k <= self.flags.len(),
                n_optionals == self.optionals.len(),
                cs == self.short_chars(),
                "-"@ == seq!['-'],
                usage@ == u2 + short_forms(cs.subrange(0, n_optionals + k)),
                body@ == b2 + flag_lines(self.flags@.subrange(0, k as int)),
            decreases self.flags.len() - k,
        {
            if n_optionals > 0 || k > 0 {
                usage.append(",");
            }
            usage.append("-");
            push_char(&mut usage, self.flags[k].short());
            let line = self.flags[k].help();
            body.append(line.as_str());
            body.append("\n");
            proof {
                let next = self.flags@.subrange(0, k + 1);
                assert(next.drop_last() =~= self.flags@.subrange(0, k as int));
                assert(cs.subrange(0, n_optionals + k + 1).drop_last() =~= cs.subrange(0, n_optionals + k));
                assert(cs[n_optionals + k] == self.flags@[k as int].spec_short());
                assert(usage@ =~= u2 + short_forms(cs.subrange(0, n_optionals + k + 1)));
                assert(body@ =~= b2 + flag_lines(next));
            }
            k = k + 1;
        }
        proof {
            assert(self.flags@.subrange(0, self.flags.len() as int) =~= self.flags@);
            assert(cs.subrange(0, cs.len() as int) =~= cs);
        }
        if any_forms {
            usage.append("}");
        }
        proof {
            assert(usage@ =~= u1 + (if cs.len() > 0 {
                " {"@ + short_forms(cs) + "}"@
            } else {
                Seq::empty()
            }));
        }
        let ghost u3 = usage@;
        let ghost b3 = body@;
        if self.actions.len() > 0 {
            usage.append(" ");
        }
        let ghost u4 = usage@;
        let mut m: usize = 0;
        while m < self.actions.len()
            invariant
                m <= self.actions.len(),
                usage@ == u4 + action_names(self.actions@.subrange(0, m as int)),
                body@ == b3 + action_lines(self.actions@.subrange(0, m as int)),
            decreases self.actions.len() - m,
        {
            if m > 0 {
                usage.append(",");
            }
            let action = &self.actions[m];
            usage.append(action.name.as_str());
            let line = help_line_text(action.name.clone(), &action.doc);
            body.append(line.as_str());
            body.append("\n");
            proof {
                let next = self.actions@.subrange(0, m + 1);
                assert(next.drop_last() =~= self.actions@.subrange(0, m as int));
                assert(usage@ =~= u4 + action_names(next));
                assert(body@ =~= b3 + action_lines(next));
            }
            m = m + 1;
        }
        proof {
            assert(self.actions@.subrange(0, self.actions.len() as int) =~= self.actions@);
            assert(usage@ =~= self.usage_spec());
            assert(body@ =~= self.body_spec());
        }
        let mut text = self.name.clone();
        text.append(" - ");
        text.append(self.doc.as_str());
        text.append("\n\n");
        text.append(usage.as_str());
        text.append("\n\n");
        text.append(body.as_str());
        proof {
            assert(text@ =~= self.help_spec());
        }
        text
    }
}


impl Parser {
    /// The declarations other than the actions are those of `p`.
    pub open(crate) spec fn same_arguments(&self, p: &Parser) -> bool {
        &&& self.name@ == p.name@
        &&& self.doc@ == p.doc@
        &&& self.defaults@ == p.defaults@
        &&& self.positionals@ == p.positionals@
        &&& self.optionals@ == p.optionals@
        &&& self.flags@ == p.flags@
    }

    /// A parser with this name and doc string, and nothing declared.
    pub fn new(name: &str, doc: &str) -> (r: Parser)
        ensures
            r.spec_name() == name@,
            r.spec_doc() == doc@,
            r.spec_defaults().len() == 0,
            r.spec_actions().len() == 0,
            r.spec_positionals().len() == 0,
            r.spec_optionals().len() == 0,
            r.spec_flags().len() == 0,
    {
        Parser {
            name: name.to_owned(),
            doc: doc.to_owned(),
            defaults: Vec::new(),
            actions: Vec::new(),
            positionals: Vec::new(),
            optionals: Vec::new(),
            flags: Vec::new(),
        }
    }

    /// Adds a nested parser, chosen by its name.
    pub fn add_action(self, parser: Parser) -> (r: Parser)
        ensures
            r.same_arguments(&self),
            r.spec_actions() == self.spec_actions().push(parser),
    {
        let mut p = self;
        p.actions.push(parser);
        p
    }

    /// Adds a default stored as text.
    pub fn add_default(self, name: String, value: String) -> (r: Parser)
        ensures
            r.spec_actions() == self.spec_actions(),
            r.spec_name() == self.spec_name(),
            r.spec_doc() == self.spec_doc(),
            r.spec_positionals() == self.spec_positionals(),
            r.spec_optionals() == self.spec_optionals(),
            r.spec_flags() == self.spec_flags(),
            r.spec_defaults().drop_last() == self.spec_defaults(),
            r.spec_defaults().len() == self.spec_defaults().len() + 1,
            r.spec_defaults().last().spec_name() == name@,
            r.spec_defaults().last().spec_value() == value@,
            r.spec_defaults().last().spec_parser() == Conversion::Text,
    {
        self.add_parsed_default(name, value, Conversion::Text)
    }

    /// Adds a default stored as its conversion by `parser`.
    pub fn add_parsed_default(self, name: String, value: String, parser: Conversion) -> (r: Parser)
        ensures
            r.spec_actions() == self.spec_actions(),
            r.spec_name() == self.spec_name(),
            r.spec_doc() == self.spec_doc(),
            r.spec_positionals() == self.spec_positionals(),
            r.spec_optionals() == self.spec_optionals(),
            r.spec_flags() == self.spec_flags(),
            r.spec_defaults().drop_last() == self.spec_defaults(),
            r.spec_defaults().len() == self.spec_defaults().len() + 1,
            r.spec_defaults().last().spec_name() == name@,
            r.spec_defaults().last().spec_value() == value@,
            r.spec_defaults().last().spec_parser() == parser,
    {
        let mut p = self;
        p.defaults.push(DefaultArgument::new(name, value, parser));
        assert(p.defaults@.drop_last() =~= self.defaults@);
        p
    }

    /// Adds a positional stored as text.
    pub fn add_positional(self, name: &str, doc: &str) -> (r: Parser)
        ensures
            r.spec_actions() == self.spec_actions(),
            r.spec_name() == self.spec_name(),
            r.spec_doc() == self.spec_doc(),
            r.spec_defaults() == self.spec_defaults(),
            r.spec_optionals() == self.spec_optionals(),
            r.spec_flags() == self.spec_flags(),
            r.spec_positionals().drop_last() == self.spec_positionals(),
            r.spec_positionals().len() == self.spec_positionals().len() + 1,
            r.spec_positionals().last().spec_name() == name@,
            r.spec_positionals().last().spec_doc() == doc@,
            r.spec_positionals().last().spec_parser() == Conversion::Text,
    {
        self.add_parsed_positional(name, Conversion::Text, doc)
    }

    /// Adds a positional stored as its conversion by `parser`.
    pub fn add_parsed_positional(self, name: &str, parser: Conversion, doc: &str) -> (r: Parser)
        ensures
            r.spec_actions() == self.spec_actions(),
            r.spec_name() == self.spec_name(),
            r.spec_doc() == self.spec_doc(),
            r.spec_defaults() == self.spec_defaults(),
            r.spec_optionals() == self.spec_optionals(),
            r.spec_flags() == self.spec_flags(),
            r.spec_positionals().drop_last() == self.spec_positionals(),
            r.spec_positionals().len() == self.spec_positionals().len() + 1,
            r.spec_positionals().last().spec_name() == name@,
            r.spec_positionals().last().spec_doc() == doc@,
            r.spec_positionals().last().spec_parser() == parser,
    {
        let mut p = self;
        p.positionals.push(PositionalArgument::new(name.to_owned(), parser, doc.to_owned()));
        assert(p.positionals@.drop_last() =~= self.positionals@);
        p
    }

    /// Adds an optional stored as text.
    pub fn add_optional(self, name: &str, long: &str, short: char, default: Option<&str>, doc: &str) -> (r: Parser)
        ensures
            r.spec_actions() == self.spec_actions(),
            r.spec_name() == self.spec_name(),
            r.spec_doc() == self.spec_doc(),
            r.spec_defaults() == self.spec_defaults(),
            r.spec_positionals() == self.spec_positionals(),
            r.spec_flags() == self.spec_flags(),
            r.spec_optionals().drop_last() == self.spec_optionals(),
            r.spec_optionals().len() == self.spec_optionals().len() + 1,
            r.spec_optionals().last().spec_name() == name@,
            r.spec_optionals().last().spec_long() == long@,
            r.spec_optionals().last().spec_short() == short,
            r.spec_optionals().last().spec_default() == (match default {
                Some(d) => Some(d@),
                None => None::<Seq<char>>,
            }),
            r.spec_optionals().last().spec_parser() == Conversion::Text,
            r.spec_optionals().last().spec_doc() == doc@,
    {
        self.add_parsed_optional(name, long, short, default, Conversion::Text, doc)
    }

    /// Adds an optional stored as its conversion by `parser`.
    pub fn add_parsed_optional(
        self,
        name: &str,
        long: &str,
        short: char,
        default: Option<&str>,
        parser: Conversion,
        doc: &str,
    ) -> (r: Parser)
        ensures
            r.spec_actions() == self.spec_actions(),
            r.spec_name() == self.spec_name(),
            r.spec_doc() == self.spec_doc(),
            r.spec_defaults() == self.spec_defaults(),
            r.spec_positionals() == self.spec_positionals(),
            r.spec_flags() == self.spec_flags(),
            r.spec_optionals().drop_last() == self.spec_optionals(),
            r.spec_optionals().len() == self.spec_optionals().len() + 1,
            r.spec_optionals().last().spec_name() == name@,
            r.spec_optionals().last().spec_long() == long@,
            r.spec_optionals().last().spec_short() == short,
            r.spec_optionals().last().spec_default() == (match default {
                Some(d) => Some(d@),
                None => None::<Seq<char>>,
            }),
            r.spec_optionals().last().spec_parser() == parser,
            r.spec_optionals().last().spec_doc() == doc@,
    {
        let conv_default = match default {
            Some(d) => Some(d.to_owned()),
            None => None,
        };
        let mut p = self;
        p.optionals.push(
            OptionalArgument::new(name.to_owned(), long.to_owned(), short, conv_default, parser, doc.to_owned()),
        );
        assert(p.optionals@.drop_last() =~= self.optionals@);
        p
    }

    /// Adds a flag.
    pub fn add_flag(self, name: &str, long: &str, short: char, doc: &str) -> (r: Parser)
        ensures
            r.spec_actions() == self.spec_actions(),
            r.spec_name() == self.spec_name(),
            r.spec_doc() == self.spec_doc(),
            r.spec_defaults() == self.spec_defaults(),
            r.spec_positionals() == self.spec_positionals(),
            r.spec_optionals() == self.spec_optionals(),
            r.spec_flags().drop_last() == self.spec_flags(),
            r.spec_flags().len() == self.spec_flags().len() + 1,
            r.spec_flags().last().spec_name() == name@,
            r.spec_flags().last().spec_long() == long@,
            r.spec_flags().last().spec_short() == short,
            r.spec_flags().last().spec_doc() == doc@,
    {
        let mut p = self;
        p.flags.push(FlagArgument::new(name.to_owned(), long.to_owned(), short, doc.to_owned()));
        assert(p.flags@.drop_last() =~= self.flags@);
        p
    }
}

} // verus!
