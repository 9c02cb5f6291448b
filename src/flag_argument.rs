//! Flag arguments: a form token alone, which sets a boolean.

use vstd::prelude::*;
use crate::command_line_parsing::Outcome;
use crate::command_line_parsing_results::{CmdParsingResults, StoreModel};
use crate::text::{help_line, help_line_text, names_form, names_form_token, push_char};
use crate::value::{Value, ValueModel};

verus! {

/// A boolean argument, set by `-<short>` or `--<long>`.
pub struct FlagArgument {
    pub(crate) name: String,
    pub(crate) long: String,
    pub(crate) short: char,
    pub(crate) doc: String,
}

/// The label of a flag-like argument in help: `-<short>,--<long>`.
pub open spec fn form_label(short: char, long: Seq<char>) -> Seq<char> {
    seq!['-', short] + ",--"@ + long
}

/// Builds `form_label(short, long)`.
pub fn form_label_text(short: char, long: &String) -> (r: String)
    ensures
        r@ == form_label(short, long@),
{
    let mut label = "-".to_owned();
    push_char(&mut label, short);
    label.append(",--");
    label.append(long.as_str());
    proof {
        reveal_strlit("-");
        assert(label@ =~= form_label(short, long@));
    }
    label
}

impl FlagArgument {
    pub open(crate) spec fn spec_name(&self) -> Seq<char> {
        self.name@
    }

    pub open(crate) spec fn spec_long(&self) -> Seq<char> {
        self.long@
    }

    pub open(crate) spec fn spec_short(&self) -> char {
        self.short
    }

    pub open(crate) spec fn spec_doc(&self) -> Seq<char> {
        self.doc@
    }

    pub fn name(&self) -> (r: &str)
        ensures
            r@ == self.spec_name(),
    {
        self.name.as_str()
    }

    pub fn short(&self) -> (r: char)
        ensures
            r == self.spec_short(),
    {
        self.short
    }

    pub fn new(name: String, long: String, short: char, doc: String) -> (r: FlagArgument)
        ensures
            r.spec_name() == name@,
            r.spec_long() == long@,
            r.spec_short() == short,
            r.spec_doc() == doc@,
    {
        FlagArgument { name, long, short, doc }
    }

    /// The help line: `-<short>,--<long>`, padded to the help column, then the doc string.
    pub open spec fn help_spec(&self) -> Seq<char> {
        help_line(form_label(self.spec_short(), self.spec_long()), self.spec_doc())
    }

    pub fn help(&self) -> (r: String)
        ensures
            r@ == self.help_spec(),
    {
        help_line_text(form_label_text(self.short, &self.long), &self.doc)
    }

    /// Where the first token names this flag, takes it and stores `true`; otherwise takes
    /// nothing.
    pub open spec fn parse_spec(&self, s: StoreModel, toks: Seq<String>) -> Outcome {
        if toks.len() > 0 && names_form(toks[0]@, self.spec_long(), self.spec_short()) {
            Ok((s.with_value(self.spec_name(), ValueModel::Flag(true)), toks.drop_first()))
        } else {
            Ok((s, toks))
        }
    }

    pub fn parse<'b>(&self, result: &mut CmdParsingResults, cmdline: &'b [String]) -> (r: Result<
        &'b [String],
        String,
    >)
        ensures
            match self.parse_spec(old(result)@, cmdline@) {
                Ok((s, rest)) => r matches Ok(rem) && rem@ == rest && final(result)@ == s,
                Err(m) => r matches Err(e) && e@ == m,
            },
    {
        if cmdline.len() > 0 && names_form_token(&cmdline[0], &self.long, self.short) {
            result.add_result_value(self.name.clone(), Value::Flag(true));
            let rest = vstd::slice::slice_subrange(cmdline, 1, cmdline.len());
            assert(rest@ =~= cmdline@.drop_first());
            return Ok(rest);
        }
        Ok(cmdline)
    }
}

} // verus!
