//! Positional arguments: one required token each, in order.

use vstd::prelude::*;
use crate::command_line_parsing::Outcome;
use crate::command_line_parsing_results::{CmdParsingResults, StoreModel};
use crate::text::{help_line, help_line_text};
use crate::value::{conversion_error, conversion_error_text, converted, Conversion};

verus! {

/// A required argument that takes the next token.
pub struct PositionalArgument {
    pub(crate) name: String,
    pub(crate) doc: String,
    pub(crate) parser: Conversion,
}

/// The message given when a positional argument finds no token.
pub open spec fn missing_positional(name: Seq<char>) -> Seq<char> {
    "missing required positional argument: "@ + name
}

impl PositionalArgument {
    pub open(crate) spec fn spec_name(&self) -> Seq<char> {
        self.name@
    }

    pub open(crate) spec fn spec_doc(&self) -> Seq<char> {
        self.doc@
    }

    pub open(crate) spec fn spec_parser(&self) -> Conversion {
        self.parser
    }

    pub fn name(&self) -> (r: &str)
        ensures
            r@ == self.spec_name(),
    {
        self.name.as_str()
    }

    pub fn new(name: String, parser: Conversion, doc: String) -> (r: PositionalArgument)
        ensures
            r.spec_name() == name@,
            r.spec_doc() == doc@,
            r.spec_parser() == parser,
    {
        PositionalArgument { name, doc, parser }
    }

    /// The help line: the name in brackets, padded to the help column, then the doc string.
    pub open spec fn help_spec(&self) -> Seq<char> {
        help_line("["@ + self.spec_name() + "]"@, self.spec_doc())
    }

    pub fn help(&self) -> (r: String)
        ensures
            r@ == self.help_spec(),
    {
        let mut label = "[".to_owned();
        label.append(self.name.as_str());
        label.append("]");
        help_line_text(label, &self.doc)
    }

    /// Takes the first token and stores its conversion; fails where there is none, or where
    /// it cannot be converted.
    pub open spec fn parse_spec(&self, s: StoreModel, toks: Seq<String>) -> Outcome {
        if toks.len() == 0 {
            Err(missing_positional(self.spec_name()))
        } else {
            match converted(self.spec_parser(), toks[0]@) {
                Some(v) => Ok((s.with_value(self.spec_name(), v), toks.drop_first())),
                None => Err(conversion_error(self.spec_name(), toks[0]@)),
            }
        }
    }

    pub fn parse<'b>(&self, result: &mut CmdParsingResults, cmdline: &'b [String]) -> (r: Result<
        &'b [String],
        String,
    >)
        ensures
            match self.parse_spec(old(result)@, cmdline@) {
                Ok((s, rest)) => r matches Ok(rem) && rem@ == rest && final(result)@ == s,
                Err(m) => r matches Err(e) && e@ == m,
            },
    {
        if cmdline.len() == 0 {
            let mut msg = "missing required positional argument: ".to_owned();
            msg.append(self.name.as_str());
            return Err(msg);
        }
        match self.parser.convert(&cmdline[0]) {
            Some(v) => {
                result.add_result_value(self.name.clone(), v);
                let rest = vstd::slice::slice_subrange(cmdline, 1, cmdline.len());
                assert(rest@ =~= cmdline@.drop_first());
                Ok(rest)
            },
            None => Err(conversion_error_text(&self.name, &cmdline[0])),
        }
    }
}

} // verus!
