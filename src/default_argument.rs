//! Default arguments: fixed values stored before any token is read.

use vstd::prelude::*;
use crate::command_line_parsing::Outcome;
use crate::command_line_parsing_results::{CmdParsingResults, StoreModel};
use crate::value::{conversion_error, conversion_error_text, converted, Conversion};

verus! {

/// A fixed name and raw value, stored before any token is read.
pub struct DefaultArgument {
    pub(crate) name: String,
    pub(crate) value: String,
    pub(crate) parser: Conversion,
}

impl DefaultArgument {
    pub open(crate) spec fn spec_name(&self) -> Seq<char> {
        self.name@
    }

    pub open(crate) spec fn spec_value(&self) -> Seq<char> {
        self.value@
    }

    pub open(crate) spec fn spec_parser(&self) -> Conversion {
        self.parser
    }

    pub fn new(name: String, value: String, parser: Conversion) -> (r: DefaultArgument)
        ensures
            r.spec_name() == name@,
            r.spec_value() == value@,
            r.spec_parser() == parser,
    {
        DefaultArgument { name, value, parser }
    }

    /// Stores the converted value and takes no token; fails only where the value cannot
    /// be converted.
    pub open spec fn parse_spec(&self, s: StoreModel, toks: Seq<String>) -> Outcome {
        match converted(self.spec_parser(), self.spec_value()) {
            Some(v) => Ok((s.with_value(self.spec_name(), v), toks)),
            None => Err(conversion_error(self.spec_name(), self.spec_value())),
        }
    }

    pub fn parse<'b>(&self, result: &mut CmdParsingResults, cmdline: &'b [String]) -> (r: Result<
        &'b [String],
        String,
    >)
        ensures
            match self.parse_spec(old(result)@, cmdline@) {
                Ok((s, rest)) => r matches Ok(rem) && rem@ == rest && final(result)@ == s,
                Err(m) => r matches Err(e) && e@ == m,
            },
    {
        match self.parser.convert(&self.value) {
            Some(v) => {
                result.add_result_value(self.name.clone(), v);
                Ok(cmdline)
            },
            None => Err(conversion_error_text(&self.name, &self.value)),
        }
    }
}

} // verus!
