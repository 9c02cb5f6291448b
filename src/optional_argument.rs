//! Optional arguments: a form token followed by a value token.

use vstd::prelude::*;
use crate::command_line_parsing::Outcome;
use crate::command_line_parsing_results::{CmdParsingResults, StoreModel};
use crate::flag_argument::{form_label, form_label_text};
use crate::text::{help_line, help_line_text, names_form, names_form_token};
use crate::value::{conversion_error, conversion_error_text, converted, Conversion};

verus! {

/// A named argument, `-<short> <value>` or `--<long> <value>`, with an optional default.
pub struct OptionalArgument {
    pub(crate) name: String,
    pub(crate) long: String,
    pub(crate) short: char,
    pub(crate) default: Option<String>,
    pub(crate) parser: Conversion,
    pub(crate) doc: String,
}

/// The message given when an optional argument's form is the last token.
pub open spec fn missing_optional_value(name: Seq<char>) -> Seq<char> {
    "unexpected eol after "@ + name
}

impl OptionalArgument {
    pub open(crate) spec fn spec_name(&self) -> Seq<char> {
        self.name@
    }

    pub open(crate) spec fn spec_long(&self) -> Seq<char> {
        self.long@
    }

    pub open(crate) spec fn spec_short(&self) -> char {
        self.short
    }

    pub open(crate) spec fn spec_default(&self) -> Option<Seq<char>> {
        match self.default {
            Some(d) => Some(d@),
            None => None,
        }
    }

    pub open(crate) spec fn spec_parser(&self) -> Conversion {
        self.parser
    }

    pub open(crate) spec fn spec_doc(&self) -> Seq<char> {
        self.doc@
    }

    pub fn new(
        name: String,
        long: String,
        short: char,
        default: Option<String>,
        parser: Conversion,
        doc: String,
    ) -> (r: OptionalArgument)
        ensures
            r.spec_name() == name@,
            r.spec_long() == long@,
            r.spec_short() == short,
            r.spec_default() == (match default {
                Some(d) => Some(d@),
                None => None::<Seq<char>>,
            }),
            r.spec_parser() == parser,
            r.spec_doc() == doc@,
    {
        OptionalArgument { name, long, short, default, parser, doc }
    }

    pub fn short(&self) -> (r: char)
        ensures
            r == self.spec_short(),
    {
        self.short
    }

    pub fn name(&self) -> (r: String)
        ensures
            r@ == self.spec_name(),
    {
        self.name.clone()
    }

    pub fn default(&self) -> (r: Option<String>)
        ensures
            match r {
                Some(d) => self.spec_default() == Some(d@),
                None => self.spec_default() is None,
            },
    {
        match &self.default {
            Some(d) => Some(d.clone()),
            None => None,
        }
    }

    pub fn parser(&self) -> (r: Conversion)
        ensures
            r == self.spec_parser(),
    {
        self.parser
    }

    /// The help line: `-<short>,--<long>`, padded to the help column, then the doc string.
    pub open spec fn help_spec(&self) -> Seq<char> {
        help_line(form_label(self.spec_short(), self.spec_long()), self.spec_doc())
    }

    pub fn help(&self) -> (r: String)
        ensures
            r@ == self.help_spec(),
    {
        help_line_text(form_label_text(self.short, &self.long), &self.doc)
    }

    /// Where the first token names this argument, takes it and the token after it, and
    /// stores that token's conversion; fails where no token follows or it cannot be
    /// converted. Otherwise takes nothing.
    pub open spec fn parse_spec(&self, s: StoreModel, toks: Seq<String>) -> Outcome {
        if toks.len() > 0 && names_form(toks[0]@, self.spec_long(), self.spec_short()) {
            if toks.len() > 1 {
                match converted(self.spec_parser(), toks[1]@) {
                    Some(v) => Ok((s.with_value(self.spec_name(), v), toks.subrange(2, toks.len() as int))),
                    None => Err(conversion_error(self.spec_name(), toks[1]@)),
                }
            } else {
                Err(missing_optional_value(self.spec_name()))
            }
        } else {
            Ok((s, toks))
        }
    }

    pub fn parse<'b>(&self, result: &mut CmdParsingResults, cmdline: &'b [String]) -> (r: Result<
        &'b [String],
        String,
    >)
        ensures
            match self.parse_spec(old(result)@, cmdline@) {
                Ok((s, rest)) => r matches Ok(rem) && rem@ == rest && final(result)@ == s,
                Err(m) => r matches Err(e) && e@ == m,
            },
    {
        if cmdline.len() > 0 && names_form_token(&cmdline[0], &self.long, self.short) {
            if cmdline.len() > 1 {
                return match self.parser.convert(&cmdline[1]) {
                    Some(v) => {
                        result.add_result_value(self.name.clone(), v);
                        Ok(vstd::slice::slice_subrange(cmdline, 2, cmdline.len()))
                    },
                    None => Err(conversion_error_text(&self.name, &cmdline[1])),
                };
            } else {
                let mut msg = "unexpected eol after ".to_owned();
                msg.append(self.name.as_str());
                return Err(msg);
            }
        }
        Ok(cmdline)
    }
}

} // verus!
