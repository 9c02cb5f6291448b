//! Text pieces shared by the arguments and the parser: help lines, the help request,
//! form matching and error messages.

use vstd::prelude::*;

verus! {

/// The column at which every help line's doc string starts.
pub const HELP_COLUMN: usize = 22;

/// Relies on `String::push`: appends one character at the end.
#[verifier::external_body]
pub(crate) fn push_char(s: &mut String, c: char)
    ensures
        final(s)@ == old(s)@.push(c),
{
    s.push(c)
}

/// `n` spaces.
pub open spec fn spaces(n: int) -> Seq<char> {
    Seq::new(if n > 0 { n as nat } else { 0 }, |_i: int| ' ')
}

/// A help line: the label, padded with spaces up to the help column, then the doc string.
pub open spec fn help_line(label: Seq<char>, doc: Seq<char>) -> Seq<char> {
    label + spaces(HELP_COLUMN - label.len()) + doc
}

/// Builds `help_line(label, doc)`.
pub fn help_line_text(label: String, doc: &String) -> (r: String)
    ensures
        r@ == help_line(label@, doc@),
{
    let len = label.as_str().unicode_len();
    let mut line = label;
    let mut k: usize = len;
    while k < HELP_COLUMN
        invariant
            len == label@.len(),
            len <= k <= HELP_COLUMN || (k == len && len >= HELP_COLUMN),
            line@ == label@ + spaces(k - len),
        decreases HELP_COLUMN - k,
    {
        push_char(&mut line, ' ');
        k = k + 1;
        assert(line@ =~= label@ + spaces(k - len));
    }
    assert(spaces(k - len) =~= spaces(HELP_COLUMN - len));
    line.append(doc.as_str());
    line
}

/// The token asks for help.
pub open spec fn is_help(tok: Seq<char>) -> bool {
    tok == "--help"@ || tok == "-h"@
}

/// The token sequence starts with a request for help.
pub open spec fn starts_with_help(toks: Seq<String>) -> bool {
    toks.len() > 0 && is_help(toks[0]@)
}

/// Whether `toks` starts with a request for help.
pub fn starts_with_help_token(toks: &[String]) -> (r: bool)
    ensures
        r == starts_with_help(toks@),
{
    if toks.len() == 0 {
        return false;
    }
    let long = "--help".to_owned();
    let short = "-h".to_owned();
    toks[0] == long || toks[0] == short
}

/// A token that names a flag-like argument by its long form or its short character:
/// at least two characters, with everything from the third on equal to `long`, or the
/// second equal to `short`.
pub open spec fn names_form(tok: Seq<char>, long: Seq<char>, short: char) -> bool {
    tok.len() >= 2 && (tok.subrange(2, tok.len() as int) == long || tok[1] == short)
}

/// Whether `tok` names the argument with the long form `long` and short character `short`.
pub fn names_form_token(tok: &String, long: &String, short: char) -> (r: bool)
    ensures
        r == names_form(tok@, long@, short),
{
    let s = tok.as_str();
    let n = s.unicode_len();
    if n < 2 {
        return false;
    }
    let rest = s.substring_char(2, n).to_owned();
    if rest == *long {
        return true;
    }
    s.get_char(1) == short
}

/// An argument's error, wrapped with the help of the parser that met it.
pub open spec fn wrapped_error(e: Seq<char>, help: Seq<char>) -> Seq<char> {
    "Bad Cmd Arguments: "@ + e + " \n\n "@ + help
}

/// Builds `wrapped_error(e, help)`.
pub fn wrapped_error_text(e: &String, help: &String) -> (r: String)
    ensures
        r@ == wrapped_error(e@, help@),
{
    let mut msg = "Bad Cmd Arguments: ".to_owned();
    msg.append(e.as_str());
    msg.append(" \n\n ");
    msg.append(help.as_str());
    msg
}

/// The tokens, each in double quotes, separated by `, `.
pub open spec fn quoted_list(toks: Seq<String>) -> Seq<char>
    decreases toks.len(),
{
    if toks.len() == 0 {
        Seq::empty()
    } else {
        quoted_list(toks.drop_last()) + (if toks.len() > 1 {
            ", "@
        } else {
            Seq::empty()
        }) + "\""@ + toks.last()@ + "\""@
    }
}

/// The tokens as a bracketed list, as error messages show what was left over.
pub open spec fn token_list(toks: Seq<String>) -> Seq<char> {
    "["@ + quoted_list(toks) + "]"@
}

/// Appends `token_list(toks)` to `out`.
pub fn append_token_list(out: &mut String, toks: &[String])
    ensures
        final(out)@ == old(out)@ + token_list(toks@),
{
    out.append("[");
    let ghost start = out@;
    let mut i: usize = 0;
    while i < toks.len()
        invariant
            i <= toks@.len(),
            out@ == start + quoted_list(toks@.subrange(0, i as int)),
        decreases toks.len() - i,
    {
        if i > 0 {
            out.append(", ");
        }
        out.append("\"");
        out.append(toks[i].as_str());
        out.append("\"");
        proof {
            let next = toks@.subrange(0, i + 1);
            assert(next.drop_last() =~= toks@.subrange(0, i as int));
        }
        i = i + 1;
    }
    assert(toks@.subrange(0, toks@.len() as int) =~= toks@);
    out.append("]");
}

} // verus!
