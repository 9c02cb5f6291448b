//! What consuming tokens yields, shared by every kind of argument and by the parser.

use vstd::prelude::*;
use crate::command_line_parsing_results::StoreModel;

verus! {

/// What consuming a prefix of the tokens gives: the result bag and the tokens left,
/// or an error message.
pub type Outcome = Result<(StoreModel, Seq<String>), Seq<char>>;

} // verus!
