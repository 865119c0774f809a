use crate::encoding::Encoding;
use crate::error::Error;
use crate::handler::Handler;
use crate::handler::Recorder;
use crate::parser::attribute::AttributeParser;
use crate::parser::attribute::ParserState;
use crate::parser::run::run;
use crate::parser::ParseResult;
use vstd::prelude::*;

verus! {

/// Parses `bytes` as a whole data set, attribute after attribute, and
/// delivers its events to the handler.
///
/// The parse ends `Complete` at the end of the input, between two
/// attributes; `Incomplete` where the input ends before that; `Cancelled`
/// where the handler says so; and with an error where the input is
/// malformed.  The result says how many bytes were consumed.
pub fn parse_full<H: Handler>(encoding: Encoding, handler: &mut Recorder<H>, bytes: &[u8]) -> (result:
    Result<ParseResult, Error>)
    ensures
        final(handler).extends(old(handler).calls()),
        exists|steps: nat|
            {
                let reached = #[trigger] run(encoding, ParserState::initial(), bytes@, steps, true);
                reached.ends_as(
                    encoding,
                    bytes@,
                    true,
                    result,
                    reached.state,
                    final(handler).calls_since(old(handler).calls()),
                )
            },
{
    let mut parser = AttributeParser::default();
    let result = parser.drive(encoding, handler, bytes, true);
    result
}

} // verus!
