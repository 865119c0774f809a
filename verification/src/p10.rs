use crate::encoding::Encoding;
use crate::error::Error;
use crate::handler::Call;
use crate::handler::Handler;
use crate::handler::Recorder;
use crate::meta_information;
use crate::meta_information::MetaInformation;
use crate::meta_information::MetaModel;
use crate::parser::attribute::ParserState;
use crate::parser::data_set::parse_full;
use crate::parser::run::run;
use crate::parser::run::Run;
use crate::parser::ParseResult;
use crate::parser::Status;
use vstd::prelude::*;
use vstd::slice::slice_subrange;

verus! {

/// The encoding of the data set that a transfer syntax prescribes; `None`
/// for the deflated transfer syntax, which is not supported.  A unique
/// identifier that is not known stands for explicit little-endian.
pub open spec fn spec_encoding_for(transfer_syntax_uid: Seq<char>) -> Option<Encoding> {
    if transfer_syntax_uid == "1.2.840.10008.1.2"@ {
        Some(Encoding::ImplicitLittleEndian)
    } else if transfer_syntax_uid == "1.2.840.10008.1.2.2"@ {
        Some(Encoding::ExplicitBigEndian)
    } else if transfer_syntax_uid == "1.2.840.10008.1.2.1.99"@ {
        None
    } else {
        Some(Encoding::ExplicitLittleEndian)
    }
}

pub fn encoding_for(transfer_syntax_uid: &String) -> (encoding: Option<Encoding>)
    ensures
        encoding == spec_encoding_for(transfer_syntax_uid@),
{
    if *transfer_syntax_uid == "1.2.840.10008.1.2".to_owned() {
        Some(Encoding::ImplicitLittleEndian)
    } else if *transfer_syntax_uid == "1.2.840.10008.1.2.2".to_owned() {
        Some(Encoding::ExplicitBigEndian)
    } else if *transfer_syntax_uid == "1.2.840.10008.1.2.1.99".to_owned() {
        None
    } else {
        Some(Encoding::ExplicitLittleEndian)
    }
}

/// What parsing a file returns once its data set, of `body_bytes` bytes,
/// has been parsed with the outcome `outcome`: the meta-information where
/// the data set was parsed whole; the number of bytes left unread where the
/// input ended early or the handler cancelled; the error where there was
/// one.
pub open spec fn spec_file_result(meta: MetaModel, body_bytes: nat, outcome: Result<
    ParseResult,
    Error,
>) -> Result<MetaModel, Error> {
    match outcome {
        Ok(parsed) => match parsed.status {
            Status::Complete => Ok(meta),
            _ => Err(Error::BytesRemaining((body_bytes - parsed.bytes_consumed) as usize)),
        },
        Err(error) => Err(error),
    }
}

pub fn file_result(meta: MetaInformation, body_bytes: usize, outcome: Result<ParseResult, Error>) -> (result:
    Result<MetaInformation, Error>)
    requires
        outcome matches Ok(parsed) ==> parsed.bytes_consumed <= body_bytes,
    ensures
        match result {
            Ok(information) => spec_file_result(meta@, body_bytes as nat, outcome) == Ok::<
                MetaModel,
                Error,
            >(information@),
            Err(error) => spec_file_result(meta@, body_bytes as nat, outcome) == Err::<
                MetaModel,
                Error,
            >(error),
        },
{
    match outcome {
        Ok(parsed) => match parsed.status {
            Status::Complete => Ok(meta),
            _ => Err(Error::BytesRemaining(body_bytes - parsed.bytes_consumed)),
        },
        Err(error) => Err(error),
    }
}

/// The parse `reached` of the data set `body` ends with an outcome that
/// makes `result` the result for the file, after the calls `made`.
pub open spec fn data_set_ends(
    reached: Run,
    encoding: Encoding,
    body: Seq<u8>,
    meta: MetaModel,
    result: Result<MetaInformation, Error>,
    made: Seq<Call>,
) -> bool {
    let consumed = reached.consumed as usize;
    match result {
        Ok(information) => {
            &&& information@ == meta
            &&& reached.ends_as(
                encoding,
                body,
                true,
                Ok(ParseResult { status: Status::Complete, bytes_consumed: consumed }),
                reached.state,
                made,
            )
        },
        Err(Error::BytesRemaining(unread)) => {
            &&& unread == body.len() - reached.consumed
            &&& {
                ||| reached.ends_as(
                    encoding,
                    body,
                    true,
                    Ok(ParseResult { status: Status::Incomplete, bytes_consumed: consumed }),
                    reached.state,
                    made,
                )
                ||| reached.ends_as(
                    encoding,
                    body,
                    true,
                    Ok(ParseResult { status: Status::Cancelled, bytes_consumed: consumed }),
                    reached.state,
                    made,
                )
            }
        },
        Err(error) => reached.ends_as(encoding, body, true, Err(error), reached.state, made),
    }
}

/// Parses a file: its meta-information, then its data set in the encoding
/// that the transfer syntax prescribes, which is delivered to the handler.
///
/// - Where the meta-information cannot be read, the error says why, and the
///   handler is not called.
/// - Where the transfer syntax is the deflated one, the error names it, and
///   the handler is not called.
/// - Otherwise the data set, which starts where the meta-information ends,
///   is parsed.  The result is the meta-information where all of it was
///   consumed; `BytesRemaining` with the number of bytes not consumed where
///   the input ended early or the handler cancelled; and the error where the
///   data set is malformed.
pub fn parse<H: Handler>(callback: &mut Recorder<H>, bytes: &[u8]) -> (result: Result<
    MetaInformation,
    Error,
>)
    ensures
        final(callback).extends(old(callback).calls()),
        match meta_information::spec_parse(bytes@) {
            Err(error) => {
                &&& result matches Err(e) && e == error
                &&& final(callback).calls() == old(callback).calls()
            },
            Ok(meta) => match spec_encoding_for(meta.transfer_syntax_uid) {
                None => {
                    &&& result matches Err(Error::UnsupportedTransferSyntax(uid)) && uid@
                        == meta.transfer_syntax_uid
                    &&& final(callback).calls() == old(callback).calls()
                },
                Some(encoding) => exists|steps: nat|
                    data_set_ends(
                        #[trigger] run(
                            encoding,
                            ParserState::initial(),
                            bytes@.skip(meta.end_position as int),
                            steps,
                            true,
                        ),
                        encoding,
                        bytes@.skip(meta.end_position as int),
                        meta,
                        result,
                        final(callback).calls_since(old(callback).calls()),
                    ),
            },
        },
{
    let meta = match meta_information::parse(bytes) {
        Ok(meta) => meta,
        Err(error) => {
            return Err(error);
        },
    };
    let encoding = match encoding_for(&meta.transfer_syntax_uid) {
        Some(encoding) => encoding,
        None => {
            return Err(Error::UnsupportedTransferSyntax(meta.transfer_syntax_uid));
        },
    };
    let body = slice_subrange(bytes, meta.end_position, bytes.len());
    assert(body@ =~= bytes@.skip(meta.end_position as int));
    let ghost before = callback.calls();
    let outcome = parse_full(encoding, callback, body);
    let ghost made = callback.calls_since(before);
    let ghost steps = choose|steps: nat|
        {
            let reached = #[trigger] run(encoding, ParserState::initial(), body@, steps, true);
            reached.ends_as(encoding, body@, true, outcome, reached.state, made)
        };
    let ghost model = meta@;
    let result = file_result(meta, body.len(), outcome);
    proof {
        let reached = run(encoding, ParserState::initial(), body@, steps, true);
        assert(data_set_ends(reached, encoding, body@, model, result, made));
        assert(body@ == bytes@.skip(model.end_position as int));
    }
    result
}

} // verus!
