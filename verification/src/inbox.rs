//! The inbox parser: from the bytes of one inbox item to a log record or a
//! transaction that is ready to run.
//!
//! Nothing here fails: a message that is malformed, meant for another rollup
//! or badly signed becomes a log record, and the kernel goes on with the next.
use crate::crypto::{
    auth_failure, ecdsa_verifies, is_standard_signature, lemma_encode_then_decode,
    parsed_public_key, spec_decode, transaction_frame, Operation, SignedOperation,
    MAX_OPERATION_SIZE,
};
use crate::data_interface::{LogType, LogTypeView};
use crate::database::database_utils::Address;
use crate::hash::keccak256;
use tezos_crypto_rs::hash::SmartRollupHash;
use tezos_smart_rollup::inbox::{ExternalMessageFrame, InboxMessage, InternalInboxMessage};
use tezos_smart_rollup::michelson::MichelsonUnit;
use vstd::prelude::*;

verus! {

/// Number of bytes before the contents of a targetted external message: the
/// tag and the address of the rollup.
pub const EXTERNAL_FRAME_SIZE: usize = 21;

/// A message that the protocol itself put into the inbox.
#[derive(Clone, Debug, PartialEq, Eq)]
pub enum InternalMessage {
    /// A transfer from a contract of the first layer.
    Transfer,
    /// The first message of a round.
    StartOfLevel,
    /// The last message of a round.
    EndOfLevel,
    /// What the round knows of the block before it, both as text.
    InfoPerLevel { predecessor: String, predecessor_timestamp: String },
}

/// One item of the inbox, out of its envelope.
#[derive(Clone, Debug, PartialEq, Eq)]
pub enum RawMessage {
    Internal(InternalMessage),
    /// Bytes that somebody sent to the inbox, in a format of the kernel's own.
    External(Vec<u8>),
}

/// A [`RawMessage`] as contracts see it.
pub enum RawMessageView {
    Transfer,
    StartOfLevel,
    EndOfLevel,
    InfoPerLevel { predecessor: Seq<char>, predecessor_timestamp: Seq<char> },
    External(Seq<u8>),
}

impl View for RawMessage {
    type V = RawMessageView;

    open spec fn view(&self) -> RawMessageView {
        match *self {
            RawMessage::Internal(InternalMessage::Transfer) => RawMessageView::Transfer,
            RawMessage::Internal(InternalMessage::StartOfLevel) => RawMessageView::StartOfLevel,
            RawMessage::Internal(InternalMessage::EndOfLevel) => RawMessageView::EndOfLevel,
            RawMessage::Internal(
                InternalMessage::InfoPerLevel { predecessor, predecessor_timestamp },
            ) => RawMessageView::InfoPerLevel {
                predecessor: predecessor@,
                predecessor_timestamp: predecessor_timestamp@,
            },
            RawMessage::External(bytes) => RawMessageView::External(bytes@),
        }
    }
}

/// What the parser makes of one slot of the inbox.
#[derive(Debug)]
pub enum InboxResult {
    /// The inbox holds no further message.
    InboxEmpty,
    /// Nothing to run; this is what to log.
    Log(LogType),
    /// An authenticated operation, ready to run.
    Transaction(Operation),
}

/// An [`InboxResult`] as contracts see it.
pub enum InboxResultView {
    InboxEmpty,
    Log(LogTypeView),
    Transaction(Seq<u8>),
}

impl View for InboxResult {
    type V = InboxResultView;

    open spec fn view(&self) -> InboxResultView {
        match *self {
            InboxResult::InboxEmpty => InboxResultView::InboxEmpty,
            InboxResult::Log(log) => InboxResultView::Log(log@),
            InboxResult::Transaction(op) => InboxResultView::Transaction(op@),
        }
    }
}

/// What the envelope of an inbox item holds, or how its parser describes the
/// failure.
pub uninterp spec fn envelope(input: Seq<u8>) -> Result<RawMessageView, Seq<char>>;

/// How the frame parser describes its failure on bytes that are no targetted
/// message.
pub uninterp spec fn frame_error(input: Seq<u8>) -> Seq<char>;

/// The address of a rollup as text, in base58 with a checksum.
pub uninterp spec fn rollup_address_text(address: Seq<u8>) -> Seq<char>;

/// What the envelope holds where its first bytes alone decide it: an item
/// that starts with the byte 1 is external and holds the rest of the bytes; an
/// item that starts with the bytes 0 and 1 is the start of a round, and one
/// that starts with 0 and 2 is its end.
pub open spec fn plain_envelope(input: Seq<u8>) -> Option<RawMessageView> {
    if input.len() >= 1 && input[0] == 1 {
        Some(RawMessageView::External(input.subrange(1, input.len() as int)))
    } else if input.len() >= 2 && input[0] == 0 && input[1] == 1 {
        Some(RawMessageView::StartOfLevel)
    } else if input.len() >= 2 && input[0] == 0 && input[1] == 2 {
        Some(RawMessageView::EndOfLevel)
    } else {
        None
    }
}

/// Calls `InboxMessage::<MichelsonUnit>::parse` of `tezos_smart_rollup`, and
/// keeps of the result what this kernel reads; what follows the message is
/// dropped. Trusted: the result is a function of the bytes, named `envelope`,
/// and it is what `plain_envelope` says wherever that says anything.
#[verifier::external_body]
fn parse_envelope(input: &[u8]) -> (res: Result<RawMessage, String>)
    ensures
        match res {
            Ok(message) => envelope(input@) == Ok::<RawMessageView, Seq<char>>(message@),
            Err(text) => envelope(input@) == Err::<RawMessageView, Seq<char>>(text@),
        },
        plain_envelope(input@) is Some ==> res is Ok && res->Ok_0@ == plain_envelope(
            input@,
        )->Some_0,
{
    match InboxMessage::<MichelsonUnit>::parse(input) {
        Err(e) => Err(format!("{:?}", e)),
        Ok((_, InboxMessage::External(bytes))) => Ok(RawMessage::External(bytes.to_vec())),
        Ok((_, InboxMessage::Internal(message))) => Ok(RawMessage::Internal(match message {
            InternalInboxMessage::Transfer(_) => InternalMessage::Transfer,
            InternalInboxMessage::StartOfLevel => InternalMessage::StartOfLevel,
            InternalInboxMessage::EndOfLevel => InternalMessage::EndOfLevel,
            InternalInboxMessage::InfoPerLevel(info) => InternalMessage::InfoPerLevel {
                predecessor: info.predecessor.to_string(),
                predecessor_timestamp: info.predecessor_timestamp.to_string(),
            },
        })),
    }
}

/// Calls `ExternalMessageFrame::parse` of `tezos_smart_rollup`. Trusted: the
/// bytes are a targetted message exactly when they start with the tag 0 and
/// hold the 20 bytes of an address; the contents are all that follows; the
/// text of a failure is a function of the bytes, named `frame_error`.
#[verifier::external_body]
fn parse_external_frame(input: &[u8]) -> (res: Result<(Address, Vec<u8>), String>)
    ensures
        res is Ok <==> is_targetted(input@),
        res is Ok ==> res->Ok_0.0@ == input@.subrange(1, EXTERNAL_FRAME_SIZE as int)
            && res->Ok_0.1@ == input@.subrange(EXTERNAL_FRAME_SIZE as int, input@.len() as int),
        res is Err ==> res->Err_0@ == frame_error(input@),
{
    match ExternalMessageFrame::parse(input) {
        Ok(ExternalMessageFrame::Targetted { address, contents }) => {
            let mut target = [0u8; 20];
            target.copy_from_slice(address.hash().0.as_slice());
            Ok((target, contents.to_vec()))
        },
        Err(e) => Err(format!("{:?}", e)),
    }
}

/// Calls the `Display` of `tezos_crypto_rs`'s `SmartRollupHash`. Trusted: the
/// text is a function of the 20 bytes, named `rollup_address_text`.
#[verifier::external_body]
fn format_rollup_address(address: &Address) -> (text: String)
    ensures
        text@ == rollup_address_text(address@),
{
    SmartRollupHash(address.to_vec()).to_string()
}

/// The frame of an external message for one rollup: the tag 0, the address
/// of the rollup, and the contents.
pub open spec fn spec_external_frame(rollup: Seq<u8>, contents: Seq<u8>) -> Seq<u8> {
    seq![0u8] + rollup + contents
}

/// The bytes are a targetted external message: the tag 0, an address, and
/// contents.
pub open spec fn is_targetted(input: Seq<u8>) -> bool {
    input.len() >= EXTERNAL_FRAME_SIZE && input[0] == 0
}

/// What is logged for a message that is addressed to another rollup.
pub open spec fn skip_text(expected: Seq<u8>, found: Seq<u8>) -> Seq<char> {
    "Skipping message: External message targets another rollup. Expected: "@
        + rollup_address_text(expected) + ". Found: "@ + rollup_address_text(found)
}

/// What is logged for the information on a round.
pub open spec fn level_info_text(predecessor: Seq<char>, predecessor_timestamp: Seq<char>) -> Seq<
    char,
> {
    "Internal message: level info (block predecessor: "@ + predecessor
        + ", predecessor_timestamp: "@ + predecessor_timestamp
}

/// What the contents of a message that is addressed to this rollup come to:
/// the operation if they decode and the signature is valid, an error record
/// otherwise.
pub open spec fn spec_authenticate(contents: Seq<u8>) -> InboxResultView {
    match spec_decode(contents) {
        Err(e) => InboxResultView::Log(LogTypeView::Error(e.spec_message())),
        Ok((public, signature, payload)) => if ecdsa_verifies(
            keccak256(payload),
            signature,
            public,
        ) {
            InboxResultView::Transaction(payload)
        } else {
            InboxResultView::Log(LogTypeView::Error(auth_failure(signature, public).spec_message()))
        },
    }
}

/// What an external message comes to, for the rollup with the given address.
pub open spec fn spec_external(bytes: Seq<u8>, rollup: Seq<u8>) -> InboxResultView {
    if !is_targetted(bytes) {
        InboxResultView::Log(LogTypeView::Error(frame_error(bytes)))
    } else if bytes.subrange(1, EXTERNAL_FRAME_SIZE as int) != rollup {
        InboxResultView::Log(
            LogTypeView::Info(skip_text(rollup, bytes.subrange(1, EXTERNAL_FRAME_SIZE as int))),
        )
    } else {
        spec_authenticate(bytes.subrange(EXTERNAL_FRAME_SIZE as int, bytes.len() as int))
    }
}

/// What a message comes to, for the rollup with the given address.
pub open spec fn spec_classify(message: RawMessageView, rollup: Seq<u8>) -> InboxResultView {
    match message {
        RawMessageView::StartOfLevel => InboxResultView::Log(LogTypeView::StartOfLevel),
        RawMessageView::EndOfLevel => InboxResultView::Log(LogTypeView::EndOfLevel),
        RawMessageView::InfoPerLevel { predecessor, predecessor_timestamp } => InboxResultView::Log(
            LogTypeView::Info(level_info_text(predecessor, predecessor_timestamp)),
        ),
        RawMessageView::Transfer => InboxResultView::Log(
            LogTypeView::Info("Internal message: transfer"@),
        ),
        RawMessageView::External(bytes) => spec_external(bytes, rollup),
    }
}

/// What one read of the inbox comes to. `input` is what the host gave: an
/// item, nothing, or a failure with its description.
pub open spec fn spec_get_inbox_message(
    input: Result<Option<Seq<u8>>, Seq<char>>,
    rollup: Seq<u8>,
) -> InboxResultView {
    match input {
        Err(text) => InboxResultView::Log(LogTypeView::Error(text)),
        Ok(None) => InboxResultView::InboxEmpty,
        Ok(Some(bytes)) => match envelope(bytes) {
            Err(text) => InboxResultView::Log(LogTypeView::Error(text)),
            Ok(message) => spec_classify(message, rollup),
        },
    }
}

/// A failure becomes an error record with its description; anything else
/// stays what it is.
pub fn to_inbox_result(res: Result<InboxResult, String>) -> (out: InboxResult)
    ensures
        match res {
            Err(text) => out@ == InboxResultView::Log(LogTypeView::Error(text@)),
            Ok(inner) => out == inner,
        },
{
    match res {
        Err(text) => InboxResult::Log(LogType::Error(text)),
        Ok(inner) => inner,
    }
}

/// Decodes the contents of a message for this rollup and checks the signature.
pub fn authenticate(contents: &[u8]) -> (out: InboxResult)
    ensures
        out@ == spec_authenticate(contents@),
{
    match SignedOperation::decode(contents) {
        Err(e) => InboxResult::Log(LogType::Error(e.message())),
        Ok(signed) => match signed.verify() {
            Ok(op) => InboxResult::Transaction(op),
            Err(e) => InboxResult::Log(LogType::Error(e.message())),
        },
    }
}

/// Sorts a message: markers of the protocol become log records, an external
/// message for another rollup is skipped with a note, and one for this rollup
/// is authenticated.
pub fn classify(message: RawMessage, rollup_address: &Address) -> (out: InboxResult)
    ensures
        out@ == spec_classify(message@, rollup_address@),
{
    match message {
        RawMessage::Internal(InternalMessage::StartOfLevel) => InboxResult::Log(
            LogType::StartOfLevel,
        ),
        RawMessage::Internal(InternalMessage::EndOfLevel) => InboxResult::Log(LogType::EndOfLevel),
        RawMessage::Internal(InternalMessage::InfoPerLevel { predecessor, predecessor_timestamp }) => {
            let text = String::from_str("Internal message: level info (block predecessor: ")
                .concat(predecessor.as_str())
                .concat(", predecessor_timestamp: ")
                .concat(predecessor_timestamp.as_str());
            InboxResult::Log(LogType::Info(text))
        },
        RawMessage::Internal(InternalMessage::Transfer) => InboxResult::Log(
            LogType::Info(String::from_str("Internal message: transfer")),
        ),
        RawMessage::External(bytes) => match parse_external_frame(bytes.as_slice()) {
            Err(text) => InboxResult::Log(LogType::Error(text)),
            Ok((target, contents)) => {
                if !crate::database::bytes_eq(target.as_slice(), rollup_address.as_slice()) {
                    let text = String::from_str(
                        "Skipping message: External message targets another rollup. Expected: ",
                    ).concat(format_rollup_address(rollup_address).as_str()).concat(
                        ". Found: ",
                    ).concat(format_rollup_address(&target).as_str());
                    InboxResult::Log(LogType::Info(text))
                } else {
                    authenticate(contents.as_slice())
                }
            },
        },
    }
}

/// Turns one read of the inbox into a log record or a transaction. `input` is
/// what the host gave: an item, nothing, or a failure with its description.
pub fn get_inbox_message(input: Result<Option<Vec<u8>>, String>, rollup_address: &Address) -> (out:
    InboxResult)
    ensures
        out@ == spec_get_inbox_message(
            match input {
                Ok(Some(bytes)) => Ok(Some(bytes@)),
                Ok(None) => Ok(None),
                Err(text) => Err(text@),
            },
            rollup_address@,
        ),
        match input {
            Ok(Some(bytes)) => plain_envelope(bytes@) is Some ==> out@ == spec_classify(
                plain_envelope(bytes@)->Some_0,
                rollup_address@,
            ),
            _ => true,
        },
{
    match input {
        Err(text) => to_inbox_result(Err(text)),
        Ok(None) => InboxResult::InboxEmpty,
        Ok(Some(bytes)) => match parse_envelope(bytes.as_slice()) {
            Err(text) => to_inbox_result(Err(text)),
            Ok(message) => classify(message, rollup_address),
        },
    }
}


/// A well-made message is accepted: where the key of a signed operation
/// parses to itself, its signature is in standard form, the transaction
/// decoder takes the whole of its operation and the signature is valid, the
/// external inbox item that carries it in a frame for this rollup comes to the
/// operation as a transaction.
pub proof fn lemma_signed_message_is_accepted(signed: SignedOperation, rollup: Seq<u8>)
    requires
        rollup.len() == 20,
    ensures
        parsed_public_key(signed.pk.bytes@) == Some(signed.pk.bytes@) && is_standard_signature(
            signed.signature.bytes@,
        ) && transaction_frame(signed.inner@, MAX_OPERATION_SIZE as nat) == Some(
            signed.inner@.len(),
        ) && signed.is_valid() ==> plain_envelope(
            seq![1u8] + spec_external_frame(rollup, signed.spec_encode()),
        ) is Some && spec_classify(
            plain_envelope(seq![1u8] + spec_external_frame(rollup, signed.spec_encode()))->Some_0,
            rollup,
        ) == InboxResultView::Transaction(signed.inner@),
{
    let contents = signed.spec_encode();
    let frame = spec_external_frame(rollup, contents);
    let item = seq![1u8] + frame;
    lemma_encode_then_decode(signed);
    assert(item[0] == 1);
    assert(item.subrange(1, item.len() as int) =~= frame);
    assert(frame[0] == 0);
    assert(frame.subrange(1, EXTERNAL_FRAME_SIZE as int) =~= rollup);
    assert(frame.subrange(EXTERNAL_FRAME_SIZE as int, frame.len() as int) =~= contents);
}

} // verus!
