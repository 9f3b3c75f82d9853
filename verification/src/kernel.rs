//! The decisions of the kernel loop.
//!
//! The loop itself belongs to the caller, who owns the host and the execution
//! engine: it reads one item of the inbox, asks [`next_step`] what to do with
//! what the parser made of it, runs the engine where it is told to, commits
//! the changes where [`commits`] says so, and logs what [`execution_log`]
//! gives for the outcome. It stops at the first [`KernelStep::Stop`].
use crate::crypto::Operation;
use crate::data_interface::{LogType, LogTypeView};
use crate::inbox::InboxResult;
use vstd::prelude::*;

verus! {

/// What a successful execution gave.
#[derive(Clone, Debug, PartialEq, Eq)]
pub enum Output {
    /// A contract was created.
    Create,
    /// A call returned these bytes.
    Call(Vec<u8>),
}

/// How the execution engine ended a transaction.
#[derive(Clone, Debug, PartialEq, Eq)]
pub enum ExecutionOutcome {
    /// The transaction ran to its end.
    Success { output: Output },
    /// The contract reverted.
    Revert,
    /// The engine stopped the execution, for the reason it describes.
    Halt { reason: String },
}

/// What the kernel does next.
#[derive(Debug)]
pub enum KernelStep {
    /// The inbox is exhausted: leave the loop.
    Stop,
    /// Write this record to the log and read on.
    Emit(LogType),
    /// Run this operation, log its outcome and read on.
    Execute(Operation),
}

/// Whether what a transaction changed is committed to the state store: only
/// a transaction that ran to its end is. One that reverted or was halted
/// leaves the store as it was.
pub fn commits(outcome: &ExecutionOutcome) -> (commit: bool)
    ensures
        commit == (*outcome is Success),
{
    match outcome {
        ExecutionOutcome::Success { .. } => true,
        _ => false,
    }
}

/// The log record for the outcome of an execution.
pub fn handle_res(res: ExecutionOutcome) -> (log: LogType)
    ensures
        match res {
            ExecutionOutcome::Success { output: Output::Create } => log@ == LogTypeView::Deploy,
            ExecutionOutcome::Success { output: Output::Call(bytes) } => log@
                == LogTypeView::Execute(bytes@),
            ExecutionOutcome::Revert => log@ == LogTypeView::Error(
                "Smart contract execution reverted"@,
            ),
            ExecutionOutcome::Halt { reason } => log@ == LogTypeView::Error(
                "Halt: reason - "@ + reason@,
            ),
        },
{
    match res {
        ExecutionOutcome::Success { output } => match output {
            Output::Create => LogType::Deploy,
            Output::Call(bytes) => LogType::Execute(bytes),
        },
        ExecutionOutcome::Revert => LogType::Error(
            String::from_str("Smart contract execution reverted"),
        ),
        ExecutionOutcome::Halt { reason } => LogType::Error(
            String::from_str("Halt: reason - ").concat(reason.as_str()),
        ),
    }
}

/// The log record for a transaction that was run: the outcome where the
/// engine gave one, an error record with its description where it failed.
pub fn execution_log(result: Result<ExecutionOutcome, String>) -> (log: LogType)
    ensures
        match result {
            Ok(ExecutionOutcome::Success { output: Output::Create }) => log@ == LogTypeView::Deploy,
            Ok(ExecutionOutcome::Success { output: Output::Call(bytes) }) => log@
                == LogTypeView::Execute(bytes@),
            Ok(ExecutionOutcome::Revert) => log@ == LogTypeView::Error(
                "Smart contract execution reverted"@,
            ),
            Ok(ExecutionOutcome::Halt { reason }) => log@ == LogTypeView::Error(
                "Halt: reason - "@ + reason@,
            ),
            Err(text) => log@ == LogTypeView::Error("Unsuccessful transaction: \n"@ + text@),
        },
{
    match result {
        Ok(res) => handle_res(res),
        Err(text) => LogType::Error(
            String::from_str("Unsuccessful transaction: \n").concat(text.as_str()),
        ),
    }
}

/// What the kernel does with what the parser made of one read of the inbox:
/// it stops when the inbox is empty, logs a record, or runs a transaction.
pub fn next_step(message: InboxResult) -> (step: KernelStep)
    ensures
        match message {
            InboxResult::InboxEmpty => step is Stop,
            InboxResult::Log(log) => step == KernelStep::Emit(log),
            InboxResult::Transaction(op) => step == KernelStep::Execute(op),
        },
{
    match message {
        InboxResult::InboxEmpty => KernelStep::Stop,
        InboxResult::Log(log) => KernelStep::Emit(log),
        InboxResult::Transaction(op) => KernelStep::Execute(op),
    }
}

} // verus!
