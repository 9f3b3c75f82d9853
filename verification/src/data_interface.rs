//! The records that the kernel writes to its log, one per line.
use vstd::prelude::*;

verus! {

/// One record of the kernel's log.
#[derive(Clone, Debug, PartialEq, Eq)]
pub enum LogType {
    /// A round of the inbox begins.
    StartOfLevel,
    /// A contract was deployed.
    Deploy,
    /// A call returned these bytes.
    Execute(Vec<u8>),
    /// A round of the inbox ends.
    EndOfLevel,
    /// Something failed; the message was skipped.
    Error(String),
    /// Something worth noting that is no failure.
    Info(String),
}

/// A [`LogType`] as contracts see it.
pub enum LogTypeView {
    StartOfLevel,
    Deploy,
    Execute(Seq<u8>),
    EndOfLevel,
    Error(Seq<char>),
    Info(Seq<char>),
}

impl View for LogType {
    type V = LogTypeView;

    open spec fn view(&self) -> LogTypeView {
        match *self {
            LogType::StartOfLevel => LogTypeView::StartOfLevel,
            LogType::Deploy => LogTypeView::Deploy,
            LogType::Execute(bytes) => LogTypeView::Execute(bytes@),
            LogType::EndOfLevel => LogTypeView::EndOfLevel,
            LogType::Error(text) => LogTypeView::Error(text@),
            LogType::Info(text) => LogTypeView::Info(text@),
        }
    }
}

} // verus!
