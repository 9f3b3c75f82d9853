//! The checks on the log of a benchmark run: that the log holds what the
//! generated inbox must lead to, and that the balances came out right.
use crate::data_interface::{LogType, LogTypeView};
use crate::generate::{
    accounts_for_transfers, ceil_sqrt, transfer_receiver, transfer_sender, transfer_step,
    transfer_value, Message,
};
use alloy_sol_types::sol_data::{Bool, Uint};
use alloy_sol_types::SolType;
use vstd::prelude::*;

verus! {

/// Deployment, minting, transfers and balance queries are all in one round.
pub const EXPECTED_LEVELS: usize = 1;

/// One line of the log: when it was written, in nanoseconds since the start of
/// the run, and what it says.
#[derive(Debug)]
pub struct ParsedLogLine {
    pub elapsed: u128,
    pub log_type: LogType,
}

/// A [`ParsedLogLine`] as contracts see it.
pub struct LineView {
    pub elapsed: u128,
    pub log: LogTypeView,
}

impl View for ParsedLogLine {
    type V = LineView;

    open spec fn view(&self) -> LineView {
        LineView { elapsed: self.elapsed, log: self.log_type@ }
    }
}

/// The lines of one round, sorted by what they report.
#[derive(Debug)]
pub struct Level {
    pub deployments: Vec<ParsedLogLine>,
    pub mints: Vec<ParsedLogLine>,
    pub transfers: Vec<ParsedLogLine>,
    /// Each balance query with the balance that it returned.
    pub balance_checks: Vec<(ParsedLogLine, usize)>,
}

/// A [`Level`] as contracts see it.
pub struct LevelView {
    pub deployments: Seq<LineView>,
    pub mints: Seq<LineView>,
    pub transfers: Seq<LineView>,
    pub balance_checks: Seq<(LineView, usize)>,
}

/// The views of a list of lines.
pub open spec fn lines_view(lines: Seq<ParsedLogLine>) -> Seq<LineView> {
    Seq::new(lines.len(), |i: int| lines[i]@)
}

/// The views of a list of balance queries.
pub open spec fn checks_view(checks: Seq<(ParsedLogLine, usize)>) -> Seq<(LineView, usize)> {
    Seq::new(checks.len(), |i: int| (checks[i].0@, checks[i].1))
}

impl View for Level {
    type V = LevelView;

    open spec fn view(&self) -> LevelView {
        LevelView {
            deployments: lines_view(self.deployments@),
            mints: lines_view(self.mints@),
            transfers: lines_view(self.transfers@),
            balance_checks: checks_view(self.balance_checks@),
        }
    }
}

/// The views of a list of rounds.
pub open spec fn levels_view(levels: Seq<Level>) -> Seq<LevelView> {
    Seq::new(levels.len(), |i: int| levels[i]@)
}

/// A round without lines.
pub open spec fn empty_level() -> LevelView {
    LevelView {
        deployments: Seq::empty(),
        mints: Seq::empty(),
        transfers: Seq::empty(),
        balance_checks: Seq::empty(),
    }
}

/// What is wrong with the log of a run.
#[derive(Debug)]
pub enum ResultsError {
    /// The start of a round was logged in the middle of a round.
    StartOfLevelNotAtStart,
    /// The log ends in the middle of a round.
    MissingEndOfLevel,
    /// A transfer returned something that is no boolean.
    InvalidTransferResult,
    /// A transfer returned `false`.
    TransferFailed,
    /// A balance query returned something that is no number.
    InvalidBalance,
    /// A balance does not fit into the counter type of this machine.
    BalanceTooLarge,
    /// More executions were logged than the inbox asks for.
    TooManyTransactions,
    /// The kernel logged this error.
    Logged(String),
    /// The inbox and the log do not both hold exactly the expected rounds.
    LevelCount { inbox: usize, logs: usize },
    /// The inbox holds too few messages.
    TooFewMessages { needed: u128, found: usize },
    /// Not exactly one deployment was logged.
    MissingDeployment,
    /// The number of mints is not the number of accounts.
    MintCount { expected: usize, found: usize },
    /// The number of transfers is not what was asked for.
    TransferCount { expected: usize, found: usize },
    /// The number of balance queries is not the number of accounts.
    BalanceCheckCount { expected: usize, found: usize },
    /// There is no mint or no transfer to measure the time between.
    NothingToMeasure,
    /// The last transfer was logged before the last mint.
    TimeWentBackwards,
    /// The balances are not what the transfers lead to.
    BalanceMismatch,
}

/// A [`ResultsError`] as contracts see it.
pub enum ResultsErrorView {
    StartOfLevelNotAtStart,
    MissingEndOfLevel,
    InvalidTransferResult,
    TransferFailed,
    InvalidBalance,
    BalanceTooLarge,
    TooManyTransactions,
    Logged(Seq<char>),
    LevelCount { inbox: usize, logs: usize },
    TooFewMessages { needed: u128, found: usize },
    MissingDeployment,
    MintCount { expected: usize, found: usize },
    TransferCount { expected: usize, found: usize },
    BalanceCheckCount { expected: usize, found: usize },
    NothingToMeasure,
    TimeWentBackwards,
    BalanceMismatch,
}

impl View for ResultsError {
    type V = ResultsErrorView;

    open spec fn view(&self) -> ResultsErrorView {
        match *self {
            ResultsError::StartOfLevelNotAtStart => ResultsErrorView::StartOfLevelNotAtStart,
            ResultsError::MissingEndOfLevel => ResultsErrorView::MissingEndOfLevel,
            ResultsError::InvalidTransferResult => ResultsErrorView::InvalidTransferResult,
            ResultsError::TransferFailed => ResultsErrorView::TransferFailed,
            ResultsError::InvalidBalance => ResultsErrorView::InvalidBalance,
            ResultsError::BalanceTooLarge => ResultsErrorView::BalanceTooLarge,
            ResultsError::TooManyTransactions => ResultsErrorView::TooManyTransactions,
            ResultsError::Logged(text) => ResultsErrorView::Logged(text@),
            ResultsError::LevelCount { inbox, logs } => ResultsErrorView::LevelCount { inbox, logs },
            ResultsError::TooFewMessages { needed, found } => ResultsErrorView::TooFewMessages {
                needed,
                found,
            },
            ResultsError::MissingDeployment => ResultsErrorView::MissingDeployment,
            ResultsError::MintCount { expected, found } => ResultsErrorView::MintCount {
                expected,
                found,
            },
            ResultsError::TransferCount { expected, found } => ResultsErrorView::TransferCount {
                expected,
                found,
            },
            ResultsError::BalanceCheckCount { expected, found } => ResultsErrorView::BalanceCheckCount {
                expected,
                found,
            },
            ResultsError::NothingToMeasure => ResultsErrorView::NothingToMeasure,
            ResultsError::TimeWentBackwards => ResultsErrorView::TimeWentBackwards,
            ResultsError::BalanceMismatch => ResultsErrorView::BalanceMismatch,
        }
    }
}

/// The boolean that returned bytes hold by the contract ABI, if they hold one.
pub uninterp spec fn abi_bool(data: Seq<u8>) -> Option<bool>;

/// The 256-bit number that returned bytes hold by the contract ABI, as 32
/// big-endian bytes, if they hold one.
pub uninterp spec fn abi_uint(data: Seq<u8>) -> Option<Seq<u8>>;

/// Calls `abi_decode` of `alloy_sol_types` for a `bool`. Trusted: the result
/// is a function of the bytes, named `abi_bool`.
#[verifier::external_body]
fn decode_bool(data: &[u8]) -> (res: Option<bool>)
    ensures
        res == abi_bool(data@),
{
    match Bool::abi_decode(data) {
        Ok(value) => Some(value),
        Err(_) => None,
    }
}

/// Calls `abi_decode` of `alloy_sol_types` for a `uint256`. Trusted: the
/// result is a function of the bytes, named `abi_uint`.
#[verifier::external_body]
fn decode_uint(data: &[u8]) -> (res: Option<[u8; 32]>)
    ensures
        res is Some <==> abi_uint(data@) is Some,
        res is Some ==> res->Some_0@ == abi_uint(data@)->Some_0,
{
    match Uint::<256>::abi_decode(data) {
        Ok(value) => Some(value.to_be_bytes::<32>()),
        Err(_) => None,
    }
}

/// The number that eight big-endian bytes hold.
pub open spec fn u64_from_be(bytes: Seq<u8>) -> int {
    bytes[0] * 0x100_0000_0000_0000 + bytes[1] * 0x1_0000_0000_0000 + bytes[2] * 0x100_0000_0000
        + bytes[3] * 0x1_0000_0000 + bytes[4] * 0x100_0000 + bytes[5] * 0x1_0000 + bytes[6] * 0x100
        + bytes[7]
}

/// The number that a 256-bit word holds, if it fits the counter type of this
/// machine.
pub open spec fn word_to_usize(word: Seq<u8>) -> Option<usize> {
    if (forall|i: int| 0 <= i < 24 ==> word[i] == 0) && u64_from_be(word.subrange(24, 32))
        <= usize::MAX {
        Some(u64_from_be(word.subrange(24, 32)) as usize)
    } else {
        None
    }
}

fn usize_of_word(word: &[u8; 32]) -> (res: Option<usize>)
    ensures
        res == word_to_usize(word@),
{
    let mut i: usize = 0;
    while i < 24
        invariant
            i <= 24,
            forall|j: int| 0 <= j < i ==> word@[j] == 0,
        decreases 24 - i,
    {
        if word[i] != 0 {
            return None;
        }
        i += 1;
    }
    let value: u64 = (word[24] as u64) * 0x100_0000_0000_0000 + (word[25] as u64)
        * 0x1_0000_0000_0000 + (word[26] as u64) * 0x100_0000_0000 + (word[27] as u64)
        * 0x1_0000_0000 + (word[28] as u64) * 0x100_0000 + (word[29] as u64) * 0x1_0000 + (
    word[30] as u64) * 0x100 + (word[31] as u64);
    assert(value == u64_from_be(word@.subrange(24, 32)));
    if value > usize::MAX as u64 {
        return None;
    }
    Some(value as usize)
}

/// How far the scan of a log has come: the rounds that are complete, the round
/// that is open, and the number of executions seen in all.
pub struct Progress {
    pub levels: Seq<LevelView>,
    pub level: LevelView,
    pub executed: int,
}

/// The scan after one more line. The first `accounts` executions are mints,
/// the next `transfers` are transfers, which must have returned `true`, and
/// the `accounts` after those are balance queries.
pub open spec fn spec_step(
    progress: Progress,
    line: LineView,
    accounts: int,
    transfers: int,
) -> Result<Progress, ResultsErrorView> {
    let level = progress.level;
    match line.log {
        LogTypeView::StartOfLevel => if level == empty_level() {
            Ok(progress)
        } else {
            Err(ResultsErrorView::StartOfLevelNotAtStart)
        },
        LogTypeView::EndOfLevel => Ok(
            Progress { levels: progress.levels.push(level), level: empty_level(), ..progress },
        ),
        LogTypeView::Deploy => Ok(
            Progress {
                level: LevelView { deployments: level.deployments.push(line), ..level },
                ..progress
            },
        ),
        LogTypeView::Execute(bytes) => if progress.executed < accounts {
            Ok(
                Progress {
                    level: LevelView { mints: level.mints.push(line), ..level },
                    executed: progress.executed + 1,
                    ..progress
                },
            )
        } else if progress.executed < accounts + transfers {
            match abi_bool(bytes) {
                None => Err(ResultsErrorView::InvalidTransferResult),
                Some(false) => Err(ResultsErrorView::TransferFailed),
                Some(true) => Ok(
                    Progress {
                        level: LevelView { transfers: level.transfers.push(line), ..level },
                        executed: progress.executed + 1,
                        ..progress
                    },
                ),
            }
        } else if progress.executed < 2 * accounts + transfers {
            match abi_uint(bytes) {
                None => Err(ResultsErrorView::InvalidBalance),
                Some(word) => match word_to_usize(word) {
                    None => Err(ResultsErrorView::BalanceTooLarge),
                    Some(balance) => Ok(
                        Progress {
                            level: LevelView {
                                balance_checks: level.balance_checks.push((line, balance)),
                                ..level
                            },
                            executed: progress.executed + 1,
                            ..progress
                        },
                    ),
                },
            }
        } else {
            Err(ResultsErrorView::TooManyTransactions)
        },
        LogTypeView::Error(text) => Err(ResultsErrorView::Logged(text)),
        LogTypeView::Info(text) => Ok(progress),
    }
}

/// The scan of a whole log, line by line, up to the first error.
pub open spec fn spec_scan(lines: Seq<LineView>, accounts: int, transfers: int) -> Result<
    Progress,
    ResultsErrorView,
>
    decreases lines.len(),
{
    if lines.len() == 0 {
        Ok(Progress { levels: Seq::empty(), level: empty_level(), executed: 0 })
    } else {
        match spec_scan(lines.drop_last(), accounts, transfers) {
            Err(e) => Err(e),
            Ok(progress) => spec_step(progress, lines.last(), accounts, transfers),
        }
    }
}

/// The rounds that a log holds, for a run of `transfers` transfers. The log
/// must end between two rounds.
pub open spec fn spec_logs_to_levels(lines: Seq<LineView>, transfers: nat) -> Result<
    Seq<LevelView>,
    ResultsErrorView,
> {
    match spec_scan(lines, (ceil_sqrt(transfers) + 1) as int, transfers as int) {
        Err(e) => Err(e),
        Ok(progress) => if progress.level == empty_level() {
            Ok(progress.levels)
        } else {
            Err(ResultsErrorView::MissingEndOfLevel)
        },
    }
}

impl Level {
    /// A round without lines.
    pub fn new() -> (level: Level)
        ensures
            level@ == empty_level(),
    {
        let level = Level {
            deployments: Vec::new(),
            mints: Vec::new(),
            transfers: Vec::new(),
            balance_checks: Vec::new(),
        };
        assert(level@.deployments =~= Seq::<LineView>::empty());
        assert(level@.mints =~= Seq::<LineView>::empty());
        assert(level@.transfers =~= Seq::<LineView>::empty());
        assert(level@.balance_checks =~= Seq::<(LineView, usize)>::empty());
        level
    }

    /// Whether the round holds no line.
    pub fn is_empty(&self) -> (empty: bool)
        ensures
            empty == (self@ == empty_level()),
    {
        let empty = self.deployments.len() == 0 && self.mints.len() == 0 && self.transfers.len()
            == 0 && self.balance_checks.len() == 0;
        proof {
            if empty {
                assert(self@.deployments =~= Seq::<LineView>::empty());
                assert(self@.mints =~= Seq::<LineView>::empty());
                assert(self@.transfers =~= Seq::<LineView>::empty());
                assert(self@.balance_checks =~= Seq::<(LineView, usize)>::empty());
            } else {
                assert(self@.deployments.len() == self.deployments@.len());
                assert(self@.mints.len() == self.mints@.len());
                assert(self@.transfers.len() == self.transfers@.len());
                assert(self@.balance_checks.len() == self.balance_checks@.len());
            }
        }
        empty
    }
}


/// Appends a line to a list of lines.
fn push_line(lines: &mut Vec<ParsedLogLine>, line: ParsedLogLine)
    ensures
        lines_view(final(lines)@) == lines_view(old(lines)@).push(line@),
{
    lines.push(line);
    assert(lines_view(lines@) =~= lines_view(old(lines)@).push(line@));
}

/// Appends a balance query to a list of them.
fn push_check(checks: &mut Vec<(ParsedLogLine, usize)>, line: ParsedLogLine, balance: usize)
    ensures
        checks_view(final(checks)@) == checks_view(old(checks)@).push((line@, balance)),
{
    checks.push((line, balance));
    assert(checks_view(checks@) =~= checks_view(old(checks)@).push((line@, balance)));
}

/// Appends a round to a list of rounds.
fn push_level(levels: &mut Vec<Level>, level: Level)
    ensures
        levels_view(final(levels)@) == levels_view(old(levels)@).push(level@),
{
    levels.push(level);
    assert(levels_view(levels@) =~= levels_view(old(levels)@).push(level@));
}

/// Sorts the lines of a log into rounds, for a run of `transfers` transfers.
/// The executions are told apart by their order: first the mints, one for
/// each account, then the transfers, then the balance queries.
pub fn logs_to_levels(logs: Vec<ParsedLogLine>, transfers: usize) -> (res: Result<
    Vec<Level>,
    ResultsError,
>)
    ensures
        match res {
            Ok(levels) => spec_logs_to_levels(lines_view(logs@), transfers as nat) == Ok::<
                Seq<LevelView>,
                ResultsErrorView,
            >(levels_view(levels@)),
            Err(e) => spec_logs_to_levels(lines_view(logs@), transfers as nat) == Err::<
                Seq<LevelView>,
                ResultsErrorView,
            >(e@),
        },
{
    let accounts = accounts_for_transfers(transfers);
    let ghost all = lines_view(logs@);
    let ghost n = accounts as int;
    let ghost t = transfers as int;
    let ghost given = logs@;
    let total = logs.len();
    let mut levels: Vec<Level> = Vec::new();
    let mut level = Level::new();
    let mut i: usize = 0;
    assert(levels_view(levels@) =~= Seq::<LevelView>::empty());
    assert(all.subrange(0, 0) =~= Seq::<LineView>::empty());
    for line in iter: logs.into_iter()
        invariant
            iter.seq() == given,
            given.len() == total,
            all == lines_view(given),
            i <= iter.index(),
            n == accounts,
            t == transfers,
            spec_logs_to_levels(all, transfers as nat) == match spec_scan(all, n, t) {
                Err(e) => Err::<Seq<LevelView>, ResultsErrorView>(e),
                Ok(progress) => if progress.level == empty_level() {
                    Ok(progress.levels)
                } else {
                    Err(ResultsErrorView::MissingEndOfLevel)
                },
            },
            spec_scan(all.subrange(0, iter.index() as int), n, t) == Ok::<
                Progress,
                ResultsErrorView,
            >(Progress { levels: levels_view(levels@), level: level@, executed: i as int }),
    {
        let ghost done = iter.index() as int;
        let ghost prefix = all.subrange(0, done);
        let ghost longer = all.subrange(0, done + 1);
        let ghost progress = Progress {
            levels: levels_view(levels@),
            level: level@,
            executed: i as int,
        };
        proof {
            assert(longer.drop_last() =~= prefix);
            assert(longer.last() == all[done]);
            assert(line@ == all[done]);
            assert(spec_scan(longer, n, t) == spec_step(progress, line@, n, t));
        }
        match &line.log_type {
            LogType::StartOfLevel => {
                if !level.is_empty() {
                    proof {
                        lemma_scan_error_stays(all, done + 1, n, t);
                    }
                    return Err(ResultsError::StartOfLevelNotAtStart);
                }
            },
            LogType::EndOfLevel => {
                push_level(&mut levels, level);
                level = Level::new();
            },
            LogType::Deploy => {
                push_line(&mut level.deployments, line);
            },
            LogType::Execute(bytes) => {
                if i < accounts {
                    push_line(&mut level.mints, line);
                } else if (i as u128) < accounts as u128 + transfers as u128 {
                    match decode_bool(bytes.as_slice()) {
                        None => {
                            proof {
                                lemma_scan_error_stays(all, done + 1, n, t);
                            }
                            return Err(ResultsError::InvalidTransferResult);
                        },
                        Some(false) => {
                            proof {
                                lemma_scan_error_stays(all, done + 1, n, t);
                            }
                            return Err(ResultsError::TransferFailed);
                        },
                        Some(true) => {
                            push_line(&mut level.transfers, line);
                        },
                    }
                } else if (i as u128) < 2 * (accounts as u128) + transfers as u128 {
                    let word = match decode_uint(bytes.as_slice()) {
                        Some(word) => word,
                        None => {
                            proof {
                                lemma_scan_error_stays(all, done + 1, n, t);
                            }
                            return Err(ResultsError::InvalidBalance);
                        },
                    };
                    match usize_of_word(&word) {
                        Some(balance) => {
                            push_check(&mut level.balance_checks, line, balance);
                        },
                        None => {
                            proof {
                                lemma_scan_error_stays(all, done + 1, n, t);
                            }
                            return Err(ResultsError::BalanceTooLarge);
                        },
                    }
                } else {
                    proof {
                        lemma_scan_error_stays(all, done + 1, n, t);
                    }
                    return Err(ResultsError::TooManyTransactions);
                }
                i += 1;
            },
            LogType::Error(_) => {
                proof {
                    lemma_scan_error_stays(all, done + 1, n, t);
                }
                return Err(ResultsError::Logged(line_error(line)));
            },
            LogType::Info(_) => {},
        }
    }
    let ghost done = given.len();
    assert(all.subrange(0, done as int) =~= all);
    if !level.is_empty() {
        return Err(ResultsError::MissingEndOfLevel);
    }
    Ok(levels)
}

/// Once the scan of a log has failed, it fails with the same error however
/// many lines follow.
proof fn lemma_scan_error_stays(all: Seq<LineView>, failed: int, accounts: int, transfers: int)
    requires
        0 <= failed <= all.len(),
        spec_scan(all.subrange(0, failed), accounts, transfers) is Err,
    ensures
        spec_scan(all, accounts, transfers) == spec_scan(
            all.subrange(0, failed),
            accounts,
            transfers,
        ),
    decreases all.len() - failed,
{
    if failed == all.len() {
        assert(all.subrange(0, failed) =~= all);
    } else {
        let shorter = all.drop_last();
        assert(shorter.subrange(0, failed) =~= all.subrange(0, failed));
        lemma_scan_error_stays(shorter, failed, accounts, transfers);
    }
}

/// The text of an error line.
fn line_error(line: ParsedLogLine) -> (text: String)
    requires
        line.log_type is Error,
    ensures
        line.log_type == LogType::Error(text),
{
    match line.log_type {
        LogType::Error(text) => text,
        _ => String::new(),
    }
}


/// What the counts of a round must be, for the inbox it came from: the inbox
/// holds at least the deployment, a mint and a balance query for each account
/// and the transfers (more is fine: some messages may be for another rollup),
/// and the round holds exactly one deployment, a mint for each account, the
/// transfers, and a balance query for each account.
pub open spec fn spec_check_counts(
    level: LevelView,
    messages: int,
    accounts: int,
    transfers: int,
) -> Result<(), ResultsErrorView> {
    if messages < 1 + 2 * accounts + transfers {
        Err(
            ResultsErrorView::TooFewMessages {
                needed: (1 + 2 * accounts + transfers) as u128,
                found: messages as usize,
            },
        )
    } else if level.deployments.len() != 1 {
        Err(ResultsErrorView::MissingDeployment)
    } else if level.mints.len() != accounts {
        Err(
            ResultsErrorView::MintCount {
                expected: accounts as usize,
                found: level.mints.len() as usize,
            },
        )
    } else if level.transfers.len() != transfers {
        Err(
            ResultsErrorView::TransferCount {
                expected: transfers as usize,
                found: level.transfers.len() as usize,
            },
        )
    } else if level.balance_checks.len() != accounts {
        Err(
            ResultsErrorView::BalanceCheckCount {
                expected: accounts as usize,
                found: level.balance_checks.len() as usize,
            },
        )
    } else {
        Ok(())
    }
}

/// The view of the outcome of a check.
pub open spec fn check_view(res: Result<(), ResultsError>) -> Result<(), ResultsErrorView> {
    match res {
        Ok(()) => Ok(()),
        Err(e) => Err(e@),
    }
}

/// Checks the counts of a round against the inbox it came from.
pub fn check_counts(level: &Level, messages: &Vec<Message>, accounts: usize, transfers: usize) -> (res:
    Result<(), ResultsError>)
    ensures
        check_view(res) == spec_check_counts(
            level@,
            messages@.len() as int,
            accounts as int,
            transfers as int,
        ),
{
    let needed: u128 = 1 + 2 * (accounts as u128) + transfers as u128;
    if (messages.len() as u128) < needed {
        return Err(ResultsError::TooFewMessages { needed, found: messages.len() });
    }
    if level.deployments.len() != 1 {
        return Err(ResultsError::MissingDeployment);
    }
    if level.mints.len() != accounts {
        return Err(ResultsError::MintCount { expected: accounts, found: level.mints.len() });
    }
    if level.transfers.len() != transfers {
        return Err(
            ResultsError::TransferCount { expected: transfers, found: level.transfers.len() },
        );
    }
    if level.balance_checks.len() != accounts {
        return Err(
            ResultsError::BalanceCheckCount {
                expected: accounts,
                found: level.balance_checks.len(),
            },
        );
    }
    Ok(())
}

/// What a run took: the number of transfers, and the time from the end of the
/// last mint to the end of the last transfer, in nanoseconds.
#[derive(Clone, Copy, Debug, PartialEq, Eq, Structural)]
pub struct TransferMetrics {
    pub transfers: usize,
    pub duration: u128,
}

/// What the transfers of a round took, if the round holds as many as expected.
pub open spec fn spec_transfer_metrics(level: LevelView, transfers: int) -> Result<
    TransferMetrics,
    ResultsErrorView,
> {
    if level.transfers.len() != transfers {
        Err(
            ResultsErrorView::TransferCount {
                expected: transfers as usize,
                found: level.transfers.len() as usize,
            },
        )
    } else if level.transfers.len() == 0 || level.mints.len() == 0 {
        Err(ResultsErrorView::NothingToMeasure)
    } else if level.transfers.last().elapsed < level.mints.last().elapsed {
        Err(ResultsErrorView::TimeWentBackwards)
    } else {
        Ok(
            TransferMetrics {
                transfers: transfers as usize,
                duration: (level.transfers.last().elapsed - level.mints.last().elapsed) as u128,
            },
        )
    }
}

/// Measures the transfers of a round: the time from the end of the minting to
/// the end of the last transfer.
pub fn check_transfer_metrics(level: &Level, transfers: usize) -> (res: Result<
    TransferMetrics,
    ResultsError,
>)
    ensures
        match res {
            Ok(metrics) => spec_transfer_metrics(level@, transfers as int) == Ok::<
                TransferMetrics,
                ResultsErrorView,
            >(metrics),
            Err(e) => spec_transfer_metrics(level@, transfers as int) == Err::<
                TransferMetrics,
                ResultsErrorView,
            >(e@),
        },
{
    if transfers != level.transfers.len() {
        return Err(
            ResultsError::TransferCount { expected: transfers, found: level.transfers.len() },
        );
    }
    if level.transfers.len() == 0 || level.mints.len() == 0 {
        return Err(ResultsError::NothingToMeasure);
    }
    let end = level.transfers[level.transfers.len() - 1].elapsed;
    let start = level.mints[level.mints.len() - 1].elapsed;
    if end < start {
        return Err(ResultsError::TimeWentBackwards);
    }
    Ok(TransferMetrics { transfers, duration: end - start })
}

/// The balance of account `who` after the first `k` transfers among
/// `accounts` accounts, each of which had `accounts + 1` tokens minted.
pub open spec fn expected_balance(accounts: int, k: int, who: int) -> int
    decreases k,
{
    if k <= 0 {
        accounts + 1
    } else {
        expected_balance(accounts, k - 1, who) - (if transfer_sender(accounts, k - 1) == who {
            transfer_value(accounts, k - 1)
        } else {
            0
        }) + (if transfer_receiver(accounts, k - 1) == who {
            transfer_value(accounts, k - 1)
        } else {
            0
        })
    }
}

/// The balances that were observed are those that the transfers lead to.
pub open spec fn balances_match(level: LevelView, transfers: int) -> bool {
    let accounts = ceil_sqrt(transfers as nat) + 1;
    &&& level.balance_checks.len() == accounts
    &&& forall|i: int|
        0 <= i < accounts ==> (#[trigger] level.balance_checks[i]).1 == expected_balance(
            accounts as int,
            transfers,
            i,
        )
}

/// Checks the balances at the end of a round: they must be what the transfers
/// of the generation strategy lead to, had they all succeeded.
pub fn check_balances(level: &Level, transfers: usize) -> (res: Result<(), ResultsError>)
    ensures
        balances_match(level@, transfers as int) ==> res is Ok,
        !balances_match(level@, transfers as int) ==> res is Err && res->Err_0@
            == ResultsErrorView::BalanceMismatch,
{
    let len = accounts_for_transfers(transfers);
    let ghost n = len as int;
    proof {
        assert(len <= 0x1_0000_0001) by (nonlinear_arith)
            requires
                len >= 1,
                (len - 1 == 0) || (len - 2) * (len - 2) < transfers,
                transfers <= 0xffff_ffff_ffff_ffff,
        ;
    }
    let mut balances: Vec<i128> = Vec::new();
    let mut i: usize = 0;
    while i < len
        invariant
            i <= len,
            n == len,
            balances@.len() == i,
            forall|m: int| 0 <= m < i ==> balances@[m] == n + 1,
        decreases len - i,
    {
        balances.push(len as i128 + 1);
        i += 1;
    }
    let mut k: usize = 0;
    while k < transfers
        invariant
            k <= transfers,
            1 <= len <= 0x1_0000_0001,
            n == len,
            transfers > 0 ==> len >= 2,
            balances@.len() == len,
            forall|m: int|
                0 <= m < len ==> (#[trigger] balances@[m]) == expected_balance(n, k as int, m),
            forall|m: int|
                0 <= m < len ==> -(k * n) <= (#[trigger] balances@[m]) - (n + 1) <= k * n,
        decreases transfers - k,
    {
        let (sender, receiver, value) = transfer_step(len, k);
        proof {
            assert(k * n + n == (k + 1) * n) by (nonlinear_arith);
            assert(0 <= k * n <= 0xffff_ffff_ffff_ffff * 0x1_0000_0001) by (nonlinear_arith)
                requires
                    0 <= k <= 0xffff_ffff_ffff_ffff,
                    0 <= n <= 0x1_0000_0001,
            ;
        }
        let ghost before = balances@;
        let lowered = balances[sender] - value as i128;
        balances.set(sender, lowered);
        let raised = balances[receiver] + value as i128;
        balances.set(receiver, raised);
        proof {
            assert forall|m: int| 0 <= m < len implies (#[trigger] balances@[m])
                == expected_balance(n, k + 1, m) by {
                assert(before[m] == expected_balance(n, k as int, m));
            }
        }
        k += 1;
    }
    if level.balance_checks.len() != len {
        return Err(ResultsError::BalanceMismatch);
    }
    let mut j: usize = 0;
    while j < len
        invariant
            j <= len,
            n == len,
            n == ceil_sqrt(transfers as nat) + 1,
            balances@.len() == len,
            level@.balance_checks.len() == len,
            forall|m: int|
                0 <= m < len ==> (#[trigger] balances@[m]) == expected_balance(
                    n,
                    transfers as int,
                    m,
                ),
            forall|m: int|
                0 <= m < j ==> (#[trigger] level@.balance_checks[m]).1 == expected_balance(
                    n,
                    transfers as int,
                    m,
                ),
        decreases len - j,
    {
        assert(level@.balance_checks[j as int].1 == level.balance_checks@[j as int].1);
        if level.balance_checks[j].1 as i128 != balances[j] {
            return Err(ResultsError::BalanceMismatch);
        }
        j += 1;
    }
    Ok(())
}


/// The number of messages in each round of an inbox.
pub open spec fn inbox_sizes(inbox: Seq<Vec<Message>>) -> Seq<int> {
    Seq::new(inbox.len(), |i: int| inbox[i]@.len() as int)
}

/// The checks on one run: its log must hold exactly the one round of the
/// inbox, with the right counts, a time to measure, and the right balances.
pub open spec fn spec_check_run(inbox: Seq<int>, lines: Seq<LineView>, transfers: int) -> Result<
    TransferMetrics,
    ResultsErrorView,
> {
    let accounts = (ceil_sqrt(transfers as nat) + 1) as int;
    match spec_logs_to_levels(lines, transfers as nat) {
        Err(e) => Err(e),
        Ok(levels) => if inbox.len() != levels.len() || levels.len() != EXPECTED_LEVELS {
            Err(
                ResultsErrorView::LevelCount {
                    inbox: inbox.len() as usize,
                    logs: levels.len() as usize,
                },
            )
        } else {
            match spec_check_counts(levels[0], inbox[0], accounts, transfers) {
                Err(e) => Err(e),
                Ok(()) => match spec_transfer_metrics(levels[0], transfers) {
                    Err(e) => Err(e),
                    Ok(metrics) => if balances_match(levels[0], transfers) {
                        Ok(metrics)
                    } else {
                        Err(ResultsErrorView::BalanceMismatch)
                    },
                },
            }
        },
    }
}

/// The checks on one run.
pub fn check_run(inbox: &Vec<Vec<Message>>, logs: Vec<ParsedLogLine>, expected_transfers: usize) -> (res:
    Result<TransferMetrics, ResultsError>)
    ensures
        match res {
            Ok(metrics) => spec_check_run(
                inbox_sizes(inbox@),
                lines_view(logs@),
                expected_transfers as int,
            ) == Ok::<TransferMetrics, ResultsErrorView>(metrics),
            Err(e) => spec_check_run(
                inbox_sizes(inbox@),
                lines_view(logs@),
                expected_transfers as int,
            ) == Err::<TransferMetrics, ResultsErrorView>(e@),
        },
{
    let levels = match logs_to_levels(logs, expected_transfers) {
        Ok(levels) => levels,
        Err(e) => {
            return Err(e);
        },
    };
    if inbox.len() != levels.len() || levels.len() != EXPECTED_LEVELS {
        return Err(ResultsError::LevelCount { inbox: inbox.len(), logs: levels.len() });
    }
    let expected_accounts = accounts_for_transfers(expected_transfers);
    let results = &levels[0];
    assert(levels_view(levels@)[0] == results@);
    match check_counts(results, &inbox[0], expected_accounts, expected_transfers) {
        Ok(()) => {},
        Err(e) => {
            return Err(e);
        },
    }
    let metrics = match check_transfer_metrics(results, expected_transfers) {
        Ok(metrics) => metrics,
        Err(e) => {
            return Err(e);
        },
    };
    match check_balances(results, expected_transfers) {
        Ok(()) => {},
        Err(e) => {
            return Err(e);
        },
    }
    Ok(metrics)
}

/// The views of the logs of several runs.
pub open spec fn runs_view(runs: Seq<Vec<ParsedLogLine>>) -> Seq<Seq<LineView>> {
    Seq::new(runs.len(), |i: int| lines_view(runs[i]@))
}

/// The checks on several runs of one inbox, up to the first that fails.
pub open spec fn spec_handle_results(
    inbox: Seq<int>,
    runs: Seq<Seq<LineView>>,
    transfers: int,
) -> Result<Seq<TransferMetrics>, ResultsErrorView>
    decreases runs.len(),
{
    if runs.len() == 0 {
        Ok(Seq::empty())
    } else {
        match spec_handle_results(inbox, runs.drop_last(), transfers) {
            Err(e) => Err(e),
            Ok(metrics) => match spec_check_run(inbox, runs.last(), transfers) {
                Err(e) => Err(e),
                Ok(last) => Ok(metrics.push(last)),
            },
        }
    }
}

proof fn lemma_results_error_stays(
    inbox: Seq<int>,
    runs: Seq<Seq<LineView>>,
    failed: int,
    transfers: int,
)
    requires
        0 <= failed <= runs.len(),
        spec_handle_results(inbox, runs.subrange(0, failed), transfers) is Err,
    ensures
        spec_handle_results(inbox, runs, transfers) == spec_handle_results(
            inbox,
            runs.subrange(0, failed),
            transfers,
        ),
    decreases runs.len() - failed,
{
    if failed == runs.len() {
        assert(runs.subrange(0, failed) =~= runs);
    } else {
        let shorter = runs.drop_last();
        assert(shorter.subrange(0, failed) =~= runs.subrange(0, failed));
        lemma_results_error_stays(inbox, shorter, failed, transfers);
    }
}

/// Checks the logs of the runs of one inbox against the inbox and the number
/// of transfers it was generated for, and measures each run. The first run
/// that fails a check gives the error.
pub fn handle_results(
    inbox: &Vec<Vec<Message>>,
    all_logs: Vec<Vec<ParsedLogLine>>,
    expected_transfers: usize,
) -> (res: Result<Vec<TransferMetrics>, ResultsError>)
    ensures
        match res {
            Ok(metrics) => spec_handle_results(
                inbox_sizes(inbox@),
                runs_view(all_logs@),
                expected_transfers as int,
            ) == Ok::<Seq<TransferMetrics>, ResultsErrorView>(metrics@),
            Err(e) => spec_handle_results(
                inbox_sizes(inbox@),
                runs_view(all_logs@),
                expected_transfers as int,
            ) == Err::<Seq<TransferMetrics>, ResultsErrorView>(e@),
        },
{
    let ghost given = all_logs@;
    let ghost runs = runs_view(given);
    let ghost sizes = inbox_sizes(inbox@);
    let ghost t = expected_transfers as int;
    let mut all_metrics: Vec<TransferMetrics> = Vec::new();
    assert(runs.subrange(0, 0) =~= Seq::<Seq<LineView>>::empty());
    for logs in iter: all_logs.into_iter()
        invariant
            iter.seq() == given,
            runs == runs_view(given),
            sizes == inbox_sizes(inbox@),
            t == expected_transfers,
            spec_handle_results(sizes, runs.subrange(0, iter.index() as int), t) == Ok::<
                Seq<TransferMetrics>,
                ResultsErrorView,
            >(all_metrics@),
    {
        let ghost done = iter.index() as int;
        proof {
            let longer = runs.subrange(0, done + 1);
            assert(longer.drop_last() =~= runs.subrange(0, done));
            assert(longer.last() == lines_view(logs@));
        }
        match check_run(inbox, logs, expected_transfers) {
            Ok(metrics) => {
                all_metrics.push(metrics);
            },
            Err(e) => {
                proof {
                    lemma_results_error_stays(sizes, runs, done + 1, t);
                }
                return Err(e);
            },
        }
    }
    assert(runs.subrange(0, given.len() as int) =~= runs);
    Ok(all_metrics)
}

} // verus!
