use rollup_kernel::data_interface::LogType;
use rollup_kernel::generate::{accounts_for_transfers, handle_generate, Message};
use rollup_kernel::results::{
    check_balances, check_counts, check_run, check_transfer_metrics, handle_results,
    logs_to_levels, Level, ParsedLogLine, ResultsError, TransferMetrics,
};

const ROLLUP: &str = "sr1UNDWPUYVeomgG15wn5jSw689EJ4RNnVQa";

fn line(elapsed: u128, log_type: LogType) -> ParsedLogLine {
    ParsedLogLine { elapsed, log_type }
}

fn word(n: u64) -> Vec<u8> {
    let mut word = vec![0u8; 24];
    word.extend_from_slice(&n.to_be_bytes());
    word
}

fn executed(elapsed: u128, n: u64) -> ParsedLogLine {
    line(elapsed, LogType::Execute(word(n)))
}

/// The balances that the transfers lead to, by the strategy of the generator.
fn balances_after(transfers: usize) -> Vec<u64> {
    let len = accounts_for_transfers(transfers);
    let mut balances = vec![len as u64 + 1; len];
    let mut i = 0;
    'outer: for token_id in 0..len {
        for (from, amount) in (token_id..(token_id + len)).zip(1..len) {
            if i == transfers {
                break 'outer;
            }
            let value = (len - amount) as u64;
            balances[from % len] -= value;
            balances[(from + 1) % len] += value;
            i += 1;
        }
    }
    balances
}

/// The log of a run in which everything went well.
fn good_log(transfers: usize) -> Vec<ParsedLogLine> {
    let accounts = accounts_for_transfers(transfers);
    let mut log = vec![
        line(1, LogType::StartOfLevel),
        line(2, LogType::Info("level info".to_string())),
        line(3, LogType::Deploy),
    ];
    let mut clock = 10;
    for _ in 0..accounts {
        clock += 10;
        log.push(line(clock, LogType::Execute(Vec::new())));
    }
    for _ in 0..transfers {
        clock += 100;
        log.push(executed(clock, 1));
    }
    for balance in balances_after(transfers) {
        clock += 10;
        log.push(executed(clock, balance));
    }
    log.push(line(clock + 1, LogType::EndOfLevel));
    log
}

fn inbox(transfers: usize) -> Vec<Vec<Message>> {
    handle_generate(ROLLUP, transfers, &[0x60, 0x00]).unwrap()
}

fn error_of<T: std::fmt::Debug>(res: Result<T, ResultsError>) -> String {
    format!("{:?}", res.unwrap_err())
}

#[test]
fn a_good_log_is_sorted_into_one_round() {
    let levels = logs_to_levels(good_log(5), 5).unwrap();
    assert_eq!(levels.len(), 1);
    let level = &levels[0];
    assert_eq!(level.deployments.len(), 1);
    assert_eq!(level.mints.len(), 4);
    assert_eq!(level.transfers.len(), 5);
    assert_eq!(level.balance_checks.len(), 4);
    assert_eq!(level.deployments[0].elapsed, 3);
    assert_eq!(level.mints[3].elapsed, 50);
    assert_eq!(level.transfers[4].elapsed, 550);
    let balances: Vec<u64> = level.balance_checks.iter().map(|check| check.1 as u64).collect();
    assert_eq!(balances, balances_after(5));
}

#[test]
fn an_empty_log_holds_no_round() {
    assert!(logs_to_levels(Vec::new(), 3).unwrap().is_empty());
    assert!(logs_to_levels(vec![line(1, LogType::Info("x".into()))], 3).unwrap().is_empty());
}

#[test]
fn rounds_are_closed_by_their_end() {
    let log = vec![
        line(1, LogType::StartOfLevel),
        line(2, LogType::EndOfLevel),
        line(3, LogType::StartOfLevel),
        line(4, LogType::Deploy),
        line(5, LogType::EndOfLevel),
    ];
    let levels = logs_to_levels(log, 0).unwrap();
    assert_eq!(levels.len(), 2);
    assert!(levels[0].is_empty());
    assert_eq!(levels[1].deployments.len(), 1);
}

#[test]
fn a_round_must_start_at_its_start() {
    let log = vec![line(1, LogType::Deploy), line(2, LogType::StartOfLevel)];
    assert_eq!(error_of(logs_to_levels(log, 0)), "StartOfLevelNotAtStart");
}

#[test]
fn a_log_must_end_between_rounds() {
    let log = vec![line(1, LogType::StartOfLevel), line(2, LogType::Deploy)];
    assert_eq!(error_of(logs_to_levels(log, 0)), "MissingEndOfLevel");
}

#[test]
fn a_logged_error_fails_the_run() {
    let log = vec![line(1, LogType::StartOfLevel), line(2, LogType::Error("boom".into()))];
    assert_eq!(error_of(logs_to_levels(log, 0)), "Logged(\"boom\")");
}

#[test]
fn a_transfer_must_return_true() {
    // One transfer, two accounts: the third execution is the transfer.
    let mut log = vec![executed(1, 0), executed(2, 0), executed(3, 0)];
    assert_eq!(error_of(logs_to_levels(log, 1)), "TransferFailed");
    log = vec![executed(1, 0), executed(2, 0), line(3, LogType::Execute(vec![1, 2, 3]))];
    assert_eq!(error_of(logs_to_levels(log, 1)), "InvalidTransferResult");
    log = vec![executed(1, 0), executed(2, 0), line(3, LogType::Execute(Vec::new()))];
    assert_eq!(error_of(logs_to_levels(log, 1)), "InvalidTransferResult");
    log = vec![executed(1, 0), executed(2, 0), executed(3, 1), line(4, LogType::EndOfLevel)];
    assert_eq!(logs_to_levels(log, 1).unwrap()[0].transfers.len(), 1);
}

#[test]
fn a_balance_must_be_a_number_that_fits() {
    // No transfers, one account: the second execution is the balance query.
    let mut log = vec![executed(1, 0), line(2, LogType::Execute(vec![7; 5]))];
    assert_eq!(error_of(logs_to_levels(log, 0)), "InvalidBalance");
    let mut huge = vec![0u8; 32];
    huge[0] = 1;
    log = vec![executed(1, 0), line(2, LogType::Execute(huge))];
    assert_eq!(error_of(logs_to_levels(log, 0)), "BalanceTooLarge");
    log = vec![executed(1, 0), executed(2, 77), line(3, LogType::EndOfLevel)];
    assert_eq!(logs_to_levels(log, 0).unwrap()[0].balance_checks[0].1, 77);
}

#[test]
fn more_executions_than_expected_fail_the_run() {
    let log = vec![executed(1, 0), executed(2, 2), executed(3, 0)];
    assert_eq!(error_of(logs_to_levels(log, 0)), "TooManyTransactions");
}

#[test]
fn the_counts_of_a_round_are_checked_in_order() {
    let messages = inbox(5).remove(0);
    let level = logs_to_levels(good_log(5), 5).unwrap().remove(0);
    assert!(check_counts(&level, &messages, 4, 5).is_ok());
    let mut more = messages.clone();
    more.push(Message { external: vec![1] });
    assert!(check_counts(&level, &more, 4, 5).is_ok());

    assert_eq!(
        error_of(check_counts(&level, &messages[1..].to_vec(), 4, 5)),
        "TooFewMessages { needed: 14, found: 13 }"
    );
    assert_eq!(
        error_of(check_counts(&level, &messages, 3, 5)),
        "MintCount { expected: 3, found: 4 }"
    );
    assert_eq!(
        error_of(check_counts(&level, &messages, 4, 4)),
        "TransferCount { expected: 4, found: 5 }"
    );

    let mut level = level;
    level.balance_checks.pop();
    assert_eq!(
        error_of(check_counts(&level, &messages, 4, 5)),
        "BalanceCheckCount { expected: 4, found: 3 }"
    );
    level.deployments.clear();
    assert_eq!(error_of(check_counts(&level, &messages, 4, 5)), "MissingDeployment");
}

#[test]
fn the_time_runs_from_the_last_mint_to_the_last_transfer() {
    let level = logs_to_levels(good_log(5), 5).unwrap().remove(0);
    assert_eq!(
        check_transfer_metrics(&level, 5).unwrap(),
        TransferMetrics { transfers: 5, duration: 500 }
    );
    assert_eq!(
        error_of(check_transfer_metrics(&level, 6)),
        "TransferCount { expected: 6, found: 5 }"
    );
}

#[test]
fn there_must_be_something_to_measure() {
    assert_eq!(error_of(check_transfer_metrics(&Level::new(), 0)), "NothingToMeasure");
    let mut level = Level::new();
    level.transfers.push(executed(5, 1));
    assert_eq!(error_of(check_transfer_metrics(&level, 1)), "NothingToMeasure");
    level.mints.push(executed(9, 1));
    assert_eq!(error_of(check_transfer_metrics(&level, 1)), "TimeWentBackwards");
}

#[test]
fn the_balances_must_be_what_the_transfers_lead_to() {
    for transfers in [0usize, 1, 2, 5, 6, 12, 13, 40] {
        let level = logs_to_levels(good_log(transfers), transfers).unwrap().remove(0);
        assert!(check_balances(&level, transfers).is_ok(), "transfers {}", transfers);
    }
    let mut level = logs_to_levels(good_log(5), 5).unwrap().remove(0);
    level.balance_checks[2].1 += 1;
    assert_eq!(error_of(check_balances(&level, 5)), "BalanceMismatch");
    level.balance_checks[2].1 -= 1;
    level.balance_checks.pop();
    assert_eq!(error_of(check_balances(&level, 5)), "BalanceMismatch");
}

#[test]
fn the_expected_balances_follow_the_chains_of_transfers() {
    // Four accounts with five tokens each. The first chain moves 3, 2, 1
    // tokens from account 0 on; the second starts at account 1 and is cut
    // after two steps.
    let mut level = Level::new();
    for (i, balance) in [2usize, 3, 7, 8].into_iter().enumerate() {
        level.balance_checks.push((executed(i as u128, balance as u64), balance));
    }
    assert!(check_balances(&level, 5).is_ok());
    assert_eq!(error_of(check_balances(&level, 4)), "BalanceMismatch");
    assert_eq!(error_of(check_balances(&level, 6)), "BalanceMismatch");
}

#[test]
fn a_good_run_is_measured() {
    assert_eq!(
        check_run(&inbox(5), good_log(5), 5).unwrap(),
        TransferMetrics { transfers: 5, duration: 500 }
    );
}

#[test]
fn the_log_must_hold_the_one_round_of_the_inbox() {
    let mut two_rounds = good_log(5);
    two_rounds.push(line(9000, LogType::StartOfLevel));
    two_rounds.push(line(9001, LogType::EndOfLevel));
    assert_eq!(
        error_of(check_run(&inbox(5), two_rounds, 5)),
        "LevelCount { inbox: 1, logs: 2 }"
    );
    assert_eq!(
        error_of(check_run(&Vec::new(), Vec::new(), 5)),
        "LevelCount { inbox: 0, logs: 0 }"
    );
}

#[test]
fn several_runs_are_measured_in_order() {
    let mut slow = good_log(5);
    for line in slow.iter_mut() {
        line.elapsed *= 2;
    }
    let metrics = handle_results(&inbox(5), vec![good_log(5), slow], 5).unwrap();
    assert_eq!(
        metrics,
        vec![
            TransferMetrics { transfers: 5, duration: 500 },
            TransferMetrics { transfers: 5, duration: 1000 }
        ]
    );
    assert!(handle_results(&inbox(5), Vec::new(), 5).unwrap().is_empty());
}

#[test]
fn the_first_bad_run_fails_them_all() {
    let mut bad = good_log(5);
    bad.insert(4, line(4, LogType::Error("out of gas".into())));
    assert_eq!(
        error_of(handle_results(&inbox(5), vec![good_log(5), bad, Vec::new()], 5)),
        "Logged(\"out of gas\")"
    );
}
