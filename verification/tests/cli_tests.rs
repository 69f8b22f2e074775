//! Tests of the command-surface types.

use starling_sync::cli::{Args, Command};

#[test]
fn update_command_carries_its_day_count() {
    let args = Args { command: Command::Update { days: 7 } };
    match args.command {
        Command::Update { days } => assert_eq!(days, 7),
        Command::Balances => panic!("wrong command"),
    }
}

#[test]
fn balances_command_round_trips() {
    let args = Args { command: Command::Balances };
    assert_eq!(args.command, Command::Balances);
}
