use backrun::abi::balance_of_call;
use backrun::address::Address;
use backrun::simulation::{
    Next, Outcome, PendingTx, SimulationPlan, SimulationResult, Stage, TxCall,
};
use backrun::u256::U256;

fn addr(b: u8) -> Address {
    Address { bytes: [b; 20] }
}

fn plan() -> SimulationPlan {
    SimulationPlan {
        my_contract: addr(1),
        my_address: addr(2),
        my_calldata: vec![1, 2, 3],
        profit_token: addr(3),
        my_nonce: 44,
    }
}

fn target() -> PendingTx {
    PendingTx {
        from: addr(4),
        to: Some(addr(5)),
        input: vec![9, 9],
        value: U256::from_u64(6),
        gas_limit: 300_000,
        gas_price: Some(77),
        nonce: 8,
    }
}

fn outcome(success: bool, gas_used: u64, balance: u64) -> Outcome {
    let mut output = vec![0u8; 24];
    output.extend(balance.to_be_bytes());
    Outcome { success, gas_used, output }
}

fn running(next: Next) -> (TxCall, bool, Stage) {
    match next {
        Next::Run { call, commit, stage } => (call, commit, stage),
        Next::Finish(_) => panic!("the simulation has ended"),
    }
}

fn finished(next: Next) -> SimulationResult {
    match next {
        Next::Run { .. } => panic!("the simulation has not ended"),
        Next::Finish(result) => result,
    }
}

#[test]
fn pending_transaction_runs_first() {
    let (call, commit, stage) = running(plan().start(&target(), Some(8)));
    assert!(commit);
    assert!(matches!(stage, Stage::Victim));
    assert_eq!(call.caller.bytes, addr(4).bytes);
    assert_eq!(call.to.bytes, addr(5).bytes);
    assert_eq!(call.data, vec![9, 9]);
    assert_eq!(call.value, U256::from_u64(6));
    assert_eq!((call.gas_limit, call.gas_price, call.nonce), (300_000, 77, 8));
    let mut creation = target();
    creation.to = None;
    creation.gas_price = None;
    let (call, _, _) = running(plan().start(&creation, None));
    assert_eq!(call.to.bytes, [0u8; 20]);
    assert_eq!(call.gas_price, 0);
}

#[test]
fn mined_transaction_is_not_run_again() {
    let (call, commit, stage) = running(plan().start(&target(), Some(9)));
    assert!(!commit);
    assert!(matches!(stage, Stage::Before));
    assert_eq!(call.to.bytes, addr(3).bytes);
    assert_eq!(call.caller.bytes, [0u8; 20]);
    assert_eq!(call.data, balance_of_call(&addr(2)));
    assert_eq!((call.gas_limit, call.gas_price, call.nonce), (200_000, 0, 0));
}

#[test]
fn profit_is_the_growth_of_the_balance() {
    let p = plan();
    let (_, _, stage) = running(p.start(&target(), None));
    let (_, commit, stage) = running(p.next(stage, &outcome(true, 1, 0)));
    assert!(!commit);
    let (ours, commit, stage) = running(p.next(stage, &outcome(true, 1, 500)));
    assert!(commit);
    assert_eq!(ours.caller.bytes, addr(2).bytes);
    assert_eq!(ours.to.bytes, addr(1).bytes);
    assert_eq!(ours.data, vec![1, 2, 3]);
    assert_eq!(ours.value, U256::zero());
    assert_eq!((ours.gas_limit, ours.gas_price, ours.nonce), (2_000_000, 0, 44));
    let (_, commit, stage) = running(p.next(stage, &outcome(true, 250_000, 0)));
    assert!(!commit);
    let result = finished(p.next(stage, &outcome(true, 2, 750)));
    assert!(result.is_profitable);
    assert_eq!(result.expected_profit, U256::from_u64(250));
    assert_eq!(result.gas_used, 250_000);
}

#[test]
fn shrinking_balance_is_no_profit() {
    let after = Stage::After { balance_before: U256::from_u64(500), gas_used: 7 };
    let result = finished(plan().next(after, &outcome(true, 2, 499)));
    assert!(!result.is_profitable);
    assert_eq!(result.expected_profit, U256::zero());
    assert_eq!(result.gas_used, 7);
    let unreadable = Outcome { success: true, gas_used: 1, output: vec![1; 31] };
    assert!(!finished(plan().next(after, &unreadable)).is_profitable);
}

#[test]
fn failing_transactions_end_the_simulation() {
    let victim = finished(plan().next(Stage::Victim, &outcome(false, 21_000, 5)));
    assert!(!victim.is_profitable);
    assert_eq!(victim.gas_used, 0);
    let ours = Stage::Ours { balance_before: U256::zero() };
    let result = finished(plan().next(ours, &outcome(false, 99_000, 5)));
    assert!(!result.is_profitable);
    assert_eq!(result.expected_profit, U256::zero());
    assert_eq!(result.gas_used, 99_000);
}
