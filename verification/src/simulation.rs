//! The simulation of a bundle: the pending transaction, then ours, and what the
//! two leave of the profit token.
//!
//! The virtual machine runs outside. It is told which transaction to run next
//! and hands back what came of it.
use vstd::arithmetic::power::pow;
use vstd::prelude::*;

use crate::abi::{
    address_in, address_word, balance_from_reply, balance_in, balance_of_call, selector_bytes,
    selector_of, written_address_is_read_back, BALANCE_OF,
};
use crate::address::Address;
use crate::u256::{lemma_bytes_spell_the_number, lemma_last_bytes, U256};

verus! {

/// The most gas that our transaction may use in a simulation.
pub const OUR_GAS_LIMIT: u64 = 2_000_000;

/// The most gas that reading a balance may use.
pub const BALANCE_GAS_LIMIT: u64 = 200_000;

/// A transaction for the virtual machine.
pub struct TxCall {
    pub caller: Address,
    pub to: Address,
    pub data: Vec<u8>,
    pub value: U256,
    pub gas_limit: u64,
    pub gas_price: u128,
    pub nonce: u64,
}

/// The values of a transaction for the virtual machine.
pub ghost struct Call {
    pub caller: Seq<u8>,
    pub to: Seq<u8>,
    pub data: Seq<u8>,
    pub value: nat,
    pub gas_limit: u64,
    pub gas_price: u128,
    pub nonce: u64,
}

impl View for TxCall {
    type V = Call;

    open spec fn view(&self) -> Call {
        Call {
            caller: self.caller@,
            to: self.to@,
            data: self.data@,
            value: self.value@,
            gas_limit: self.gas_limit,
            gas_price: self.gas_price,
            nonce: self.nonce,
        }
    }
}

/// A pending transaction.
pub struct PendingTx {
    pub from: Address,
    pub to: Option<Address>,
    pub input: Vec<u8>,
    pub value: U256,
    pub gas_limit: u64,
    pub gas_price: Option<u128>,
    pub nonce: u64,
}

impl PendingTx {
    /// The pending transaction for the virtual machine. One that calls no
    /// contract calls the zero address there, and one without a gas price pays
    /// none.
    pub open spec fn call(&self) -> Call {
        Call {
            caller: self.from@,
            to: match self.to {
                Some(to) => to@,
                None => Seq::new(20, |i: int| 0u8),
            },
            data: self.input@,
            value: self.value@,
            gas_limit: self.gas_limit,
            gas_price: match self.gas_price {
                Some(price) => price,
                None => 0,
            },
            nonce: self.nonce,
        }
    }

    /// Whether the account of the transaction is past its nonce on the chain. An
    /// account whose nonce could not be fetched is not.
    pub open spec fn already_mined(&self, onchain_nonce: Option<u64>) -> bool {
        match onchain_nonce {
            Some(nonce) => nonce > self.nonce,
            None => false,
        }
    }
}

/// The result of a simulation.
#[derive(Clone, Copy, Debug)]
pub struct SimulationResult {
    pub is_profitable: bool,
    pub expected_profit: U256,
    pub gas_used: u64,
}

/// The values of the result of a simulation.
pub ghost struct Verdict {
    pub is_profitable: bool,
    pub expected_profit: nat,
    pub gas_used: u64,
}

impl View for SimulationResult {
    type V = Verdict;

    open spec fn view(&self) -> Verdict {
        Verdict {
            is_profitable: self.is_profitable,
            expected_profit: self.expected_profit@,
            gas_used: self.gas_used,
        }
    }
}

/// The verdict on a profit.
pub open spec fn verdict(profit: nat, gas_used: u64) -> Verdict {
    Verdict { is_profitable: profit > 0, expected_profit: profit, gas_used }
}

/// What a simulation is about: our transaction, and the token in which its
/// profit is counted.
pub struct SimulationPlan {
    pub my_contract: Address,
    pub my_address: Address,
    pub my_calldata: Vec<u8>,
    pub profit_token: Address,
    pub my_nonce: u64,
}

impl SimulationPlan {
    /// Our transaction for the virtual machine.
    pub open spec fn our_call(&self) -> Call {
        Call {
            caller: self.my_address@,
            to: self.my_contract@,
            data: self.my_calldata@,
            value: 0,
            gas_limit: OUR_GAS_LIMIT,
            gas_price: 0,
            nonce: self.my_nonce,
        }
    }

    /// The transaction that reads our balance of the profit token.
    pub open spec fn balance_call(&self) -> Call {
        Call {
            caller: Seq::new(20, |i: int| 0u8),
            to: self.profit_token@,
            data: selector_bytes(BALANCE_OF) + address_word(self.my_address@),
            value: 0,
            gas_limit: BALANCE_GAS_LIMIT,
            gas_price: 0,
            nonce: 0,
        }
    }
}

/// How far a simulation has come: it waits for the pending transaction, for the
/// balance before ours, for ours, or for the balance after ours.
#[derive(Clone, Copy, Debug)]
pub enum Stage {
    Victim,
    Before,
    Ours { balance_before: U256 },
    After { balance_before: U256, gas_used: u64 },
}

/// The values of how far a simulation has come.
pub ghost enum StageFacts {
    Victim,
    Before,
    Ours { balance_before: nat },
    After { balance_before: nat, gas_used: u64 },
}

impl View for Stage {
    type V = StageFacts;

    open spec fn view(&self) -> StageFacts {
        match *self {
            Stage::Victim => StageFacts::Victim,
            Stage::Before => StageFacts::Before,
            Stage::Ours { balance_before } => StageFacts::Ours { balance_before: balance_before@ },
            Stage::After { balance_before, gas_used } => StageFacts::After {
                balance_before: balance_before@,
                gas_used,
            },
        }
    }
}

/// What came of a transaction.
pub struct Outcome {
    pub success: bool,
    pub gas_used: u64,
    pub output: Vec<u8>,
}

/// What comes next: a transaction to run and whether it changes the state, or the
/// end of the simulation.
pub enum Next {
    Run { call: TxCall, commit: bool, stage: Stage },
    Finish(SimulationResult),
}

/// The values of what comes next.
pub ghost enum Step {
    Run { call: Call, commit: bool, stage: StageFacts },
    Finish(Verdict),
}

impl View for Next {
    type V = Step;

    open spec fn view(&self) -> Step {
        match *self {
            Next::Run { call, commit, stage } => Step::Run { call: call@, commit, stage: stage@ },
            Next::Finish(result) => Step::Finish(result@),
        }
    }
}

impl SimulationPlan {
    /// The first step: the pending transaction, unless the chain has it already.
    pub open spec fn first_step(&self, target: PendingTx, onchain_nonce: Option<u64>) -> Step {
        if target.already_mined(onchain_nonce) {
            Step::Run { call: self.balance_call(), commit: false, stage: StageFacts::Before }
        } else {
            Step::Run { call: target.call(), commit: true, stage: StageFacts::Victim }
        }
    }

    /// The step after a transaction: the simulation ends without profit where the
    /// pending transaction or ours fails, and with what our balance grew by after
    /// the last reading.
    pub open spec fn step_after(&self, stage: StageFacts, outcome: Outcome) -> Step {
        match stage {
            StageFacts::Victim => if outcome.success {
                Step::Run { call: self.balance_call(), commit: false, stage: StageFacts::Before }
            } else {
                Step::Finish(verdict(0, 0))
            },
            StageFacts::Before => Step::Run {
                call: self.our_call(),
                commit: true,
                stage: StageFacts::Ours { balance_before: balance_in(outcome.output@) },
            },
            StageFacts::Ours { balance_before } => if outcome.success {
                Step::Run {
                    call: self.balance_call(),
                    commit: false,
                    stage: StageFacts::After { balance_before, gas_used: outcome.gas_used },
                }
            } else {
                Step::Finish(verdict(0, outcome.gas_used))
            },
            StageFacts::After { balance_before, gas_used } => Step::Finish(
                verdict(gained(balance_before, balance_in(outcome.output@)), gas_used),
            ),
        }
    }

    fn read_balance(&self, stage: Stage) -> (r: Next)
        ensures
            r@ == (Step::Run { call: self.balance_call(), commit: false, stage: stage@ }),
    {
        Next::Run {
            call: TxCall {
                caller: Address::zero(),
                to: self.profit_token,
                data: balance_of_call(&self.my_address),
                value: U256::zero(),
                gas_limit: BALANCE_GAS_LIMIT,
                gas_price: 0,
                nonce: 0,
            },
            commit: false,
            stage,
        }
    }

    /// Starts the simulation, given the nonce of the pending transaction's account
    /// on the chain, where it could be fetched.
    pub fn start(&self, target: &PendingTx, onchain_nonce: Option<u64>) -> (r: Next)
        ensures
            r@ == self.first_step(*target, onchain_nonce),
    {
        let mined = match onchain_nonce {
            Some(nonce) => nonce > target.nonce,
            None => false,
        };
        if mined {
            return self.read_balance(Stage::Before);
        }
        let data = target.input.clone();
        assert(data@ =~= target.input@);
        Next::Run {
            call: TxCall {
                caller: target.from,
                to: match target.to {
                    Some(to) => to,
                    None => Address::zero(),
                },
                data,
                value: target.value,
                gas_limit: target.gas_limit,
                gas_price: match target.gas_price {
                    Some(price) => price,
                    None => 0,
                },
                nonce: target.nonce,
            },
            commit: true,
            stage: Stage::Victim,
        }
    }

    /// Goes on with the simulation after a transaction.
    pub fn next(&self, stage: Stage, outcome: &Outcome) -> (r: Next)
        ensures
            r@ == self.step_after(stage@, *outcome),
    {
        match stage {
            Stage::Victim => {
                if outcome.success {
                    self.read_balance(Stage::Before)
                } else {
                    Next::Finish(
                        SimulationResult {
                            is_profitable: false,
                            expected_profit: U256::zero(),
                            gas_used: 0,
                        },
                    )
                }
            },
            Stage::Before => {
                let balance_before = balance_from_reply(outcome.output.as_slice());
                let data = self.my_calldata.clone();
                assert(data@ =~= self.my_calldata@);
                Next::Run {
                    call: TxCall {
                        caller: self.my_address,
                        to: self.my_contract,
                        data,
                        value: U256::zero(),
                        gas_limit: OUR_GAS_LIMIT,
                        gas_price: 0,
                        nonce: self.my_nonce,
                    },
                    commit: true,
                    stage: Stage::Ours { balance_before },
                }
            },
            Stage::Ours { balance_before } => {
                if outcome.success {
                    self.read_balance(Stage::After { balance_before, gas_used: outcome.gas_used })
                } else {
                    Next::Finish(
                        SimulationResult {
                            is_profitable: false,
                            expected_profit: U256::zero(),
                            gas_used: outcome.gas_used,
                        },
                    )
                }
            },
            Stage::After { balance_before, gas_used } => {
                let balance_after = balance_from_reply(outcome.output.as_slice());
                let expected_profit = balance_after.saturating_sub(balance_before);
                Next::Finish(
                    SimulationResult {
                        is_profitable: !expected_profit.is_zero(),
                        expected_profit,
                        gas_used,
                    },
                )
            },
        }
    }

    /// Where a simulation ends that goes on from a step with the given outcomes,
    /// one for each transaction; nothing where they run out before its end.
    pub open spec fn run_from(&self, step: Step, outcomes: Seq<Outcome>) -> Option<Verdict>
        decreases outcomes.len(),
    {
        match step {
            Step::Finish(result) => Some(result),
            Step::Run { stage, .. } => if outcomes.len() == 0 {
                None
            } else {
                self.run_from(
                    self.step_after(stage, outcomes.first()),
                    outcomes.drop_first(),
                )
            },
        }
    }
}

/// What a balance grew by; zero where it did not grow.
pub open spec fn gained(before: nat, after: nat) -> nat {
    if before <= after {
        (after - before) as nat
    } else {
        0
    }
}

/// A simulation ends after four transactions at most, and after three where the
/// chain has the pending transaction already. It finds a profit exactly where both
/// transactions succeed and our balance grows, and that growth is the profit.
pub proof fn profit_is_what_our_balance_gains(
    plan: SimulationPlan,
    target: PendingTx,
    onchain_nonce: Option<u64>,
    victim: Outcome,
    before: Outcome,
    ours: Outcome,
    after: Outcome,
)
    ensures
        ({
            let mined = target.already_mined(onchain_nonce);
            let outcomes = if mined {
                seq![before, ours, after]
            } else {
                seq![victim, before, ours, after]
            };
            let end = plan.run_from(plan.first_step(target, onchain_nonce), outcomes);
            end == Some(
                if !mined && !victim.success {
                    verdict(0, 0)
                } else if !ours.success {
                    verdict(0, ours.gas_used)
                } else {
                    verdict(
                        gained(balance_in(before.output@), balance_in(after.output@)),
                        ours.gas_used,
                    )
                },
            )
        }),
{
    reveal_with_fuel(SimulationPlan::run_from, 5);
    let tail = seq![before, ours, after];
    assert(seq![victim, before, ours, after].drop_first() =~= tail);
    assert(tail.drop_first() =~= seq![ours, after]);
    assert(seq![ours, after].drop_first() =~= seq![after]);
}

/// The pending transaction counts as mined exactly where its account is past its nonce
/// on the chain; at the nonce itself, or where the chain did not answer, it does not.
pub proof fn mined_means_past_the_nonce(target: PendingTx, nonce: u64)
    ensures
        target.already_mined(Some(nonce)) <==> nonce >= target.nonce + 1,
        !target.already_mined(Some(target.nonce)),
        !target.already_mined(None),
{
}

/// The pending transaction runs first and changes the state, as it was sent: from its
/// sender to its target, with its input, value, gas and nonce. Where it is mined
/// already, our balance is read first instead, which changes nothing.
pub proof fn pending_transaction_runs_as_sent(
    plan: SimulationPlan,
    target: PendingTx,
    nonce: Option<u64>,
)
    ensures
        plan.first_step(target, nonce) matches Step::Run { call, commit, stage } && {
            let mined = nonce matches Some(n) && n > target.nonce;
            &&& commit <==> !mined
            &&& !mined ==> {
                &&& stage == StageFacts::Victim
                &&& call.caller == target.from@
                &&& target.to matches Some(to) ==> call.to == to@
                &&& target.to is None ==> call.to.len() == 20 && forall|i: int|
                    0 <= i < 20 ==> call.to[i] == 0
                &&& call.data == target.input@
                &&& call.value == target.value@
                &&& call.gas_limit == target.gas_limit
                &&& target.gas_price matches Some(price) ==> call.gas_price == price
                &&& target.gas_price is None ==> call.gas_price == 0
                &&& call.nonce == target.nonce
            }
            &&& mined ==> stage == StageFacts::Before && call.to == plan.profit_token@
        },
{
}

/// Our balance is read by asking the profit token for the balance of our account, at
/// no price and with at most 200,000 units of gas.
pub proof fn our_balance_is_asked_for(plan: SimulationPlan)
    ensures
        ({
            let call = plan.balance_call();
            &&& call.to == plan.profit_token@
            &&& call.data.len() == 36
            &&& selector_of(call.data) == 0x70a08231
            &&& address_in(call.data.skip(4)) == Some(plan.my_address@)
            &&& call.value == 0 && call.gas_price == 0 && call.nonce == 0
            &&& call.gas_limit == 200_000
            &&& call.caller.len() == 20 && forall|i: int| 0 <= i < 20 ==> call.caller[i] == 0
        }),
{
    let call = plan.balance_call();
    lemma_last_bytes(BALANCE_OF as nat, 4, 4);
    assert(call.data.take(4) =~= selector_bytes(BALANCE_OF));
    assert(call.data.skip(4) =~= address_word(plan.my_address@));
    written_address_is_read_back(plan.my_address);
    assert(pow(256, 4) == 0x1_0000_0000) by {
        reveal_with_fuel(pow, 5);
    }
    lemma_bytes_spell_the_number(BALANCE_OF as nat, 4);
}

/// After a pending transaction that succeeds our balance is read, then our transaction
/// runs and changes the state, and where it succeeds our balance is read again: from
/// our account to our contract, with the call that was written, no value, our nonce,
/// at most 2,000,000 units of gas and no price. Readings change nothing.
pub proof fn our_transaction_runs_between_two_readings(
    plan: SimulationPlan,
    outcome: Outcome,
    balance: nat,
)
    ensures
        outcome.success ==> (plan.step_after(StageFacts::Victim, outcome) matches Step::Run {
            call,
            commit,
            stage,
        } && call == plan.balance_call() && !commit && stage == StageFacts::Before),
        plan.step_after(StageFacts::Before, outcome) matches Step::Run { call, commit, stage } && {
            &&& commit
            &&& stage == StageFacts::Ours { balance_before: balance_in(outcome.output@) }
            &&& call.caller == plan.my_address@ && call.to == plan.my_contract@
            &&& call.data == plan.my_calldata@
            &&& call.value == 0 && call.gas_price == 0
            &&& call.gas_limit == 2_000_000
            &&& call.nonce == plan.my_nonce
        },
        outcome.success ==> (plan.step_after(
            StageFacts::Ours { balance_before: balance },
            outcome,
        ) matches Step::Run { call, commit, stage } && call == plan.balance_call() && !commit
            && stage == StageFacts::After { balance_before: balance, gas_used: outcome.gas_used }),
{
}

/// A simulation in which a transaction fails ends without a profit: at no gas where
/// the pending one fails, at the gas that was used where ours does. One that ends with
/// the second reading is profitable exactly where the balance grew, and its profit is
/// the growth: the balance before and the profit make up the balance after.
pub proof fn verdict_tells_the_growth(
    plan: SimulationPlan,
    outcome: Outcome,
    balance: nat,
    gas_used: u64,
)
    ensures
        !outcome.success ==> (plan.step_after(StageFacts::Victim, outcome) matches Step::Finish(v)
            && !v.is_profitable && v.expected_profit == 0 && v.gas_used == 0),
        !outcome.success ==> (plan.step_after(
            StageFacts::Ours { balance_before: balance },
            outcome,
        ) matches Step::Finish(v) && !v.is_profitable && v.expected_profit == 0 && v.gas_used
            == outcome.gas_used),
        plan.step_after(
            StageFacts::After { balance_before: balance, gas_used },
            outcome,
        ) matches Step::Finish(v) && {
            let after = balance_in(outcome.output@);
            &&& v.is_profitable <==> balance < after
            &&& balance <= after ==> balance + v.expected_profit == after
            &&& balance > after ==> v.expected_profit == 0
            &&& v.gas_used == gas_used
        },
{
}

/// A simulation that `SimulationPlan::start` and `SimulationPlan::next` lead to its end
/// finds the growth of our balance between the reading before our transaction and the
/// one after it.
pub proof fn led_simulation_finds_the_growth(
    plan: SimulationPlan,
    before: Outcome,
    ours: Outcome,
    after: Outcome,
    stage1: Stage,
    stage2: Stage,
    call1: TxCall,
    call2: TxCall,
    commit1: bool,
    commit2: bool,
    result: SimulationResult,
)
    requires
        ours.success,
        call_ensures(
            SimulationPlan::next,
            (&plan, Stage::Before, &before),
            (Next::Run { call: call1, commit: commit1, stage: stage1 }),
        ),
        call_ensures(
            SimulationPlan::next,
            (&plan, stage1, &ours),
            (Next::Run { call: call2, commit: commit2, stage: stage2 }),
        ),
        call_ensures(SimulationPlan::next, (&plan, stage2, &after), Next::Finish(result)),
    ensures
        commit1 && !commit2,
        call1.caller@ == plan.my_address@ && call1.to@ == plan.my_contract@,
        call1.data@ == plan.my_calldata@ && call1.nonce == plan.my_nonce,
        call1.value@ == 0 && call1.gas_price == 0 && call1.gas_limit == 2_000_000,
        call2.to@ == plan.profit_token@,
        ({
            let (x, y) = (balance_in(before.output@), balance_in(after.output@));
            &&& result.is_profitable <==> x < y
            &&& x <= y ==> x + result.expected_profit@ == y
            &&& x > y ==> result.expected_profit@ == 0
            &&& result.gas_used == ours.gas_used
        }),
{
    our_transaction_runs_between_two_readings(plan, before, 0);
    our_transaction_runs_between_two_readings(plan, ours, balance_in(before.output@));
    verdict_tells_the_growth(plan, after, balance_in(before.output@), ours.gas_used);
}

/// A simulation that `SimulationPlan::start` begins runs the pending transaction first,
/// as it was sent, unless its account is past its nonce on the chain.
pub proof fn started_simulation_runs_the_pending_transaction(
    plan: SimulationPlan,
    target: PendingTx,
    nonce: Option<u64>,
    call: TxCall,
    commit: bool,
    stage: Stage,
)
    requires
        call_ensures(
            SimulationPlan::start,
            (&plan, &target, nonce),
            (Next::Run { call, commit, stage }),
        ),
    ensures
        commit <==> !(nonce matches Some(n) && n > target.nonce),
        commit ==> {
            &&& stage is Victim
            &&& call.caller@ == target.from@
            &&& target.to matches Some(to) ==> call.to@ == to@
            &&& call.data@ == target.input@ && call.value@ == target.value@
            &&& call.gas_limit == target.gas_limit && call.nonce == target.nonce
            &&& target.gas_price matches Some(price) ==> call.gas_price == price
        },
        !commit ==> stage is Before && call.to@ == plan.profit_token@,
{
    pending_transaction_runs_as_sent(plan, target, nonce);
}

} // verus!
