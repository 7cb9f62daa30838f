//! The log of submitted trades and what became of them.
use vstd::prelude::*;

use crate::address::TxHash;
use crate::clock::{now_unix, reading};
use crate::table::Table;
use crate::text::{decimal, hex_bytes, lemma_decimal_round_trip};
use crate::u256::{
    lemma_below_modulus, lemma_decimal_number, modulus, number_in, saturated,
    written_number_is_read_back, U256,
};

verus! {

broadcast use vstd::string::group_string_axioms;

/// Where a trade stands.
#[derive(Clone, Copy, Debug, PartialEq, Eq, Structural)]
pub enum TradeStatus {
    Submitted,
    Won,
    Lost,
}

/// Why a trade was lost.
#[derive(Clone, Copy, Debug, PartialEq, Eq, Structural)]
pub enum LossReason {
    /// No block took it in.
    NotIncluded,
    /// A block took it in and it failed.
    Reverted,
}

/// A trade: what it promised when it was submitted, and what came of it.
pub struct TradeRecord {
    /// The hash of our transaction.
    pub tx_hash: String,
    /// The hash of the transaction that it follows.
    pub victim_tx_hash: String,
    /// When it was submitted, in seconds since the start of 1970.
    pub timestamp: u64,
    /// The profit of the simulation, in the smallest unit of the token.
    pub expected_profit_wei: String,
    /// What its gas was expected to cost when it was submitted, by the base fee alone.
    pub expected_gas_cost_wei: String,
    /// The gas that it used, once a block took it in.
    pub actual_gas_used: Option<u64>,
    /// What that gas cost, by the price on the receipt.
    pub actual_gas_cost_wei: Option<String>,
    /// The profit less what the gas cost, once the outcome is known.
    pub actual_net_profit_wei: Option<String>,
    /// How far it got.
    pub status: TradeStatus,
    /// Why it was lost, where it was.
    pub loss_reason: Option<LossReason>,
    /// The exchange that the followed swap goes through.
    pub dex1: Option<String>,
    /// The other exchange of the arbitrage.
    pub dex2: Option<String>,
    /// How many builders it was sent to.
    pub builder_count: Option<u32>,
}

/// The trades, by the hash of their transaction.
pub type TradeLog = Table<TxHash, TradeRecord>;

/// The values of a trade.
pub ghost struct Trade {
    pub tx_hash: Seq<char>,
    pub victim_tx_hash: Seq<char>,
    pub timestamp: u64,
    pub expected_profit_wei: Seq<char>,
    pub expected_gas_cost_wei: Seq<char>,
    pub actual_gas_used: Option<u64>,
    pub actual_gas_cost_wei: Option<Seq<char>>,
    pub actual_net_profit_wei: Option<Seq<char>>,
    pub status: TradeStatus,
    pub loss_reason: Option<LossReason>,
    pub dex1: Option<Seq<char>>,
    pub dex2: Option<Seq<char>>,
    pub builder_count: Option<u32>,
}

/// The characters of an optional text.
pub open spec fn optional_text(x: Option<String>) -> Option<Seq<char>> {
    match x {
        Some(s) => Some(s@),
        None => None,
    }
}

impl View for TradeRecord {
    type V = Trade;

    open spec fn view(&self) -> Trade {
        Trade {
            tx_hash: self.tx_hash@,
            victim_tx_hash: self.victim_tx_hash@,
            timestamp: self.timestamp,
            expected_profit_wei: self.expected_profit_wei@,
            expected_gas_cost_wei: self.expected_gas_cost_wei@,
            actual_gas_used: self.actual_gas_used,
            actual_gas_cost_wei: optional_text(self.actual_gas_cost_wei),
            actual_net_profit_wei: optional_text(self.actual_net_profit_wei),
            status: self.status,
            loss_reason: self.loss_reason,
            dex1: optional_text(self.dex1),
            dex2: optional_text(self.dex2),
            builder_count: self.builder_count,
        }
    }
}

/// The trades of a log.
pub open spec fn trades(log: Map<Seq<u8>, TradeRecord>) -> Map<Seq<u8>, Trade> {
    log.map_values(|record: TradeRecord| record@)
}

/// The text of a transaction hash.
pub open spec fn hash_text(hash: Seq<u8>) -> Seq<char> {
    seq!['0', 'x'] + hex_bytes(hash)
}

fn copy_text(x: &Option<String>) -> (r: Option<String>)
    ensures
        optional_text(r) == optional_text(*x),
{
    match x {
        Some(s) => Some(s.clone()),
        None => None,
    }
}

impl TradeRecord {
    /// A copy of the trade.
    pub fn copy(&self) -> (r: TradeRecord)
        ensures
            r@ == self@,
    {
        TradeRecord {
            tx_hash: self.tx_hash.clone(),
            victim_tx_hash: self.victim_tx_hash.clone(),
            timestamp: self.timestamp,
            expected_profit_wei: self.expected_profit_wei.clone(),
            expected_gas_cost_wei: self.expected_gas_cost_wei.clone(),
            actual_gas_used: self.actual_gas_used,
            actual_gas_cost_wei: copy_text(&self.actual_gas_cost_wei),
            actual_net_profit_wei: copy_text(&self.actual_net_profit_wei),
            status: self.status,
            loss_reason: self.loss_reason,
            dex1: copy_text(&self.dex1),
            dex2: copy_text(&self.dex2),
            builder_count: self.builder_count,
        }
    }
}

/// A trade that was submitted just now: nothing came of it yet.
pub open spec fn submitted(
    timestamp: u64,
    tx_hash: Seq<u8>,
    victim_tx_hash: Seq<u8>,
    expected_profit: nat,
    expected_gas_cost: nat,
    dex1: Seq<char>,
    dex2: Seq<char>,
    builder_count: u32,
) -> Trade {
    Trade {
        tx_hash: hash_text(tx_hash),
        victim_tx_hash: hash_text(victim_tx_hash),
        timestamp,
        expected_profit_wei: decimal(expected_profit),
        expected_gas_cost_wei: decimal(expected_gas_cost),
        actual_gas_used: None,
        actual_gas_cost_wei: None,
        actual_net_profit_wei: None,
        status: TradeStatus::Submitted,
        loss_reason: None,
        dex1: Some(dex1),
        dex2: Some(dex2),
        builder_count: Some(builder_count),
    }
}

/// Makes the record of a trade that is submitted at a given time.
pub fn submitted_trade(
    timestamp: u64,
    tx_hash: TxHash,
    victim_tx_hash: TxHash,
    expected_profit: U256,
    expected_gas_cost: U256,
    dex1: &str,
    dex2: &str,
    builder_count: u32,
) -> (r: TradeRecord)
    ensures
        r@ == submitted(
            timestamp,
            tx_hash@,
            victim_tx_hash@,
            expected_profit@,
            expected_gas_cost@,
            dex1@,
            dex2@,
            builder_count,
        ),
{
    TradeRecord {
        tx_hash: tx_hash.to_text(),
        victim_tx_hash: victim_tx_hash.to_text(),
        timestamp,
        expected_profit_wei: expected_profit.to_text(),
        expected_gas_cost_wei: expected_gas_cost.to_text(),
        actual_gas_used: None,
        actual_gas_cost_wei: None,
        actual_net_profit_wei: None,
        status: TradeStatus::Submitted,
        loss_reason: None,
        dex1: Some(dex1.to_owned()),
        dex2: Some(dex2.to_owned()),
        builder_count: Some(builder_count),
    }
}

/// Enters a trade into the log at the time at which it is submitted, which the
/// system clock tells.
pub fn record_submitted_trade(
    log: &mut TradeLog,
    tx_hash: TxHash,
    victim_tx_hash: TxHash,
    expected_profit: U256,
    expected_gas_cost: U256,
    dex1: &str,
    dex2: &str,
    builder_count: u32,
)
    ensures
        exists|timestamp: u64|
            reading(timestamp) && trades(final(log)@) == trades(old(log)@).insert(
                tx_hash@,
                #[trigger] submitted(
                    timestamp,
                    tx_hash@,
                    victim_tx_hash@,
                    expected_profit@,
                    expected_gas_cost@,
                    dex1@,
                    dex2@,
                    builder_count,
                ),
            ),
{
    let ghost before = trades(log@);
    let record = submitted_trade(
        now_unix(),
        tx_hash,
        victim_tx_hash,
        expected_profit,
        expected_gas_cost,
        dex1,
        dex2,
        builder_count,
    );
    log.insert(tx_hash, record);
    assert(trades(log@) =~= before.insert(tx_hash@, record@));
}

/// The receipt of a transaction that a block took in.
#[derive(Clone, Copy, Debug)]
pub struct Receipt {
    pub success: bool,
    pub gas_used: u64,
    pub effective_gas_price: u128,
}

impl Receipt {
    /// What the transaction paid for gas.
    pub open spec fn cost(&self) -> nat {
        saturated((self.gas_used * self.effective_gas_price) as nat)
    }
}

/// What is left of a number after another one, zero where nothing is.
pub open spec fn less(a: nat, b: nat) -> nat {
    if b <= a {
        (a - b) as nat
    } else {
        0
    }
}

/// The profit that a trade promised; zero where its text is no number.
pub open spec fn promised(trade: Trade) -> nat {
    match number_in(trade.expected_profit_wei) {
        Some(n) => n,
        None => 0,
    }
}

/// A trade after a block took it in: won with the promised profit less the cost
/// of gas where it succeeded, lost with that cost where it failed.
pub open spec fn settled(trade: Trade, receipt: Receipt) -> Trade {
    Trade {
        actual_gas_used: Some(receipt.gas_used),
        actual_gas_cost_wei: Some(decimal(receipt.cost())),
        actual_net_profit_wei: Some(
            if receipt.success {
                decimal(less(promised(trade), receipt.cost()))
            } else {
                seq!['-'] + decimal(receipt.cost())
            },
        ),
        status: if receipt.success {
            TradeStatus::Won
        } else {
            TradeStatus::Lost
        },
        loss_reason: if receipt.success {
            None
        } else {
            Some(LossReason::Reverted)
        },
        ..trade
    }
}

/// A trade after no block took it in: lost at no cost. One that is no longer
/// waiting stays as it is.
pub open spec fn expired(trade: Trade) -> Trade {
    if trade.status == TradeStatus::Submitted {
        Trade {
            actual_gas_used: Some(0),
            actual_gas_cost_wei: Some(decimal(0)),
            actual_net_profit_wei: Some(decimal(0)),
            status: TradeStatus::Lost,
            loss_reason: Some(LossReason::NotIncluded),
            ..trade
        }
    } else {
        trade
    }
}

/// The trade after a block took it in.
pub fn settle(record: &TradeRecord, receipt: &Receipt) -> (r: TradeRecord)
    ensures
        r@ == settled(record@, *receipt),
{
    let mut r = record.copy();
    let cost = U256::from_u64(receipt.gas_used).saturating_mul(
        U256::from_u128(receipt.effective_gas_price),
    );
    r.actual_gas_used = Some(receipt.gas_used);
    r.actual_gas_cost_wei = Some(cost.to_text());
    if receipt.success {
        let promised = match U256::from_text(record.expected_profit_wei.as_str()) {
            Some(n) => n,
            None => U256::zero(),
        };
        r.actual_net_profit_wei = Some(promised.saturating_sub(cost).to_text());
        r.status = TradeStatus::Won;
        r.loss_reason = None;
    } else {
        let mut loss = String::new();
        loss.push('-');
        loss.append(cost.to_text().as_str());
        assert(loss@ =~= seq!['-'] + decimal(receipt.cost()));
        r.actual_net_profit_wei = Some(loss);
        r.status = TradeStatus::Lost;
        r.loss_reason = Some(LossReason::Reverted);
    }
    r
}

/// The trade after no block took it in.
pub fn expire(record: &TradeRecord) -> (r: TradeRecord)
    ensures
        r@ == expired(record@),
{
    let mut r = record.copy();
    if record.status == TradeStatus::Submitted {
        r.status = TradeStatus::Lost;
        r.loss_reason = Some(LossReason::NotIncluded);
        r.actual_gas_used = Some(0);
        r.actual_gas_cost_wei = Some(U256::zero().to_text());
        r.actual_net_profit_wei = Some(U256::zero().to_text());
    }
    r
}

/// How often the receipt of a trade is asked for before the trade is given up.
pub const MAX_ATTEMPTS: u32 = 20;

/// The trades after the receipt of one of them was asked for the given number of
/// times: settled where there is a receipt, expired where there is none and the
/// last attempt was made. A trade that is not in the log changes nothing.
pub open spec fn after_reply(
    log: Map<Seq<u8>, Trade>,
    tx_hash: Seq<u8>,
    reply: Option<Receipt>,
    attempts: int,
) -> Map<Seq<u8>, Trade> {
    if !log.dom().contains(tx_hash) {
        log
    } else {
        match reply {
            Some(receipt) => log.insert(tx_hash, settled(log[tx_hash], receipt)),
            None => if attempts >= MAX_ATTEMPTS {
                log.insert(tx_hash, expired(log[tx_hash]))
            } else {
                log
            },
        }
    }
}

/// The watch over a submitted trade: how often its receipt was asked for.
pub struct OutcomeWatch {
    pub attempts: u32,
}

impl OutcomeWatch {
    /// Whether the receipt is still to be asked for.
    pub open spec fn waiting(&self) -> bool {
        self.attempts < MAX_ATTEMPTS
    }

    /// A watch over a trade that was just submitted.
    pub fn new() -> (r: OutcomeWatch)
        ensures
            r.attempts == 0,
            r.waiting(),
    {
        OutcomeWatch { attempts: 0 }
    }

    /// Takes in what came back for the receipt, nothing where there is none yet
    /// or where asking failed. Tells whether the watch is over.
    pub fn step(&mut self, log: &mut TradeLog, tx_hash: TxHash, reply: Option<Receipt>) -> (done:
        bool)
        requires
            old(self).waiting(),
        ensures
            final(self).attempts == old(self).attempts + 1,
            done == (reply is Some || !final(self).waiting()),
            trades(final(log)@) == after_reply(
                trades(old(log)@),
                tx_hash@,
                reply,
                final(self).attempts as int,
            ),
    {
        self.attempts = self.attempts + 1;
        let ghost before = trades(log@);
        match reply {
            Some(receipt) => {
                let next = match log.get(&tx_hash) {
                    Some(record) => Some(settle(record, &receipt)),
                    None => None,
                };
                if let Some(record) = next {
                    log.insert(tx_hash, record);
                    assert(trades(log@) =~= before.insert(tx_hash@, record@));
                }
                true
            },
            None => {
                if self.attempts < MAX_ATTEMPTS {
                    return false;
                }
                let next = match log.get(&tx_hash) {
                    Some(record) => Some(expire(record)),
                    None => None,
                };
                if let Some(record) = next {
                    log.insert(tx_hash, record);
                    assert(trades(log@) =~= before.insert(tx_hash@, record@));
                }
                true
            },
        }
    }
}

/// How many trades of a list have a property.
pub open spec fn count(list: Seq<Trade>, property: spec_fn(Trade) -> bool) -> nat
    decreases list.len(),
{
    if list.len() == 0 {
        0
    } else {
        count(list.drop_last(), property) + (if property(list.last()) {
            1nat
        } else {
            0
        })
    }
}

/// The sum of an amount over the trades of a list.
pub open spec fn summed(list: Seq<Trade>, f: spec_fn(Trade) -> nat) -> nat
    decreases list.len(),
{
    if list.len() == 0 {
        0
    } else {
        summed(list.drop_last(), f) + f(list.last())
    }
}

/// The number that an optional text stands for; zero where there is none.
pub open spec fn number_or_zero(text: Option<Seq<char>>) -> nat {
    match text {
        Some(s) => match number_in(s) {
            Some(n) => n,
            None => 0,
        },
        None => 0,
    }
}

/// What a trade paid for gas.
pub open spec fn gas_spent() -> spec_fn(Trade) -> nat {
    |t: Trade| number_or_zero(t.actual_gas_cost_wei)
}

/// What a trade that was won brought in.
pub open spec fn profit_made() -> spec_fn(Trade) -> nat {
    |t: Trade|
        if t.status == TradeStatus::Won {
            number_or_zero(t.actual_net_profit_wei)
        } else {
            0
        }
}

/// The trades with a given status.
pub open spec fn with_status(status: TradeStatus) -> spec_fn(Trade) -> bool {
    |t: Trade| t.status == status
}

/// The lost trades that failed in a block, or the other lost ones.
pub open spec fn lost_by(reverted: bool) -> spec_fn(Trade) -> bool {
    |t: Trade|
        t.status == TradeStatus::Lost && (t.loss_reason == Some(LossReason::Reverted)) == reverted
}

/// The values of a list of trades.
pub open spec fn trade_list(list: Seq<TradeRecord>) -> Seq<Trade> {
    list.map_values(|record: TradeRecord| record@)
}

/// What the trades of a log come to.
pub struct TradeStats {
    pub total_trades: usize,
    pub won: usize,
    pub lost: usize,
    pub pending: usize,
    pub total_gas_spent_wei: String,
    pub total_net_profit_wei: String,
    pub lost_not_included: usize,
    pub lost_reverted: usize,
}

impl TradeStats {
    /// The numbers are those of the listed trades. Sums that take more than 256
    /// bits stay at the largest value.
    pub open spec fn describes(&self, list: Seq<Trade>) -> bool {
        &&& self.total_trades == list.len()
        &&& self.won == count(list, with_status(TradeStatus::Won))
        &&& self.lost == count(list, with_status(TradeStatus::Lost))
        &&& self.pending == count(list, with_status(TradeStatus::Submitted))
        &&& self.lost_reverted == count(list, lost_by(true))
        &&& self.lost_not_included == count(list, lost_by(false))
        &&& self.total_gas_spent_wei@ == decimal(saturated(summed(list, gas_spent())))
        &&& self.total_net_profit_wei@ == decimal(saturated(summed(list, profit_made())))
    }
}

fn text_or_zero(text: &Option<String>) -> (r: U256)
    ensures
        r@ == number_or_zero(optional_text(*text)),
{
    match text {
        Some(s) => match U256::from_text(s.as_str()) {
            Some(n) => n,
            None => U256::zero(),
        },
        None => U256::zero(),
    }
}

/// Counts the trades of a log and adds up what they cost and brought in.
pub fn api_stats(log: &TradeLog) -> (r: TradeStats)
    ensures
        r.describes(trade_list(log.value_list())),
{
    let ghost all = trade_list(log.value_list());
    let mut won: usize = 0;
    let mut lost: usize = 0;
    let mut pending: usize = 0;
    let mut lost_not_included: usize = 0;
    let mut lost_reverted: usize = 0;
    let mut gas = U256::zero();
    let mut profit = U256::zero();
    let mut i: usize = 0;
    assert(all.take(0) =~= Seq::empty());
    while i < log.len()
        invariant
            all == trade_list(log.value_list()),
            i <= all.len(),
            won <= i,
            lost <= i,
            pending <= i,
            lost_not_included <= i,
            lost_reverted <= i,
            won == count(all.take(i as int), with_status(TradeStatus::Won)),
            lost == count(all.take(i as int), with_status(TradeStatus::Lost)),
            pending == count(all.take(i as int), with_status(TradeStatus::Submitted)),
            lost_reverted == count(all.take(i as int), lost_by(true)),
            lost_not_included == count(all.take(i as int), lost_by(false)),
            gas@ == saturated(summed(all.take(i as int), gas_spent())),
            profit@ == saturated(summed(all.take(i as int), profit_made())),
        decreases all.len() - i,
    {
        let record = log.value_at(i);
        proof {
            assert(all.take(i + 1).drop_last() =~= all.take(i as int));
            assert(all.take(i + 1).last() == record@);
        }
        match record.status {
            TradeStatus::Won => {
                won = won + 1;
                profit = profit.saturating_add(text_or_zero(&record.actual_net_profit_wei));
            },
            TradeStatus::Lost => {
                lost = lost + 1;
                match record.loss_reason {
                    Some(LossReason::Reverted) => {
                        lost_reverted = lost_reverted + 1;
                    },
                    _ => {
                        lost_not_included = lost_not_included + 1;
                    },
                }
            },
            TradeStatus::Submitted => {
                pending = pending + 1;
            },
        }
        gas = gas.saturating_add(text_or_zero(&record.actual_gas_cost_wei));
        i = i + 1;
    }
    assert(all.take(i as int) =~= all);
    TradeStats {
        total_trades: log.len(),
        won,
        lost,
        pending,
        total_gas_spent_wei: gas.to_text(),
        total_net_profit_wei: profit.to_text(),
        lost_not_included,
        lost_reverted,
    }
}

/// How many trades are shown at most.
pub const SHOWN_TRADES: usize = 500;

/// The place of a trade in a list from the newest to the oldest: behind those
/// that are as new.
pub open spec fn place(list: Seq<Trade>, trade: Trade) -> nat
    decreases list.len(),
{
    if list.len() > 0 && list.last().timestamp < trade.timestamp {
        place(list.drop_last(), trade)
    } else {
        list.len()
    }
}

/// The trades from the newest to the oldest; those of the same time stay in
/// order.
pub open spec fn newest_first(list: Seq<Trade>) -> Seq<Trade>
    decreases list.len(),
{
    if list.len() == 0 {
        list
    } else {
        let before = newest_first(list.drop_last());
        before.insert(place(before, list.last()) as int, list.last())
    }
}

/// The trades that are shown: the newest ones.
pub open spec fn shown(list: Seq<Trade>) -> Seq<Trade> {
    if list.len() <= SHOWN_TRADES {
        newest_first(list)
    } else {
        newest_first(list).take(SHOWN_TRADES as int)
    }
}

proof fn lemma_place(list: Seq<Trade>, trade: Trade)
    ensures
        place(list, trade) <= list.len(),
        forall|i: int|
            place(list, trade) <= i < list.len() ==> (#[trigger] list[i]).timestamp
                < trade.timestamp,
        place(list, trade) > 0 ==> list[place(list, trade) - 1].timestamp >= trade.timestamp,
    decreases list.len(),
{
    if list.len() > 0 && list.last().timestamp < trade.timestamp {
        let rest = list.drop_last();
        lemma_place(rest, trade);
        assert forall|i: int| place(list, trade) <= i < list.len() implies (
        #[trigger] list[i]).timestamp < trade.timestamp by {
            if i < rest.len() {
                assert(rest[i] == list[i]);
            }
        }
    }
}

/// Lists the newest trades of a log, the newest first.
pub fn api_trades(log: &TradeLog) -> (r: Vec<TradeRecord>)
    ensures
        trade_list(r@) == shown(trade_list(log.value_list())),
{
    let ghost all = trade_list(log.value_list());
    let mut sorted: Vec<TradeRecord> = Vec::new();
    let mut i: usize = 0;
    assert(all.take(0) =~= Seq::empty());
    assert(trade_list(sorted@) =~= newest_first(all.take(0)));
    while i < log.len()
        invariant
            all == trade_list(log.value_list()),
            i <= all.len(),
            sorted.len() == i,
            trade_list(sorted@) == newest_first(all.take(i as int)),
        decreases all.len() - i,
    {
        let record = log.value_at(i).copy();
        let ghost before = trade_list(sorted@);
        let mut p: usize = sorted.len();
        assert(before.take(p as int) =~= before);
        while p > 0 && sorted[p - 1].timestamp < record.timestamp
            invariant
                p <= sorted.len(),
                before == trade_list(sorted@),
                place(before, record@) == place(before.take(p as int), record@),
            decreases p,
        {
            assert(before.take(p as int).drop_last() =~= before.take(p - 1));
            assert(before.take(p as int).last() == sorted@[p - 1]@);
            p = p - 1;
        }
        proof {
            assert(p > 0 ==> before.take(p as int).last() == sorted@[p - 1]@);
            assert(place(before, record@) == p);
            assert(all.take(i + 1).drop_last() =~= all.take(i as int));
            assert(all.take(i + 1).last() == record@);
        }
        let ghost inserted = record@;
        sorted.insert(p, record);
        assert(trade_list(sorted@) =~= before.insert(p as int, inserted));
        i = i + 1;
    }
    assert(all.take(i as int) =~= all);
    let ghost whole = trade_list(sorted@);
    if sorted.len() > SHOWN_TRADES {
        sorted.truncate(SHOWN_TRADES);
        assert(trade_list(sorted@) =~= whole.take(SHOWN_TRADES as int));
    }
    sorted
}

/// The trades that are shown are in order of time, the newest first.
pub proof fn shown_trades_are_in_order(list: Seq<Trade>, i: int, j: int)
    requires
        0 <= i <= j < shown(list).len(),
    ensures
        shown(list)[i].timestamp >= shown(list)[j].timestamp,
{
    lemma_newest_first(list);
}

/// No trade that is left out is newer than one that is shown.
pub proof fn newest_trades_are_shown(list: Seq<Trade>, i: int, j: int)
    requires
        0 <= i < shown(list).len(),
        shown(list).len() <= j < list.len(),
    ensures
        newest_first(list).len() == list.len(),
        shown(list)[i] == newest_first(list)[i],
        shown(list)[i].timestamp >= newest_first(list)[j].timestamp,
{
    lemma_newest_first(list);
}

/// Ordering the trades loses none and repeats none.
pub proof fn ordering_keeps_the_trades(list: Seq<Trade>)
    ensures
        newest_first(list).to_multiset() == list.to_multiset(),
    decreases list.len(),
{
    broadcast use vstd::seq_lib::group_to_multiset_ensures;

    if list.len() > 0 {
        let rest = list.drop_last();
        let before = newest_first(rest);
        ordering_keeps_the_trades(rest);
        lemma_place(before, list.last());
        assert(list =~= rest.push(list.last()));
        assert(newest_first(list).to_multiset() =~= before.to_multiset().insert(list.last()));
    }
}

proof fn lemma_newest_first(list: Seq<Trade>)
    ensures
        newest_first(list).len() == list.len(),
        forall|i: int, j: int|
            0 <= i <= j < list.len() ==> (#[trigger] newest_first(list)[i]).timestamp >= (
            #[trigger] newest_first(list)[j]).timestamp,
    decreases list.len(),
{
    if list.len() > 0 {
        let before = newest_first(list.drop_last());
        lemma_newest_first(list.drop_last());
        lemma_place(before, list.last());
        let p = place(before, list.last()) as int;
        let after = newest_first(list);
        assert forall|i: int, j: int| 0 <= i <= j < list.len() implies (
        #[trigger] after[i]).timestamp >= (#[trigger] after[j]).timestamp by {
            if i < p {
                assert(after[i] == before[i]);
                assert(before[i].timestamp >= before[p - 1].timestamp);
            } else if i > p {
                assert(after[i] == before[i - 1]);
            }
            if j < p {
                assert(after[j] == before[j]);
            } else if j > p {
                assert(after[j] == before[j - 1]);
            }
        }
    }
}

/// Every trade is won, lost or pending, and every lost one either failed in a
/// block or did not get into one.
pub proof fn counts_add_up(list: Seq<Trade>)
    ensures
        count(list, with_status(TradeStatus::Won)) + count(list, with_status(TradeStatus::Lost))
            + count(list, with_status(TradeStatus::Submitted)) == list.len(),
        count(list, lost_by(true)) + count(list, lost_by(false)) == count(
            list,
            with_status(TradeStatus::Lost),
        ),
    decreases list.len(),
{
    if list.len() > 0 {
        counts_add_up(list.drop_last());
    }
}

/// What is known of a trade fits where it stands: it has a reason for a loss
/// exactly where it is lost, and a net profit exactly where it is decided.
pub open spec fn coherent(trade: Trade) -> bool {
    &&& trade.loss_reason is Some <==> trade.status == TradeStatus::Lost
    &&& trade.actual_net_profit_wei is Some <==> trade.status != TradeStatus::Submitted
    &&& trade.actual_gas_used is Some <==> trade.status != TradeStatus::Submitted
    &&& trade.actual_gas_cost_wei is Some <==> trade.status != TradeStatus::Submitted
}

/// A trade is coherent when it is submitted, and stays so whatever comes of it.
pub proof fn trades_stay_coherent(
    timestamp: u64,
    tx_hash: Seq<u8>,
    victim_tx_hash: Seq<u8>,
    expected_profit: nat,
    expected_gas_cost: nat,
    dex1: Seq<char>,
    dex2: Seq<char>,
    builder_count: u32,
    trade: Trade,
    receipt: Receipt,
)
    ensures
        coherent(
            submitted(
                timestamp,
                tx_hash,
                victim_tx_hash,
                expected_profit,
                expected_gas_cost,
                dex1,
                dex2,
                builder_count,
            ),
        ),
        coherent(settled(trade, receipt)),
        coherent(trade) ==> coherent(expired(trade)),
{
}

/// When the watch over a trade is over, the trade is decided.
pub proof fn watched_trade_is_decided(
    log: Map<Seq<u8>, Trade>,
    tx_hash: Seq<u8>,
    reply: Option<Receipt>,
    attempts: int,
)
    requires
        log.dom().contains(tx_hash),
        reply is Some || attempts >= MAX_ATTEMPTS,
    ensures
        after_reply(log, tx_hash, reply, attempts)[tx_hash].status != TradeStatus::Submitted,
{
}

/// The watch over a trade changes no other trade.
pub proof fn other_trades_stay(
    log: Map<Seq<u8>, Trade>,
    tx_hash: Seq<u8>,
    reply: Option<Receipt>,
    attempts: int,
    other: Seq<u8>,
)
    requires
        other != tx_hash,
    ensures
        after_reply(log, tx_hash, reply, attempts).dom().contains(other) <==> log.dom().contains(
            other,
        ),
        log.dom().contains(other) ==> after_reply(log, tx_hash, reply, attempts)[other]
            == log[other],
{
}

/// A submitted trade that succeeds is won with the profit that was expected less
/// what gas cost.
pub proof fn won_trade_nets_the_expected_profit(
    timestamp: u64,
    tx_hash: TxHash,
    victim_tx_hash: TxHash,
    expected_profit: U256,
    expected_gas_cost: U256,
    dex1: Seq<char>,
    dex2: Seq<char>,
    builder_count: u32,
    receipt: Receipt,
)
    requires
        receipt.success,
    ensures
        ({
            let trade = submitted(
                timestamp,
                tx_hash@,
                victim_tx_hash@,
                expected_profit@,
                expected_gas_cost@,
                dex1,
                dex2,
                builder_count,
            );
            let won = settled(trade, receipt);
            &&& won.status == TradeStatus::Won
            &&& won.actual_net_profit_wei == Some(
                decimal(less(expected_profit@, receipt.cost())),
            )
            &&& number_or_zero(won.actual_net_profit_wei) == less(
                expected_profit@,
                receipt.cost(),
            )
        }),
{
    written_number_is_read_back(expected_profit);
    lemma_below_modulus(expected_profit);
    lemma_decimal_round_trip(less(expected_profit@, receipt.cost()));
    lemma_decimal_number(decimal(less(expected_profit@, receipt.cost())));
}

/// A submitted trade waits for its outcome, and what is recorded of it is what it was
/// submitted with: both amounts can be read back from it, the two hashes are written
/// after `0x`, and the exchanges and the number of builders are those given.
pub proof fn submitted_trade_can_be_read_back(
    timestamp: u64,
    tx_hash: TxHash,
    victim_tx_hash: TxHash,
    expected_profit: U256,
    expected_gas_cost: U256,
    dex1: Seq<char>,
    dex2: Seq<char>,
    builder_count: u32,
)
    ensures
        ({
            let trade = submitted(
                timestamp,
                tx_hash@,
                victim_tx_hash@,
                expected_profit@,
                expected_gas_cost@,
                dex1,
                dex2,
                builder_count,
            );
            &&& trade.status == TradeStatus::Submitted
            &&& trade.loss_reason is None
            &&& trade.actual_gas_used is None
            &&& trade.actual_gas_cost_wei is None
            &&& trade.actual_net_profit_wei is None
            &&& trade.timestamp == timestamp
            &&& number_in(trade.expected_profit_wei) == Some(expected_profit@)
            &&& number_in(trade.expected_gas_cost_wei) == Some(expected_gas_cost@)
            &&& trade.tx_hash == seq!['0', 'x'] + hex_bytes(tx_hash@)
            &&& trade.victim_tx_hash == seq!['0', 'x'] + hex_bytes(victim_tx_hash@)
            &&& trade.dex1 == Some(dex1) && trade.dex2 == Some(dex2)
            &&& trade.builder_count == Some(builder_count)
        }),
{
    written_number_is_read_back(expected_profit);
    written_number_is_read_back(expected_gas_cost);
}

/// A trade that a block took in is won where it succeeded and lost by a failure where
/// it did not. Its gas and what that cost at the price of the receipt are recorded.
/// Where it is won, the net profit and that cost make up the promised profit, or the
/// net profit is nothing; where it is lost, the net profit is that cost with a minus.
/// What it was submitted with stays.
pub proof fn receipt_decides_the_trade(trade: Trade, receipt: Receipt, promised_profit: nat)
    requires
        number_in(trade.expected_profit_wei) == Some(promised_profit),
    ensures
        ({
            let after = settled(trade, receipt);
            let cost = (receipt.gas_used * receipt.effective_gas_price) as nat;
            &&& receipt.success <==> after.status == TradeStatus::Won
            &&& !receipt.success <==> after.status == TradeStatus::Lost
            &&& receipt.success <==> after.loss_reason is None
            &&& !receipt.success <==> after.loss_reason == Some(LossReason::Reverted)
            &&& after.actual_gas_used == Some(receipt.gas_used)
            &&& after.actual_gas_cost_wei matches Some(text) && number_in(text) == Some(cost)
            &&& after.actual_net_profit_wei matches Some(text) && {
                &&& receipt.success && cost <= promised_profit ==> (number_in(text) matches Some(
                    net,
                ) && net + cost == promised_profit)
                &&& receipt.success && cost > promised_profit ==> number_in(text) == Some(0nat)
                &&& !receipt.success ==> text.len() > 0 && text[0] == '-' && number_in(
                    text.skip(1),
                ) == Some(cost)
            }
            &&& after.tx_hash == trade.tx_hash && after.victim_tx_hash == trade.victim_tx_hash
            &&& after.timestamp == trade.timestamp
            &&& after.expected_profit_wei == trade.expected_profit_wei
            &&& after.expected_gas_cost_wei == trade.expected_gas_cost_wei
            &&& after.dex1 == trade.dex1 && after.dex2 == trade.dex2
            &&& after.builder_count == trade.builder_count
        }),
{
    let cost = (receipt.gas_used * receipt.effective_gas_price) as nat;
    let (a, b) = (receipt.gas_used as int, receipt.effective_gas_price as int);
    assert(cost < modulus()) by (nonlinear_arith)
        requires
            cost == a * b,
            0 <= a <= 0xffff_ffff_ffff_ffff,
            0 <= b <= 0xffff_ffff_ffff_ffff_ffff_ffff_ffff_ffff,
    ;
    lemma_decimal_round_trip(cost);
    lemma_decimal_number(decimal(cost));
    assert((seq!['-'] + decimal(cost)).skip(1) =~= decimal(cost));
    let net = less(promised_profit, cost);
    lemma_decimal_round_trip(net);
    lemma_decimal_number(decimal(net));
}

/// A promised profit that is no number counts as none: a trade that is won on it nets
/// nothing.
pub proof fn unreadable_promise_nets_nothing(trade: Trade, receipt: Receipt)
    requires
        number_in(trade.expected_profit_wei) is None,
        receipt.success,
    ensures
        settled(trade, receipt).actual_net_profit_wei matches Some(text) && number_in(text) == Some(
            0nat,
        ),
{
    lemma_decimal_round_trip(0);
    lemma_decimal_number(decimal(0));
}

/// A waiting trade that no block took in is lost for that reason, at no gas, no cost
/// and no profit; what it was submitted with stays. A decided trade does not expire.
pub proof fn waiting_trade_expires_at_no_cost(trade: Trade)
    ensures
        trade.status != TradeStatus::Submitted ==> expired(trade) == trade,
        trade.status == TradeStatus::Submitted ==> {
            let after = expired(trade);
            &&& after.status == TradeStatus::Lost
            &&& after.loss_reason == Some(LossReason::NotIncluded)
            &&& after.actual_gas_used == Some(0u64)
            &&& after.actual_gas_cost_wei matches Some(text) && number_in(text) == Some(0nat)
            &&& after.actual_net_profit_wei matches Some(text) && number_in(text) == Some(0nat)
            &&& after.tx_hash == trade.tx_hash && after.victim_tx_hash == trade.victim_tx_hash
            &&& after.timestamp == trade.timestamp
            &&& after.expected_profit_wei == trade.expected_profit_wei
            &&& after.expected_gas_cost_wei == trade.expected_gas_cost_wei
            &&& after.dex1 == trade.dex1 && after.dex2 == trade.dex2
            &&& after.builder_count == trade.builder_count
        },
{
    lemma_decimal_round_trip(0);
    lemma_decimal_number(decimal(0));
}

/// A receipt settles the trade whenever it comes. Without one the log stays as it is
/// before the twentieth attempt, and the trade expires with it. A trade that is not in
/// the log is not entered.
pub proof fn twenty_attempts_are_made(
    log: Map<Seq<u8>, Trade>,
    tx_hash: Seq<u8>,
    receipt: Receipt,
    attempts: int,
)
    ensures
        log.dom().contains(tx_hash) ==> after_reply(log, tx_hash, Some(receipt), attempts)[tx_hash]
            == settled(log[tx_hash], receipt),
        attempts < 20 ==> after_reply(log, tx_hash, None, attempts) == log,
        attempts >= 20 && log.dom().contains(tx_hash) ==> after_reply(
            log,
            tx_hash,
            None,
            attempts,
        )[tx_hash] == expired(log[tx_hash]),
        after_reply(log, tx_hash, Some(receipt), attempts).dom() =~= log.dom(),
        after_reply(log, tx_hash, None, attempts).dom() =~= log.dom(),
{
}

/// The number of trades with a property is that of the list with the others left out.
pub proof fn counting_is_filtering(list: Seq<Trade>, property: spec_fn(Trade) -> bool)
    ensures
        count(list, property) == list.filter(property).len(),
    decreases list.len(),
{
    reveal(Seq::filter);
    if list.len() > 0 {
        counting_is_filtering(list.drop_last(), property);
    }
}

/// Sums over two lists add up to the sum over both, and the sum over one trade is its
/// amount.
pub proof fn sums_add_up(
    first: Seq<Trade>,
    second: Seq<Trade>,
    trade: Trade,
    f: spec_fn(Trade) -> nat,
)
    ensures
        summed(first + second, f) == summed(first, f) + summed(second, f),
        summed(seq![trade], f) == f(trade),
    decreases second.len(),
{
    assert(seq![trade].drop_last() =~= Seq::empty());
    reveal_with_fuel(summed, 2);
    if second.len() == 0 {
        assert(first + second =~= first);
    } else {
        sums_add_up(first, second.drop_last(), trade, f);
        assert((first + second).drop_last() =~= first + second.drop_last());
        assert((first + second).last() == second.last());
    }
}

/// What the dashboard tells of a log is what its trades come to: how many were won,
/// lost and are waiting, how many of the lost ones failed in a block, what all trades
/// paid for gas, and what the won ones brought in. An amount that is missing or no
/// number counts as none.
pub proof fn stats_tell_what_trades_come_to(stats: TradeStats, list: Seq<Trade>)
    requires
        stats.describes(list),
    ensures
        stats.total_trades == list.len(),
        stats.won + stats.lost + stats.pending == stats.total_trades,
        stats.lost_reverted + stats.lost_not_included == stats.lost,
        stats.won == list.filter(|t: Trade| t.status == TradeStatus::Won).len(),
        stats.lost == list.filter(|t: Trade| t.status == TradeStatus::Lost).len(),
        stats.pending == list.filter(|t: Trade| t.status == TradeStatus::Submitted).len(),
        stats.lost_reverted == list.filter(
            |t: Trade|
                t.status == TradeStatus::Lost && t.loss_reason == Some(LossReason::Reverted),
        ).len(),
        summed(list, gas_spent()) < modulus() ==> number_in(stats.total_gas_spent_wei@) == Some(
            summed(list, gas_spent()),
        ),
        summed(list, profit_made()) < modulus() ==> number_in(stats.total_net_profit_wei@) == Some(
            summed(list, profit_made()),
        ),
        summed(list, gas_spent()) >= modulus() ==> number_in(stats.total_gas_spent_wei@) == Some(
            (modulus() - 1) as nat,
        ),
        summed(list, profit_made()) >= modulus() ==> number_in(stats.total_net_profit_wei@) == Some(
            (modulus() - 1) as nat,
        ),
{
    counts_add_up(list);
    counting_is_filtering(list, with_status(TradeStatus::Won));
    counting_is_filtering(list, with_status(TradeStatus::Lost));
    counting_is_filtering(list, with_status(TradeStatus::Submitted));
    counting_is_filtering(list, lost_by(true));
    assert(with_status(TradeStatus::Won) =~= |t: Trade| t.status == TradeStatus::Won);
    assert(with_status(TradeStatus::Lost) =~= |t: Trade| t.status == TradeStatus::Lost);
    assert(with_status(TradeStatus::Submitted) =~= |t: Trade| t.status == TradeStatus::Submitted);
    assert(lost_by(true) =~= |t: Trade|
        t.status == TradeStatus::Lost && t.loss_reason == Some(LossReason::Reverted));
    let (gas, profit) = (
        saturated(summed(list, gas_spent())),
        saturated(summed(list, profit_made())),
    );
    lemma_decimal_round_trip(gas);
    lemma_decimal_number(decimal(gas));
    lemma_decimal_round_trip(profit);
    lemma_decimal_number(decimal(profit));
}

/// A trade counts for what its texts say: any trade for the gas that it paid, and a
/// won one for its net profit; a trade that is not won brought nothing in.
pub proof fn trade_counts_for_what_it_says(trade: Trade, n: U256)
    ensures
        trade.actual_gas_cost_wei is None ==> gas_spent()(trade) == 0,
        trade.actual_gas_cost_wei == Some(decimal(n@)) ==> gas_spent()(trade) == n@,
        trade.status == TradeStatus::Won && trade.actual_net_profit_wei == Some(decimal(n@))
            ==> profit_made()(trade) == n@,
        trade.status == TradeStatus::Won && trade.actual_net_profit_wei is None
            ==> profit_made()(trade) == 0,
        trade.status != TradeStatus::Won ==> profit_made()(trade) == 0,
{
    written_number_is_read_back(n);
}

/// All trades are shown where there are at most five hundred; of more than that, five
/// hundred are.
pub proof fn five_hundred_are_shown_at_most(list: Seq<Trade>)
    ensures
        list.len() <= 500 ==> shown(list).len() == list.len() && shown(list).to_multiset()
            == list.to_multiset(),
        list.len() > 500 ==> shown(list).len() == 500,
{
    lemma_newest_first(list);
    ordering_keeps_the_trades(list);
}

/// What `settle` makes of a trade: won or lost as the receipt says, with its gas, what
/// that cost, and the promised profit less that cost or the cost with a minus; all that
/// it was submitted with stays.
pub proof fn computed_outcome_follows_the_receipt(
    record: TradeRecord,
    receipt: Receipt,
    promised_profit: nat,
    r: TradeRecord,
)
    requires
        number_in(record.expected_profit_wei@) == Some(promised_profit),
        call_ensures(settle, (&record, &receipt), r),
    ensures
        ({
            let cost = (receipt.gas_used * receipt.effective_gas_price) as nat;
            let net = r@.actual_net_profit_wei;
            &&& receipt.success ==> r.status == TradeStatus::Won && r.loss_reason is None
            &&& !receipt.success ==> r.status == TradeStatus::Lost && r.loss_reason == Some(
                LossReason::Reverted,
            )
            &&& r.actual_gas_used == Some(receipt.gas_used)
            &&& number_or_zero(r@.actual_gas_cost_wei) == cost
            &&& receipt.success ==> number_or_zero(net) == (if cost <= promised_profit {
                promised_profit - cost
            } else {
                0
            })
            &&& !receipt.success ==> (net matches Some(text) && text.len() > 0 && text[0] == '-')
            &&& r@.tx_hash == record@.tx_hash && r@.victim_tx_hash == record@.victim_tx_hash
            &&& r.timestamp == record.timestamp
            &&& r@.expected_profit_wei == record@.expected_profit_wei
            &&& r@.expected_gas_cost_wei == record@.expected_gas_cost_wei
            &&& r@.dex1 == record@.dex1 && r@.dex2 == record@.dex2
            &&& r.builder_count == record.builder_count
        }),
{
    receipt_decides_the_trade(record@, receipt, promised_profit);
}

/// What `expire` makes of a trade: a waiting one is lost at no cost because no block
/// took it in, a decided one stays as it is.
pub proof fn computed_expiry_spares_decided_trades(record: TradeRecord, r: TradeRecord)
    requires
        call_ensures(expire, (&record,), r),
    ensures
        record.status != TradeStatus::Submitted ==> r@ == record@,
        record.status == TradeStatus::Submitted ==> r.status == TradeStatus::Lost && r.loss_reason
            == Some(LossReason::NotIncluded) && r.actual_gas_used == Some(0u64) && number_or_zero(
            r@.actual_gas_cost_wei,
        ) == 0 && number_or_zero(r@.actual_net_profit_wei) == 0 && r@.expected_profit_wei
            == record@.expected_profit_wei && r@.tx_hash == record@.tx_hash,
{
    waiting_trade_expires_at_no_cost(record@);
}

/// What `api_stats` tells: how many trades the log holds with each outcome, which add
/// up to all of them.
pub proof fn computed_stats_count_the_log(log: TradeLog, r: TradeStats)
    requires
        call_ensures(api_stats, (&log,), r),
    ensures
        ({
            let list = trade_list(log.value_list());
            &&& r.total_trades == list.len()
            &&& r.won == list.filter(|t: Trade| t.status == TradeStatus::Won).len()
            &&& r.lost == list.filter(|t: Trade| t.status == TradeStatus::Lost).len()
            &&& r.pending == list.filter(|t: Trade| t.status == TradeStatus::Submitted).len()
            &&& r.lost_reverted + r.lost_not_included == r.lost
            &&& r.won + r.lost + r.pending == r.total_trades
        }),
{
    stats_tell_what_trades_come_to(r, trade_list(log.value_list()));
}

/// What `api_trades` lists: trades of the log, the newest first, all of them up to five
/// hundred.
pub proof fn computed_list_is_newest_first(log: TradeLog, r: Vec<TradeRecord>, i: int, j: int)
    requires
        call_ensures(api_trades, (&log,), r),
        0 <= i <= j < r@.len(),
    ensures
        r@[i].timestamp >= r@[j].timestamp,
        r@.len() == (if log.value_list().len() <= 500 {
            log.value_list().len() as int
        } else {
            500
        }),
        log.value_list().len() <= 500 ==> trade_list(r@).to_multiset() == trade_list(
            log.value_list(),
        ).to_multiset(),
{
    let list = trade_list(log.value_list());
    five_hundred_are_shown_at_most(list);
    shown_trades_are_in_order(list, i, j);
    assert(trade_list(r@)[i] == r@[i]@);
    assert(trade_list(r@)[j] == r@[j]@);
}

} // verus!
