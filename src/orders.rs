use vstd::prelude::*;

use rand::Rng;

verus! {

/// The side of the book an order is placed on.
#[derive(Clone, Copy, Debug, PartialEq, Eq)]
pub enum Side {
    Buy,
    Sell,
}

/// One placed order of the operation log.
#[derive(Clone, Copy, Debug, PartialEq, Eq)]
pub struct Order {
    pub side: Side,
    pub amount: u32,
    pub price: u32,
    pub time: u64,
}

/// Smallest and largest amount of a synthetic order.
pub const MIN_AMOUNT: u32 = 100000;
pub const MAX_AMOUNT: u32 = 9999999;

/// Smallest and largest price of a synthetic order.
pub const MIN_PRICE: u32 = 1000000;
pub const MAX_PRICE: u32 = 1000990;

/// Largest step of the clock between two pairs of orders.
pub const MAX_TIME_STEP: u64 = 16;

/// The random values that one buy/sell pair of the synthetic log is made of.
#[derive(Clone, Copy, Debug, PartialEq, Eq)]
pub struct PairDraw {
    pub time_step: u64,
    pub buy_amount: u32,
    pub buy_price: u32,
    pub sell_amount: u32,
    pub sell_price: u32,
}

/// The draw lies in the ranges that the synthetic log uses.
pub open spec fn draw_in_range(d: PairDraw) -> bool {
    &&& 1 <= d.time_step <= MAX_TIME_STEP
    &&& MIN_AMOUNT <= d.buy_amount <= MAX_AMOUNT
    &&& MIN_AMOUNT <= d.sell_amount <= MAX_AMOUNT
    &&& MIN_PRICE <= d.buy_price <= MAX_PRICE
    &&& MIN_PRICE <= d.sell_price <= MAX_PRICE
}

/// Relies on rand::thread_rng and rand::Rng::gen_range: a value of the
/// inclusive range `lo..=hi` (which panics only on an empty range).
#[verifier::external_body]
fn random_in(lo: u64, hi: u64) -> (r: u64)
    requires
        lo <= hi,
    ensures
        lo <= r <= hi,
{
    rand::thread_rng().gen_range(lo..=hi)
}

/// Draws the values of one pair.
fn draw_pair() -> (d: PairDraw)
    ensures
        draw_in_range(d),
{
    let time_step = random_in(1, MAX_TIME_STEP);
    let buy_amount = random_in(MIN_AMOUNT as u64, MAX_AMOUNT as u64) as u32;
    let buy_price = random_in(MIN_PRICE as u64, MAX_PRICE as u64) as u32;
    let sell_amount = random_in(MIN_AMOUNT as u64, MAX_AMOUNT as u64) as u32;
    let sell_price = random_in(MIN_PRICE as u64, MAX_PRICE as u64) as u32;
    PairDraw { time_step, buy_amount, buy_price, sell_amount, sell_price }
}

/// Advances the clock by the drawn step and places a buy and a sell order
/// at the new time.
pub fn order_pair(log: &mut Vec<Order>, time: u64, d: PairDraw) -> (t: u64)
    requires
        time as int + d.time_step as int <= u64::MAX,
    ensures
        t == time + d.time_step,
        final(log)@ == old(log)@.push(
            Order { side: Side::Buy, amount: d.buy_amount, price: d.buy_price, time: t },
        ).push(Order { side: Side::Sell, amount: d.sell_amount, price: d.sell_price, time: t }),
{
    let t = time + d.time_step;
    log.push(Order { side: Side::Buy, amount: d.buy_amount, price: d.buy_price, time: t });
    log.push(Order { side: Side::Sell, amount: d.sell_amount, price: d.sell_price, time: t });
    t
}

/// A log of `n_pairs` random buy/sell pairs: pair `k` is orders `2k` (buy)
/// and `2k + 1` (sell), placed at one time; the clock starts at 1 and each
/// pair advances it by 1 to `MAX_TIME_STEP`.
pub fn synthetic_order_log(n_pairs: usize) -> (log: Vec<Order>)
    requires
        n_pairs <= u32::MAX,
    ensures
        log@.len() == 2 * n_pairs,
        forall|k: int| 0 <= k < n_pairs ==> {
            &&& (#[trigger] log@[2 * k]).side == Side::Buy
            &&& log@[2 * k + 1].side == Side::Sell
            &&& log@[2 * k].time == log@[2 * k + 1].time
            &&& MIN_AMOUNT <= log@[2 * k].amount <= MAX_AMOUNT
            &&& MIN_AMOUNT <= log@[2 * k + 1].amount <= MAX_AMOUNT
            &&& MIN_PRICE <= log@[2 * k].price <= MAX_PRICE
            &&& MIN_PRICE <= log@[2 * k + 1].price <= MAX_PRICE
        },
        n_pairs > 0 ==> 2 <= log@[0].time <= 1 + MAX_TIME_STEP,
        forall|k: int| 0 < k < n_pairs ==> 1 <= (#[trigger] log@[2 * k]).time - log@[2 * k - 2].time
            <= MAX_TIME_STEP,
{
    let mut log: Vec<Order> = Vec::new();
    let mut time: u64 = 1;
    let mut k: usize = 0;
    while k < n_pairs
        invariant
            k <= n_pairs <= u32::MAX,
            log@.len() == 2 * k,
            1 <= time <= 1 + MAX_TIME_STEP * k,
            k > 0 ==> log@[2 * k - 2].time == time,
            forall|j: int| 0 <= j < k ==> {
                &&& (#[trigger] log@[2 * j]).side == Side::Buy
                &&& log@[2 * j + 1].side == Side::Sell
                &&& log@[2 * j].time == log@[2 * j + 1].time
                &&& MIN_AMOUNT <= log@[2 * j].amount <= MAX_AMOUNT
                &&& MIN_AMOUNT <= log@[2 * j + 1].amount <= MAX_AMOUNT
                &&& MIN_PRICE <= log@[2 * j].price <= MAX_PRICE
                &&& MIN_PRICE <= log@[2 * j + 1].price <= MAX_PRICE
            },
            k > 0 ==> 2 <= log@[0].time <= 1 + MAX_TIME_STEP,
            forall|j: int| 0 < j < k ==> 1 <= (#[trigger] log@[2 * j]).time - log@[2 * j - 2].time
                <= MAX_TIME_STEP,
        decreases n_pairs - k,
    {
        let d = draw_pair();
        let ghost before = log@;
        time = order_pair(&mut log, time, d);
        assert forall|j: int| 0 <= j < k implies #[trigger] log@[2 * j] == before[2 * j] && log@[2
            * j + 1] == before[2 * j + 1] by {}
        k = k + 1;
    }
    log
}

} // verus!
