use vstd::prelude::*;

use crate::error::MarketError;
use crate::id::{IdIssuer, ID};
use crate::stock::Stock;
use crate::user::{buy_outcome, User};

verus! {

/// How many past prices a company keeps; older ones are evicted first.
pub const PRICE_HISTORY_CAP: usize = 50;

/// What a company is, in the terms that contracts speak of.
pub struct CompanyModel {
    pub id: nat,
    pub name: Seq<char>,
    /// The current price, in cents.
    pub price: i64,
    /// Past prices, oldest first; the last one is the current price.
    pub history: Seq<i64>,
}

impl CompanyModel {
    /// A company's price is never negative, and its history is bounded and
    /// ends with the current price.
    pub open spec fn wf(self) -> bool {
        &&& self.price >= 0
        &&& 1 <= self.history.len() <= PRICE_HISTORY_CAP
        &&& self.history.last() == self.price
        &&& forall|i: int| 0 <= i < self.history.len() ==> #[trigger] self.history[i] >= 0
    }

    /// The company once `new_price` has been set.
    pub open spec fn priced(self, new_price: i64) -> CompanyModel {
        CompanyModel { price: new_price, history: capped_push(self.history, new_price), ..self }
    }

    /// The company started afresh at `new_price`.
    pub open spec fn reset_to(self, new_price: i64) -> CompanyModel {
        CompanyModel { price: new_price, history: seq![new_price], ..self }
    }

    /// The company once its price has moved by `delta`: a candidate price
    /// below zero (or beyond `i64`) is rejected and changes nothing.
    pub open spec fn stepped(self, delta: i64) -> CompanyModel {
        let candidate = self.price + delta;
        if 0 <= candidate <= i64::MAX {
            self.priced(candidate as i64)
        } else {
            self
        }
    }
}

/// `history` with `p` appended, the oldest entries evicted past the cap.
pub open spec fn capped_push(history: Seq<i64>, p: i64) -> Seq<i64> {
    let h = history.push(p);
    if h.len() > PRICE_HISTORY_CAP {
        h.subrange(h.len() - PRICE_HISTORY_CAP, h.len() as int)
    } else {
        h
    }
}

/// A listed company: shares of it can be bought and sold at its current
/// price, and it remembers its recent prices.
#[derive(Debug)]
pub struct Company {
    id: ID,
    name: String,
    stock_price: i64,
    stock_price_history: Vec<i64>,
}

impl View for Company {
    type V = CompanyModel;

    closed spec fn view(&self) -> CompanyModel {
        CompanyModel {
            id: self.id@,
            name: self.name@,
            price: self.stock_price,
            history: self.stock_price_history@,
        }
    }
}

impl Company {
    pub open spec fn wf(&self) -> bool {
        self@.wf()
    }

    /// A company listed at `stock_price`, with that price as its history.
    pub fn new(ids: &mut IdIssuer, name: String, stock_price: i64) -> (r: Company)
        requires
            old(ids).next_value() < usize::MAX,
            stock_price >= 0,
        ensures
            r.wf(),
            r@.id == old(ids).next_value(),
            r@.name == name@,
            r@.price == stock_price,
            r@.history == seq![stock_price],
            final(ids).next_value() == old(ids).next_value() + 1,
    {
        let id = ID::new(ids);
        let mut history: Vec<i64> = Vec::new();
        history.push(stock_price);
        let r = Company { id, name, stock_price, stock_price_history: history };
        assert(r@.history == seq![stock_price]);
        r
    }

    /// The name of the company.
    pub fn name(&self) -> (r: &String)
        ensures
            r@ == self@.name,
    {
        &self.name
    }

    /// The identifier of the company.
    pub fn id(&self) -> (r: ID)
        ensures
            r@ == self@.id,
    {
        self.id
    }

    /// The current price of one share, in cents.
    pub fn stock_price(&self) -> (r: i64)
        ensures
            r == self@.price,
    {
        self.stock_price
    }

    /// The recent prices, oldest first.
    pub fn stock_price_history(&self) -> (r: &Vec<i64>)
        ensures
            r@ == self@.history,
    {
        &self.stock_price_history
    }

    /// Appends `p` to the history, evicting the oldest entry past the cap.
    fn record_price(&mut self, p: i64)
        requires
            old(self).stock_price_history@.len() <= PRICE_HISTORY_CAP,
        ensures
            final(self)@ == (CompanyModel { history: capped_push(old(self)@.history, p), ..old(self)@ }),
    {
        self.stock_price_history.push(p);
        if self.stock_price_history.len() > PRICE_HISTORY_CAP {
            self.stock_price_history.remove(0);
            assert(self.stock_price_history@ =~= capped_push(old(self)@.history, p));
        }
    }

    /// Sets a new price, which is added to the history; a negative price is
    /// refused and changes nothing.
    pub fn set_stock_price(&mut self, new_price: i64) -> (r: Result<(), MarketError>)
        requires
            old(self).wf(),
        ensures
            final(self).wf(),
            new_price < 0 ==> r == Err::<(), MarketError>(MarketError::InvalidArgument)
                && final(self)@ == old(self)@,
            new_price >= 0 ==> r is Ok && final(self)@ == old(self)@.priced(new_price),
    {
        if new_price < 0 {
            return Err(MarketError::InvalidArgument);
        }
        self.stock_price = new_price;
        self.record_price(new_price);
        proof {
            let h = self@.history;
            assert(h.last() == new_price);
            assert forall|i: int| 0 <= i < h.len() implies #[trigger] h[i] >= 0 by {
                let g = old(self)@.history.push(new_price);
                assert(forall|j: int| 0 <= j < g.len() ==> #[trigger] g[j] >= 0);
                if g.len() > PRICE_HISTORY_CAP {
                    assert(h[i] == g[i + g.len() - PRICE_HISTORY_CAP]);
                }
            }
        }
        Ok(())
    }

    /// Moves the price by `delta` cents. A candidate price below zero is
    /// refused: price and history stay exactly as they were. Returns whether
    /// the move was applied.
    pub fn step_price(&mut self, delta: i64) -> (applied: bool)
        requires
            old(self).wf(),
        ensures
            final(self).wf(),
            final(self)@ == old(self)@.stepped(delta),
            applied == (0 <= old(self)@.price + delta <= i64::MAX),
    {
        match self.stock_price.checked_add(delta) {
            Some(candidate) => {
                if candidate < 0 {
                    false
                } else {
                    let _ = self.set_stock_price(candidate);
                    true
                }
            },
            None => false,
        }
    }

    /// Starts the history afresh at `new_price`; a negative price is refused
    /// and changes nothing.
    pub fn reset_company(&mut self, new_price: i64) -> (r: Result<(), MarketError>)
        requires
            old(self).wf(),
        ensures
            final(self).wf(),
            new_price < 0 ==> r == Err::<(), MarketError>(MarketError::InvalidArgument)
                && final(self)@ == old(self)@,
            new_price >= 0 ==> r is Ok && final(self)@ == old(self)@.reset_to(new_price),
    {
        if new_price < 0 {
            return Err(MarketError::InvalidArgument);
        }
        self.stock_price_history.clear();
        self.stock_price = new_price;
        self.stock_price_history.push(new_price);
        assert(self@.history =~= seq![new_price]);
        Ok(())
    }

    /// Sells `buy_amount` shares to `user` at the current price, as
    /// `User::buy_stock` does.
    pub fn purchase_stock(&self, user: &mut User, buy_amount: u64) -> (r: Result<(), MarketError>)
        requires
            old(user).wf(),
        ensures
            final(user).wf(),
            buy_outcome(
                old(user)@,
                self@.id,
                self@.name,
                self@.price as int,
                buy_amount as nat,
            ) matches Ok(after) ==> r is Ok && final(user)@ == after,
            buy_outcome(
                old(user)@,
                self@.id,
                self@.name,
                self@.price as int,
                buy_amount as nat,
            ) matches Err(e) ==> r == Err::<(), MarketError>(e) && final(user)@ == old(user)@,
    {
        let stock = Stock::new(self.id, self.name.clone(), self.stock_price);
        user.buy_stock(stock, buy_amount)
    }
}

} // verus!
