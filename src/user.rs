use vstd::prelude::*;

use crate::company_manager::{company_with_id, has_company_id, CompanyManager};
use crate::error::MarketError;
use crate::id::{IdIssuer, ID};
use crate::password::Password;
use crate::stock::{
    has_position, portfolio_value, position_index, position_or_empty, wallet_bought, PositionModel,
    Stock, StockWallet,
};

verus! {

/// The cash an account starts with, in cents.
pub const STARTING_MONEY: i64 = 100_000;

/// An account, in the terms that contracts speak of.
pub struct UserModel {
    pub id: nat,
    pub user_name: Seq<char>,
    pub display_name: Seq<char>,
    pub password: Seq<u16>,
    /// The cash balance, in cents.
    pub money: i64,
    pub wallet: Seq<PositionModel>,
}

impl UserModel {
    pub open spec fn wf(self) -> bool {
        &&& self.money >= 0
        &&& crate::stock::wallet_wf(self.wallet)
    }

    /// Cash plus the market value of every holding at `companies`' prices.
    pub open spec fn net_worth(self, companies: Seq<crate::company::CompanyModel>) -> int {
        self.money + portfolio_value(self.wallet, companies)
    }
}

/// What a purchase of `amount` shares of company `company_id` (named
/// `name`) at `price` cents each does to account `u`: the new account, or
/// the error that refuses it. The funds check and the debit see the same
/// balance.
pub open spec fn buy_outcome(
    u: UserModel,
    company_id: nat,
    name: Seq<char>,
    price: int,
    amount: nat,
) -> Result<UserModel, MarketError> {
    if price < 0 || amount == 0 {
        Err(MarketError::InvalidArgument)
    } else if price * amount > u.money {
        Err(MarketError::InsufficientFunds)
    } else if !position_or_empty(u.wallet, company_id, name).buy_fits(price as nat, amount) {
        Err(MarketError::InvalidArgument)
    } else {
        Ok(
            UserModel {
                money: (u.money - price * amount) as i64,
                wallet: wallet_bought(u.wallet, company_id, name, price as nat, amount),
                ..u
            },
        )
    }
}

/// What a sale of `amount` shares of company `company_id` does to account
/// `u` at the prices of `companies`: the new account, or the error that
/// refuses it.
pub open spec fn sell_outcome(
    u: UserModel,
    companies: Seq<crate::company::CompanyModel>,
    company_id: nat,
    amount: nat,
) -> Result<UserModel, MarketError> {
    if !has_position(u.wallet, company_id) {
        Err(MarketError::NotFound)
    } else if amount > u.wallet[position_index(u.wallet, company_id)].quantity {
        Err(MarketError::InsufficientHoldings)
    } else if !has_company_id(companies, company_id) {
        Err(MarketError::NotFound)
    } else if u.money + company_with_id(companies, company_id).price * amount > i64::MAX {
        Err(MarketError::InvalidArgument)
    } else {
        Ok(
            UserModel {
                money: (u.money + company_with_id(companies, company_id).price * amount) as i64,
                wallet: u.wallet.update(
                    position_index(u.wallet, company_id),
                    u.wallet[position_index(u.wallet, company_id)].sold(amount),
                ),
                ..u
            },
        )
    }
}

/// An account: it spends its cash on shares of companies and sells them back
/// at the current price.
pub struct User {
    id: ID,
    user_name: String,
    display_name: String,
    password: Password,
    money: i64,
    stock_wallet: StockWallet,
}

impl View for User {
    type V = UserModel;

    closed spec fn view(&self) -> UserModel {
        UserModel {
            id: self.id@,
            user_name: self.user_name@,
            display_name: self.display_name@,
            password: self.password@,
            money: self.money,
            wallet: self.stock_wallet@,
        }
    }
}

impl User {
    pub open spec fn wf(&self) -> bool {
        self@.wf()
    }

    /// An account with the starting cash and no holdings.
    pub fn new(ids: &mut IdIssuer, user_name: String, display_name: String, password: Password) -> (r:
        User)
        requires
            old(ids).next_value() < usize::MAX,
        ensures
            r.wf(),
            r@ == (UserModel {
                id: old(ids).next_value(),
                user_name: user_name@,
                display_name: display_name@,
                password: password@,
                money: STARTING_MONEY,
                wallet: Seq::empty(),
            }),
            final(ids).next_value() == old(ids).next_value() + 1,
    {
        User {
            id: ID::new(ids),
            user_name,
            display_name,
            password,
            money: STARTING_MONEY,
            stock_wallet: StockWallet::new(),
        }
    }

    /// The account's identifier.
    pub fn id(&self) -> (r: ID)
        ensures
            r@ == self@.id,
    {
        self.id
    }

    /// The login name.
    pub fn user_name(&self) -> (r: &String)
        ensures
            r@ == self@.user_name,
    {
        &self.user_name
    }

    /// The name shown on the leaderboard.
    pub fn display_name(&self) -> (r: &String)
        ensures
            r@ == self@.display_name,
    {
        &self.display_name
    }

    /// The cash balance, in cents.
    pub fn money(&self) -> (r: i64)
        ensures
            r == self@.money,
    {
        self.money
    }

    /// The account's holdings.
    pub fn wallet(&self) -> (r: &StockWallet)
        ensures
            r@ == self@.wallet,
    {
        &self.stock_wallet
    }

    /// The total number of shares held.
    pub fn stock_amount(&self) -> (r: u128)
        ensures
            r == crate::stock::total_quantity(self@.wallet),
    {
        self.stock_wallet.stock_amount()
    }

    /// Whether `password` is the account's.
    pub fn try_password(&self, password: Password) -> (r: bool)
        ensures
            r == (self@.password == password@),
    {
        self.password.compare(password)
    }

    /// Buys `buy_amount` shares of `stock` at its price. The funds check and
    /// the debit are one step. Fails with `InvalidArgument` when the price is
    /// negative or `buy_amount` is zero, with `InsufficientFunds` when the
    /// cash does not cover the cost, and with `InvalidArgument` when the
    /// holding would not fit the integer types; a failure changes nothing.
    pub fn buy_stock(&mut self, stock: Stock, buy_amount: u64) -> (r: Result<(), MarketError>)
        requires
            old(self).wf(),
        ensures
            final(self).wf(),
            final(self)@.id == old(self)@.id,
            final(self)@.user_name == old(self)@.user_name,
            final(self)@.display_name == old(self)@.display_name,
            final(self)@.password == old(self)@.password,
            buy_outcome(
                old(self)@,
                stock.spec_company_id()@,
                stock.spec_name(),
                stock.spec_purchase_price() as int,
                buy_amount as nat,
            ) matches Ok(after) ==> r is Ok && final(self)@ == after,
            buy_outcome(
                old(self)@,
                stock.spec_company_id()@,
                stock.spec_name(),
                stock.spec_purchase_price() as int,
                buy_amount as nat,
            ) matches Err(e) ==> r == Err::<(), MarketError>(e) && final(self)@ == old(self)@,
    {
        let price = stock.purchase_price();
        if price < 0 || buy_amount == 0 {
            return Err(MarketError::InvalidArgument);
        }
        let p = price as u128;
        assert(p * (buy_amount as u128) <= u128::MAX) by (nonlinear_arith)
            requires
                p <= i64::MAX,
                buy_amount <= u64::MAX,
        ;
        let total_cost: u128 = p * (buy_amount as u128);
        if total_cost > self.money as u128 {
            return Err(MarketError::InsufficientFunds);
        }
        let r = self.stock_wallet.add_stock(stock, buy_amount);
        if r.is_ok() {
            self.money = self.money - total_cost as i64;
        }
        r
    }

    /// Sells `sell_amount` shares of company `company_id` at its current
    /// price and adds the proceeds to the cash. Fails with `NotFound` when
    /// there is no such holding or the company is not listed, with
    /// `InsufficientHoldings` when fewer shares are held, and with
    /// `InvalidArgument` when the cash would not fit an `i64`; a failure
    /// changes nothing. The holding's average cost never changes.
    pub fn sell_stock(&mut self, company_manager: &CompanyManager, company_id: ID, sell_amount: u64) -> (r:
        Result<(), MarketError>)
        requires
            old(self).wf(),
            company_manager.wf(),
        ensures
            final(self).wf(),
            final(self)@.id == old(self)@.id,
            final(self)@.user_name == old(self)@.user_name,
            final(self)@.display_name == old(self)@.display_name,
            final(self)@.password == old(self)@.password,
            sell_outcome(old(self)@, company_manager@, company_id@, sell_amount as nat) matches Ok(
                after,
            ) ==> r is Ok && final(self)@ == after,
            sell_outcome(old(self)@, company_manager@, company_id@, sell_amount as nat) matches Err(
                e,
            ) ==> r == Err::<(), MarketError>(e),
            r is Err ==> final(self)@ == old(self)@,
    {
        let held = match self.stock_wallet.get_stock_holder_by_id(company_id) {
            Ok(holder) => holder.stock_amount(),
            Err(e) => return Err(e),
        };
        if sell_amount > held {
            return Err(MarketError::InsufficientHoldings);
        }
        let price = match company_manager.get_company_by_id(company_id) {
            Ok(company) => company.stock_price(),
            Err(e) => return Err(e),
        };
        let p = price as u128;
        assert(p * (sell_amount as u128) <= u128::MAX) by (nonlinear_arith)
            requires
                p <= i64::MAX,
                sell_amount <= u64::MAX,
        ;
        let proceeds: u128 = p * (sell_amount as u128);
        if proceeds > (i64::MAX - self.money) as u128 {
            return Err(MarketError::InvalidArgument);
        }
        let r = self.stock_wallet.sell_stock(company_manager, company_id, sell_amount);
        match r {
            Ok(earned) => {
                self.money = self.money + earned as i64;
                Ok(())
            },
            Err(e) => Err(e),
        }
    }

    /// Cash plus the market value of every holding, in cents; a holding whose
    /// company is not listed counts for nothing. `None` when the total does
    /// not fit a `u128`.
    pub fn value(&self, company_manager: &CompanyManager) -> (r: Option<u128>)
        requires
            self.wf(),
            company_manager.wf(),
        ensures
            r matches Some(v) ==> v == self@.net_worth(company_manager@),
            r is None ==> self@.net_worth(company_manager@) > u128::MAX,
    {
        match self.stock_wallet.total_value(company_manager) {
            Some(v) => (self.money as u128).checked_add(v),
            None => None,
        }
    }

    /// Puts the account back to its starting cash, with no holdings.
    pub fn reset(&mut self)
        requires
            old(self).wf(),
        ensures
            final(self).wf(),
            final(self)@ == (UserModel {
                money: STARTING_MONEY,
                wallet: Seq::empty(),
                ..old(self)@
            }),
    {
        self.money = STARTING_MONEY;
        self.stock_wallet = StockWallet::new();
    }
}

/// Cash left after a run of purchase attempts, where attempt `k` costs
/// `costs[k]` and debits it exactly when `succeeded[k]`.
pub open spec fn cash_after(cash: int, costs: Seq<nat>, succeeded: Seq<bool>) -> int
    decreases costs.len(),
{
    if costs.len() == 0 || succeeded.len() != costs.len() {
        cash
    } else {
        let before = cash_after(cash, costs.drop_last(), succeeded.drop_last());
        if succeeded.last() {
            before - costs.last()
        } else {
            before
        }
    }
}

/// What the successful attempts of a run cost in all.
pub open spec fn spent(costs: Seq<nat>, succeeded: Seq<bool>) -> int
    decreases costs.len(),
{
    if costs.len() == 0 || succeeded.len() != costs.len() {
        0
    } else {
        spent(costs.drop_last(), succeeded.drop_last()) + if succeeded.last() {
            costs.last() as int
        } else {
            0
        }
    }
}

/// Whether each attempt of a run succeeded only when the cash left at its
/// turn covered its cost, as `User::buy_stock` guarantees.
pub open spec fn covered_run(cash: int, costs: Seq<nat>, succeeded: Seq<bool>) -> bool {
    &&& succeeded.len() == costs.len()
    &&& forall|k: int|
        0 <= k < costs.len() && #[trigger] succeeded[k] ==> costs[k] <= cash_after(
            cash,
            costs.subrange(0, k),
            succeeded.subrange(0, k),
        )
}

/// However purchases on one account are interleaved, each runs as one step
/// under the account's lock, so they form a run. In any such run the
/// successful purchases cost no more than the starting cash, and the cash
/// never drops below zero.
pub proof fn lemma_purchases_never_overdraw(cash: nat, costs: Seq<nat>, succeeded: Seq<bool>)
    requires
        covered_run(cash as int, costs, succeeded),
    ensures
        cash_after(cash as int, costs, succeeded) == cash - spent(costs, succeeded),
        spent(costs, succeeded) <= cash,
        cash_after(cash as int, costs, succeeded) >= 0,
    decreases costs.len(),
{
    if costs.len() > 0 {
        let n = costs.len() - 1;
        let c0 = costs.drop_last();
        let s0 = succeeded.drop_last();
        assert forall|k: int| 0 <= k < c0.len() && #[trigger] s0[k] implies c0[k] <= cash_after(
            cash as int,
            c0.subrange(0, k),
            s0.subrange(0, k),
        ) by {
            assert(succeeded[k]);
            assert(c0.subrange(0, k) =~= costs.subrange(0, k));
            assert(s0.subrange(0, k) =~= succeeded.subrange(0, k));
        }
        lemma_purchases_never_overdraw(cash, c0, s0);
        if succeeded.last() {
            assert(succeeded[n]);
            assert(costs.subrange(0, n) =~= c0);
            assert(succeeded.subrange(0, n) =~= s0);
        }
    }
}

} // verus!
