use vstd::arithmetic::div_mod::lemma_div_by_multiple;
use vstd::prelude::*;

use crate::company_manager::{company_with_id, has_company_id, CompanyManager};
use crate::error::MarketError;
use crate::id::ID;

verus! {

/// One holding, in the terms that contracts speak of.
///
/// The average cost of the held units is the exact fraction
/// `cost / basis`: `cost` is the book cost, in cents, of `basis` units.
/// A sale lowers `quantity` alone, so it never moves the average; a
/// purchase spreads the book cost of the units still held, plus what was
/// paid, over the new quantity.
pub struct PositionModel {
    pub company_id: nat,
    pub company_name: Seq<char>,
    pub quantity: nat,
    pub cost: nat,
    pub basis: nat,
}

impl PositionModel {
    /// No units held, nothing paid.
    pub open spec fn empty(company_id: nat, company_name: Seq<char>) -> PositionModel {
        PositionModel { company_id, company_name, quantity: 0, cost: 0, basis: 0 }
    }

    pub open spec fn wf(self) -> bool {
        &&& self.quantity <= self.basis
        &&& self.basis == 0 ==> self.cost == 0
        &&& self.basis <= u64::MAX
        &&& self.cost <= u128::MAX
    }

    /// The book cost of the units held now, rounded down to a cent.
    pub open spec fn held_cost(self) -> nat {
        if self.basis == 0 {
            0
        } else {
            (self.cost * self.quantity / self.basis) as nat
        }
    }

    /// The average cost of a unit, rounded down to a cent (zero when
    /// nothing was ever bought).
    pub open spec fn average_cost(self) -> nat {
        if self.basis == 0 {
            0
        } else {
            self.cost / self.basis
        }
    }

    /// Whether a purchase of `amount` units at `price` can be recorded
    /// within the integer types.
    pub open spec fn buy_fits(self, price: nat, amount: nat) -> bool {
        &&& self.quantity + amount <= u64::MAX
        &&& self.quantity != self.basis ==> self.cost * self.quantity <= u128::MAX
        &&& self.held_cost() + price * amount <= u128::MAX
    }

    /// The holding once `amount` units were bought at `price`.
    pub open spec fn bought(self, price: nat, amount: nat) -> PositionModel {
        PositionModel {
            quantity: self.quantity + amount,
            cost: self.held_cost() + price * amount,
            basis: self.quantity + amount,
            ..self
        }
    }

    /// The holding once `amount` units were sold.
    pub open spec fn sold(self, amount: nat) -> PositionModel {
        PositionModel { quantity: (self.quantity - amount) as nat, ..self }
    }
}

/// Shares of a company at the price they are bought for.
pub struct Stock {
    company_id: ID,
    name: String,
    purchase_price: i64,
}

impl Stock {
    /// Shares of company `company_id`, named `name`, at `purchase_price`
    /// cents each.
    pub fn new(company_id: ID, name: String, purchase_price: i64) -> (r: Stock)
        ensures
            r.company_id() == company_id,
            r.spec_name() == name@,
            r.purchase_price() == purchase_price,
    {
        Stock { company_id, name, purchase_price }
    }

    pub closed spec fn spec_company_id(&self) -> ID {
        self.company_id
    }

    pub closed spec fn spec_name(&self) -> Seq<char> {
        self.name@
    }

    pub closed spec fn spec_purchase_price(&self) -> i64 {
        self.purchase_price
    }

    /// The company whose shares these are.
    #[verifier::when_used_as_spec(spec_company_id)]
    pub fn company_id(&self) -> (r: ID)
        ensures
            r == self.spec_company_id(),
    {
        self.company_id
    }

    /// The name of the company.
    pub fn name(&self) -> (r: &String)
        ensures
            r@ == self.spec_name(),
    {
        &self.name
    }

    /// The price paid for one share, in cents.
    #[verifier::when_used_as_spec(spec_purchase_price)]
    pub fn purchase_price(&self) -> (r: i64)
        ensures
            r == self.spec_purchase_price(),
    {
        self.purchase_price
    }

    /// The current price of one share, or `None` when the company is not
    /// listed.
    pub fn value(&self, company_manager: &CompanyManager) -> (r: Option<i64>)
        ensures
            r is None <==> !has_company_id(company_manager@, self.company_id()@),
            company_manager.wf() ==> (r matches Some(p) ==> p == company_with_id(
                company_manager@,
                self.company_id()@,
            ).price),
    {
        match company_manager.get_company_by_id(self.company_id) {
            Ok(company) => Some(company.stock_price()),
            Err(_) => None,
        }
    }
}

/// All of an account's shares of one company.
pub struct StockHolder {
    company_name: String,
    company_id: ID,
    stock_amount: u64,
    cost: u128,
    basis: u64,
}

impl View for StockHolder {
    type V = PositionModel;

    closed spec fn view(&self) -> PositionModel {
        PositionModel {
            company_id: self.company_id@,
            company_name: self.company_name@,
            quantity: self.stock_amount as nat,
            cost: self.cost as nat,
            basis: self.basis as nat,
        }
    }
}

impl StockHolder {
    pub open spec fn wf(&self) -> bool {
        self@.wf()
    }

    /// A holding of no shares of company `company_id`.
    pub fn new(company_name: String, company_id: ID) -> (r: StockHolder)
        ensures
            r.wf(),
            r@ == PositionModel::empty(company_id@, company_name@),
    {
        StockHolder { company_name, company_id, stock_amount: 0, cost: 0, basis: 0 }
    }

    /// The name of the company.
    pub fn company_name(&self) -> (r: &String)
        ensures
            r@ == self@.company_name,
    {
        &self.company_name
    }

    /// The identifier of the company.
    pub fn company_id(&self) -> (r: ID)
        ensures
            r@ == self@.company_id,
    {
        self.company_id
    }

    /// The average price paid for a held share, in cents, rounded down.
    pub fn avg_purchase_price(&self) -> (r: u128)
        ensures
            r == self@.average_cost(),
    {
        if self.basis == 0 {
            0
        } else {
            self.cost / (self.basis as u128)
        }
    }

    /// The number of shares held.
    pub fn stock_amount(&self) -> (r: u64)
        ensures
            r == self@.quantity,
    {
        self.stock_amount
    }

    /// Records the purchase of `amount` shares of `stock`. Fails with
    /// `InvalidArgument`, changing nothing, when the shares are of another
    /// company, the price is negative, `amount` is zero, or the result would
    /// not fit the integer types.
    pub fn add_stock(&mut self, stock: &Stock, amount: u64) -> (r: Result<(), MarketError>)
        requires
            old(self).wf(),
        ensures
            final(self).wf(),
            r is Ok <==> stock.spec_company_id()@ == old(self)@.company_id
                && stock.spec_purchase_price() >= 0 && amount > 0 && old(self)@.buy_fits(
                stock.spec_purchase_price() as nat,
                amount as nat,
            ),
            r is Err ==> r == Err::<(), MarketError>(MarketError::InvalidArgument)
                && final(self)@ == old(self)@,
            r is Ok ==> final(self)@ == old(self)@.bought(
                stock.spec_purchase_price() as nat,
                amount as nat,
            ),
    {
        if !stock.company_id().equals(self.company_id) || stock.purchase_price() < 0 || amount
            == 0 {
            return Err(MarketError::InvalidArgument);
        }
        let new_amount = match self.stock_amount.checked_add(amount) {
            Some(n) => n,
            None => return Err(MarketError::InvalidArgument),
        };
        let held: u128 = if self.stock_amount == self.basis {
            proof {
                if self.basis > 0 {
                    lemma_div_by_multiple(self.cost as int, self.basis as int);
                }
            }
            self.cost
        } else {
            match self.cost.checked_mul(self.stock_amount as u128) {
                Some(x) => x / (self.basis as u128),
                None => return Err(MarketError::InvalidArgument),
            }
        };
        assert(held == self@.held_cost());
        let price = stock.purchase_price() as u128;
        assert(price * (amount as u128) <= u128::MAX) by (nonlinear_arith)
            requires
                price <= i64::MAX,
                amount <= u64::MAX,
        ;
        let paid: u128 = price * (amount as u128);
        let new_cost = match held.checked_add(paid) {
            Some(c) => c,
            None => return Err(MarketError::InvalidArgument),
        };
        self.stock_amount = new_amount;
        self.basis = new_amount;
        self.cost = new_cost;
        Ok(())
    }

    /// Sells `sell_amount` shares at the company's current price and returns
    /// the proceeds, in cents. Fails with `InsufficientHoldings` when fewer
    /// shares are held, and with `NotFound` when the company is not listed;
    /// a failure changes nothing. The average cost never changes.
    pub fn sell_stock(&mut self, company_manager: &CompanyManager, sell_amount: u64) -> (r: Result<
        u128,
        MarketError,
    >)
        requires
            old(self).wf(),
            company_manager.wf(),
        ensures
            final(self).wf(),
            sell_amount > old(self)@.quantity ==> r == Err::<u128, MarketError>(
                MarketError::InsufficientHoldings,
            ),
            sell_amount <= old(self)@.quantity && !has_company_id(
                company_manager@,
                old(self)@.company_id,
            ) ==> r == Err::<u128, MarketError>(MarketError::NotFound),
            r is Err ==> final(self)@ == old(self)@,
            r is Ok <==> sell_amount <= old(self)@.quantity && has_company_id(
                company_manager@,
                old(self)@.company_id,
            ),
            r matches Ok(proceeds) ==> proceeds == company_with_id(
                company_manager@,
                old(self)@.company_id,
            ).price * sell_amount && final(self)@ == old(self)@.sold(sell_amount as nat),
    {
        if self.stock_amount < sell_amount {
            return Err(MarketError::InsufficientHoldings);
        }
        let price = match company_manager.get_company_by_id(self.company_id) {
            Ok(company) => company.stock_price(),
            Err(e) => return Err(e),
        };
        let p = price as u128;
        assert(p * (sell_amount as u128) <= u128::MAX) by (nonlinear_arith)
            requires
                p <= i64::MAX,
                sell_amount <= u64::MAX,
        ;
        self.stock_amount = self.stock_amount - sell_amount;
        Ok(p * (sell_amount as u128))
    }
}

/// Whether `s` holds a position in company `company_id`.
pub open spec fn has_position(s: Seq<PositionModel>, company_id: nat) -> bool {
    exists|i: int| 0 <= i < s.len() && (#[trigger] s[i]).company_id == company_id
}

/// Where in `s` the position in company `company_id` stands (meaningful
/// when there is one).
pub open spec fn position_index(s: Seq<PositionModel>, company_id: nat) -> int {
    choose|i: int| 0 <= i < s.len() && (#[trigger] s[i]).company_id == company_id
}

/// Every position is well formed, and there is at most one per company.
pub open spec fn wallet_wf(s: Seq<PositionModel>) -> bool {
    &&& forall|i: int| 0 <= i < s.len() ==> (#[trigger] s[i]).wf()
    &&& forall|i: int, j: int|
        0 <= i < j < s.len() ==> #[trigger] s[i].company_id != #[trigger] s[j].company_id
}

/// The position in company `company_id`, or an empty one named `name`.
pub open spec fn position_or_empty(
    s: Seq<PositionModel>,
    company_id: nat,
    name: Seq<char>,
) -> PositionModel {
    if has_position(s, company_id) {
        s[position_index(s, company_id)]
    } else {
        PositionModel::empty(company_id, name)
    }
}

/// The positions once `amount` shares of company `company_id` (named
/// `name`) were bought at `price`: only that company's position changes.
pub open spec fn wallet_bought(
    s: Seq<PositionModel>,
    company_id: nat,
    name: Seq<char>,
    price: nat,
    amount: nat,
) -> Seq<PositionModel> {
    if has_position(s, company_id) {
        let i = position_index(s, company_id);
        s.update(i, s[i].bought(price, amount))
    } else {
        s.push(PositionModel::empty(company_id, name).bought(price, amount))
    }
}

/// The total number of shares held over all positions.
pub open spec fn total_quantity(s: Seq<PositionModel>) -> nat
    decreases s.len(),
{
    if s.len() == 0 {
        0
    } else {
        total_quantity(s.drop_last()) + s.last().quantity
    }
}

/// The market value of one position: nothing when its company is not listed.
pub open spec fn position_value(
    p: PositionModel,
    companies: Seq<crate::company::CompanyModel>,
) -> int {
    if has_company_id(companies, p.company_id) {
        p.quantity * company_with_id(companies, p.company_id).price
    } else {
        0
    }
}

/// The market value of all positions in `s`, at the prices of `companies`.
pub open spec fn portfolio_value(
    s: Seq<PositionModel>,
    companies: Seq<crate::company::CompanyModel>,
) -> int
    decreases s.len(),
{
    if s.len() == 0 {
        0
    } else {
        portfolio_value(s.drop_last(), companies) + position_value(s.last(), companies)
    }
}

/// All of an account's holdings, at most one per company.
pub struct StockWallet {
    holders: Vec<StockHolder>,
}

impl View for StockWallet {
    type V = Seq<PositionModel>;

    closed spec fn view(&self) -> Seq<PositionModel> {
        self.holders@.map_values(|h: StockHolder| h@)
    }
}

impl StockWallet {
    pub open spec fn wf(&self) -> bool {
        wallet_wf(self@)
    }

    /// A wallet with no holdings.
    pub fn new() -> (r: StockWallet)
        ensures
            r.wf(),
            r@ == Seq::<PositionModel>::empty(),
    {
        let r = StockWallet { holders: Vec::new() };
        assert(r@ =~= Seq::<PositionModel>::empty());
        r
    }

    /// Every holding, in the order the companies were first bought.
    pub fn holders(&self) -> (r: &Vec<StockHolder>)
        ensures
            r@.map_values(|h: StockHolder| h@) == self@,
    {
        &self.holders
    }

    /// The total number of shares in the wallet.
    pub fn stock_amount(&self) -> (r: u128)
        ensures
            r == total_quantity(self@),
    {
        let mut total: u128 = 0;
        let mut i: usize = 0;
        while i < self.holders.len()
            invariant
                i <= self.holders@.len(),
                self@.len() == self.holders@.len(),
                total == total_quantity(self@.subrange(0, i as int)),
                total <= i * (u64::MAX as int),
            decreases self.holders@.len() - i,
        {
            let q = self.holders[i].stock_amount();
            assert(self@.subrange(0, i + 1).drop_last() =~= self@.subrange(0, i as int));
            assert(self@[i as int] == self.holders@[i as int]@);
            assert(total + q <= (i + 1) * (u64::MAX as int)) by (nonlinear_arith)
                requires
                    total <= i * (u64::MAX as int),
                    q <= u64::MAX,
            ;
            assert((i + 1) * (u64::MAX as int) <= u128::MAX) by (nonlinear_arith)
                requires
                    i < usize::MAX,
            ;
            total = total + q as u128;
            i = i + 1;
        }
        assert(self@.subrange(0, i as int) =~= self@);
        total
    }

    /// Where the holding of company `company_id` stands, if there is one.
    fn index_of(&self, company_id: ID) -> (r: Option<usize>)
        requires
            self.wf(),
        ensures
            r matches Some(i) ==> i < self@.len() && has_position(self@, company_id@) && i
                == position_index(self@, company_id@),
            r is None ==> !has_position(self@, company_id@),
    {
        let mut i: usize = 0;
        while i < self.holders.len()
            invariant
                i <= self.holders@.len(),
                self@.len() == self.holders@.len(),
                forall|k: int| 0 <= k < i ==> (#[trigger] self@[k]).company_id != company_id@,
                self.wf(),
            decreases self.holders@.len() - i,
        {
            assert(self@[i as int] == self.holders@[i as int]@);
            if self.holders[i].company_id().equals(company_id) {
                proof {
                    assert(self@[i as int].company_id == company_id@);
                    assert(has_position(self@, company_id@));
                    let j = position_index(self@, company_id@);
                    if j != i {
                        if j < i {
                            assert(self@[j].company_id != self@[i as int].company_id);
                        } else {
                            assert(self@[i as int].company_id != self@[j].company_id);
                        }
                    }
                }
                return Some(i);
            }
            i = i + 1;
        }
        None
    }

    /// The holding of company `company_id`, or `NotFound`.
    pub fn get_stock_holder_by_id(&self, company_id: ID) -> (r: Result<&StockHolder, MarketError>)
        requires
            self.wf(),
        ensures
            r is Err <==> !has_position(self@, company_id@),
            r is Err ==> r == Err::<&StockHolder, MarketError>(MarketError::NotFound),
            r matches Ok(h) ==> h@ == self@[position_index(self@, company_id@)],
    {
        match self.index_of(company_id) {
            Some(i) => {
                assert(self@[i as int] == self.holders@[i as int]@);
                Ok(&self.holders[i])
            },
            None => Err(MarketError::NotFound),
        }
    }

    /// Records the purchase of `amount` shares of `stock`, in the holding of
    /// its company, which is opened when there is none. Fails with
    /// `InvalidArgument`, changing nothing, when the price is negative,
    /// `amount` is zero, or the result would not fit the integer types.
    pub fn add_stock(&mut self, stock: Stock, amount: u64) -> (r: Result<(), MarketError>)
        requires
            old(self).wf(),
        ensures
            final(self).wf(),
            r is Ok <==> stock.spec_purchase_price() >= 0 && amount > 0 && position_or_empty(
                old(self)@,
                stock.spec_company_id()@,
                stock.spec_name(),
            ).buy_fits(stock.spec_purchase_price() as nat, amount as nat),
            r is Err ==> r == Err::<(), MarketError>(MarketError::InvalidArgument)
                && final(self)@ == old(self)@,
            r is Ok ==> final(self)@ == wallet_bought(
                old(self)@,
                stock.spec_company_id()@,
                stock.spec_name(),
                stock.spec_purchase_price() as nat,
                amount as nat,
            ),
    {
        match self.index_of(stock.company_id()) {
            Some(i) => {
                let ghost before = self@;
                assert(before[i as int] == self.holders@[i as int]@);
                let r = self.holders[i].add_stock(&stock, amount);
                proof {
                    if r is Ok {
                        assert(self@ =~= before.update(
                            i as int,
                            before[i as int].bought(stock.spec_purchase_price() as nat, amount as nat),
                        ));
                    } else {
                        assert(self@ =~= before);
                    }
                }
                r
            },
            None => {
                let mut holder = StockHolder::new(stock.name().clone(), stock.company_id());
                let r = holder.add_stock(&stock, amount);
                if r.is_ok() {
                    let ghost before = self@;
                    self.holders.push(holder);
                    proof {
                        assert(self@ =~= before.push(holder@));
                        assert forall|i: int, j: int|
                            0 <= i < j < self@.len() implies #[trigger] self@[i].company_id
                            != #[trigger] self@[j].company_id by {
                            if j == before.len() {
                                assert(before[i].company_id != stock.spec_company_id()@);
                            }
                        }
                    }
                }
                r
            },
        }
    }

    /// Sells `sell_amount` shares of company `company_id` at its current
    /// price and returns the proceeds, in cents. Fails with `NotFound` when
    /// there is no such holding or the company is not listed, and with
    /// `InsufficientHoldings` when fewer shares are held; a failure changes
    /// nothing.
    pub fn sell_stock(
        &mut self,
        company_manager: &CompanyManager,
        company_id: ID,
        sell_amount: u64,
    ) -> (r: Result<u128, MarketError>)
        requires
            old(self).wf(),
            company_manager.wf(),
        ensures
            final(self).wf(),
            !has_position(old(self)@, company_id@) ==> r == Err::<u128, MarketError>(
                MarketError::NotFound,
            ),
            has_position(old(self)@, company_id@) && sell_amount > old(self)@[position_index(
                old(self)@,
                company_id@,
            )].quantity ==> r == Err::<u128, MarketError>(MarketError::InsufficientHoldings),
            has_position(old(self)@, company_id@) && sell_amount <= old(self)@[position_index(
                old(self)@,
                company_id@,
            )].quantity && !has_company_id(company_manager@, company_id@) ==> r == Err::<
                u128,
                MarketError,
            >(MarketError::NotFound),
            r is Err ==> final(self)@ == old(self)@,
            r is Ok <==> has_position(old(self)@, company_id@) && sell_amount <= old(
                self,
            )@[position_index(old(self)@, company_id@)].quantity && has_company_id(
                company_manager@,
                company_id@,
            ),
            r matches Ok(proceeds) ==> proceeds == company_with_id(
                company_manager@,
                company_id@,
            ).price * sell_amount && final(self)@ == old(self)@.update(
                position_index(old(self)@, company_id@),
                old(self)@[position_index(old(self)@, company_id@)].sold(sell_amount as nat),
            ),
    {
        match self.index_of(company_id) {
            Some(i) => {
                let ghost before = self@;
                assert(before[i as int] == self.holders@[i as int]@);
                let r = self.holders[i].sell_stock(company_manager, sell_amount);
                proof {
                    if r is Ok {
                        assert(self@ =~= before.update(
                            i as int,
                            before[i as int].sold(sell_amount as nat),
                        ));
                    } else {
                        assert(self@ =~= before);
                    }
                }
                r
            },
            None => Err(MarketError::NotFound),
        }
    }

    /// The market value of all holdings, in cents, at the companies' current
    /// prices; a holding whose company is not listed counts for nothing.
    /// `None` when the total does not fit a `u128`.
    pub fn total_value(&self, company_manager: &CompanyManager) -> (r: Option<u128>)
        requires
            company_manager.wf(),
        ensures
            r matches Some(v) ==> v == portfolio_value(self@, company_manager@),
            r is None ==> portfolio_value(self@, company_manager@) > u128::MAX,
    {
        let mut total: u128 = 0;
        let mut i: usize = 0;
        while i < self.holders.len()
            invariant
                i <= self.holders@.len(),
                self@.len() == self.holders@.len(),
                company_manager.wf(),
                total == portfolio_value(self@.subrange(0, i as int), company_manager@),
            decreases self.holders@.len() - i,
        {
            assert(self@.subrange(0, i + 1).drop_last() =~= self@.subrange(0, i as int));
            assert(self@[i as int] == self.holders@[i as int]@);
            let q = self.holders[i].stock_amount();
            let term: u128 = match company_manager.get_company_by_id(self.holders[i].company_id()) {
                Ok(company) => {
                    let p = company.stock_price() as u128;
                    assert(p * (q as u128) <= u128::MAX) by (nonlinear_arith)
                        requires
                            p <= i64::MAX,
                            q <= u64::MAX,
                    ;
                    assert(q * company_with_id(company_manager@, self@[i as int].company_id).price
                        == p * q) by (nonlinear_arith)
                        requires
                            p == company_with_id(company_manager@, self@[i as int].company_id).price,
                    ;
                    p * (q as u128)
                },
                Err(_) => 0,
            };
            assert(portfolio_value(self@.subrange(0, i + 1), company_manager@) == total + term);
            match total.checked_add(term) {
                Some(t) => total = t,
                None => {
                    proof {
                        company_manager.lemma_prices_nonneg();
                        lemma_portfolio_value_prefix_le(self@, company_manager@, i + 1);
                    }
                    return None;
                },
            }
            i = i + 1;
        }
        assert(self@.subrange(0, i as int) =~= self@);
        Some(total)
    }
}

/// Every term of a portfolio's value is non-negative, so a prefix is worth
/// no more than the whole.
proof fn lemma_portfolio_value_prefix_le(
    s: Seq<PositionModel>,
    companies: Seq<crate::company::CompanyModel>,
    n: int,
)
    requires
        0 <= n <= s.len(),
        forall|i: int| 0 <= i < companies.len() ==> (#[trigger] companies[i]).price >= 0,
    ensures
        portfolio_value(s.subrange(0, n), companies) <= portfolio_value(s, companies),
    decreases s.len(),
{
    if n < s.len() {
        assert(s.drop_last().subrange(0, n) =~= s.subrange(0, n));
        lemma_portfolio_value_prefix_le(s.drop_last(), companies, n);
        lemma_position_value_nonneg(s.last(), companies);
    } else {
        assert(s.subrange(0, n) =~= s);
    }
}

proof fn lemma_position_value_nonneg(p: PositionModel, companies: Seq<crate::company::CompanyModel>)
    requires
        forall|i: int| 0 <= i < companies.len() ==> (#[trigger] companies[i]).price >= 0,
    ensures
        position_value(p, companies) >= 0,
{
    if has_company_id(companies, p.company_id) {
        let i = choose|i: int| 0 <= i < companies.len() && (#[trigger] companies[i]).id == p.company_id;
        assert(companies[i].price >= 0);
        assert(p.quantity * companies[i].price >= 0) by (nonlinear_arith)
            requires
                companies[i].price >= 0,
        ;
    }
}

/// What a sequence of purchases `(price, amount)` paid in all.
pub open spec fn total_paid(buys: Seq<(nat, nat)>) -> nat
    decreases buys.len(),
{
    if buys.len() == 0 {
        0
    } else {
        total_paid(buys.drop_last()) + buys.last().0 * buys.last().1
    }
}

/// How many units a sequence of purchases `(price, amount)` bought in all.
pub open spec fn total_units(buys: Seq<(nat, nat)>) -> nat
    decreases buys.len(),
{
    if buys.len() == 0 {
        0
    } else {
        total_units(buys.drop_last()) + buys.last().1
    }
}

/// The holding once each purchase `(price, amount)` of `buys` was recorded
/// in turn.
pub open spec fn after_buys(m: PositionModel, buys: Seq<(nat, nat)>) -> PositionModel
    decreases buys.len(),
{
    if buys.len() == 0 {
        m
    } else {
        after_buys(m, buys.drop_last()).bought(buys.last().0, buys.last().1)
    }
}

/// After any sequence of purchases into an empty holding, the average cost
/// is exactly the quantity-weighted mean of the prices paid: the book cost
/// is the total paid, and it is spread over every unit bought.
pub proof fn lemma_average_cost_is_weighted_mean(
    company_id: nat,
    name: Seq<char>,
    buys: Seq<(nat, nat)>,
)
    ensures
        after_buys(PositionModel::empty(company_id, name), buys).cost == total_paid(buys),
        after_buys(PositionModel::empty(company_id, name), buys).basis == total_units(buys),
        after_buys(PositionModel::empty(company_id, name), buys).quantity == total_units(buys),
        total_units(buys) == 0 ==> total_paid(buys) == 0,
    decreases buys.len(),
{
    if buys.len() > 0 {
        let prev = buys.drop_last();
        lemma_average_cost_is_weighted_mean(company_id, name, prev);
        let m = after_buys(PositionModel::empty(company_id, name), prev);
        if m.basis > 0 {
            assert(m.quantity == m.basis);
            lemma_div_by_multiple(m.cost as int, m.basis as int);
            assert((m.cost * m.quantity) / m.basis == m.cost);
            assert(m.held_cost() == m.cost);
        }
        if total_units(buys) == 0 {
            assert(buys.last().1 == 0);
            let (p, q) = buys.last();
            assert(p * q == 0) by (nonlinear_arith)
                requires
                    q == 0,
            ;
        }
    }
}

/// A purchase changes the holding of its own company only. So purchases of
/// other companies, interleaved in any order, leave a holding exactly as its
/// own purchases make it.
pub proof fn lemma_buy_leaves_other_holdings(
    s: Seq<PositionModel>,
    company_id: nat,
    name: Seq<char>,
    price: nat,
    amount: nat,
    other: nat,
    other_name: Seq<char>,
)
    requires
        wallet_wf(s),
        other != company_id,
    ensures
        has_position(wallet_bought(s, company_id, name, price, amount), other) == has_position(
            s,
            other,
        ),
        position_or_empty(wallet_bought(s, company_id, name, price, amount), other, other_name)
            == position_or_empty(s, other, other_name),
{
    let t = wallet_bought(s, company_id, name, price, amount);
    if has_position(s, company_id) {
        let i = position_index(s, company_id);
        assert(t[i].company_id == company_id);
        assert forall|k: int| 0 <= k < t.len() && t[k].company_id == other implies t[k] == s[k] by {}
    } else {
        assert(t[s.len() as int].company_id == company_id);
        assert forall|k: int| 0 <= k < t.len() && t[k].company_id == other implies k < s.len()
            && t[k] == s[k] by {}
    }
    if has_position(s, other) {
        let k = position_index(s, other);
        assert(t[k].company_id == other);
        assert(has_position(t, other));
        let j = position_index(t, other);
        assert(s[j].company_id == other);
        if j < k {
            assert(s[j].company_id != s[k].company_id);
        } else if k < j {
            assert(s[k].company_id != s[j].company_id);
        }
    }
    if has_position(t, other) {
        let j = position_index(t, other);
        assert(s[j].company_id == other);
    }
}

/// A sale never moves the average cost: it changes the number of units
/// held, and nothing else.
pub proof fn lemma_sale_keeps_average_cost(m: PositionModel, amount: nat)
    requires
        amount <= m.quantity,
    ensures
        m.sold(amount).average_cost() == m.average_cost(),
        m.sold(amount).cost == m.cost,
        m.sold(amount).basis == m.basis,
        m.sold(amount).quantity == m.quantity - amount,
        m.sold(amount).company_id == m.company_id,
{
}

} // verus!
