use vstd::prelude::*;

use rand::Rng;

use crate::company::{Company, CompanyModel};
use crate::error::MarketError;
use crate::id::{IdIssuer, ID};

verus! {

/// How far one step of the price walk may move a price, in cents, either way.
pub const PRICE_STEP_RANGE: i64 = 2000;

/// Whether some company in `s` has the identifier `id`.
pub open spec fn has_company_id(s: Seq<CompanyModel>, id: nat) -> bool {
    exists|i: int| 0 <= i < s.len() && (#[trigger] s[i]).id == id
}

/// Whether some company in `s` has the name `name`.
pub open spec fn has_company_name(s: Seq<CompanyModel>, name: Seq<char>) -> bool {
    exists|i: int| 0 <= i < s.len() && (#[trigger] s[i]).name == name
}

/// The company in `s` with identifier `id` (meaningful when there is one).
pub open spec fn company_with_id(s: Seq<CompanyModel>, id: nat) -> CompanyModel {
    s[choose|i: int| 0 <= i < s.len() && (#[trigger] s[i]).id == id]
}

/// The company in `s` named `name` (meaningful when there is one).
pub open spec fn company_with_name(s: Seq<CompanyModel>, name: Seq<char>) -> CompanyModel {
    s[company_index(s, name)]
}

/// Where in `s` the company named `name` stands (meaningful when there is
/// one).
pub open spec fn company_index(s: Seq<CompanyModel>, name: Seq<char>) -> int {
    choose|i: int| 0 <= i < s.len() && (#[trigger] s[i]).name == name
}

/// How many new identifiers starting the company named `name` afresh
/// takes: none when it is listed, one when it has to be listed.
pub open spec fn listing_cost(s: Seq<CompanyModel>, name: Seq<char>) -> nat {
    if has_company_name(s, name) {
        0
    } else {
        1
    }
}

/// `s` once the company named `name` started afresh at `price`; when there
/// is none, it is listed at that price with identifier `id`.
pub open spec fn relisted(s: Seq<CompanyModel>, name: Seq<char>, price: i64, id: nat) -> Seq<
    CompanyModel,
> {
    if has_company_name(s, name) {
        s.update(company_index(s, name), s[company_index(s, name)].reset_to(price))
    } else {
        s.push(CompanyModel { id, name, price, history: seq![price] })
    }
}

/// Whether `after` is `before` moved by one step of the price walk.
pub open spec fn walked(before: CompanyModel, after: CompanyModel) -> bool {
    exists|d: i64| -PRICE_STEP_RANGE <= d < PRICE_STEP_RANGE && after == #[trigger] before.stepped(d)
}

/// Holds every listed company, with identifiers and names unique among them.
#[derive(Debug)]
pub struct CompanyManager {
    ids: IdIssuer,
    companies: Vec<Company>,
}

/// Relies on `rand::thread_rng` and `Rng::gen_range`: a value drawn from the
/// half-open range `low..high`, which panics only when that range is empty.
#[verifier::external_body]
fn random_in_range(low: i64, high: i64) -> (r: i64)
    requires
        low < high,
    ensures
        low <= r < high,
{
    rand::thread_rng().gen_range(low..high)
}

impl View for CompanyManager {
    type V = Seq<CompanyModel>;

    closed spec fn view(&self) -> Seq<CompanyModel> {
        self.companies@.map_values(|c: Company| c@)
    }
}

impl CompanyManager {
    /// Every company is well formed; identifiers and names are unique, and
    /// every identifier lies below the next one to be issued.
    pub closed spec fn wf(&self) -> bool {
        &&& forall|i: int| 0 <= i < self@.len() ==> (#[trigger] self@[i]).wf()
        &&& forall|i: int, j: int|
            0 <= i < j < self@.len() ==> #[trigger] self@[i].id != #[trigger] self@[j].id
        &&& forall|i: int, j: int|
            0 <= i < j < self@.len() ==> #[trigger] self@[i].name != #[trigger] self@[j].name
        &&& forall|i: int| 0 <= i < self@.len() ==> (#[trigger] self@[i]).id < self.ids.next_value()
    }

    /// No listed price is negative.
    pub proof fn lemma_prices_nonneg(&self)
        requires
            self.wf(),
        ensures
            forall|i: int| 0 <= i < self@.len() ==> (#[trigger] self@[i]).price >= 0,
    {
        assert forall|i: int| 0 <= i < self@.len() implies (#[trigger] self@[i]).price >= 0 by {
            assert(self@[i].wf());
        }
    }

    /// The identifier the next listing gets; every identifier handed out
    /// so far lies below it, and it is never zero.
    pub closed spec fn issued_below(&self) -> nat {
        self.ids.next_value()
    }

    /// Whether another company can still be given an identifier.
    pub open spec fn can_issue(&self) -> bool {
        self.issued_below() < usize::MAX
    }

    /// An empty manager.
    pub fn new() -> (r: CompanyManager)
        ensures
            r.wf(),
            r@ == Seq::<CompanyModel>::empty(),
            r.issued_below() == 1,
            r.can_issue(),
    {
        let r = CompanyManager { ids: IdIssuer::new(), companies: Vec::new() };
        assert(r@ =~= Seq::<CompanyModel>::empty());
        r
    }

    /// The position of the company named `name`, if there is one.
    fn index_of_name(&self, name: &String) -> (r: Option<usize>)
        ensures
            r matches Some(i) ==> i < self@.len() && self@[i as int].name == name@,
            self.wf() ==> (r matches Some(i) ==> i == company_index(self@, name@)),
            r is None ==> !has_company_name(self@, name@),
    {
        let mut i: usize = 0;
        while i < self.companies.len()
            invariant
                i <= self.companies@.len(),
                self@.len() == self.companies@.len(),
                forall|k: int| 0 <= k < i ==> (#[trigger] self@[k]).name != name@,
            decreases self.companies@.len() - i,
        {
            assert(self@[i as int] == self.companies@[i as int]@);
            if self.companies[i].name().eq(name) {
                proof {
                    if self.wf() {
                        assert(has_company_name(self@, name@));
                        let j = company_index(self@, name@);
                        if j < i {
                            assert(self@[j].name != self@[i as int].name);
                        } else if i < j {
                            assert(self@[i as int].name != self@[j].name);
                        }
                    }
                }
                return Some(i);
            }
            i = i + 1;
        }
        None
    }

    /// The position of the company with identifier `id`, if there is one.
    fn index_of_id(&self, id: ID) -> (r: Option<usize>)
        ensures
            r matches Some(i) ==> i < self@.len() && self@[i as int].id == id@,
            r is None ==> !has_company_id(self@, id@),
    {
        let mut i: usize = 0;
        while i < self.companies.len()
            invariant
                i <= self.companies@.len(),
                self@.len() == self.companies@.len(),
                forall|k: int| 0 <= k < i ==> (#[trigger] self@[k]).id != id@,
            decreases self.companies@.len() - i,
        {
            assert(self@[i as int] == self.companies@[i as int]@);
            if self.companies[i].id().equals(id) {
                return Some(i);
            }
            i = i + 1;
        }
        None
    }

    /// Lists a new company. Fails with `AlreadyExists` when the name is
    /// taken, and with `InvalidArgument` when the price is negative or no
    /// identifier is left; a failure changes nothing.
    pub fn new_company(&mut self, name: String, stock_price: i64) -> (r: Result<ID, MarketError>)
        requires
            old(self).wf(),
        ensures
            final(self).wf(),
            has_company_name(old(self)@, name@) ==> r == Err::<ID, MarketError>(
                MarketError::AlreadyExists,
            ),
            !has_company_name(old(self)@, name@) && (stock_price < 0 || !old(self).can_issue())
                ==> r == Err::<ID, MarketError>(MarketError::InvalidArgument),
            r is Err ==> final(self)@ == old(self)@ && final(self).issued_below() == old(
                self,
            ).issued_below(),
            r is Ok <==> !has_company_name(old(self)@, name@) && stock_price >= 0
                && old(self).can_issue(),
            r matches Ok(id) ==> id@ == old(self).issued_below() && final(self).issued_below() == old(
                self,
            ).issued_below() + 1,
            r matches Ok(id) ==> !has_company_id(old(self)@, id@) && final(self)@ == old(self)@.push(
                CompanyModel {
                    id: id@,
                    name: name@,
                    price: stock_price,
                    history: seq![stock_price],
                },
            ),
    {
        if self.index_of_name(&name).is_some() {
            return Err(MarketError::AlreadyExists);
        }
        if stock_price < 0 || !self.ids.can_issue() {
            return Err(MarketError::InvalidArgument);
        }
        let company = Company::new(&mut self.ids, name, stock_price);
        let id = company.id();
        self.companies.push(company);
        assert(self@ =~= old(self)@.push(self@.last()));
        proof {
            assert forall|i: int| 0 <= i < old(self)@.len() implies old(self)@[i].id != id@ by {
                assert(old(self)@[i].id < old(self).ids.next_value());
            }
        }
        Ok(id)
    }

    /// Every company, in the order they were listed.
    pub fn companies(&self) -> (r: &Vec<Company>)
        ensures
            r@.map_values(|c: Company| c@) == self@,
    {
        &self.companies
    }

    /// The company with identifier `id`, or `NotFound`.
    pub fn get_company_by_id(&self, id: ID) -> (r: Result<&Company, MarketError>)
        ensures
            r is Err <==> !has_company_id(self@, id@),
            r is Err ==> r == Err::<&Company, MarketError>(MarketError::NotFound),
            r matches Ok(c) ==> c@.id == id@ && self@.contains(c@),
            self.wf() ==> (r matches Ok(c) ==> c@ == company_with_id(self@, id@)),
            self.wf() ==> (r matches Ok(c) ==> c.wf()),
    {
        match self.index_of_id(id) {
            Some(i) => {
                let c = &self.companies[i];
                assert(self@[i as int] == c@);
                proof {
                    if self.wf() {
                        let j = choose|j: int| 0 <= j < self@.len() && (#[trigger] self@[j]).id == id@;
                        assert(self@[j].id == id@);
                        if j < i {
                            assert(self@[j].id != self@[i as int].id);
                        } else if i < j {
                            assert(self@[i as int].id != self@[j].id);
                        }
                    }
                }
                Ok(c)
            },
            None => Err(MarketError::NotFound),
        }
    }

    /// The company named `name`, or `NotFound`.
    pub fn get_company_by_name(&self, name: &String) -> (r: Result<&Company, MarketError>)
        ensures
            r is Err <==> !has_company_name(self@, name@),
            r is Err ==> r == Err::<&Company, MarketError>(MarketError::NotFound),
            r matches Ok(c) ==> c@.name == name@ && self@.contains(c@),
            self.wf() ==> (r matches Ok(c) ==> c.wf()),
            self.wf() ==> (r matches Ok(c) ==> c@ == company_with_name(self@, name@)),
    {
        match self.index_of_name(name) {
            Some(i) => {
                let c = &self.companies[i];
                assert(self@[i as int] == c@);
                Ok(c)
            },
            None => Err(MarketError::NotFound),
        }
    }

    /// The company named `name`, to be changed in place, or `NotFound`.
    pub fn get_company_by_name_mut(&mut self, name: &String) -> (r: Result<&mut Company, MarketError>)
        ensures
            r is Err <==> !has_company_name(old(self)@, name@),
            r is Err ==> r == Err::<&mut Company, MarketError>(MarketError::NotFound),
            r matches Ok(c) ==> c@.name == name@ && exists|i: int|
                0 <= i < old(self)@.len() && old(self)@[i] == c@ && final(self)@ == old(self)@.update(
                    i,
                    final(c)@,
                ),
            old(self).wf() ==> (r matches Ok(c) ==> c.wf() && c@ == company_with_name(
                old(self)@,
                name@,
            )),
            final(self).issued_below() == old(self).issued_below(),
    {
        match self.index_of_name(name) {
            Some(i) => {
                let c = &mut self.companies[i];
                Ok(c)
            },
            None => Err(MarketError::NotFound),
        }
    }

    /// Sets a new price for the company named `name`, which is added to its
    /// history. Fails with `NotFound` when there is no such company, and with
    /// `InvalidArgument` when the price is negative; a failure changes
    /// nothing.
    pub fn set_stock_price_by_name(&mut self, name: &String, new_price: i64) -> (r: Result<
        (),
        MarketError,
    >)
        requires
            old(self).wf(),
        ensures
            final(self).wf(),
            final(self).issued_below() == old(self).issued_below(),
            !has_company_name(old(self)@, name@) ==> r == Err::<(), MarketError>(
                MarketError::NotFound,
            ),
            has_company_name(old(self)@, name@) && new_price < 0 ==> r == Err::<(), MarketError>(
                MarketError::InvalidArgument,
            ),
            r is Err ==> final(self)@ == old(self)@,
            r is Ok <==> has_company_name(old(self)@, name@) && new_price >= 0,
            r is Ok ==> final(self)@ == old(self)@.update(
                company_index(old(self)@, name@),
                company_with_name(old(self)@, name@).priced(new_price),
            ),
    {
        match self.index_of_name(name) {
            Some(i) => {
                let ghost before = self@;
                assert(before[i as int] == self.companies@[i as int]@);
                assert(before[i as int].wf());
                let r = self.companies[i].set_stock_price(new_price);
                assert(self@ =~= before.update(i as int, self.companies@[i as int]@));
                r
            },
            None => Err(MarketError::NotFound),
        }
    }

    /// Starts the company named `name` afresh at `new_price`, or lists it at
    /// that price when there is none. A negative price is refused with
    /// `InvalidArgument` and changes nothing.
    pub fn reset_company(&mut self, name: String, new_price: i64) -> (r: Result<ID, MarketError>)
        requires
            old(self).wf(),
        ensures
            final(self).wf(),
            new_price < 0 ==> r == Err::<ID, MarketError>(MarketError::InvalidArgument),
            r is Err ==> r == Err::<ID, MarketError>(MarketError::InvalidArgument),
            new_price >= 0 ==> (r is Ok <==> has_company_name(old(self)@, name@) || old(
                self,
            ).can_issue()),
            r is Err ==> final(self)@ == old(self)@ && final(self).issued_below() == old(
                self,
            ).issued_below(),
            r is Ok ==> final(self)@ == relisted(old(self)@, name@, new_price, old(self).issued_below())
                && final(self).issued_below() == old(self).issued_below() + listing_cost(
                old(self)@,
                name@,
            ),
            r matches Ok(id) ==> id@ == (if has_company_name(old(self)@, name@) {
                old(self)@[company_index(old(self)@, name@)].id
            } else {
                old(self).issued_below()
            }),
    {
        if new_price < 0 {
            return Err(MarketError::InvalidArgument);
        }
        match self.index_of_name(&name) {
            Some(i) => {
                let ghost before = self@;
                let _ = self.companies[i].reset_company(new_price);
                assert(self@ =~= before.update(i as int, before[i as int].reset_to(new_price)));
                assert(self@[i as int].id == before[i as int].id);
                Ok(self.companies[i].id())
            },
            None => {
                self.new_company(name, new_price)
            },
        }
    }

    /// Moves the price of the company at each position by the delta at the
    /// same position of `deltas`; each candidate price below zero is
    /// refused for its company alone.
    pub fn apply_price_deltas(&mut self, deltas: &Vec<i64>)
        requires
            old(self).wf(),
            deltas@.len() == old(self)@.len(),
        ensures
            final(self).wf(),
            final(self).issued_below() == old(self).issued_below(),
            final(self)@.len() == old(self)@.len(),
            forall|i: int|
                0 <= i < old(self)@.len() ==> #[trigger] final(self)@[i] == old(self)@[i].stepped(
                    deltas@[i],
                ),
    {
        let mut i: usize = 0;
        while i < self.companies.len()
            invariant
                self.wf(),
                self.ids == old(self).ids,
                self@.len() == old(self)@.len(),
                self.companies@.len() == old(self)@.len(),
                deltas@.len() == old(self)@.len(),
                i <= old(self)@.len(),
                forall|k: int| 0 <= k < i ==> #[trigger] self@[k] == old(self)@[k].stepped(deltas@[k]),
                forall|k: int| i <= k < old(self)@.len() ==> #[trigger] self@[k] == old(self)@[k],
            decreases old(self)@.len() - i,
        {
            let ghost before = self@;
            assert(before[i as int] == self.companies@[i as int]@);
            assert(before[i as int].wf());
            self.companies[i].step_price(deltas[i]);
            assert(self@ =~= before.update(i as int, before[i as int].stepped(deltas@[i as int])));
            i = i + 1;
        }
    }

    /// One step of the price walk: every company's price moves by a delta
    /// drawn at random from `-PRICE_STEP_RANGE..PRICE_STEP_RANGE`, and a move
    /// that would make a price negative is skipped, leaving that company's
    /// price and history exactly as they were.
    pub fn update(&mut self)
        requires
            old(self).wf(),
        ensures
            final(self).wf(),
            final(self).issued_below() == old(self).issued_below(),
            final(self)@.len() == old(self)@.len(),
            forall|i: int|
                0 <= i < old(self)@.len() ==> walked(old(self)@[i], #[trigger] final(self)@[i]),
            forall|i: int| 0 <= i < old(self)@.len() ==> #[trigger] final(self)@[i].price >= 0,
    {
        let n = self.companies.len();
        let mut deltas: Vec<i64> = Vec::new();
        while deltas.len() < n
            invariant
                deltas@.len() <= n,
                forall|k: int|
                    0 <= k < deltas@.len() ==> -PRICE_STEP_RANGE <= #[trigger] deltas@[k]
                        < PRICE_STEP_RANGE,
            decreases n - deltas@.len(),
        {
            let d = random_in_range(-PRICE_STEP_RANGE, PRICE_STEP_RANGE);
            deltas.push(d);
        }
        self.apply_price_deltas(&deltas);
        proof {
            assert forall|i: int| 0 <= i < old(self)@.len() implies walked(
                old(self)@[i],
                #[trigger] self@[i],
            ) by {
                assert(self@[i] == old(self)@[i].stepped(deltas@[i]));
            }
            assert forall|i: int| 0 <= i < old(self)@.len() implies #[trigger] self@[i].price >= 0 by {
                assert(self@[i].wf());
            }
        }
    }
}

/// The price the listed companies start each round at, in cents.
pub const RESET_PRICE: i64 = 20_000;

/// How many steps of the price walk run after the companies start afresh,
/// so that each begins the round with some history.
pub const WARM_UP_STEPS: usize = 50;

pub open spec fn apple_name() -> Seq<char> {
    seq!['A', 'p', 'p', 'l', 'e']
}

pub open spec fn amazon_name() -> Seq<char> {
    seq!['A', 'm', 'a', 'z', 'o', 'n']
}

/// The companies at the start of a round: `Apple`, then `Amazon`, started
/// afresh at `RESET_PRICE`, listed with the next identifiers when absent.
pub open spec fn round_start(s: Seq<CompanyModel>, next_id: nat) -> Seq<CompanyModel> {
    relisted(
        relisted(s, apple_name(), RESET_PRICE, next_id),
        amazon_name(),
        RESET_PRICE,
        next_id + listing_cost(s, apple_name()),
    )
}

/// How many new identifiers the start of a round takes.
pub open spec fn round_listing_cost(s: Seq<CompanyModel>) -> nat {
    listing_cost(s, apple_name()) + listing_cost(s, amazon_name())
}

/// Whether each company of `after` is the one at the same place of
/// `before`, moved by one step of the price walk.
pub open spec fn all_walked(before: Seq<CompanyModel>, after: Seq<CompanyModel>) -> bool {
    &&& before.len() == after.len()
    &&& forall|i: int| 0 <= i < before.len() ==> walked(before[i], #[trigger] after[i])
}

/// Whether `after` is `before` moved by `n` steps of the price walk.
pub open spec fn walked_steps(before: Seq<CompanyModel>, after: Seq<CompanyModel>, n: nat) -> bool
    decreases n,
{
    if n == 0 {
        after == before
    } else {
        exists|mid: Seq<CompanyModel>|
            walked_steps(before, mid, (n - 1) as nat) && #[trigger] all_walked(mid, after)
    }
}

/// Starting a company afresh, or listing it, leaves the other names as
/// they were.
proof fn lemma_relisted_keeps_other_names(
    s: Seq<CompanyModel>,
    name: Seq<char>,
    price: i64,
    id: nat,
    other: Seq<char>,
)
    requires
        name != other,
    ensures
        has_company_name(relisted(s, name, price, id), other) == has_company_name(s, other),
{
    let t = relisted(s, name, price, id);
    if has_company_name(s, name) {
        let k = company_index(s, name);
        assert(t[k].name == name);
        if has_company_name(s, other) {
            let j = choose|j: int| 0 <= j < s.len() && (#[trigger] s[j]).name == other;
            assert(t[j].name == other);
        }
        if has_company_name(t, other) {
            let j = choose|j: int| 0 <= j < t.len() && (#[trigger] t[j]).name == other;
            assert(s[j].name == other);
        }
    } else {
        if has_company_name(s, other) {
            let j = choose|j: int| 0 <= j < s.len() && (#[trigger] s[j]).name == other;
            assert(t[j].name == other);
        }
        if has_company_name(t, other) {
            let j = choose|j: int| 0 <= j < t.len() && (#[trigger] t[j]).name == other;
            assert(j < s.len());
            assert(s[j].name == other);
        }
    }
}

/// The name `Apple`.
fn apple() -> (r: String)
    ensures
        r@ == apple_name(),
{
    proof {
        reveal_strlit("Apple");
    }
    let r = String::from_str("Apple");
    assert(r@ =~= apple_name());
    r
}

/// The name `Amazon`.
fn amazon() -> (r: String)
    ensures
        r@ == amazon_name(),
{
    proof {
        reveal_strlit("Amazon");
    }
    let r = String::from_str("Amazon");
    assert(r@ =~= amazon_name());
    r
}

/// Starts a round: `Apple` and `Amazon` start afresh at `RESET_PRICE` (and
/// are listed when they are not), then the prices walk `WARM_UP_STEPS`
/// steps. It succeeds whenever identifiers remain for the companies it has
/// to list, and fails with `InvalidArgument` otherwise.
pub fn reset_company_manager(company_manager: &mut CompanyManager) -> (r: Result<(), MarketError>)
    requires
        old(company_manager).wf(),
    ensures
        final(company_manager).wf(),
        r is Ok <==> round_listing_cost(old(company_manager)@) == 0 || old(
            company_manager,
        ).issued_below() + round_listing_cost(old(company_manager)@) <= usize::MAX,
        r is Err ==> r == Err::<(), MarketError>(MarketError::InvalidArgument),
        r is Ok ==> walked_steps(
            round_start(old(company_manager)@, old(company_manager).issued_below()),
            final(company_manager)@,
            WARM_UP_STEPS as nat,
        ) && final(company_manager).issued_below() == old(company_manager).issued_below()
            + round_listing_cost(old(company_manager)@),
{
    let ghost start = old(company_manager)@;
    let ghost ib = old(company_manager).issued_below();
    proof {
        lemma_relisted_keeps_other_names(start, apple_name(), RESET_PRICE, ib, amazon_name());
    }
    let ghost has_apple = has_company_name(start, apple_name());
    let ghost has_amazon = has_company_name(start, amazon_name());
    match company_manager.reset_company(apple(), RESET_PRICE) {
        Ok(_) => {},
        Err(e) => {
            assert(!has_apple && ib >= usize::MAX);
            assert(listing_cost(start, apple_name()) == 1);
            assert(round_listing_cost(start) >= 1);
            return Err(e);
        },
    }
    let ghost mid = company_manager@;
    let ghost mid_ib = company_manager.issued_below();
    assert(mid_ib == ib + listing_cost(start, apple_name()));
    assert(has_company_name(mid, amazon_name()) == has_amazon);
    match company_manager.reset_company(amazon(), RESET_PRICE) {
        Ok(_) => {},
        Err(e) => {
            assert(!has_amazon && mid_ib >= usize::MAX);
            assert(listing_cost(start, amazon_name()) == 1);
            assert(round_listing_cost(start) == listing_cost(start, apple_name()) + 1);
            return Err(e);
        },
    }
    assert(has_apple || ib < usize::MAX);
    assert(has_amazon || mid_ib < usize::MAX);
    let ghost started = company_manager@;
    assert(started == round_start(start, ib));
    let mut step: usize = 0;
    while step < WARM_UP_STEPS
        invariant
            step <= WARM_UP_STEPS,
            company_manager.wf(),
            company_manager.issued_below() == ib + round_listing_cost(start),
            walked_steps(started, company_manager@, step as nat),
        decreases WARM_UP_STEPS - step,
    {
        let ghost before = company_manager@;
        company_manager.update();
        assert(all_walked(before, company_manager@));
        assert(walked_steps(started, company_manager@, (step + 1) as nat));
        step = step + 1;
    }
    Ok(())
}

} // verus!
