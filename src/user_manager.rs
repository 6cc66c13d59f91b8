use vstd::prelude::*;

use crate::company_manager::CompanyManager;
use crate::error::MarketError;
use crate::id::{IdIssuer, ID};
use crate::password::Password;
use crate::stock::Stock;
use crate::user::{buy_outcome, sell_outcome, User, UserModel, STARTING_MONEY};

verus! {

/// Whether an account in `s` has the identifier `id`.
pub open spec fn has_account_id(s: Seq<UserModel>, id: nat) -> bool {
    exists|i: int| 0 <= i < s.len() && (#[trigger] s[i]).id == id
}

/// Whether an account in `s` has the login name `user_name`.
pub open spec fn has_account_user_name(s: Seq<UserModel>, user_name: Seq<char>) -> bool {
    exists|i: int| 0 <= i < s.len() && (#[trigger] s[i]).user_name == user_name
}

/// Whether an account in `s` has the display name `display_name`.
pub open spec fn has_account_display_name(s: Seq<UserModel>, display_name: Seq<char>) -> bool {
    exists|i: int| 0 <= i < s.len() && (#[trigger] s[i]).display_name == display_name
}

/// Where in `s` the account with identifier `id` stands (meaningful when
/// there is one).
pub open spec fn account_index(s: Seq<UserModel>, id: nat) -> int {
    choose|i: int| 0 <= i < s.len() && (#[trigger] s[i]).id == id
}

/// The account in `s` with login name `user_name` (meaningful when there is
/// one).
pub open spec fn account_with_user_name(s: Seq<UserModel>, user_name: Seq<char>) -> UserModel {
    s[choose|i: int| 0 <= i < s.len() && (#[trigger] s[i]).user_name == user_name]
}

/// What a purchase for account `user_id` does to the accounts `s`: the
/// new accounts, or the error that refuses it.
pub open spec fn accounts_after_buy(
    s: Seq<UserModel>,
    user_id: nat,
    company_id: nat,
    name: Seq<char>,
    price: int,
    amount: nat,
) -> Result<Seq<UserModel>, MarketError> {
    if !has_account_id(s, user_id) {
        Err(MarketError::NotFound)
    } else {
        match buy_outcome(s[account_index(s, user_id)], company_id, name, price, amount) {
            Ok(after) => Ok(s.update(account_index(s, user_id), after)),
            Err(e) => Err(e),
        }
    }
}

/// What a sale for account `user_id` does to the accounts `s`, at the
/// prices of `companies`: the new accounts, or the error that refuses it.
pub open spec fn accounts_after_sell(
    s: Seq<UserModel>,
    user_id: nat,
    companies: Seq<crate::company::CompanyModel>,
    company_id: nat,
    amount: nat,
) -> Result<Seq<UserModel>, MarketError> {
    if !has_account_id(s, user_id) {
        Err(MarketError::NotFound)
    } else {
        match sell_outcome(s[account_index(s, user_id)], companies, company_id, amount) {
            Ok(after) => Ok(s.update(account_index(s, user_id), after)),
            Err(e) => Err(e),
        }
    }
}

/// Every account; identifiers, login names and display names are unique
/// among them.
pub struct UserManager {
    ids: IdIssuer,
    users: Vec<User>,
}

impl View for UserManager {
    type V = Seq<UserModel>;

    closed spec fn view(&self) -> Seq<UserModel> {
        self.users@.map_values(|u: User| u@)
    }
}

impl UserManager {
    pub closed spec fn wf(&self) -> bool {
        &&& forall|i: int| 0 <= i < self@.len() ==> (#[trigger] self@[i]).wf()
        &&& forall|i: int, j: int|
            0 <= i < j < self@.len() ==> #[trigger] self@[i].id != #[trigger] self@[j].id
        &&& forall|i: int, j: int|
            0 <= i < j < self@.len() ==> #[trigger] self@[i].user_name != #[trigger] self@[j].user_name
        &&& forall|i: int, j: int|
            0 <= i < j < self@.len() ==> #[trigger] self@[i].display_name
                != #[trigger] self@[j].display_name
        &&& forall|i: int| 0 <= i < self@.len() ==> (#[trigger] self@[i]).id < self.ids.next_value()
    }

    /// The identifier the next listing gets; every identifier handed out
    /// so far lies below it, and it is never zero.
    pub closed spec fn issued_below(&self) -> nat {
        self.ids.next_value()
    }

    /// Whether another account can still be given an identifier.
    pub open spec fn can_issue(&self) -> bool {
        self.issued_below() < usize::MAX
    }

    /// Every account is well formed.
    pub proof fn lemma_accounts_wf(&self)
        requires
            self.wf(),
        ensures
            forall|i: int| 0 <= i < self@.len() ==> (#[trigger] self@[i]).wf(),
    {
    }

    /// A manager with no accounts.
    pub fn new() -> (r: UserManager)
        ensures
            r.wf(),
            r@ == Seq::<UserModel>::empty(),
            r.issued_below() == 1,
            r.can_issue(),
    {
        let r = UserManager { ids: IdIssuer::new(), users: Vec::new() };
        assert(r@ =~= Seq::<UserModel>::empty());
        r
    }

    /// Where the account with login name `user_name` stands, if any.
    fn index_of_user_name(&self, user_name: &String) -> (r: Option<usize>)
        requires
            self.wf(),
        ensures
            r matches Some(i) ==> i < self@.len() && self@[i as int].user_name == user_name@
                && self@[i as int] == account_with_user_name(self@, user_name@),
            r is None ==> !has_account_user_name(self@, user_name@),
    {
        let mut i: usize = 0;
        while i < self.users.len()
            invariant
                self.wf(),
                i <= self.users@.len(),
                self@.len() == self.users@.len(),
                forall|k: int| 0 <= k < i ==> (#[trigger] self@[k]).user_name != user_name@,
            decreases self.users@.len() - i,
        {
            assert(self@[i as int] == self.users@[i as int]@);
            if self.users[i].user_name().eq(user_name) {
                proof {
                    assert(has_account_user_name(self@, user_name@));
                    let j = choose|j: int| 0 <= j < self@.len() && (#[trigger] self@[j]).user_name == user_name@;
                    if j < i {
                        assert(self@[j].user_name != self@[i as int].user_name);
                    } else if i < j {
                        assert(self@[i as int].user_name != self@[j].user_name);
                    }
                }
                return Some(i);
            }
            i = i + 1;
        }
        None
    }

    /// Where the account with display name `display_name` stands, if any.
    fn index_of_display_name(&self, display_name: &String) -> (r: Option<usize>)
        ensures
            r matches Some(i) ==> i < self@.len() && self@[i as int].display_name == display_name@,
            r is None ==> !has_account_display_name(self@, display_name@),
    {
        let mut i: usize = 0;
        while i < self.users.len()
            invariant
                i <= self.users@.len(),
                self@.len() == self.users@.len(),
                forall|k: int| 0 <= k < i ==> (#[trigger] self@[k]).display_name != display_name@,
            decreases self.users@.len() - i,
        {
            assert(self@[i as int] == self.users@[i as int]@);
            if self.users[i].display_name().eq(display_name) {
                return Some(i);
            }
            i = i + 1;
        }
        None
    }

    /// Where the account with identifier `id` stands, if any.
    fn index_of_id(&self, id: ID) -> (r: Option<usize>)
        requires
            self.wf(),
        ensures
            r matches Some(i) ==> i < self@.len() && self@[i as int].id == id@ && has_account_id(
                self@,
                id@,
            ) && i == account_index(self@, id@),
            r is None ==> !has_account_id(self@, id@),
    {
        let mut i: usize = 0;
        while i < self.users.len()
            invariant
                self.wf(),
                i <= self.users@.len(),
                self@.len() == self.users@.len(),
                forall|k: int| 0 <= k < i ==> (#[trigger] self@[k]).id != id@,
            decreases self.users@.len() - i,
        {
            assert(self@[i as int] == self.users@[i as int]@);
            if self.users[i].id().equals(id) {
                proof {
                    assert(has_account_id(self@, id@));
                    let j = account_index(self@, id@);
                    if j < i {
                        assert(self@[j].id != self@[i as int].id);
                    } else if i < j {
                        assert(self@[i as int].id != self@[j].id);
                    }
                }
                return Some(i);
            }
            i = i + 1;
        }
        None
    }

    /// Registers an account with the starting cash and returns its
    /// identifier. Fails with `AlreadyExists` when the login name or the
    /// display name is taken, and with `InvalidArgument` when no identifier
    /// is left; a failure changes nothing.
    pub fn new_user(&mut self, user_name: String, display_name: String, password: Password) -> (r:
        Result<ID, MarketError>)
        requires
            old(self).wf(),
        ensures
            final(self).wf(),
            has_account_user_name(old(self)@, user_name@) || has_account_display_name(
                old(self)@,
                display_name@,
            ) ==> r == Err::<ID, MarketError>(MarketError::AlreadyExists),
            r is Ok <==> !has_account_user_name(old(self)@, user_name@)
                && !has_account_display_name(old(self)@, display_name@) && old(self).can_issue(),
            !has_account_user_name(old(self)@, user_name@) && !has_account_display_name(
                old(self)@,
                display_name@,
            ) && !old(self).can_issue() ==> r == Err::<ID, MarketError>(
                MarketError::InvalidArgument,
            ),
            r is Err ==> final(self)@ == old(self)@ && final(self).issued_below() == old(
                self,
            ).issued_below(),
            r matches Ok(id) ==> id@ == old(self).issued_below() && final(self).issued_below() == old(
                self,
            ).issued_below() + 1,
            r matches Ok(id) ==> !has_account_id(old(self)@, id@) && final(self)@ == old(
                self,
            )@.push(
                UserModel {
                    id: id@,
                    user_name: user_name@,
                    display_name: display_name@,
                    password: password@,
                    money: STARTING_MONEY,
                    wallet: Seq::empty(),
                },
            ),
    {
        if self.index_of_user_name(&user_name).is_some() {
            return Err(MarketError::AlreadyExists);
        }
        if self.index_of_display_name(&display_name).is_some() {
            return Err(MarketError::AlreadyExists);
        }
        if !self.ids.can_issue() {
            return Err(MarketError::InvalidArgument);
        }
        let user = User::new(&mut self.ids, user_name, display_name, password);
        let id = user.id();
        let ghost before = self@;
        self.users.push(user);
        proof {
            assert(self@ =~= before.push(user@));
            assert forall|i: int| 0 <= i < before.len() implies before[i].id != id@ by {
                assert(before[i].id < old(self).ids.next_value());
            }
        }
        Ok(id)
    }

    /// Puts every account back to its starting cash, with no holdings.
    pub fn reset_users(&mut self)
        requires
            old(self).wf(),
        ensures
            final(self).wf(),
            final(self).issued_below() == old(self).issued_below(),
            final(self)@.len() == old(self)@.len(),
            forall|i: int|
                0 <= i < old(self)@.len() ==> #[trigger] final(self)@[i] == (UserModel {
                    money: STARTING_MONEY,
                    wallet: Seq::empty(),
                    ..old(self)@[i]
                }),
    {
        let mut i: usize = 0;
        while i < self.users.len()
            invariant
                self.wf(),
                self.ids == old(self).ids,
                self@.len() == old(self)@.len(),
                self.users@.len() == old(self)@.len(),
                i <= old(self)@.len(),
                forall|k: int|
                    0 <= k < i ==> #[trigger] self@[k] == (UserModel {
                        money: STARTING_MONEY,
                        wallet: Seq::empty(),
                        ..old(self)@[k]
                    }),
                forall|k: int| i <= k < old(self)@.len() ==> #[trigger] self@[k] == old(self)@[k],
            decreases old(self)@.len() - i,
        {
            let ghost before = self@;
            assert(before[i as int] == self.users@[i as int]@);
            assert(before[i as int].wf());
            self.users[i].reset();
            assert(self@ =~= before.update(
                i as int,
                UserModel { money: STARTING_MONEY, wallet: Seq::empty(), ..before[i as int] },
            ));
            i = i + 1;
        }
    }

    /// Every account, in the order they registered.
    pub fn users(&self) -> (r: &Vec<User>)
        ensures
            r@.map_values(|u: User| u@) == self@,
    {
        &self.users
    }

    /// The account at place `pos`, in registration order.
    pub fn get_user(&self, pos: usize) -> (r: &User)
        requires
            pos < self@.len(),
        ensures
            r@ == self@[pos as int],
    {
        assert(self@[pos as int] == self.users@[pos as int]@);
        &self.users[pos]
    }

    /// The account with identifier `id`, to be changed in place, or
    /// `NotFound`.
    pub fn get_user_by_id_mut(&mut self, id: ID) -> (r: Result<&mut User, MarketError>)
        requires
            old(self).wf(),
        ensures
            r is Err <==> !has_account_id(old(self)@, id@),
            r is Err ==> r == Err::<&mut User, MarketError>(MarketError::NotFound),
            r matches Ok(u) ==> u@ == old(self)@[account_index(old(self)@, id@)] && final(self)@
                == old(self)@.update(account_index(old(self)@, id@), final(u)@),
    {
        match self.index_of_id(id) {
            Some(i) => {
                assert(old(self)@[i as int] == self.users@[i as int]@);
                let u = &mut self.users[i];
                Ok(u)
            },
            None => Err(MarketError::NotFound),
        }
    }

    /// The account with login name `username`, or `NotFound`.
    pub fn get_user_by_username(&self, username: &String) -> (r: Result<&User, MarketError>)
        requires
            self.wf(),
        ensures
            r is Err <==> !has_account_user_name(self@, username@),
            r is Err ==> r == Err::<&User, MarketError>(MarketError::NotFound),
            r matches Ok(u) ==> u@ == account_with_user_name(self@, username@) && u@.user_name
                == username@ && u.wf(),
    {
        match self.index_of_user_name(username) {
            Some(i) => {
                assert(self@[i as int] == self.users@[i as int]@);
                Ok(&self.users[i])
            },
            None => Err(MarketError::NotFound),
        }
    }

    /// The account with display name `display_name`, or `NotFound`.
    pub fn get_user_by_display_name(&self, display_name: &String) -> (r: Result<&User, MarketError>)
        ensures
            r is Err <==> !has_account_display_name(self@, display_name@),
            r is Err ==> r == Err::<&User, MarketError>(MarketError::NotFound),
            r matches Ok(u) ==> u@.display_name == display_name@ && self@.contains(u@),
    {
        match self.index_of_display_name(display_name) {
            Some(i) => {
                assert(self@[i as int] == self.users@[i as int]@);
                Ok(&self.users[i])
            },
            None => Err(MarketError::NotFound),
        }
    }

    /// The account with identifier `id`, or `NotFound`.
    pub fn get_user_by_id(&self, id: ID) -> (r: Result<&User, MarketError>)
        requires
            self.wf(),
        ensures
            r is Err <==> !has_account_id(self@, id@),
            r is Err ==> r == Err::<&User, MarketError>(MarketError::NotFound),
            r matches Ok(u) ==> u@ == self@[account_index(self@, id@)] && u@.id == id@ && u.wf(),
    {
        match self.index_of_id(id) {
            Some(i) => {
                assert(self@[i as int] == self.users@[i as int]@);
                Ok(&self.users[i])
            },
            None => Err(MarketError::NotFound),
        }
    }

    /// Checks a login: the account with login name `user_name`, when
    /// `password` is its password. Fails with `NotFound` when there is no
    /// such account, and with `InvalidCredential` when the password differs.
    pub fn authenticate(&self, user_name: &String, password: Password) -> (r: Result<
        &User,
        MarketError,
    >)
        requires
            self.wf(),
        ensures
            !has_account_user_name(self@, user_name@) ==> r == Err::<&User, MarketError>(
                MarketError::NotFound,
            ),
            has_account_user_name(self@, user_name@) ==> (r is Ok <==> account_with_user_name(
                self@,
                user_name@,
            ).password == password@),
            has_account_user_name(self@, user_name@) && account_with_user_name(self@, user_name@).password
                != password@ ==> r == Err::<&User, MarketError>(MarketError::InvalidCredential),
            r is Err ==> r == Err::<&User, MarketError>(MarketError::NotFound) || r == Err::<
                &User,
                MarketError,
            >(MarketError::InvalidCredential),
            r matches Ok(u) ==> u@ == account_with_user_name(self@, user_name@),
    {
        let user = match self.get_user_by_username(user_name) {
            Ok(u) => u,
            Err(e) => return Err(e),
        };
        if !user.try_password(password) {
            return Err(MarketError::InvalidCredential);
        }
        Ok(user)
    }

    /// Buys `buy_amount` shares of `stock` for account `user_id`, as
    /// `User::buy_stock` does; `NotFound` when there is no such account. The
    /// funds check and the debit are one step under the caller's exclusive
    /// borrow.
    pub fn buy_stock(&mut self, user_id: ID, stock: Stock, buy_amount: u64) -> (r: Result<
        (),
        MarketError,
    >)
        requires
            old(self).wf(),
        ensures
            final(self).wf(),
            final(self).issued_below() == old(self).issued_below(),
            accounts_after_buy(
                old(self)@,
                user_id@,
                stock.spec_company_id()@,
                stock.spec_name(),
                stock.spec_purchase_price() as int,
                buy_amount as nat,
            ) matches Ok(after) ==> r is Ok && final(self)@ == after,
            accounts_after_buy(
                old(self)@,
                user_id@,
                stock.spec_company_id()@,
                stock.spec_name(),
                stock.spec_purchase_price() as int,
                buy_amount as nat,
            ) matches Err(e) ==> r == Err::<(), MarketError>(e) && final(self)@ == old(self)@,
    {
        let i = match self.index_of_id(user_id) {
            Some(i) => i,
            None => return Err(MarketError::NotFound),
        };
        let ghost before = self@;
        assert(before[i as int] == self.users@[i as int]@);
        assert(before[i as int].wf());
        let r = self.users[i].buy_stock(stock, buy_amount);
        proof {
            assert(self@ =~= before.update(i as int, self.users@[i as int]@));
            assert forall|a: int, b: int| 0 <= a < b < self@.len() implies #[trigger] self@[a].id
                != #[trigger] self@[b].id && self@[a].user_name != self@[b].user_name
                && self@[a].display_name != self@[b].display_name by {
                assert(before[a].id != before[b].id);
                assert(before[a].user_name != before[b].user_name);
                assert(before[a].display_name != before[b].display_name);
            }
            if r is Err {
                assert(self@ =~= before);
            }
        }
        r
    }

    /// Sells `sell_amount` shares of company `company_id` for account
    /// `user_id`, as `User::sell_stock` does; `NotFound` when there is no
    /// such account.
    pub fn sell_stock(
        &mut self,
        user_id: ID,
        company_manager: &CompanyManager,
        company_id: ID,
        sell_amount: u64,
    ) -> (r: Result<(), MarketError>)
        requires
            old(self).wf(),
            company_manager.wf(),
        ensures
            final(self).wf(),
            final(self).issued_below() == old(self).issued_below(),
            accounts_after_sell(
                old(self)@,
                user_id@,
                company_manager@,
                company_id@,
                sell_amount as nat,
            ) matches Ok(after) ==> r is Ok && final(self)@ == after,
            accounts_after_sell(
                old(self)@,
                user_id@,
                company_manager@,
                company_id@,
                sell_amount as nat,
            ) matches Err(e) ==> r == Err::<(), MarketError>(e) && final(self)@ == old(self)@,
    {
        let i = match self.index_of_id(user_id) {
            Some(i) => i,
            None => return Err(MarketError::NotFound),
        };
        let ghost before = self@;
        assert(before[i as int] == self.users@[i as int]@);
        assert(before[i as int].wf());
        let r = self.users[i].sell_stock(company_manager, company_id, sell_amount);
        proof {
            assert(self@ =~= before.update(i as int, self.users@[i as int]@));
            assert forall|a: int, b: int| 0 <= a < b < self@.len() implies #[trigger] self@[a].id
                != #[trigger] self@[b].id && self@[a].user_name != self@[b].user_name
                && self@[a].display_name != self@[b].display_name by {
                assert(before[a].id != before[b].id);
                assert(before[a].user_name != before[b].user_name);
                assert(before[a].display_name != before[b].display_name);
            }
            if r is Err {
                assert(self@ =~= before);
            }
        }
        r
    }
}

} // verus!
