use vstd::prelude::*;

use crate::company::{Company, CompanyModel};
use crate::company_manager::CompanyManager;
use crate::stock::{PositionModel, Stock, StockHolder, StockWallet};
use crate::text::{
    decimal, joined, money_text, push_char, push_decimal, push_money, push_signed_money,
    signed_money_text,
};
use crate::user::{User, UserModel};
use crate::user_manager::UserManager;

verus! {

/// A deterministic text of the current state, for whoever keeps it.
pub trait SaveData {
    /// The text, in the terms that contracts speak of.
    spec fn data(&self) -> Seq<char>;

    /// The text of the current state.
    fn get_data(&self) -> (r: String)
        ensures
            r@ == self.data(),
    ;
}

/// Each price of `history`, oldest first, after a comma.
pub open spec fn prices_text(history: Seq<i64>) -> Seq<char>
    decreases history.len(),
{
    if history.len() == 0 {
        Seq::empty()
    } else {
        prices_text(history.drop_last()).push(',') + signed_money_text(history.last() as int)
    }
}

/// A company: its name, then its recent prices, each after a comma.
pub open spec fn company_text(c: CompanyModel) -> Seq<char> {
    c.name + prices_text(c.history)
}

/// A holding: the number of shares, the company's name and the average
/// cost, joined by `_`.
pub open spec fn holder_text(p: PositionModel) -> Seq<char> {
    decimal(p.quantity) + seq!['_'] + p.company_name + seq!['_'] + money_text(p.average_cost())
}

/// The holdings, one per line.
pub open spec fn wallet_text(s: Seq<PositionModel>) -> Seq<char> {
    joined(s.map_values(|p: PositionModel| holder_text(p)), '\n')
}

/// An account: its display name on one line, then its holdings.
pub open spec fn user_text(u: UserModel) -> Seq<char> {
    u.display_name + seq!['\n'] + wallet_text(u.wallet)
}

/// Every account's text, each followed by a line break.
pub open spec fn users_text(s: Seq<UserModel>) -> Seq<char>
    decreases s.len(),
{
    if s.len() == 0 {
        Seq::empty()
    } else {
        users_text(s.drop_last()) + user_text(s.last()) + seq!['\n']
    }
}

impl SaveData for Stock {
    open spec fn data(&self) -> Seq<char> {
        self.spec_name() + seq![','] + signed_money_text(self.spec_purchase_price() as int)
    }

    fn get_data(&self) -> (r: String) {
        let mut data = self.name().clone();
        push_char(&mut data, ',');
        push_signed_money(&mut data, self.purchase_price());
        assert(data@ =~= self.data());
        data
    }
}

impl SaveData for Company {
    open spec fn data(&self) -> Seq<char> {
        company_text(self@)
    }

    fn get_data(&self) -> (r: String) {
        let mut data = self.name().clone();
        let history = self.stock_price_history();
        let mut i: usize = 0;
        while i < history.len()
            invariant
                i <= history@.len(),
                history@ == self@.history,
                data@ == self@.name + prices_text(history@.subrange(0, i as int)),
            decreases history@.len() - i,
        {
            let ghost before = data@;
            push_char(&mut data, ',');
            push_signed_money(&mut data, history[i]);
            assert(history@.subrange(0, i + 1).drop_last() =~= history@.subrange(0, i as int));
            assert(data@ =~= self@.name + prices_text(history@.subrange(0, i + 1)));
            i = i + 1;
        }
        assert(history@.subrange(0, i as int) =~= history@);
        data
    }
}

impl SaveData for CompanyManager {
    open spec fn data(&self) -> Seq<char> {
        joined(self@.map_values(|c: CompanyModel| company_text(c)), '\n')
    }

    fn get_data(&self) -> (r: String) {
        let companies = self.companies();
        let ghost parts = self@.map_values(|c: CompanyModel| company_text(c));
        let mut data = String::new();
        let mut i: usize = 0;
        while i < companies.len()
            invariant
                i <= companies@.len(),
                companies@.map_values(|c: Company| c@) == self@,
                parts == self@.map_values(|c: CompanyModel| company_text(c)),
                data@ == joined(parts.subrange(0, i as int), '\n'),
            decreases companies@.len() - i,
        {
            let ghost before = data@;
            if i > 0 {
                push_char(&mut data, '\n');
            }
            let text = companies[i].get_data();
            data.append(text.as_str());
            proof {
                assert(self@[i as int] == companies@[i as int]@);
                assert(parts.subrange(0, i + 1).drop_last() =~= parts.subrange(0, i as int));
                if i == 0 {
                    assert(data@ =~= joined(parts.subrange(0, 1), '\n'));
                } else {
                    assert(data@ =~= before.push('\n') + parts[i as int]);
                }
            }
            i = i + 1;
        }
        assert(parts.subrange(0, i as int) =~= parts);
        data
    }
}

impl SaveData for StockHolder {
    open spec fn data(&self) -> Seq<char> {
        holder_text(self@)
    }

    fn get_data(&self) -> (r: String) {
        let mut data = String::new();
        push_decimal(&mut data, self.stock_amount() as u128);
        push_char(&mut data, '_');
        data.append(self.company_name().as_str());
        push_char(&mut data, '_');
        push_money(&mut data, self.avg_purchase_price());
        assert(data@ =~= holder_text(self@));
        data
    }
}

impl SaveData for StockWallet {
    open spec fn data(&self) -> Seq<char> {
        wallet_text(self@)
    }

    fn get_data(&self) -> (r: String) {
        let holders = self.holders();
        let ghost parts = self@.map_values(|p: PositionModel| holder_text(p));
        let mut data = String::new();
        let mut i: usize = 0;
        while i < holders.len()
            invariant
                i <= holders@.len(),
                holders@.map_values(|h: StockHolder| h@) == self@,
                parts == self@.map_values(|p: PositionModel| holder_text(p)),
                data@ == joined(parts.subrange(0, i as int), '\n'),
            decreases holders@.len() - i,
        {
            let ghost before = data@;
            if i > 0 {
                push_char(&mut data, '\n');
            }
            let text = holders[i].get_data();
            data.append(text.as_str());
            proof {
                assert(self@[i as int] == holders@[i as int]@);
                assert(parts.subrange(0, i + 1).drop_last() =~= parts.subrange(0, i as int));
                if i == 0 {
                    assert(data@ =~= joined(parts.subrange(0, 1), '\n'));
                } else {
                    assert(data@ =~= before.push('\n') + parts[i as int]);
                }
            }
            i = i + 1;
        }
        assert(parts.subrange(0, i as int) =~= parts);
        data
    }
}

impl SaveData for User {
    open spec fn data(&self) -> Seq<char> {
        user_text(self@)
    }

    fn get_data(&self) -> (r: String) {
        let mut data = self.display_name().clone();
        push_char(&mut data, '\n');
        let wallet = self.wallet().get_data();
        data.append(wallet.as_str());
        assert(data@ =~= user_text(self@));
        data
    }
}

impl SaveData for UserManager {
    open spec fn data(&self) -> Seq<char> {
        users_text(self@)
    }

    fn get_data(&self) -> (r: String) {
        let users = self.users();
        let mut data = String::new();
        let mut i: usize = 0;
        while i < users.len()
            invariant
                i <= users@.len(),
                users@.map_values(|u: User| u@) == self@,
                data@ == users_text(self@.subrange(0, i as int)),
            decreases users@.len() - i,
        {
            let text = users[i].get_data();
            data.append(text.as_str());
            push_char(&mut data, '\n');
            proof {
                assert(self@[i as int] == users@[i as int]@);
                assert(self@.subrange(0, i + 1).drop_last() =~= self@.subrange(0, i as int));
                assert(data@ =~= users_text(self@.subrange(0, i + 1)));
            }
            i = i + 1;
        }
        assert(self@.subrange(0, i as int) =~= self@);
        data
    }
}

} // verus!
