use stock_market::{
    ClientTracker, CompanyManager, IdIssuer, MarketError, Password, Ranker, RankerHistory, Stock,
    UserManager, ID,
};

fn password() -> Password {
    Password::new([1, 2, 3, 4, 1, 2])
}

/// An identifier that no registry in a test has handed out.
fn unknown_id() -> ID {
    let mut other = IdIssuer::new();
    for _ in 0..1000 {
        ID::new(&mut other);
    }
    ID::new(&mut other)
}

#[test]
fn company_manager_test() {
    let mut company_manager: CompanyManager = CompanyManager::new();

    let gamer = company_manager.new_company(String::from("Gamer"), 101).unwrap();
    let gamerers = company_manager.new_company(String::from("Gamerers"), 201).unwrap();

    company_manager.get_company_by_id(gamer).unwrap();
    company_manager.get_company_by_id(gamerers).unwrap();
    if let Ok(_company) = company_manager.get_company_by_id(unknown_id()) {
        panic!("Should not find a company that doesn't exist");
    }

    company_manager.get_company_by_name(&String::from("Gamer")).unwrap();
    company_manager.get_company_by_name(&String::from("Gamerers")).unwrap();
    if let Ok(_company) = company_manager.get_company_by_name(&String::from("Jeff Bezos")) {
        panic!("Should not find a company that doesn't exist");
    }

    company_manager.get_company_by_name_mut(&String::from("Gamer")).unwrap();
    company_manager.get_company_by_name_mut(&String::from("Gamerers")).unwrap();
    if let Ok(_company) = company_manager.get_company_by_name_mut(&String::from("Jeff Bezos")) {
        panic!("Should not find a company that doesn't exist");
    }
}

#[test]
fn end_to_end_buy_walk_sell() {
    let mut companies = CompanyManager::new();
    let acme = companies.new_company(String::from("Acme"), 10_000).unwrap();
    let mut users = UserManager::new();
    let a = users.new_user(String::from("a"), String::from("A"), password()).unwrap();
    assert_eq!(users.get_user_by_id(a).unwrap().money(), 100_000);

    let stock = Stock::new(acme, String::from("Acme"), 10_000);
    users.buy_stock(a, stock, 5).unwrap();
    {
        let user = users.get_user_by_id(a).unwrap();
        assert_eq!(user.money(), 50_000);
        let holder = user.wallet().get_stock_holder_by_id(acme).unwrap();
        assert_eq!(holder.stock_amount(), 5);
        assert_eq!(holder.avg_purchase_price(), 10_000);
    }

    companies.apply_price_deltas(&vec![2_000]);
    assert_eq!(companies.get_company_by_id(acme).unwrap().stock_price(), 12_000);

    users.sell_stock(a, &companies, acme, 3).unwrap();
    let user = users.get_user_by_id(a).unwrap();
    assert_eq!(user.money(), 86_000);
    let holder = user.wallet().get_stock_holder_by_id(acme).unwrap();
    assert_eq!(holder.stock_amount(), 2);
    assert_eq!(holder.avg_purchase_price(), 10_000);
    assert_eq!(user.value(&companies), Some(110_000));
}

#[test]
fn buy_beyond_cash_is_insufficient_funds() {
    let mut companies = CompanyManager::new();
    let acme = companies.new_company(String::from("Acme"), 10_000).unwrap();
    let mut users = UserManager::new();
    let a = users.new_user(String::from("a"), String::from("A"), password()).unwrap();
    users.buy_stock(a, Stock::new(acme, String::from("Acme"), 10_000), 5).unwrap();
    assert_eq!(users.get_user_by_id(a).unwrap().money(), 50_000);

    let r = users.buy_stock(a, Stock::new(acme, String::from("Acme"), 10_000), 100);
    assert_eq!(r, Err(MarketError::InsufficientFunds));
    let user = users.get_user_by_id(a).unwrap();
    assert_eq!(user.money(), 50_000);
    let holder = user.wallet().get_stock_holder_by_id(acme).unwrap();
    assert_eq!(holder.stock_amount(), 5);
    assert_eq!(holder.avg_purchase_price(), 10_000);
    assert_eq!(user.stock_amount(), 5);
}

#[test]
fn average_cost_is_weighted_mean_of_buys() {
    let mut companies = CompanyManager::new();
    let acme = companies.new_company(String::from("Acme"), 100).unwrap();
    let other = companies.new_company(String::from("Other"), 100).unwrap();
    let mut users = UserManager::new();
    let a = users.new_user(String::from("a"), String::from("A"), password()).unwrap();
    users.buy_stock(a, Stock::new(acme, String::from("Acme"), 100), 2).unwrap();
    users.buy_stock(a, Stock::new(other, String::from("Other"), 999), 7).unwrap();
    users.buy_stock(a, Stock::new(acme, String::from("Acme"), 400), 1).unwrap();
    users.buy_stock(a, Stock::new(other, String::from("Other"), 1), 3).unwrap();
    users.buy_stock(a, Stock::new(acme, String::from("Acme"), 250), 3).unwrap();
    let user = users.get_user_by_id(a).unwrap();
    // (2 * 100 + 1 * 400 + 3 * 250) / 6 = 1350 / 6 = 225
    let holder = user.wallet().get_stock_holder_by_id(acme).unwrap();
    assert_eq!(holder.stock_amount(), 6);
    assert_eq!(holder.avg_purchase_price(), 225);
    // (7 * 999 + 3 * 1) / 10 = 6996 / 10, rounded down
    let holder = user.wallet().get_stock_holder_by_id(other).unwrap();
    assert_eq!(holder.avg_purchase_price(), 699);
    assert_eq!(user.money(), 100_000 - 1350 - 6996);
}

#[test]
fn selling_keeps_average_cost_and_overselling_fails() {
    let mut companies = CompanyManager::new();
    let acme = companies.new_company(String::from("Acme"), 300).unwrap();
    let mut users = UserManager::new();
    let a = users.new_user(String::from("a"), String::from("A"), password()).unwrap();
    users.buy_stock(a, Stock::new(acme, String::from("Acme"), 100), 1).unwrap();
    users.buy_stock(a, Stock::new(acme, String::from("Acme"), 200), 2).unwrap();
    users.sell_stock(a, &companies, acme, 1).unwrap();
    {
        let user = users.get_user_by_id(a).unwrap();
        let holder = user.wallet().get_stock_holder_by_id(acme).unwrap();
        assert_eq!(holder.stock_amount(), 2);
        // 500 / 3, rounded down
        assert_eq!(holder.avg_purchase_price(), 166);
        assert_eq!(user.money(), 100_000 - 500 + 300);
    }
    let r = users.sell_stock(a, &companies, acme, 3);
    assert_eq!(r, Err(MarketError::InsufficientHoldings));
    let user = users.get_user_by_id(a).unwrap();
    assert_eq!(user.money(), 100_000 - 500 + 300);
    let holder = user.wallet().get_stock_holder_by_id(acme).unwrap();
    assert_eq!(holder.stock_amount(), 2);
    assert_eq!(holder.avg_purchase_price(), 166);
}

#[test]
fn buy_after_sell_spreads_held_cost() {
    let mut companies = CompanyManager::new();
    let acme = companies.new_company(String::from("Acme"), 100).unwrap();
    let mut users = UserManager::new();
    let a = users.new_user(String::from("a"), String::from("A"), password()).unwrap();
    users.buy_stock(a, Stock::new(acme, String::from("Acme"), 100), 2).unwrap();
    users.sell_stock(a, &companies, acme, 1).unwrap();
    users.buy_stock(a, Stock::new(acme, String::from("Acme"), 200), 1).unwrap();
    let user = users.get_user_by_id(a).unwrap();
    let holder = user.wallet().get_stock_holder_by_id(acme).unwrap();
    // (100 * 1 + 200 * 1) / 2
    assert_eq!(holder.stock_amount(), 2);
    assert_eq!(holder.avg_purchase_price(), 150);
}

#[test]
fn sell_errors() {
    let mut companies = CompanyManager::new();
    let acme = companies.new_company(String::from("Acme"), 100).unwrap();
    let mut users = UserManager::new();
    let a = users.new_user(String::from("a"), String::from("A"), password()).unwrap();
    assert_eq!(users.sell_stock(a, &companies, acme, 1), Err(MarketError::NotFound));
    assert_eq!(users.sell_stock(unknown_id(), &companies, acme, 1), Err(MarketError::NotFound));
    let ghost = unknown_id();
    users.buy_stock(a, Stock::new(ghost, String::from("Gone"), 100), 1).unwrap();
    assert_eq!(users.sell_stock(a, &companies, ghost, 1), Err(MarketError::NotFound));
    assert_eq!(users.get_user_by_id(a).unwrap().money(), 100_000 - 100);
}

#[test]
fn buy_argument_errors() {
    let mut companies = CompanyManager::new();
    let acme = companies.new_company(String::from("Acme"), 100).unwrap();
    let mut users = UserManager::new();
    let a = users.new_user(String::from("a"), String::from("A"), password()).unwrap();
    let r = users.buy_stock(a, Stock::new(acme, String::from("Acme"), 100), 0);
    assert_eq!(r, Err(MarketError::InvalidArgument));
    let r = users.buy_stock(a, Stock::new(acme, String::from("Acme"), -1), 1);
    assert_eq!(r, Err(MarketError::InvalidArgument));
    let r = users.buy_stock(unknown_id(), Stock::new(acme, String::from("Acme"), 1), 1);
    assert_eq!(r, Err(MarketError::NotFound));
    assert_eq!(users.get_user_by_id(a).unwrap().money(), 100_000);
    assert_eq!(users.get_user_by_id(a).unwrap().stock_amount(), 0);
}

#[test]
fn repeated_buys_never_overdraw() {
    let mut companies = CompanyManager::new();
    let acme = companies.new_company(String::from("Acme"), 30_000).unwrap();
    let mut users = UserManager::new();
    let a = users.new_user(String::from("a"), String::from("A"), password()).unwrap();
    let mut succeeded = 0;
    for _ in 0..5 {
        if users.buy_stock(a, Stock::new(acme, String::from("Acme"), 30_000), 1).is_ok() {
            succeeded += 1;
        }
    }
    assert_eq!(succeeded, 3);
    assert_eq!(users.get_user_by_id(a).unwrap().money(), 10_000);
}

#[test]
fn price_walk_rejects_negative_candidates() {
    let mut companies = CompanyManager::new();
    let low = companies.new_company(String::from("Low"), 500).unwrap();
    let high = companies.new_company(String::from("High"), 5_000).unwrap();
    companies.apply_price_deltas(&vec![-1_000, -1_000]);
    let c = companies.get_company_by_id(low).unwrap();
    assert_eq!(c.stock_price(), 500);
    assert_eq!(c.stock_price_history(), &vec![500]);
    let c = companies.get_company_by_id(high).unwrap();
    assert_eq!(c.stock_price(), 4_000);
    assert_eq!(c.stock_price_history(), &vec![5_000, 4_000]);
    companies.apply_price_deltas(&vec![-500, 0]);
    assert_eq!(companies.get_company_by_id(low).unwrap().stock_price(), 0);
}

#[test]
fn random_walk_keeps_prices_in_range() {
    let mut companies = CompanyManager::new();
    let id = companies.new_company(String::from("Acme"), 0).unwrap();
    let mut previous = 0;
    for _ in 0..200 {
        companies.update();
        let c = companies.get_company_by_id(id).unwrap();
        assert!(c.stock_price() >= 0);
        assert!((c.stock_price() - previous).abs() <= 2_000);
        assert!(c.stock_price_history().len() <= 50);
        assert_eq!(*c.stock_price_history().last().unwrap(), c.stock_price());
        previous = c.stock_price();
    }
}

#[test]
fn history_is_capped_at_fifty() {
    let mut companies = CompanyManager::new();
    let id = companies.new_company(String::from("Acme"), 0).unwrap();
    for _ in 0..60 {
        companies.apply_price_deltas(&vec![1]);
    }
    let c = companies.get_company_by_id(id).unwrap();
    assert_eq!(c.stock_price(), 60);
    let history = c.stock_price_history();
    assert_eq!(history.len(), 50);
    assert_eq!(history[0], 11);
    assert_eq!(history[49], 60);
}

#[test]
fn set_and_reset_price() {
    let mut companies = CompanyManager::new();
    companies.new_company(String::from("Acme"), 100).unwrap();
    let company = companies.get_company_by_name_mut(&String::from("Acme")).unwrap();
    assert_eq!(company.set_stock_price(-1), Err(MarketError::InvalidArgument));
    assert_eq!(company.stock_price(), 100);
    company.set_stock_price(300).unwrap();
    assert_eq!(company.stock_price_history(), &vec![100, 300]);
    company.reset_company(200).unwrap();
    assert_eq!(company.stock_price_history(), &vec![200]);
    assert_eq!(company.stock_price(), 200);
}

#[test]
fn new_company_errors() {
    let mut companies = CompanyManager::new();
    companies.new_company(String::from("Acme"), 100).unwrap();
    assert_eq!(
        companies.new_company(String::from("Acme"), 5),
        Err(MarketError::AlreadyExists)
    );
    assert_eq!(
        companies.new_company(String::from("Neg"), -5),
        Err(MarketError::InvalidArgument)
    );
    assert_eq!(companies.companies().len(), 1);
}

#[test]
fn reset_company_by_name_creates_or_reseeds() {
    let mut companies = CompanyManager::new();
    let apple = companies.reset_company(String::from("Apple"), 20_000).unwrap();
    companies.apply_price_deltas(&vec![300]);
    let again = companies.reset_company(String::from("Apple"), 20_000).unwrap();
    assert_eq!(apple, again);
    let c = companies.get_company_by_id(apple).unwrap();
    assert_eq!(c.stock_price_history(), &vec![20_000]);
    assert_eq!(
        companies.reset_company(String::from("Apple"), -1),
        Err(MarketError::InvalidArgument)
    );
}

#[test]
fn purchase_through_company() {
    let mut companies = CompanyManager::new();
    companies.new_company(String::from("Acme"), 2_500).unwrap();
    let mut users = UserManager::new();
    let a = users.new_user(String::from("a"), String::from("A"), password()).unwrap();
    let company = companies.get_company_by_name(&String::from("Acme")).unwrap();
    let mut user = stock_market::User::new(&mut IdIssuer::new(), String::from("b"), String::from("B"), password());
    company.purchase_stock(&mut user, 4).unwrap();
    assert_eq!(user.money(), 90_000);
    assert_eq!(user.stock_amount(), 4);
    assert!(users.get_user_by_id(a).is_ok());
}

#[test]
fn registration_refuses_taken_names() {
    let mut users = UserManager::new();
    let first = users.new_user(String::from("bob"), String::from("Bob"), password());
    let second = users.new_user(String::from("bob"), String::from("Robert"), password());
    assert!(first.is_ok());
    assert_eq!(second, Err(MarketError::AlreadyExists));
    let third = users.new_user(String::from("rob"), String::from("Bob"), password());
    assert_eq!(third, Err(MarketError::AlreadyExists));
    assert_eq!(users.users().len(), 1);
}

#[test]
fn authentication() {
    let mut users = UserManager::new();
    let id = users.new_user(String::from("bob"), String::from("Bob"), password()).unwrap();
    let user = users.authenticate(&String::from("bob"), password()).unwrap();
    assert!(user.id().equals(id));
    let wrong = Password::new([4, 4, 4, 4, 4, 4]);
    assert!(matches!(
        users.authenticate(&String::from("bob"), wrong),
        Err(MarketError::InvalidCredential)
    ));
    assert!(matches!(
        users.authenticate(&String::from("nobody"), password()),
        Err(MarketError::NotFound)
    ));
    assert!(users.get_user_by_username(&String::from("bob")).is_ok());
    assert!(users.get_user_by_display_name(&String::from("Bob")).is_ok());
    assert!(users.get_user_by_display_name(&String::from("bob")).is_err());
}

#[test]
fn reset_users_restores_starting_state() {
    let mut companies = CompanyManager::new();
    let acme = companies.new_company(String::from("Acme"), 100).unwrap();
    let mut users = UserManager::new();
    let a = users.new_user(String::from("a"), String::from("A"), password()).unwrap();
    users.buy_stock(a, Stock::new(acme, String::from("Acme"), 100), 10).unwrap();
    users.reset_users();
    let user = users.get_user_by_id(a).unwrap();
    assert_eq!(user.money(), 100_000);
    assert_eq!(user.stock_amount(), 0);
}

#[test]
fn leaderboard_is_sorted_and_stable() {
    let mut companies = CompanyManager::new();
    let acme = companies.new_company(String::from("Acme"), 1_000).unwrap();
    let mut users = UserManager::new();
    let a = users.new_user(String::from("a"), String::from("A"), password()).unwrap();
    let b = users.new_user(String::from("b"), String::from("B"), password()).unwrap();
    let c = users.new_user(String::from("c"), String::from("C"), password()).unwrap();
    users.new_user(String::from("d"), String::from("D"), password()).unwrap();
    // A loses 500 cents by buying at 1500 what is worth 1000.
    users.buy_stock(a, Stock::new(acme, String::from("Acme"), 1_500), 1).unwrap();
    // C gains 1000 cents by buying at 0 what is worth 1000.
    users.buy_stock(c, Stock::new(acme, String::from("Acme"), 0), 1).unwrap();
    let _ = b;
    let mut ranker = Ranker::new();
    ranker.rank_users(&users, &companies).unwrap();
    let names: Vec<String> = ranker.ranks().iter().map(|r| r.name().clone()).collect();
    assert_eq!(names, vec!["C", "B", "D", "A"]);
    let values: Vec<u128> = ranker.ranks().iter().map(|r| r.value()).collect();
    assert_eq!(values, vec![101_000, 100_000, 100_000, 99_500]);
    assert_eq!(
        ranker.get_data_range(0, 10),
        "1_C_1010.00,2_B_1000.00,3_D_1000.00,4_A_995.00"
    );
    assert_eq!(ranker.get_data_range(1, 3), "2_B_1000.00,3_D_1000.00");
    assert_eq!(ranker.get_data_range(4, 10), "");
    assert_eq!(ranker.get_data_range(100, 200), "");
    assert_eq!(ranker.get_data_range(2, 1), "");
    assert_eq!(ranker.ranks()[0].get_data(), "C_1010.00");
    assert_eq!(ranker.ranks()[0].cmp(&ranker.ranks()[1]), std::cmp::Ordering::Less);
    assert_eq!(ranker.ranks()[1].cmp(&ranker.ranks()[2]), std::cmp::Ordering::Equal);
}

#[test]
fn leaderboard_history() {
    let mut ranker = Ranker::new();
    let mut users = UserManager::new();
    users.new_user(String::from("a"), String::from("A"), password()).unwrap();
    ranker.rank_users(&users, &CompanyManager::new()).unwrap();
    let mut history = RankerHistory::new();
    assert!(history.get_recent().is_none());
    history.archive(&mut ranker);
    assert_eq!(ranker.ranks().len(), 0);
    assert_eq!(history.get_recent().unwrap().ranks().len(), 1);
    history.add(ranker.clone());
    assert_eq!(history.get_recent().unwrap().ranks().len(), 0);
}

#[test]
fn sessions_one_per_account_and_unique_names() {
    let mut users = IdIssuer::new();
    let u1 = ID::new(&mut users);
    let u2 = ID::new(&mut users);
    let mut tracker = ClientTracker::new();
    let s1 = tracker.add_client(u1, String::from("bob"), String::from("Bob")).unwrap();
    assert_eq!(
        tracker.add_client(u1, String::from("other"), String::from("Other")),
        Err(MarketError::AlreadyBound)
    );
    assert_eq!(
        tracker.add_client(u2, String::from("bob"), String::from("X")),
        Err(MarketError::AlreadyExists)
    );
    assert_eq!(
        tracker.add_client(u2, String::from("x"), String::from("Bob")),
        Err(MarketError::AlreadyExists)
    );
    assert!(tracker.get_user_id_by_client_id(s1).unwrap().equals(u1));
    assert!(tracker.get_client_id_by_user_id(u1).unwrap().equals(s1));
    assert!(tracker.contains_client_id(s1));
    assert!(tracker.contains_user_id(u1));
    assert!(!tracker.contains_user_id(u2));
    assert!(tracker.contains_user_name(&String::from("bob")));
    assert!(tracker.contains_display_name(&String::from("Bob")));
    let client = tracker.get_client_by_client_id(s1).unwrap();
    assert_eq!(client.user_name(), "bob");
    assert!(client.user_id().equals(u1));
    assert!(client.client_id().equals(s1));
    tracker.clear();
    assert!(!tracker.contains_client_id(s1));
    assert_eq!(tracker.get_user_id_by_client_id(s1), Err(MarketError::NotFound));
    let s2 = tracker.add_client(u1, String::from("bob"), String::from("Bob")).unwrap();
    assert!(!s2.equals(s1));
}

#[test]
fn password_text() {
    let p = Password::from_text(&String::from("left-right-up-down-left-right")).unwrap();
    assert!(p.compare(Password::new([1, 2, 3, 4, 1, 2])));
    assert!(!p.compare(Password::new([1, 2, 3, 4, 1, 1])));
    assert!(Password::from_text(&String::from("left-right-up-down-left")).is_err());
    assert!(Password::from_text(&String::from("left-right-up-down-left-right-up")).is_err());
    assert!(Password::from_text(&String::from("left-right-up-down-left-rite")).is_err());
    assert!(Password::from_text(&String::from("left-right-up-down-left-")).is_err());
    assert!(matches!(
        Password::from_text(&String::from("")),
        Err(MarketError::InvalidArgument)
    ));
}

#[test]
fn id_from_text() {
    assert_eq!(ID::from_string(&String::from("ID=654")).unwrap().value(), 654);
    assert_eq!(ID::from_string(&String::from("ID=+7")).unwrap().value(), 7);
    assert!(ID::from_string(&String::from("ID=")).is_err());
    assert!(ID::from_string(&String::from("ID=12a")).is_err());
    assert!(ID::from_string(&String::from("XID=12")).is_err());
    assert!(ID::from_string(&String::from("ID=99999999999999999999999")).is_err());
    let mut ids = IdIssuer::new();
    let first = ID::new(&mut ids);
    let second = ID::new(&mut ids);
    assert_eq!(first.value(), 1);
    assert_eq!(second.value(), 2);
    assert!(!first.equals(second));
    assert!(ids.can_issue());
}

#[test]
fn market_reset_lists_and_warms_up() {
    let mut companies = CompanyManager::new();
    stock_market::company_manager::reset_company_manager(&mut companies).unwrap();
    let apple = companies.get_company_by_name(&String::from("Apple")).unwrap();
    assert!(apple.stock_price() >= 0);
    assert_eq!(apple.stock_price_history().len(), 50);
    assert!(companies.get_company_by_name(&String::from("Amazon")).is_ok());
    stock_market::company_manager::reset_company_manager(&mut companies).unwrap();
    assert_eq!(companies.companies().len(), 2);
}

#[test]
fn users_by_position_and_in_place() {
    let mut users = UserManager::new();
    let a = users.new_user(String::from("a"), String::from("A"), password()).unwrap();
    assert!(users.get_user(0).id().equals(a));
    let user = users.get_user_by_id_mut(a).unwrap();
    user.reset();
    assert_eq!(user.money(), 100_000);
    assert!(users.get_user_by_id_mut(unknown_id()).is_err());
    let stock = Stock::new(a, String::from("Acme"), 150);
    assert_eq!(stock_market::SaveData::get_data(&stock), "Acme,1.50");
    assert_eq!(stock.value(&CompanyManager::new()), None);
}

#[test]
fn epoch_reset_starts_a_new_round() {
    let mut companies = CompanyManager::new();
    let acme = companies.new_company(String::from("Acme"), 100).unwrap();
    let mut users = UserManager::new();
    let a = users.new_user(String::from("a"), String::from("A"), password()).unwrap();
    users.buy_stock(a, Stock::new(acme, String::from("Acme"), 100), 10).unwrap();
    let mut ranker = Ranker::new();
    ranker.rank_users(&users, &companies).unwrap();
    let mut history = RankerHistory::new();
    let mut tracker = ClientTracker::new();
    let session = tracker.add_client(a, String::from("a"), String::from("A")).unwrap();
    stock_market::epoch::reset_epoch(&mut companies, &mut users, &mut ranker, &mut history, &mut tracker)
        .unwrap();
    assert_eq!(users.get_user_by_id(a).unwrap().money(), 100_000);
    assert_eq!(users.get_user_by_id(a).unwrap().stock_amount(), 0);
    assert_eq!(ranker.ranks().len(), 0);
    assert_eq!(history.get_recent().unwrap().ranks().len(), 1);
    assert!(!tracker.contains_client_id(session));
    assert_eq!(companies.companies().len(), 3);
    assert!(companies.get_company_by_name(&String::from("Apple")).is_ok());
}

#[test]
fn set_price_by_name() {
    let mut companies = CompanyManager::new();
    let acme = companies.new_company(String::from("Acme"), 100).unwrap();
    companies.set_stock_price_by_name(&String::from("Acme"), 250).unwrap();
    assert_eq!(companies.get_company_by_id(acme).unwrap().stock_price_history(), &vec![100, 250]);
    assert_eq!(
        companies.set_stock_price_by_name(&String::from("Acme"), -1),
        Err(MarketError::InvalidArgument)
    );
    assert_eq!(
        companies.set_stock_price_by_name(&String::from("Nope"), 1),
        Err(MarketError::NotFound)
    );
}
