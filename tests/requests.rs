use stock_market::http::{get_cookie_from_request, get_text_from_request};
use stock_market::request::{
    buy_stock, create_account, get_user_id_from_request, login, parse_text, parse_trade_request,
    sell_stock,
};
use stock_market::{
    ClientTracker, CompanyManager, IdIssuer, MarketError, Password, SaveData, Stock, UserManager,
    ID,
};

#[test]
fn parse_text_finds_field_after_marker() {
    let parse_this = String::from("USER:Ozone");
    let username = parse_text(&String::from("USER:"), &parse_this).unwrap();
    assert_eq!(username, String::from("Ozone"));
    let body = String::from("junk\nUSERNAME:bob\nPASSWORD:up-up\nUSERNAME:eve");
    assert_eq!(parse_text(&String::from("USERNAME:"), &body).unwrap(), "bob");
    assert_eq!(parse_text(&String::from("PASSWORD:"), &body).unwrap(), "up-up");
    assert_eq!(
        parse_text(&String::from("DISPLAYNAME:"), &body),
        Err(MarketError::NotFound)
    );
    assert_eq!(parse_text(&String::from("x"), &String::from("abxcd")).unwrap(), "cd");
}

#[test]
fn trade_request_parsing() {
    let (amount, name) = parse_trade_request(&String::from("5,Acme")).unwrap();
    assert_eq!(amount, 5);
    assert_eq!(name, "Acme");
    assert!(parse_trade_request(&String::from("5")).is_err());
    assert!(parse_trade_request(&String::from("5,Acme,x")).is_err());
    assert!(parse_trade_request(&String::from("x,Acme")).is_err());
    assert_eq!(
        parse_trade_request(&String::from("-1,Acme")),
        Err(MarketError::InvalidArgument)
    );
}

fn registration(user: &str, display: &str, password: &str) -> String {
    format!("USERNAME:{}\nDISPLAYNAME:{}\nPASSWORD:{}", user, display, password)
}

#[test]
fn create_account_then_login() {
    let mut users = UserManager::new();
    let mut tracker = ClientTracker::new();
    let req = registration("bob", "Bob", "up-up-down-down-left-right");
    let session = create_account(&req, &mut tracker, &mut users).unwrap();
    assert_eq!(users.users().len(), 1);
    assert!(tracker.contains_client_id(session));
    let again = create_account(&req, &mut tracker, &mut users);
    assert_eq!(again, Err(MarketError::AlreadyExists));
    let bad = registration("x", "X", "up-up");
    assert_eq!(
        create_account(&bad, &mut tracker, &mut users),
        Err(MarketError::InvalidArgument)
    );
    let long = registration("abcdefghijklmnopqrstu", "Y", "up-up-up-up-up-up");
    assert_eq!(
        create_account(&long, &mut tracker, &mut users),
        Err(MarketError::InvalidArgument)
    );
    assert_eq!(users.users().len(), 1);

    let ok = String::from("USERNAME:bob\nPASSWORD:up-up-down-down-left-right");
    assert!(login(&ok, &mut tracker, &users).unwrap().equals(session));
    let wrong = String::from("USERNAME:bob\nPASSWORD:up-up-up-up-up-up");
    assert_eq!(login(&wrong, &mut tracker, &users), Err(MarketError::InvalidCredential));
    let nobody = String::from("USERNAME:eve\nPASSWORD:up-up-up-up-up-up");
    assert_eq!(login(&nobody, &mut tracker, &users), Err(MarketError::NotFound));
    tracker.clear();
    let fresh = login(&ok, &mut tracker, &users).unwrap();
    assert!(!fresh.equals(session));
}

#[test]
fn cookie_resolves_account() {
    let mut users = IdIssuer::new();
    let bob = ID::new(&mut users);
    let mut tracker = ClientTracker::new();
    let session = tracker.add_client(bob, String::from("bob"), String::from("Bob")).unwrap();
    let cookie = format!("ID={}, USERNAME=bob", session.value());
    assert!(get_user_id_from_request(&cookie, &tracker).unwrap().equals(bob));
    let wrong_name = format!("ID={},USERNAME=eve", session.value());
    assert_eq!(
        get_user_id_from_request(&wrong_name, &tracker),
        Err(MarketError::InvalidCredential)
    );
    let unknown = format!("ID={},USERNAME=bob", session.value() + 100);
    assert_eq!(get_user_id_from_request(&unknown, &tracker), Err(MarketError::NotFound));
    assert_eq!(
        get_user_id_from_request(&String::from("USERNAME=bob"), &tracker),
        Err(MarketError::InvalidArgument)
    );
    assert_eq!(
        get_user_id_from_request(&String::from("USERNAME=bob,ID=1"), &tracker),
        Err(MarketError::InvalidArgument)
    );
}

#[test]
fn trade_requests() {
    let mut companies = CompanyManager::new();
    companies.new_company(String::from("Acme"), 1_000).unwrap();
    let mut users = UserManager::new();
    let a = users.new_user(String::from("a"), String::from("A"), Password::new([1; 6])).unwrap();
    buy_stock(&String::from("3,Acme"), a, &mut users, &companies).unwrap();
    assert_eq!(users.get_user_by_id(a).unwrap().money(), 97_000);
    assert_eq!(
        buy_stock(&String::from("3,Nope"), a, &mut users, &companies),
        Err(MarketError::NotFound)
    );
    assert_eq!(
        buy_stock(&String::from("Acme"), a, &mut users, &companies),
        Err(MarketError::InvalidArgument)
    );
    sell_stock(&String::from("2,Acme"), a, &mut users, &companies).unwrap();
    assert_eq!(users.get_user_by_id(a).unwrap().money(), 99_000);
    assert_eq!(
        sell_stock(&String::from("2,Acme"), a, &mut users, &companies),
        Err(MarketError::InsufficientHoldings)
    );
}

#[test]
fn saved_text() {
    let mut companies = CompanyManager::new();
    let acme = companies.new_company(String::from("Acme"), 101).unwrap();
    companies.new_company(String::from("Beta"), 5).unwrap();
    companies.apply_price_deltas(&vec![99, -5]);
    assert_eq!(companies.get_data(), "Acme,1.01,2.00\nBeta,0.05,0.00");
    assert_eq!(companies.get_company_by_id(acme).unwrap().get_data(), "Acme,1.01,2.00");
    let mut users = UserManager::new();
    let a = users.new_user(String::from("a"), String::from("A"), Password::new([1; 6])).unwrap();
    users.new_user(String::from("b"), String::from("B"), Password::new([1; 6])).unwrap();
    users.buy_stock(a, Stock::new(acme, String::from("Acme"), 150), 2).unwrap();
    let user = users.get_user_by_id(a).unwrap();
    assert_eq!(user.wallet().get_data(), "2_Acme_1.50");
    assert_eq!(user.get_data(), "A\n2_Acme_1.50");
    assert_eq!(users.get_data(), "A\n2_Acme_1.50\nB\n\n");
}

#[test]
fn http_body_and_cookie() {
    let mut buffer = [0u8; 1024];
    let text = b"POST /buy_request HTTP/1.1\r\nHost: x\r\nCookie: ID=3,USERNAME=bob\r\n\r\n5,Acme";
    buffer[..text.len()].copy_from_slice(text);
    assert_eq!(get_text_from_request(&buffer).unwrap(), "5,Acme");
    assert_eq!(get_cookie_from_request(&buffer).unwrap(), "ID=3,USERNAME=bob");
    let no_cookie = b"GET /money HTTP/1.1\r\nHost: x\r\n\r\n";
    assert_eq!(
        get_cookie_from_request(no_cookie),
        Err(MarketError::InvalidArgument)
    );
    assert_eq!(get_text_from_request(no_cookie).unwrap(), "");
    assert_eq!(
        get_text_from_request(b"GET /money HTT"),
        Err(MarketError::InvalidArgument)
    );
}
