use vstd::prelude::*;

use crate::client_tracker::{
    has_client_id, has_session_display_name, has_session_user_name, has_user_id,
    session_with_client_id, session_with_user_id, ClientTracker, SessionModel,
};
use crate::company_manager::{company_with_name, has_company_name, CompanyManager};
use crate::error::MarketError;
use crate::id::{id_text_value, ID};
use crate::password::{password_codes, Password};
use crate::stock::Stock;
use crate::user::{UserModel, STARTING_MONEY};
use crate::user_manager::{
    account_with_user_name, accounts_after_buy, accounts_after_sell, has_account_display_name,
    has_account_user_name, UserManager,
};
use crate::text::{chars_of, matches_at, parse_unsigned_chars, unsigned_value};

verus! {

/// The first position at or after `from` where `pat` occurs in `s`.
pub open spec fn find_from(s: Seq<char>, pat: Seq<char>, from: int) -> Option<int>
    decreases s.len() + 1 - from,
{
    if from < 0 || from + pat.len() > s.len() {
        None
    } else if s.subrange(from, from + pat.len()) == pat {
        Some(from)
    } else {
        find_from(s, pat, from + 1)
    }
}

/// Where the line that starts at `from` ends: at the next line break, or at
/// the end of `s`.
pub open spec fn line_end(s: Seq<char>, from: int) -> int {
    match find_from(s.subrange(from, s.len() as int), seq!['\n'], 0) {
        Some(k) => from + k,
        None => s.len() as int,
    }
}

/// The text after the first occurrence of `pat` in the first line, from
/// the line that starts at `from` on, in which `pat` occurs.
pub open spec fn field_from(s: Seq<char>, pat: Seq<char>, from: int) -> Option<Seq<char>>
    decreases s.len() + 1 - from,
{
    if from < 0 || from > s.len() {
        None
    } else {
        let end = line_end(s, from);
        let line = s.subrange(from, end);
        match find_from(line, pat, 0) {
            Some(i) => Some(line.subrange(i + pat.len(), line.len() as int)),
            None => if from <= end < s.len() {
                field_from(s, pat, end + 1)
            } else {
                None
            },
        }
    }
}

/// The value of the field named `pat` in a request body: the text after
/// `pat` in the first line that holds it.
pub open spec fn request_field(s: Seq<char>, pat: Seq<char>) -> Option<Seq<char>> {
    field_from(s, pat, 0)
}

/// A trade request `amount,name`: exactly one comma, before it an unsigned
/// integer that fits a `u64`.
pub open spec fn trade_request(s: Seq<char>) -> Option<(nat, Seq<char>)> {
    match find_from(s, seq![','], 0) {
        Some(c) => {
            if find_from(s.subrange(c + 1, s.len() as int), seq![','], 0) is None && unsigned_value(
                s.subrange(0, c),
            ) is Some && unsigned_value(s.subrange(0, c))->Some_0 <= u64::MAX {
                Some((unsigned_value(s.subrange(0, c))->Some_0, s.subrange(c + 1, s.len() as int)))
            } else {
                None
            }
        },
        None => None,
    }
}

/// Whether `c` is white space, as `char::is_whitespace` has it.
pub open spec fn is_whitespace(c: char) -> bool {
    c == ' ' || ('\t' <= c <= '\r') || c == '\u{85}' || c == '\u{a0}' || c == '\u{1680}' || (
    '\u{2000}' <= c <= '\u{200a}') || c == '\u{2028}' || c == '\u{2029}' || c == '\u{202f}' || c
        == '\u{205f}' || c == '\u{3000}'
}

/// Keeps the characters that are not white space.
pub open spec fn not_whitespace() -> spec_fn(char) -> bool {
    |c: char| !is_whitespace(c)
}

pub open spec fn id_pattern() -> Seq<char> {
    seq!['I', 'D', '=']
}

pub open spec fn user_name_pattern() -> Seq<char> {
    seq!['U', 'S', 'E', 'R', 'N', 'A', 'M', 'E', '=']
}

/// What a session cookie such as `ID=5,USERNAME=bob` names, once its white
/// space is removed: the session identifier (the text from `ID=` up to the
/// first comma) and the login name (the text after `USERNAME=`).
pub open spec fn cookie_session(cookie: Seq<char>) -> Option<(nat, Seq<char>)> {
    let t = cookie.filter(not_whitespace());
    let comma = find_from(t, seq![','], 0);
    let idp = find_from(t, id_pattern(), 0);
    let unp = find_from(t, user_name_pattern(), 0);
    if comma is Some && idp is Some && unp is Some && idp->Some_0 <= comma->Some_0 && id_text_value(
        t.subrange(idp->Some_0, comma->Some_0),
    ) is Some && id_text_value(t.subrange(idp->Some_0, comma->Some_0))->Some_0 <= usize::MAX {
        Some(
            (
                id_text_value(t.subrange(idp->Some_0, comma->Some_0))->Some_0,
                t.subrange(unp->Some_0 + 9, t.len() as int),
            ),
        )
    } else {
        None
    }
}

/// The first position of `pat` in the characters `lo..hi` of `s`, counted
/// in `s`.
pub fn find_in(s: &Vec<char>, pat: &Vec<char>, lo: usize, hi: usize) -> (r: Option<usize>)
    requires
        lo <= hi <= s@.len(),
    ensures
        r matches Some(i) ==> find_from(s@.subrange(lo as int, hi as int), pat@, 0) == Some(
            i - lo,
        ) && lo <= i && i + pat@.len() <= hi,
        r is None ==> find_from(s@.subrange(lo as int, hi as int), pat@, 0) is None,
{
    let ghost sub = s@.subrange(lo as int, hi as int);
    let plen = pat.len();
    let mut i: usize = lo;
    while i <= hi && hi - i >= plen
        invariant
            lo <= i <= hi + 1,
            hi <= s@.len(),
            plen == pat@.len(),
            sub == s@.subrange(lo as int, hi as int),
            find_from(sub, pat@, 0) == find_from(sub, pat@, i - lo),
        decreases hi + 1 - i,
    {
        assert(sub.subrange(i - lo, i - lo + plen) =~= s@.subrange(i as int, i + plen));
        if matches_at(s, i, pat) {
            return Some(i);
        }
        if plen == 0 {
            assert(s@.subrange(i as int, i as int) =~= pat@);
        }
        i = i + 1;
    }
    None
}

/// The characters of `s`, without their white space.
fn strip_whitespace(s: &Vec<char>) -> (r: Vec<char>)
    ensures
        r@ == s@.filter(not_whitespace()),
{
    let mut r: Vec<char> = Vec::new();
    let mut i: usize = 0;
    while i < s.len()
        invariant
            i <= s@.len(),
            r@ == s@.subrange(0, i as int).filter(not_whitespace()),
        decreases s@.len() - i,
    {
        let c = s[i];
        proof {
            reveal(Seq::filter);
            assert(s@.subrange(0, i + 1).drop_last() =~= s@.subrange(0, i as int));
        }
        let space = c == ' ' || ('\t' <= c && c <= '\r') || c == '\u{85}' || c == '\u{a0}' || c
            == '\u{1680}' || ('\u{2000}' <= c && c <= '\u{200a}') || c == '\u{2028}' || c
            == '\u{2029}' || c == '\u{202f}' || c == '\u{205f}' || c == '\u{3000}';
        if !space {
            r.push(c);
        }
        i = i + 1;
    }
    assert(s@.subrange(0, s@.len() as int) =~= s@);
    r
}

/// The value of the field named `to_find` in `to_parse`: the text after
/// `to_find` in the first line that holds it, or `NotFound`.
pub fn parse_text(to_find: &String, to_parse: &String) -> (r: Result<String, MarketError>)
    ensures
        request_field(to_parse@, to_find@) matches Some(v) ==> (r matches Ok(t) && t@ == v),
        request_field(to_parse@, to_find@) is None ==> r == Err::<String, MarketError>(
            MarketError::NotFound,
        ),
{
    let s = chars_of(to_parse.as_str());
    let pat = chars_of(to_find.as_str());
    let mut newline: Vec<char> = Vec::new();
    newline.push('\n');
    assert(newline@ =~= seq!['\n']);
    let n = s.len();
    let mut from: usize = 0;
    while from <= n
        invariant
            n == s@.len(),
            s@ == to_parse@,
            pat@ == to_find@,
            newline@ == seq!['\n'],
            from <= n + 1,
            request_field(to_parse@, to_find@) == field_from(s@, pat@, from as int),
        decreases n + 1 - from,
    {
        let end = match find_in(&s, &newline, from, n) {
            Some(k) => k,
            None => n,
        };
        assert(end == line_end(s@, from as int));
        let ghost line = s@.subrange(from as int, end as int);
        match find_in(&s, &pat, from, end) {
            Some(i) => {
                let value = to_parse.as_str().substring_char(i + pat.len(), end);
                assert(value@ =~= line.subrange(i - from + pat@.len(), line.len() as int));
                return Ok(String::from_str(value));
            },
            None => {
                if end >= n {
                    return Err(MarketError::NotFound);
                }
                from = end + 1;
            },
        }
    }
    Err(MarketError::NotFound)
}

/// Reads a trade request `amount,name`; anything else is refused with
/// `InvalidArgument`.
pub fn parse_trade_request(text: &String) -> (r: Result<(u64, String), MarketError>)
    ensures
        trade_request(text@) matches Some(req) ==> (r matches Ok(t) && t.0 == req.0 && t.1@
            == req.1),
        trade_request(text@) is None ==> r == Err::<(u64, String), MarketError>(
            MarketError::InvalidArgument,
        ),
{
    let s = chars_of(text.as_str());
    let n = s.len();
    let mut comma: Vec<char> = Vec::new();
    comma.push(',');
    assert(comma@ =~= seq![',']);
    assert(s@.subrange(0, n as int) =~= s@);
    let c = match find_in(&s, &comma, 0, n) {
        Some(c) => c,
        None => return Err(MarketError::InvalidArgument),
    };
    if find_in(&s, &comma, c + 1, n).is_some() {
        return Err(MarketError::InvalidArgument);
    }
    let amount = match parse_unsigned_chars(&s, 0, c, u64::MAX as u128) {
        Some(v) => v as u64,
        None => return Err(MarketError::InvalidArgument),
    };
    let name = text.as_str().substring_char(c + 1, n);
    Ok((amount, String::from_str(name)))
}

/// The pattern `ID=`.
fn id_pattern_chars() -> (r: Vec<char>)
    ensures
        r@ == id_pattern(),
{
    let mut r: Vec<char> = Vec::new();
    r.push('I');
    r.push('D');
    r.push('=');
    assert(r@ =~= id_pattern());
    r
}

/// The pattern `USERNAME=`.
fn user_name_pattern_chars() -> (r: Vec<char>)
    ensures
        r@ == user_name_pattern(),
{
    let mut r: Vec<char> = Vec::new();
    r.push('U');
    r.push('S');
    r.push('E');
    r.push('R');
    r.push('N');
    r.push('A');
    r.push('M');
    r.push('E');
    r.push('=');
    assert(r@ =~= user_name_pattern());
    r
}

/// Whether the characters `lo..` of `s` spell `name`.
fn tail_equals(s: &Vec<char>, lo: usize, name: &String) -> (r: bool)
    requires
        lo <= s@.len(),
    ensures
        r == (s@.subrange(lo as int, s@.len() as int) == name@),
{
    let t = chars_of(name.as_str());
    if s.len() - lo != t.len() {
        proof {
            if s@.subrange(lo as int, s@.len() as int) == name@ {
                assert(s@.subrange(lo as int, s@.len() as int).len() == name@.len());
            }
        }
        return false;
    }
    let r = matches_at(s, lo, &t);
    assert(s@.subrange(lo as int, lo + t@.len()) =~= s@.subrange(lo as int, s@.len() as int));
    r
}

/// The account that a session cookie such as `ID=5,USERNAME=bob` stands
/// for. Fails with `InvalidArgument` when the cookie does not read so, with
/// `NotFound` when no session has that identifier, and with
/// `InvalidCredential` when the session's login name is another.
pub fn get_user_id_from_request(cookie: &String, client_tracker: &ClientTracker) -> (r: Result<
    ID,
    MarketError,
>)
    requires
        client_tracker.wf(),
    ensures
        cookie_session(cookie@) is None ==> r == Err::<ID, MarketError>(
            MarketError::InvalidArgument,
        ),
        cookie_session(cookie@) matches Some(cs) ==> {
            &&& !has_client_id(client_tracker@, cs.0) ==> r == Err::<ID, MarketError>(
                MarketError::NotFound,
            )
            &&& has_client_id(client_tracker@, cs.0) && session_with_client_id(
                client_tracker@,
                cs.0,
            ).user_name != cs.1 ==> r == Err::<ID, MarketError>(MarketError::InvalidCredential)
            &&& has_client_id(client_tracker@, cs.0) && session_with_client_id(
                client_tracker@,
                cs.0,
            ).user_name == cs.1 ==> (r matches Ok(id) && id@ == session_with_client_id(
                client_tracker@,
                cs.0,
            ).user_id)
        },
{
    let raw = chars_of(cookie.as_str());
    let t = strip_whitespace(&raw);
    let n = t.len();
    assert(t@.subrange(0, n as int) =~= t@);
    let mut comma: Vec<char> = Vec::new();
    comma.push(',');
    assert(comma@ =~= seq![',']);
    let comma_pos = match find_in(&t, &comma, 0, n) {
        Some(c) => c,
        None => return Err(MarketError::InvalidArgument),
    };
    let id_pos = match find_in(&t, &id_pattern_chars(), 0, n) {
        Some(c) => c,
        None => return Err(MarketError::InvalidArgument),
    };
    let name_pos = match find_in(&t, &user_name_pattern_chars(), 0, n) {
        Some(c) => c + 9,
        None => return Err(MarketError::InvalidArgument),
    };
    if id_pos > comma_pos {
        return Err(MarketError::InvalidArgument);
    }
    let client_id = match ID::from_chars(&t, id_pos, comma_pos) {
        Ok(id) => id,
        Err(e) => return Err(e),
    };
    let client = match client_tracker.get_client_by_client_id(client_id) {
        Ok(client) => client,
        Err(e) => return Err(e),
    };
    if tail_equals(&t, name_pos, client.user_name()) {
        Ok(client.user_id())
    } else {
        Err(MarketError::InvalidCredential)
    }
}

/// The longest login or display name, in characters.
pub const MAX_NAME_LEN: usize = 20;

pub open spec fn user_name_field() -> Seq<char> {
    seq!['U', 'S', 'E', 'R', 'N', 'A', 'M', 'E', ':']
}

pub open spec fn display_name_field() -> Seq<char> {
    seq!['D', 'I', 'S', 'P', 'L', 'A', 'Y', 'N', 'A', 'M', 'E', ':']
}

pub open spec fn password_field() -> Seq<char> {
    seq!['P', 'A', 'S', 'S', 'W', 'O', 'R', 'D', ':']
}

/// What a registration request holds: a login name and a display name of at
/// most `MAX_NAME_LEN` characters, and a password.
pub open spec fn registration_fields(req: Seq<char>) -> Option<(Seq<char>, Seq<char>, Seq<u16>)> {
    let u = request_field(req, user_name_field());
    let d = request_field(req, display_name_field());
    let p = request_field(req, password_field());
    if u is Some && d is Some && p is Some && password_codes(p->Some_0) is Some && u->Some_0.len()
        <= MAX_NAME_LEN && d->Some_0.len() <= MAX_NAME_LEN {
        Some((u->Some_0, d->Some_0, password_codes(p->Some_0)->Some_0))
    } else {
        None
    }
}

/// What a login request holds: a login name and a password.
pub open spec fn login_fields(req: Seq<char>) -> Option<(Seq<char>, Seq<u16>)> {
    let u = request_field(req, user_name_field());
    let p = request_field(req, password_field());
    if u is Some && p is Some && password_codes(p->Some_0) is Some {
        Some((u->Some_0, password_codes(p->Some_0)->Some_0))
    } else {
        None
    }
}

/// The marker of a request field: `USERNAME:` (0), `DISPLAYNAME:` (1) or
/// `PASSWORD:` (2).
fn field_name(which: u8) -> (r: String)
    requires
        which < 3,
    ensures
        which == 0 ==> r@ == user_name_field(),
        which == 1 ==> r@ == display_name_field(),
        which == 2 ==> r@ == password_field(),
{
    if which == 0 {
        proof { reveal_strlit("USERNAME:"); }
        let r = String::from_str("USERNAME:");
        assert(r@ =~= user_name_field());
        r
    } else if which == 1 {
        proof { reveal_strlit("DISPLAYNAME:"); }
        let r = String::from_str("DISPLAYNAME:");
        assert(r@ =~= display_name_field());
        r
    } else {
        proof { reveal_strlit("PASSWORD:"); }
        let r = String::from_str("PASSWORD:");
        assert(r@ =~= password_field());
        r
    }
}

/// The account that a registration with fields `f` (login name, display
/// name, password) adds, under identifier `id`.
pub open spec fn new_account(f: (Seq<char>, Seq<char>, Seq<u16>), id: nat) -> UserModel {
    UserModel {
        id,
        user_name: f.0,
        display_name: f.1,
        password: f.2,
        money: STARTING_MONEY,
        wallet: Seq::empty(),
    }
}

/// Whether `users` leaves the names of the fields `f` free.
pub open spec fn names_free(users: Seq<UserModel>, f: (Seq<char>, Seq<char>, Seq<u16>)) -> bool {
    !has_account_user_name(users, f.0) && !has_account_display_name(users, f.1)
}

/// Whether `sessions` leaves room for a session of account `id` with the
/// names of the fields `f`.
pub open spec fn session_room(
    sessions: Seq<SessionModel>,
    id: nat,
    f: (Seq<char>, Seq<char>, Seq<u16>),
) -> bool {
    !has_user_id(sessions, id) && !has_session_user_name(sessions, f.0)
        && !has_session_display_name(sessions, f.1)
}

/// Registers an account from a request body holding `USERNAME:`,
/// `DISPLAYNAME:` and `PASSWORD:` lines, then opens a session for it and
/// returns the session's identifier. A malformed request, a name longer
/// than `MAX_NAME_LEN` characters or an invalid password is refused with
/// `InvalidArgument`, a taken name with `AlreadyExists`; those change
/// nothing. When the session cannot be opened the account stays registered
/// and the tracker's error is returned.
pub fn create_account(
    request: &String,
    client_tracker: &mut ClientTracker,
    user_manager: &mut UserManager,
) -> (r: Result<ID, MarketError>)
    requires
        old(client_tracker).wf(),
        old(user_manager).wf(),
    ensures
        final(client_tracker).wf(),
        final(user_manager).wf(),
        registration_fields(request@) is None ==> r == Err::<ID, MarketError>(
            MarketError::InvalidArgument,
        ) && final(user_manager)@ == old(user_manager)@ && final(client_tracker)@ == old(client_tracker)@,
        registration_fields(request@) matches Some(f) ==> {
            &&& !names_free(old(user_manager)@, f) ==> r == Err::<ID, MarketError>(
                MarketError::AlreadyExists,
            ) && final(user_manager)@ == old(user_manager)@ && final(client_tracker)@ == old(client_tracker)@
            &&& names_free(old(user_manager)@, f) && !old(user_manager).can_issue() ==> r == Err::<
                ID,
                MarketError,
            >(MarketError::InvalidArgument) && final(user_manager)@ == old(user_manager)@ && final(client_tracker)@ == old(client_tracker)@
            &&& names_free(old(user_manager)@, f) && old(user_manager).can_issue() ==> {
                let id = old(user_manager).issued_below();
                &&& final(user_manager)@ == old(user_manager)@.push(new_account(f, id))
                &&& (r is Ok <==> session_room(old(client_tracker)@, id, f) && old(client_tracker).can_issue())
                &&& r matches Ok(session) ==> final(client_tracker)@ == old(client_tracker)@.push(
                    SessionModel {
                        client_id: session@,
                        user_id: id,
                        user_name: f.0,
                        display_name: f.1,
                    },
                )
                &&& r is Err ==> final(client_tracker)@ == old(client_tracker)@
            }
        },
{
    let user_name = match parse_text(&field_name(0), request) {
        Ok(v) => v,
        Err(_) => return Err(MarketError::InvalidArgument),
    };
    let display_name = match parse_text(&field_name(1), request) {
        Ok(v) => v,
        Err(_) => return Err(MarketError::InvalidArgument),
    };
    let password_text = match parse_text(&field_name(2), request) {
        Ok(v) => v,
        Err(_) => return Err(MarketError::InvalidArgument),
    };
    let password = match Password::from_text(&password_text) {
        Ok(p) => p,
        Err(e) => return Err(e),
    };
    if user_name.as_str().unicode_len() > MAX_NAME_LEN || display_name.as_str().unicode_len()
        > MAX_NAME_LEN {
        return Err(MarketError::InvalidArgument);
    }
    let user_id = match user_manager.new_user(user_name.clone(), display_name.clone(), password) {
        Ok(id) => id,
        Err(e) => return Err(e),
    };
    client_tracker.add_client(user_id, user_name, display_name)
}

/// Logs in from a request body holding `USERNAME:` and `PASSWORD:` lines
/// and returns the session identifier: a new session, or the one the
/// account already has. A malformed request or an invalid password is
/// refused with `InvalidArgument`, an unknown login name with `NotFound`,
/// a wrong password with `InvalidCredential`.
pub fn login(request: &String, client_tracker: &mut ClientTracker, user_manager: &UserManager) -> (r:
    Result<ID, MarketError>)
    requires
        old(client_tracker).wf(),
        user_manager.wf(),
    ensures
        final(client_tracker).wf(),
        login_fields(request@) is None ==> r == Err::<ID, MarketError>(
            MarketError::InvalidArgument,
        ),
        r is Err ==> final(client_tracker)@ == old(client_tracker)@,
        login_fields(request@) matches Some(f) ==> {
            let account = account_with_user_name(user_manager@, f.0);
            &&& !has_account_user_name(user_manager@, f.0) ==> r == Err::<ID, MarketError>(
                MarketError::NotFound,
            )
            &&& has_account_user_name(user_manager@, f.0) && account.password != f.1 ==> r
                == Err::<ID, MarketError>(MarketError::InvalidCredential)
            &&& has_account_user_name(user_manager@, f.0) && account.password == f.1 && has_user_id(
                old(client_tracker)@,
                account.id,
            ) ==> (r matches Ok(s) && s@ == session_with_user_id(
                old(client_tracker)@,
                account.id,
            ).client_id)
            &&& has_user_id(old(client_tracker)@, account.id) ==> final(client_tracker)@ == old(client_tracker)@
            &&& has_account_user_name(user_manager@, f.0) && account.password == f.1 && !has_user_id(
                old(client_tracker)@,
                account.id,
            ) && !has_session_user_name(old(client_tracker)@, f.0) && !has_session_display_name(
                old(client_tracker)@,
                account.display_name,
            ) && old(client_tracker).can_issue() ==> (r matches Ok(s) && final(client_tracker)@
                == old(client_tracker)@.push(
                SessionModel {
                    client_id: s@,
                    user_id: account.id,
                    user_name: f.0,
                    display_name: account.display_name,
                },
            ))
            &&& r matches Ok(s) ==> account.password == f.1 && (final(client_tracker)@ == old(client_tracker)@ || final(client_tracker)@ == old(client_tracker)@.push(
                SessionModel {
                    client_id: s@,
                    user_id: account.id,
                    user_name: f.0,
                    display_name: account.display_name,
                },
            ))
        },
{
    let user_name = match parse_text(&field_name(0), request) {
        Ok(v) => v,
        Err(_) => return Err(MarketError::InvalidArgument),
    };
    let password_text = match parse_text(&field_name(2), request) {
        Ok(v) => v,
        Err(_) => return Err(MarketError::InvalidArgument),
    };
    let password = match Password::from_text(&password_text) {
        Ok(p) => p,
        Err(e) => return Err(e),
    };
    let user = match user_manager.authenticate(&user_name, password) {
        Ok(u) => u,
        Err(e) => return Err(e),
    };
    match client_tracker.add_client(user.id(), user_name, user.display_name().clone()) {
        Ok(id) => Ok(id),
        Err(_) => client_tracker.get_client_id_by_user_id(user.id()),
    }
}

/// What a buy request does to the accounts `users`, at the prices of
/// `companies`: the new accounts, or the error that refuses it.
pub open spec fn buy_request_outcome(
    users: Seq<UserModel>,
    user_id: nat,
    companies: Seq<crate::company::CompanyModel>,
    req: Seq<char>,
) -> Result<Seq<UserModel>, MarketError> {
    match trade_request(req) {
        None => Err(MarketError::InvalidArgument),
        Some(t) => if !has_company_name(companies, t.1) {
            Err(MarketError::NotFound)
        } else {
            let c = company_with_name(companies, t.1);
            accounts_after_buy(users, user_id, c.id, c.name, c.price as int, t.0)
        },
    }
}

/// What a sell request does to the accounts `users`, at the prices of
/// `companies`: the new accounts, or the error that refuses it.
pub open spec fn sell_request_outcome(
    users: Seq<UserModel>,
    user_id: nat,
    companies: Seq<crate::company::CompanyModel>,
    req: Seq<char>,
) -> Result<Seq<UserModel>, MarketError> {
    match trade_request(req) {
        None => Err(MarketError::InvalidArgument),
        Some(t) => if !has_company_name(companies, t.1) {
            Err(MarketError::NotFound)
        } else {
            accounts_after_sell(users, user_id, companies, company_with_name(companies, t.1).id, t.0)
        },
    }
}

/// Buys for account `user_id` what a trade request `amount,name` asks, at
/// the company's current price. A malformed request is refused with
/// `InvalidArgument`, an unknown company with `NotFound`; otherwise the
/// purchase goes as `UserManager::buy_stock` says.
pub fn buy_stock(
    request: &String,
    user_id: ID,
    user_manager: &mut UserManager,
    company_manager: &CompanyManager,
) -> (r: Result<(), MarketError>)
    requires
        old(user_manager).wf(),
        company_manager.wf(),
    ensures
        final(user_manager).wf(),
        buy_request_outcome(old(user_manager)@, user_id@, company_manager@, request@) matches Ok(
            after,
        ) ==> r is Ok && final(user_manager)@ == after,
        buy_request_outcome(old(user_manager)@, user_id@, company_manager@, request@) matches Err(
            e,
        ) ==> r == Err::<(), MarketError>(e) && final(user_manager)@ == old(user_manager)@,
{
    let (amount, name) = match parse_trade_request(request) {
        Ok(t) => t,
        Err(e) => return Err(e),
    };
    let company = match company_manager.get_company_by_name(&name) {
        Ok(c) => c,
        Err(e) => return Err(e),
    };
    let stock = Stock::new(company.id(), company.name().clone(), company.stock_price());
    user_manager.buy_stock(user_id, stock, amount)
}

/// Sells for account `user_id` what a trade request `amount,name` asks, at
/// the company's current price. A malformed request is refused with
/// `InvalidArgument`, an unknown company with `NotFound`; otherwise the sale
/// goes as `UserManager::sell_stock` says.
pub fn sell_stock(
    request: &String,
    user_id: ID,
    user_manager: &mut UserManager,
    company_manager: &CompanyManager,
) -> (r: Result<(), MarketError>)
    requires
        old(user_manager).wf(),
        company_manager.wf(),
    ensures
        final(user_manager).wf(),
        sell_request_outcome(old(user_manager)@, user_id@, company_manager@, request@) matches Ok(
            after,
        ) ==> r is Ok && final(user_manager)@ == after,
        sell_request_outcome(old(user_manager)@, user_id@, company_manager@, request@) matches Err(
            e,
        ) ==> r == Err::<(), MarketError>(e) && final(user_manager)@ == old(user_manager)@,
{
    let (amount, name) = match parse_trade_request(request) {
        Ok(t) => t,
        Err(e) => return Err(e),
    };
    let company = match company_manager.get_company_by_name(&name) {
        Ok(c) => c,
        Err(e) => return Err(e),
    };
    user_manager.sell_stock(user_id, company_manager, company.id(), amount)
}

/// Of two registrations with the same login name, run one after the other,
/// exactly one registers an account. By the contract of `create_account`,
/// the first one, with valid fields, free names and an identifier left,
/// pushes `new_account(f, id)`; this lemma shows that the login name is then
/// taken, so by the same contract the second is refused with
/// `AlreadyExists` and changes nothing.
pub proof fn lemma_second_registration_refused(
    users: Seq<UserModel>,
    f: (Seq<char>, Seq<char>, Seq<u16>),
    id: nat,
    g: (Seq<char>, Seq<char>, Seq<u16>),
)
    requires
        g.0 == f.0,
    ensures
        !names_free(users.push(new_account(f, id)), g),
{
    assert(users.push(new_account(f, id))[users.len() as int].user_name == g.0);
}

} // verus!
