use vstd::prelude::*;

use crate::company::CompanyModel;
use crate::company_manager::CompanyManager;
use crate::error::MarketError;
use crate::text::{decimal, joined, money_text, push_char, push_decimal, push_money};
use crate::user::{User, UserModel};
use crate::user_manager::UserManager;

verus! {

/// One row of the leaderboard, in the terms that contracts speak of.
pub struct RankModel {
    pub name: Seq<char>,
    /// Net worth, in cents.
    pub value: nat,
}

/// The rows of the leaderboard for `users`, in their order, valued at the
/// prices of `companies`.
pub open spec fn standings(users: Seq<UserModel>, companies: Seq<CompanyModel>) -> Seq<RankModel> {
    users.map_values(
        |u: UserModel| RankModel { name: u.display_name, value: u.net_worth(companies) as nat },
    )
}

/// `s` with `x` placed after every row whose value is at least `x`'s,
/// counted from the end: into a list sorted by value, highest first, `x`
/// goes after the rows of equal value.
pub open spec fn insert_desc(s: Seq<RankModel>, x: RankModel) -> Seq<RankModel>
    decreases s.len(),
{
    if s.len() == 0 {
        seq![x]
    } else if s.last().value >= x.value {
        s.push(x)
    } else {
        insert_desc(s.drop_last(), x).push(s.last())
    }
}

/// `s` sorted by value, highest first, by insertion in order.
pub open spec fn sort_desc(s: Seq<RankModel>) -> Seq<RankModel>
    decreases s.len(),
{
    if s.len() == 0 {
        s
    } else {
        insert_desc(sort_desc(s.drop_last()), s.last())
    }
}

/// Whether `s` is ordered by value, highest first.
pub open spec fn sorted_desc(s: Seq<RankModel>) -> bool {
    forall|i: int, j: int| 0 <= i < j < s.len() ==> #[trigger] s[i].value >= #[trigger] s[j].value
}

/// Whether a row's value is `v`.
pub open spec fn worth_is(v: nat) -> spec_fn(RankModel) -> bool {
    |r: RankModel| r.value == v
}

/// `insert_desc` puts `x` at the one place after which only smaller values
/// follow.
proof fn lemma_insert_desc_shape(s: Seq<RankModel>, x: RankModel)
    ensures
        exists|j: int|
            0 <= j <= s.len() && insert_desc(s, x) == s.insert(j, x) && (j == 0 || s[j
                - 1].value >= x.value) && forall|k: int| j <= k < s.len() ==> #[trigger] s[k].value
                < x.value,
    decreases s.len(),
{
    if s.len() == 0 {
        assert(insert_desc(s, x) =~= s.insert(0, x));
    } else if s.last().value >= x.value {
        assert(insert_desc(s, x) =~= s.insert(s.len() as int, x));
    } else {
        let t = s.drop_last();
        lemma_insert_desc_shape(t, x);
        let j = choose|j: int|
            0 <= j <= t.len() && insert_desc(t, x) == t.insert(j, x) && (j == 0 || t[j - 1].value
                >= x.value) && forall|k: int| j <= k < t.len() ==> #[trigger] t[k].value < x.value;
        assert(insert_desc(s, x) =~= s.insert(j, x));
        assert forall|k: int| j <= k < s.len() implies #[trigger] s[k].value < x.value by {
            if k < t.len() {
                assert(s[k] == t[k]);
            }
        }
    }
}

/// The place of `x` in `s` is fixed by the values around it.
proof fn lemma_insert_desc_at(s: Seq<RankModel>, x: RankModel, j: int)
    requires
        0 <= j <= s.len(),
        j == 0 || s[j - 1].value >= x.value,
        forall|k: int| j <= k < s.len() ==> #[trigger] s[k].value < x.value,
    ensures
        insert_desc(s, x) == s.insert(j, x),
{
    lemma_insert_desc_shape(s, x);
    let i = choose|i: int|
        0 <= i <= s.len() && insert_desc(s, x) == s.insert(i, x) && (i == 0 || s[i - 1].value
            >= x.value) && forall|k: int| i <= k < s.len() ==> #[trigger] s[k].value < x.value;
    if i < j {
        assert(s[j - 1].value < x.value);
    } else if j < i {
        assert(s[i - 1].value < x.value);
    }
}

/// Insertion keeps a list sorted.
proof fn lemma_insert_desc_sorted(s: Seq<RankModel>, x: RankModel)
    requires
        sorted_desc(s),
    ensures
        sorted_desc(insert_desc(s, x)),
{
    lemma_insert_desc_shape(s, x);
    let j = choose|j: int|
        0 <= j <= s.len() && insert_desc(s, x) == s.insert(j, x) && (j == 0 || s[j - 1].value
            >= x.value) && forall|k: int| j <= k < s.len() ==> #[trigger] s[k].value < x.value;
    let t = s.insert(j, x);
    assert forall|a: int, b: int| 0 <= a < b < t.len() implies #[trigger] t[a].value
        >= #[trigger] t[b].value by {
        if b < j {
            assert(t[a] == s[a] && t[b] == s[b]);
        } else if b == j {
            assert(t[a] == s[a]);
            if a < j - 1 {
                assert(s[a].value >= s[j - 1].value);
            }
        } else if a < j {
            assert(t[a] == s[a] && t[b] == s[b - 1]);
        } else if a == j {
            assert(t[b] == s[b - 1]);
        } else {
            assert(t[a] == s[a - 1] && t[b] == s[b - 1]);
        }
    }
}

/// Insertion adds `x` after the rows of `s` of the same value, and keeps
/// their order.
proof fn lemma_insert_desc_filter(s: Seq<RankModel>, x: RankModel, v: nat)
    ensures
        insert_desc(s, x).filter(worth_is(v)) == if x.value == v {
            s.filter(worth_is(v)).push(x)
        } else {
            s.filter(worth_is(v))
        },
    decreases s.len(),
{
    reveal(Seq::filter);
    if s.len() == 0 {
        assert(seq![x].drop_last() =~= s);
    } else if s.last().value >= x.value {
        assert(s.push(x).drop_last() =~= s);
    } else {
        let t = s.drop_last();
        lemma_insert_desc_filter(t, x, v);
        assert(insert_desc(t, x).push(s.last()).drop_last() =~= insert_desc(t, x));
    }
}

/// The leaderboard order is sorted by net worth, highest first.
pub proof fn lemma_sort_desc_sorted(s: Seq<RankModel>)
    ensures
        sorted_desc(sort_desc(s)),
    decreases s.len(),
{
    if s.len() > 0 {
        lemma_sort_desc_sorted(s.drop_last());
        lemma_insert_desc_sorted(sort_desc(s.drop_last()), s.last());
    }
}

/// The leaderboard order is stable: for every value, the rows of that
/// value appear in it exactly as, and in the order, they appear in the
/// input.
pub proof fn lemma_sort_desc_stable(s: Seq<RankModel>, v: nat)
    ensures
        sort_desc(s).filter(worth_is(v)) == s.filter(worth_is(v)),
    decreases s.len(),
{
    reveal(Seq::filter);
    if s.len() > 0 {
        lemma_sort_desc_stable(s.drop_last(), v);
        lemma_insert_desc_filter(sort_desc(s.drop_last()), s.last(), v);
    }
}

/// One leaderboard row: a display name and a net worth.
#[derive(Clone, Debug)]
pub struct Rank {
    name: String,
    value: u128,
}

impl View for Rank {
    type V = RankModel;

    closed spec fn view(&self) -> RankModel {
        RankModel { name: self.name@, value: self.value as nat }
    }
}

/// A row's text: its name and its value in units and cents, joined by `_`.
pub open spec fn rank_text(r: RankModel) -> Seq<char> {
    r.name + seq!['_'] + money_text(r.value)
}

/// The text of the rows of `s` from `start` up to `stop`, each numbered by
/// its place on the leaderboard, counted from one.
pub open spec fn rank_lines(s: Seq<RankModel>, start: int, stop: int) -> Seq<Seq<char>> {
    Seq::new(
        (stop - start) as nat,
        |k: int| decimal((start + k + 1) as nat) + seq!['_'] + rank_text(s[start + k]),
    )
}

impl Rank {
    fn new(name: String, value: u128) -> (r: Rank)
        ensures
            r@ == (RankModel { name: name@, value: value as nat }),
    {
        Rank { name, value }
    }

    /// The row of `user`, at the prices of `company_manager`. Fails with
    /// `InvalidArgument` when the net worth does not fit a `u128`.
    pub fn rank_from_user(user: &User, company_manager: &CompanyManager) -> (r: Result<
        Rank,
        MarketError,
    >)
        requires
            user.wf(),
            company_manager.wf(),
        ensures
            r is Ok <==> user@.net_worth(company_manager@) <= u128::MAX,
            r is Err ==> r == Err::<Rank, MarketError>(MarketError::InvalidArgument),
            r matches Ok(rank) ==> rank@ == (RankModel {
                name: user@.display_name,
                value: user@.net_worth(company_manager@) as nat,
            }),
    {
        match user.value(company_manager) {
            Some(value) => Ok(Self::new(user.display_name().clone(), value)),
            None => Err(MarketError::InvalidArgument),
        }
    }

    /// The display name.
    pub fn name(&self) -> (r: &String)
        ensures
            r@ == self@.name,
    {
        &self.name
    }

    /// The net worth, in cents.
    pub fn value(&self) -> (r: u128)
        ensures
            r == self@.value,
    {
        self.value
    }

    /// Orders rows for the leaderboard: a row of higher value comes first.
    pub fn cmp(&self, other: &Rank) -> (r: std::cmp::Ordering)
        ensures
            r == (if other@.value == self@.value {
                std::cmp::Ordering::Equal
            } else if other@.value > self@.value {
                std::cmp::Ordering::Greater
            } else {
                std::cmp::Ordering::Less
            }),
    {
        if other.value == self.value {
            std::cmp::Ordering::Equal
        } else if other.value > self.value {
            std::cmp::Ordering::Greater
        } else {
            std::cmp::Ordering::Less
        }
    }

    /// The row as text: the name and the value, joined by `_`.
    pub fn get_data(&self) -> (r: String)
        ensures
            r@ == rank_text(self@),
    {
        let mut out = self.name.clone();
        push_char(&mut out, '_');
        push_money(&mut out, self.value);
        assert(out@ =~= rank_text(self@));
        out
    }
}

/// The current leaderboard: one row per account, by net worth, highest
/// first.
#[derive(Clone, Debug)]
pub struct Ranker {
    order: Vec<Rank>,
}

impl View for Ranker {
    type V = Seq<RankModel>;

    closed spec fn view(&self) -> Seq<RankModel> {
        self.order@.map_values(|r: Rank| r@)
    }
}

/// Inserts `x` into `order` as `insert_desc` does.
fn insert_sorted(order: &mut Vec<Rank>, x: Rank)
    ensures
        final(order)@.map_values(|r: Rank| r@) == insert_desc(
            old(order)@.map_values(|r: Rank| r@),
            x@,
        ),
{
    let ghost s = order@.map_values(|r: Rank| r@);
    let mut j: usize = order.len();
    while j > 0 && order[j - 1].value < x.value
        invariant
            j <= order@.len(),
            order@.map_values(|r: Rank| r@) == s,
            forall|k: int| j <= k < s.len() ==> #[trigger] s[k].value < x@.value,
        decreases j,
    {
        assert(s[j - 1] == order@[j - 1]@);
        j = j - 1;
    }
    proof {
        if j > 0 {
            assert(s[j - 1] == order@[j - 1]@);
        }
        lemma_insert_desc_at(s, x@, j as int);
    }
    order.insert(j, x);
    assert(order@.map_values(|r: Rank| r@) =~= s.insert(j as int, x@));
}

impl Ranker {
    /// An empty leaderboard.
    pub fn new() -> (r: Ranker)
        ensures
            r@ == Seq::<RankModel>::empty(),
    {
        let r = Ranker { order: Vec::new() };
        assert(r@ =~= Seq::<RankModel>::empty());
        r
    }

    /// Empties the leaderboard.
    pub fn clear(&mut self)
        ensures
            final(self)@ == Seq::<RankModel>::empty(),
    {
        self.order.clear();
        assert(self@ =~= Seq::<RankModel>::empty());
    }

    /// The rows, highest first.
    pub fn ranks(&self) -> (r: &Vec<Rank>)
        ensures
            r@.map_values(|x: Rank| x@) == self@,
    {
        &self.order
    }

    /// Rebuilds the leaderboard from every account, at the current prices:
    /// one row per account, sorted by net worth, highest first, with rows
    /// of equal worth in the order the accounts registered. Fails with
    /// `InvalidArgument`, leaving the leaderboard as it was, when a net
    /// worth does not fit a `u128`.
    pub fn rank_users(&mut self, user_manager: &UserManager, company_manager: &CompanyManager) -> (r:
        Result<(), MarketError>)
        requires
            user_manager.wf(),
            company_manager.wf(),
        ensures
            r is Ok <==> forall|i: int|
                0 <= i < user_manager@.len() ==> (#[trigger] user_manager@[i]).net_worth(
                    company_manager@,
                ) <= u128::MAX,
            r is Err ==> r == Err::<(), MarketError>(MarketError::InvalidArgument) && final(self)@
                == old(self)@,
            r is Ok ==> final(self)@ == sort_desc(standings(user_manager@, company_manager@)),
            r is Ok ==> sorted_desc(final(self)@),
    {
        let users = user_manager.users();
        proof {
            user_manager.lemma_accounts_wf();
        }
        let mut order: Vec<Rank> = Vec::new();
        let mut i: usize = 0;
        while i < users.len()
            invariant
                i <= users@.len(),
                users@.map_values(|u: User| u@) == user_manager@,
                forall|k: int| 0 <= k < user_manager@.len() ==> (#[trigger] user_manager@[k]).wf(),
                company_manager.wf(),
                forall|k: int|
                    0 <= k < i ==> (#[trigger] user_manager@[k]).net_worth(company_manager@)
                        <= u128::MAX,
                order@.map_values(|x: Rank| x@) == sort_desc(
                    standings(user_manager@.subrange(0, i as int), company_manager@),
                ),
            decreases users@.len() - i,
        {
            assert(user_manager@[i as int] == users@[i as int]@);
            let rank = match Rank::rank_from_user(&users[i], company_manager) {
                Ok(rank) => rank,
                Err(e) => return Err(e),
            };
            let ghost prev = standings(user_manager@.subrange(0, i as int), company_manager@);
            let ghost next = standings(user_manager@.subrange(0, i + 1), company_manager@);
            assert(next.drop_last() =~= prev);
            assert(next.last() == rank@);
            insert_sorted(&mut order, rank);
            i = i + 1;
        }
        assert(user_manager@.subrange(0, i as int) =~= user_manager@);
        self.order = order;
        proof {
            lemma_sort_desc_sorted(standings(user_manager@, company_manager@));
        }
        Ok(())
    }

    /// The rows from place `start` up to place `end` (exclusive, counted from
    /// zero) as text: each row numbered by its place counted from one, then
    /// `_` and the row's text, rows joined by `,`. `end` is clamped to the
    /// leaderboard, and a range that starts past its end gives the empty
    /// text.
    pub fn get_data_range(&self, start: usize, end: usize) -> (r: String)
        ensures
            start >= self@.len() ==> r@ == Seq::<char>::empty(),
            start < self@.len() ==> r@ == joined(
                rank_lines(
                    self@,
                    start as int,
                    if end <= start {
                        start as int
                    } else if end > self@.len() {
                        self@.len() as int
                    } else {
                        end as int
                    },
                ),
                ',',
            ),
    {
        let mut out = String::new();
        if start >= self.order.len() {
            return out;
        }
        let stop: usize = if end <= start {
            start
        } else if end > self.order.len() {
            self.order.len()
        } else {
            end
        };
        let ghost lines = rank_lines(self@, start as int, stop as int);
        let mut k: usize = start;
        while k < stop
            invariant
                start <= k <= stop,
                stop <= self@.len(),
                self@.len() == self.order@.len(),
                lines == rank_lines(self@, start as int, stop as int),
                out@ == joined(lines.subrange(0, k - start), ','),
            decreases stop - k,
        {
            let ghost before = out@;
            if k > start {
                push_char(&mut out, ',');
            }
            push_decimal(&mut out, (k + 1) as u128);
            push_char(&mut out, '_');
            let row = self.order[k].get_data();
            out.append(row.as_str());
            proof {
                assert(self@[k as int] == self.order@[k as int]@);
                let prefix = lines.subrange(0, k + 1 - start);
                assert(prefix.drop_last() =~= lines.subrange(0, k - start));
                assert(prefix.last() == lines[k - start]);
                if k == start {
                    assert(out@ =~= lines[0]);
                } else {
                    assert(out@ =~= before.push(',') + lines[k - start]);
                }
            }
            k = k + 1;
        }
        assert(lines.subrange(0, stop - start) =~= lines);
        out
    }
}

/// Past leaderboards, the most recent last.
pub struct RankerHistory {
    history: Vec<Ranker>,
}

impl View for RankerHistory {
    type V = Seq<Seq<RankModel>>;

    closed spec fn view(&self) -> Seq<Seq<RankModel>> {
        self.history@.map_values(|r: Ranker| r@)
    }
}

impl RankerHistory {
    /// An empty history.
    pub fn new() -> (r: RankerHistory)
        ensures
            r@ == Seq::<Seq<RankModel>>::empty(),
    {
        let r = RankerHistory { history: Vec::new() };
        assert(r@ =~= Seq::<Seq<RankModel>>::empty());
        r
    }

    /// Adds a leaderboard to the history.
    pub fn add(&mut self, ranker: Ranker)
        ensures
            final(self)@ == old(self)@.push(ranker@),
    {
        self.history.push(ranker);
        assert(self@ =~= old(self)@.push(ranker@));
    }

    /// Moves the current leaderboard into the history and leaves it empty,
    /// in one step.
    pub fn archive(&mut self, ranker: &mut Ranker)
        ensures
            final(self)@ == old(self)@.push(old(ranker)@),
            final(ranker)@ == Seq::<RankModel>::empty(),
    {
        let mut current = Ranker::new();
        std::mem::swap(ranker, &mut current);
        self.add(current);
    }

    /// The most recent leaderboard, if any.
    pub fn get_recent(&self) -> (r: Option<&Ranker>)
        ensures
            self@.len() == 0 ==> r is None,
            self@.len() > 0 ==> (r matches Some(x) && x@ == self@.last()),
    {
        if self.history.len() == 0 {
            None
        } else {
            let last = &self.history[self.history.len() - 1];
            assert(self@.last() == last@);
            Some(last)
        }
    }
}

} // verus!
