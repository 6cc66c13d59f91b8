use vstd::prelude::*;

use crate::client_tracker::{ClientTracker, SessionModel};
use crate::company_manager::{
    reset_company_manager, round_listing_cost, round_start, walked_steps, CompanyManager,
    WARM_UP_STEPS,
};
use crate::error::MarketError;
use crate::ranking::{RankModel, Ranker, RankerHistory};
use crate::user::{UserModel, STARTING_MONEY};
use crate::user_manager::UserManager;

verus! {

/// Ends a round and starts the next, in one step: the companies start
/// afresh as `reset_company_manager` says, every account goes back to its
/// starting cash with no holdings, the current leaderboard moves into the
/// history and is left empty, and every session ends. When the companies
/// cannot be started afresh (no identifier is left to list one) it fails
/// with `InvalidArgument` and the accounts, leaderboards and sessions stay
/// as they were.
pub fn reset_epoch(
    company_manager: &mut CompanyManager,
    user_manager: &mut UserManager,
    ranker: &mut Ranker,
    ranker_history: &mut RankerHistory,
    client_tracker: &mut ClientTracker,
) -> (r: Result<(), MarketError>)
    requires
        old(company_manager).wf(),
        old(user_manager).wf(),
        old(client_tracker).wf(),
    ensures
        final(company_manager).wf(),
        final(user_manager).wf(),
        final(client_tracker).wf(),
        r is Ok <==> round_listing_cost(old(company_manager)@) == 0 || old(company_manager).issued_below() + round_listing_cost(old(company_manager)@) <= usize::MAX,
        r is Err ==> r == Err::<(), MarketError>(MarketError::InvalidArgument) && final(user_manager)@ == old(user_manager)@ && final(ranker)@ == old(ranker)@ && final(ranker_history)@ == old(ranker_history)@ && final(client_tracker)@ == old(client_tracker)@,
        r is Ok ==> walked_steps(
            round_start(old(company_manager)@, old(company_manager).issued_below()),
            final(company_manager)@,
            WARM_UP_STEPS as nat,
        ),
        r is Ok ==> final(user_manager)@.len() == old(user_manager)@.len() && forall|i: int|
            0 <= i < old(user_manager)@.len() ==> #[trigger] final(user_manager)@[i] == (UserModel {
                money: STARTING_MONEY,
                wallet: Seq::empty(),
                ..old(user_manager)@[i]
            }),
        r is Ok ==> final(ranker_history)@ == old(ranker_history)@.push(old(ranker)@) && final(ranker)@ == Seq::<RankModel>::empty(),
        r is Ok ==> final(client_tracker)@ == Seq::<SessionModel>::empty()
            && final(client_tracker).issued_below() == old(client_tracker).issued_below(),
        final(user_manager).issued_below() == old(user_manager).issued_below(),
{
    match reset_company_manager(company_manager) {
        Ok(()) => {},
        Err(e) => return Err(e),
    }
    user_manager.reset_users();
    ranker_history.archive(ranker);
    client_tracker.clear();
    Ok(())
}

} // verus!
