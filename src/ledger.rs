use vstd::prelude::*;

use crate::pagination::unordered_map_pagination;
use crate::record::{
    fresh_record, is_sufficient_deposit, refund_message, refund_text, settled, withheld_message,
    withheld_text, Completion, DepositStatus, LedgerError, Record, MIN_DEPOSIT,
};

verus! {

/// The records of `account`, oldest first; none for an unknown account.
pub open spec fn records_of(m: Map<Seq<char>, Seq<Record>>, account: Seq<char>) -> Seq<Record> {
    if m.contains_key(account) {
        m[account]
    } else {
        Seq::empty()
    }
}

/// Identifiers are positions counted from one: the record with identifier
/// `id` is the `id`-th one the account created.
pub open spec fn numbered(s: Seq<Record>) -> Seq<(i64, Record)> {
    Seq::new(s.len(), |k: int| ((k + 1) as i64, s[k]))
}

/// The ledger after `account` has created `rec`.
pub open spec fn created(m: Map<Seq<char>, Seq<Record>>, account: Seq<char>, rec: Record) -> Map<
    Seq<char>,
    Seq<Record>,
> {
    m.insert(account, records_of(m, account).push(rec))
}

/// Whether `account` has a record with identifier `id`.
pub open spec fn holds_record(m: Map<Seq<char>, Seq<Record>>, account: Seq<char>, id: i64) -> bool {
    m.contains_key(account) && 1 <= id <= m[account].len()
}

/// The record with identifier `id` of `account`.
pub open spec fn record_of(m: Map<Seq<char>, Seq<Record>>, account: Seq<char>, id: i64) -> Record {
    m[account][id - 1]
}

/// Why listing the records of `account` fails, if it does.
pub open spec fn listing_error(m: Map<Seq<char>, Seq<Record>>, account: Seq<char>) -> Option<
    LedgerError,
> {
    if !m.contains_key(account) {
        Some(LedgerError::AccountNotFound)
    } else if !holds_record(m, account, 1) {
        Some(LedgerError::NoRecordsYet)
    } else {
        None
    }
}

/// Why completing record `id` of `account` fails, if it does.
pub open spec fn completion_error(m: Map<Seq<char>, Seq<Record>>, account: Seq<char>, id: i64) -> Option<
    LedgerError,
> {
    if !m.contains_key(account) {
        Some(LedgerError::AccountNotFound)
    } else if !holds_record(m, account, id) {
        Some(LedgerError::RecordNotFound)
    } else if record_of(m, account, id).is_complete_status {
        Some(LedgerError::AlreadyCompleted)
    } else {
        None
    }
}

/// The ledger after record `id` of `account` was completed at time `now`.
pub open spec fn completed(
    m: Map<Seq<char>, Seq<Record>>,
    account: Seq<char>,
    id: i64,
    now: u64,
) -> Map<Seq<char>, Seq<Record>> {
    m.insert(account, m[account].update(id - 1, settled(record_of(m, account, id), now)))
}

/// A record whose balance snapshot is `balance`, all else kept.
pub open spec fn rebalanced(r: Record, balance: u128) -> Record {
    Record { account_balance: balance, ..r }
}

/// The ledger after `account` has created the records `recs`, one after another.
pub open spec fn created_in_turn(
    m: Map<Seq<char>, Seq<Record>>,
    account: Seq<char>,
    recs: Seq<Record>,
) -> Map<Seq<char>, Seq<Record>>
    decreases recs.len(),
{
    if recs.len() == 0 {
        m
    } else {
        created(created_in_turn(m, account, recs.drop_last()), account, recs.last())
    }
}

/// Creations append: after a run of creations an account lists its earlier
/// records followed by the new ones in the order they were created, and no
/// other account changes.
pub proof fn lemma_creations_listed_in_order(
    m: Map<Seq<char>, Seq<Record>>,
    account: Seq<char>,
    recs: Seq<Record>,
)
    ensures
        records_of(created_in_turn(m, account, recs), account) == records_of(m, account) + recs,
        forall|b: Seq<char>|
            b != account ==> #[trigger] records_of(created_in_turn(m, account, recs), b)
                == records_of(m, b),
        recs.len() > 0 ==> listing_error(created_in_turn(m, account, recs), account).is_none(),
    decreases recs.len(),
{
    if recs.len() > 0 {
        lemma_creations_listed_in_order(m, account, recs.drop_last());
        assert(records_of(m, account) + recs.drop_last().push(recs.last()) =~= records_of(
            m,
            account,
        ) + recs);
        assert(recs.drop_last().push(recs.last()) =~= recs);
        let before = created_in_turn(m, account, recs.drop_last());
        assert forall|b: Seq<char>| b != account implies #[trigger] records_of(
            created_in_turn(m, account, recs),
            b,
        ) == records_of(m, b) by {
            assert(records_of(before, b) == records_of(m, b));
        }
    } else {
        assert(records_of(m, account) + recs =~= records_of(m, account));
    }
}

/// On an account with no records yet, the creations in turn get the
/// identifiers 1, 2, 3, ... in call order, and the listing holds one entry
/// per creation.
pub proof fn lemma_identifiers_count_from_one(
    m: Map<Seq<char>, Seq<Record>>,
    account: Seq<char>,
    recs: Seq<Record>,
)
    requires
        !m.contains_key(account),
        recs.len() <= i64::MAX,
    ensures
        numbered(records_of(created_in_turn(m, account, recs), account)).len() == recs.len(),
        forall|k: int|
            0 <= k < recs.len() ==> #[trigger] numbered(
                records_of(created_in_turn(m, account, recs), account),
            )[k] == ((k + 1) as i64, recs[k]),
{
    lemma_creations_listed_in_order(m, account, recs);
    assert(records_of(m, account) + recs =~= recs);
}

/// Completing a record closes it: it is complete and its deposit has left
/// the contributed state, so a second completion is refused.
pub proof fn lemma_second_completion_fails(
    m: Map<Seq<char>, Seq<Record>>,
    account: Seq<char>,
    id: i64,
    now: u64,
)
    requires
        completion_error(m, account, id).is_none(),
    ensures
        record_of(completed(m, account, id, now), account, id).is_complete_status,
        record_of(completed(m, account, id, now), account, id).deposit_status
            != DepositStatus::Contributed,
        completion_error(completed(m, account, id, now), account, id) == Some(
            LedgerError::AlreadyCompleted,
        ),
{
}

/// A completion before the deadline refunds the deposit; one at or after the
/// deadline withholds it.
pub proof fn lemma_deadline_decides_refund(
    m: Map<Seq<char>, Seq<Record>>,
    account: Seq<char>,
    id: i64,
    now: u64,
)
    requires
        completion_error(m, account, id).is_none(),
    ensures
        record_of(m, account, id).deadline_time > now ==> record_of(
            completed(m, account, id, now),
            account,
            id,
        ).deposit_status == DepositStatus::Refunded,
        record_of(m, account, id).deadline_time <= now ==> record_of(
            completed(m, account, id, now),
            account,
            id,
        ).deposit_status == DepositStatus::Withheld,
{
}

/// The records of one account, keyed by identifiers 1, 2, 3, ... in order of
/// creation, with the identifier the next record will get.
pub struct UserRecords {
    user_records: Vec<(i64, Record)>,
    record_id: i64,
}

impl View for UserRecords {
    type V = Seq<Record>;

    closed spec fn view(&self) -> Seq<Record> {
        self.user_records@.map_values(|e: (i64, Record)| e.1)
    }
}

impl UserRecords {
    pub closed spec fn wf(&self) -> bool {
        &&& self.record_id == self.user_records@.len() + 1
        &&& forall|k: int|
            0 <= k < self.user_records@.len() ==> (#[trigger] self.user_records@[k]).0 == k + 1
                && self.user_records@[k].1.status_consistent()
    }

    fn add(&mut self, record: Record) -> (id: i64)
        requires
            old(self).wf(),
            old(self)@.len() + 2 <= i64::MAX,
            record.status_consistent(),
        ensures
            final(self).wf(),
            final(self)@ == old(self)@.push(record),
            id == old(self)@.len() + 1,
    {
        let id = self.record_id;
        self.user_records.push((id, record));
        self.record_id = id + 1;
        assert(self@ =~= old(self)@.push(record));
        id
    }

    fn position_of(&self, id: i64) -> (r: Option<usize>)
        requires
            self.wf(),
        ensures
            match r {
                Some(k) => 1 <= id <= self@.len() && k == id - 1,
                None => !(1 <= id <= self@.len()),
            },
    {
        let len = self.user_records.len();
        if 1 <= id && id <= len as i64 {
            Some((id - 1) as usize)
        } else {
            None
        }
    }

    fn settle(&mut self, k: usize, now: u64)
        requires
            old(self).wf(),
            k < old(self)@.len(),
            !old(self)@[k as int].is_complete_status,
        ensures
            final(self).wf(),
            final(self)@ == old(self)@.update(k as int, settled(old(self)@[k as int], now)),
    {
        assert(self@[k as int] == self.user_records@[k as int].1);
        let refunded = self.user_records[k].1.deadline_time > now;
        self.user_records[k].1.is_complete_status = true;
        self.user_records[k].1.deposit_status = if refunded {
            DepositStatus::Refunded
        } else {
            DepositStatus::Withheld
        };
        assert(self@ =~= old(self)@.update(k as int, settled(old(self)@[k as int], now)));
    }

    fn rebalance(&mut self, k: usize, balance: u128)
        requires
            old(self).wf(),
            k < old(self)@.len(),
        ensures
            final(self).wf(),
            final(self)@ == old(self)@.update(k as int, rebalanced(old(self)@[k as int], balance)),
    {
        self.user_records[k].1.account_balance = balance;
        assert(self@ =~= old(self)@.update(k as int, rebalanced(old(self)@[k as int], balance)));
    }
}

impl Default for UserRecords {
    fn default() -> (r: Self)
        ensures
            r.wf(),
            r@ == Seq::<Record>::empty(),
    {
        let r = UserRecords { user_records: Vec::new(), record_id: 1 };
        assert(r@ =~= Seq::<Record>::empty());
        r
    }
}

/// The accounts that own records, with their records.
pub closed spec fn accounts_view(s: Seq<(String, UserRecords)>) -> Map<Seq<char>, Seq<Record>> {
    Map::new(
        |a: Seq<char>| exists|i: int| 0 <= i < s.len() && s[i].0@ == a,
        |a: Seq<char>| s[choose|i: int| 0 <= i < s.len() && s[i].0@ == a].1@,
    )
}

pub closed spec fn owners_unique(s: Seq<(String, UserRecords)>) -> bool {
    forall|i: int, j: int|
        0 <= i < s.len() && 0 <= j < s.len() && i != j ==> (#[trigger] s[i]).0@ != (#[trigger] s[j]).0@
}

proof fn lemma_view_at(s: Seq<(String, UserRecords)>, i: int)
    requires
        owners_unique(s),
        0 <= i < s.len(),
    ensures
        accounts_view(s).contains_key(s[i].0@),
        accounts_view(s)[s[i].0@] == s[i].1@,
{
    let a = s[i].0@;
    assert(0 <= i < s.len() && s[i].0@ == a);
    let j = choose|j: int| 0 <= j < s.len() && s[j].0@ == a;
    assert(j == i);
}

proof fn lemma_view_update(s: Seq<(String, UserRecords)>, i: int, u: UserRecords)
    requires
        owners_unique(s),
        0 <= i < s.len(),
    ensures
        owners_unique(s.update(i, (s[i].0, u))),
        accounts_view(s.update(i, (s[i].0, u))) == accounts_view(s).insert(s[i].0@, u@),
{
    let t = s.update(i, (s[i].0, u));
    let a = s[i].0@;
    assert(owners_unique(t)) by {
        assert forall|x: int, y: int|
            0 <= x < t.len() && 0 <= y < t.len() && x != y implies (#[trigger] t[x]).0@ != (
            #[trigger] t[y]).0@ by {
            assert(s[x].0@ != s[y].0@);
        }
    }
    lemma_view_at(t, i);
    let m = accounts_view(s).insert(a, u@);
    assert forall|b: Seq<char>| #[trigger] accounts_view(t).contains_key(b) == m.contains_key(b) && (
    accounts_view(t).contains_key(b) ==> accounts_view(t)[b] == m[b]) by {
        if b != a {
            if accounts_view(t).contains_key(b) {
                let j = choose|j: int| 0 <= j < t.len() && t[j].0@ == b;
                assert(j != i);
                assert(s[j].0@ == b);
                lemma_view_at(s, j);
                lemma_view_at(t, j);
            }
            if accounts_view(s).contains_key(b) {
                let j = choose|j: int| 0 <= j < s.len() && s[j].0@ == b;
                assert(t[j].0@ == b);
            }
        }
    }
    assert(accounts_view(t) =~= accounts_view(s).insert(a, u@));
}

proof fn lemma_view_push(s: Seq<(String, UserRecords)>, owner: String, u: UserRecords)
    requires
        owners_unique(s),
        !accounts_view(s).contains_key(owner@),
    ensures
        owners_unique(s.push((owner, u))),
        accounts_view(s.push((owner, u))) == accounts_view(s).insert(owner@, u@),
{
    let t = s.push((owner, u));
    let n = s.len() as int;
    assert forall|i: int| 0 <= i < s.len() implies s[i].0@ != owner@ by {
        if s[i].0@ == owner@ {
            assert(accounts_view(s).contains_key(owner@));
        }
    }
    assert(owners_unique(t)) by {
        assert forall|x: int, y: int|
            0 <= x < t.len() && 0 <= y < t.len() && x != y implies (#[trigger] t[x]).0@ != (
            #[trigger] t[y]).0@ by {
            if x < n && y < n {
                assert(s[x].0@ != s[y].0@);
            }
        }
    }
    lemma_view_at(t, n);
    let m = accounts_view(s).insert(owner@, u@);
    assert forall|b: Seq<char>| #[trigger] accounts_view(t).contains_key(b) == m.contains_key(b) && (
    accounts_view(t).contains_key(b) ==> accounts_view(t)[b] == m[b]) by {
        if b != owner@ {
            if accounts_view(t).contains_key(b) {
                let j = choose|j: int| 0 <= j < t.len() && t[j].0@ == b;
                assert(j != n);
                assert(s[j].0@ == b);
                lemma_view_at(s, j);
                lemma_view_at(t, j);
            }
            if accounts_view(s).contains_key(b) {
                let j = choose|j: int| 0 <= j < s.len() && s[j].0@ == b;
                assert(t[j].0@ == b);
            }
        }
    }
    assert(accounts_view(t) =~= accounts_view(s).insert(owner@, u@));
}

/// The ledger: for each account that has created a task, its records.
pub struct Contract {
    common_records: Vec<(String, UserRecords)>,
}

impl View for Contract {
    type V = Map<Seq<char>, Seq<Record>>;

    closed spec fn view(&self) -> Map<Seq<char>, Seq<Record>> {
        accounts_view(self.common_records@)
    }
}

impl Default for Contract {
    fn default() -> (r: Self)
        ensures
            r.wf(),
            r@ == Map::<Seq<char>, Seq<Record>>::empty(),
    {
        let r = Contract { common_records: Vec::new() };
        assert(r@ =~= Map::<Seq<char>, Seq<Record>>::empty());
        r
    }
}

impl Contract {
    pub closed spec fn wf(&self) -> bool {
        &&& owners_unique(self.common_records@)
        &&& forall|i: int|
            0 <= i < self.common_records@.len() ==> (#[trigger] self.common_records@[i]).1.wf()
    }

    fn find_account(&self, account: &String) -> (r: Option<usize>)
        requires
            self.wf(),
        ensures
            match r {
                Some(i) => i < self.common_records@.len() && self.common_records@[i as int].0@
                    == account@ && self@.contains_key(account@) && self@[account@]
                    == self.common_records@[i as int].1@,
                None => !self@.contains_key(account@),
            },
    {
        let mut i: usize = 0;
        while i < self.common_records.len()
            invariant
                self.wf(),
                i <= self.common_records@.len(),
                forall|j: int| 0 <= j < i ==> (#[trigger] self.common_records@[j]).0@ != account@,
            decreases self.common_records@.len() - i,
        {
            if self.common_records[i].0 == *account {
                proof {
                    lemma_view_at(self.common_records@, i as int);
                }
                return Some(i);
            }
            i = i + 1;
        }
        None
    }

    /// Opens a task for `caller`, backed by `attached_deposit`, with the
    /// caller's current balance as snapshot. The record gets the next
    /// identifier of the caller's account, which is created on first use.
    pub fn create_task(
        &mut self,
        caller: &String,
        task: String,
        deadline_time: u64,
        attached_deposit: u128,
        account_balance: u128,
    ) -> (r: Result<(), LedgerError>)
        requires
            old(self).wf(),
            records_of(old(self)@, caller@).len() + 2 <= i64::MAX,
        ensures
            final(self).wf(),
            attached_deposit < MIN_DEPOSIT ==> r == Err::<(), LedgerError>(
                LedgerError::InsufficientDeposit,
            ) && *final(self) == *old(self),
            attached_deposit >= MIN_DEPOSIT ==> r == Ok::<(), LedgerError>(()) && final(self)@
                == created(
                old(self)@,
                caller@,
                fresh_record(task, deadline_time, attached_deposit, account_balance),
            ),
    {
        if !is_sufficient_deposit(attached_deposit) {
            return Err(LedgerError::InsufficientDeposit);
        }
        let record = Record {
            task,
            is_complete_status: false,
            guarantee_of_task_completion: attached_deposit,
            deadline_time,
            account_balance,
            deposit_status: DepositStatus::Contributed,
        };
        match self.find_account(caller) {
            Some(i) => {
                let ghost s = self.common_records@;
                self.common_records[i].1.add(record);
                proof {
                    let user = self.common_records@[i as int].1;
                    assert(self.common_records@ =~= s.update(i as int, (s[i as int].0, user)));
                    lemma_view_update(s, i as int, user);
                }
            },
            None => {
                let mut user = UserRecords::default();
                user.add(record);
                let owner = caller.clone();
                proof {
                    lemma_view_push(self.common_records@, owner, user);
                }
                self.common_records.push((owner, user));
            },
        }
        Ok(())
    }

    /// The record `record_id` of account `user_id`.
    pub fn get_task_by_id(&self, record_id: i64, user_id: &String) -> (r: Result<
        Record,
        LedgerError,
    >)
        requires
            self.wf(),
        ensures
            !self@.contains_key(user_id@) ==> r == Err::<Record, LedgerError>(
                LedgerError::AccountNotFound,
            ),
            self@.contains_key(user_id@) && !holds_record(self@, user_id@, record_id) ==> r
                == Err::<Record, LedgerError>(LedgerError::RecordNotFound),
            holds_record(self@, user_id@, record_id) ==> r == Ok::<Record, LedgerError>(
                record_of(self@, user_id@, record_id),
            ),
    {
        match self.find_account(user_id) {
            None => Err(LedgerError::AccountNotFound),
            Some(i) => {
                let user = &self.common_records[i].1;
                match user.position_of(record_id) {
                    None => Err(LedgerError::RecordNotFound),
                    Some(k) => {
                        assert(user@[k as int] == user.user_records@[k as int].1);
                        Ok(user.user_records[k].1.clone())
                    },
                }
            },
        }
    }

    /// All records of account `user_id` with their identifiers, oldest first.
    pub fn get_all_user_tasks(&self, user_id: &String) -> (r: Result<
        Vec<(i64, Record)>,
        LedgerError,
    >)
        requires
            self.wf(),
        ensures
            match r {
                Ok(v) => listing_error(self@, user_id@).is_none() && v@ == numbered(
                    self@[user_id@],
                ),
                Err(e) => listing_error(self@, user_id@) == Some(e),
            },
    {
        match self.find_account(user_id) {
            None => Err(LedgerError::AccountNotFound),
            Some(i) => {
                let user = &self.common_records[i].1;
                match user.position_of(1) {
                    None => Err(LedgerError::NoRecordsYet),
                    Some(_) => {
                        let page = unordered_map_pagination(&user.user_records, None, None);
                        assert(page@ =~= numbered(user@));
                        Ok(page)
                    },
                }
            },
        }
    }

    /// Completes record `changed_record_id` of `caller` at time `now`. The
    /// deposit is refunded while the deadline lies ahead of `now`, and
    /// withheld once it is reached; the result then names the amount to send
    /// back.
    pub fn make_complete_task_status(&mut self, caller: &String, changed_record_id: i64, now: u64) -> (r:
        Result<Completion, LedgerError>)
        requires
            old(self).wf(),
        ensures
            final(self).wf(),
            match r {
                Ok(c) => {
                    let rec = record_of(old(self)@, caller@, changed_record_id);
                    &&& completion_error(old(self)@, caller@, changed_record_id).is_none()
                    &&& final(self)@ == completed(old(self)@, caller@, changed_record_id, now)
                    &&& rec.deadline_time > now ==> c.refund == Some(
                        rec.guarantee_of_task_completion,
                    ) && c.message@ == refund_text(rec.guarantee_of_task_completion)
                    &&& rec.deadline_time <= now ==> c.refund == None::<u128> && c.message@
                        == withheld_text()
                },
                Err(e) => completion_error(old(self)@, caller@, changed_record_id) == Some(e)
                    && *final(self) == *old(self),
            },
    {
        let i = match self.find_account(caller) {
            None => {
                return Err(LedgerError::AccountNotFound);
            },
            Some(i) => i,
        };
        let k = match self.common_records[i].1.position_of(changed_record_id) {
            None => {
                return Err(LedgerError::RecordNotFound);
            },
            Some(k) => k,
        };
        assert(self@[caller@][k as int] == self.common_records@[i as int].1.user_records@[k as int].1);
        if self.common_records[i].1.user_records[k].1.is_complete_status {
            return Err(LedgerError::AlreadyCompleted);
        }
        let deadline = self.common_records[i].1.user_records[k].1.deadline_time;
        let amount = self.common_records[i].1.user_records[k].1.guarantee_of_task_completion;
        let ghost s = self.common_records@;
        self.common_records[i].1.settle(k, now);
        proof {
            let user = self.common_records@[i as int].1;
            assert(self.common_records@ =~= s.update(i as int, (s[i as int].0, user)));
            lemma_view_update(s, i as int, user);
        }
        if deadline > now {
            Ok(Completion { message: refund_message(amount), refund: Some(amount) })
        } else {
            Ok(Completion { message: withheld_message(), refund: None })
        }
    }

    /// Stores `account_balance` as the balance snapshot of a refunded record,
    /// taken once the refund was sent. Any other record is left alone.
    pub fn record_refund_balance(&mut self, caller: &String, record_id: i64, account_balance: u128) -> (r:
        bool)
        requires
            old(self).wf(),
        ensures
            final(self).wf(),
            r == (holds_record(old(self)@, caller@, record_id) && record_of(
                old(self)@,
                caller@,
                record_id,
            ).deposit_status == DepositStatus::Refunded),
            r ==> final(self)@ == old(self)@.insert(
                caller@,
                old(self)@[caller@].update(
                    record_id - 1,
                    rebalanced(record_of(old(self)@, caller@, record_id), account_balance),
                ),
            ),
            !r ==> *final(self) == *old(self),
    {
        let i = match self.find_account(caller) {
            None => {
                return false;
            },
            Some(i) => i,
        };
        let k = match self.common_records[i].1.position_of(record_id) {
            None => {
                return false;
            },
            Some(k) => k,
        };
        assert(self@[caller@][k as int] == self.common_records@[i as int].1.user_records@[k as int].1);
        if self.common_records[i].1.user_records[k].1.deposit_status != DepositStatus::Refunded {
            return false;
        }
        let ghost s = self.common_records@;
        self.common_records[i].1.rebalance(k, account_balance);
        proof {
            let user = self.common_records@[i as int].1;
            assert(self.common_records@ =~= s.update(i as int, (s[i as int].0, user)));
            lemma_view_update(s, i as int, user);
        }
        true
    }

    /// In a well-formed ledger a deposit is still contributed exactly while
    /// its task is open.
    pub proof fn lemma_open_iff_contributed(&self, account: Seq<char>, id: i64)
        requires
            self.wf(),
            holds_record(self@, account, id),
        ensures
            record_of(self@, account, id).status_consistent(),
    {
        let s = self.common_records@;
        let i = choose|i: int| 0 <= i < s.len() && s[i].0@ == account;
        lemma_view_at(s, i);
        assert(self@[account][id - 1] == s[i].1.user_records@[id - 1].1);
    }

    /// Adds account `owner` with the records `records`, numbered 1, 2, 3, ...
    /// in order. Refused, leaving the ledger as it was, when the account is
    /// already present, when a record's deposit status disagrees with its
    /// completion flag, or when the identifiers would not fit.
    pub fn restore_account(&mut self, owner: &String, records: &Vec<Record>) -> (r: bool)
        requires
            old(self).wf(),
        ensures
            final(self).wf(),
            r == (!old(self)@.contains_key(owner@) && records@.len() + 2 <= i64::MAX && forall|k: int|
                0 <= k < records@.len() ==> (#[trigger] records@[k]).status_consistent()),
            r ==> final(self)@ == old(self)@.insert(owner@, records@),
            !r ==> *final(self) == *old(self),
    {
        if self.find_account(owner).is_some() {
            return false;
        }
        let len = records.len();
        if len as u64 > (i64::MAX - 2) as u64 {
            return false;
        }
        let mut entries: Vec<(i64, Record)> = Vec::new();
        let mut k: usize = 0;
        while k < len
            invariant
                self.wf(),
                *self == *old(self),
                !self@.contains_key(owner@),
                len == records@.len(),
                len + 2 <= i64::MAX,
                k <= len,
                entries@.len() == k,
                forall|j: int|
                    0 <= j < k ==> (#[trigger] entries@[j]).0 == j + 1 && entries@[j].1
                        == records@[j] && records@[j].status_consistent(),
            decreases len - k,
        {
            let rec = records[k].clone();
            assert(rec == records@[k as int]);
            let consistent = (rec.deposit_status == DepositStatus::Contributed)
                == !rec.is_complete_status;
            if !consistent {
                return false;
            }
            let ghost before = entries@;
            entries.push(((k + 1) as i64, rec));
            assert(entries@ == before.push(((k + 1) as i64, rec)));
            k = k + 1;
        }
        assert(len + 1 <= i64::MAX);
        let user = UserRecords { user_records: entries, record_id: len as i64 + 1 };
        assert(user@ =~= records@);
        let name = owner.clone();
        proof {
            lemma_view_push(self.common_records@, name, user);
        }
        self.common_records.push((name, user));
        true
    }

    /// Every account with its records, each account once.
    pub fn export(&self) -> (r: Vec<(String, Vec<Record>)>)
        requires
            self.wf(),
        ensures
            forall|i: int|
                0 <= i < r@.len() ==> self@.contains_key((#[trigger] r@[i]).0@) && r@[i].1@
                    == self@[r@[i].0@],
            forall|a: Seq<char>|
                #[trigger] self@.contains_key(a) ==> exists|i: int| 0 <= i < r@.len() && r@[i].0@ == a,
            forall|i: int, j: int|
                0 <= i < r@.len() && 0 <= j < r@.len() && i != j ==> (#[trigger] r@[i]).0@ != (
                #[trigger] r@[j]).0@,
    {
        let n = self.common_records.len();
        let mut out: Vec<(String, Vec<Record>)> = Vec::new();
        let mut i: usize = 0;
        while i < n
            invariant
                self.wf(),
                n == self.common_records@.len(),
                i <= n,
                out@.len() == i,
                forall|j: int|
                    0 <= j < i ==> (#[trigger] out@[j]).0@ == self.common_records@[j].0@ && out@[j].1@
                        == self.common_records@[j].1@,
            decreases n - i,
        {
            let user = &self.common_records[i].1;
            let mut recs: Vec<Record> = Vec::new();
            let mut k: usize = 0;
            while k < user.user_records.len()
                invariant
                    k <= user.user_records@.len(),
                    recs@.len() == k,
                    forall|j: int| 0 <= j < k ==> #[trigger] recs@[j] == user.user_records@[j].1,
                decreases user.user_records@.len() - k,
            {
                recs.push(user.user_records[k].1.clone());
                k = k + 1;
            }
            assert(recs@ =~= user@);
            out.push((self.common_records[i].0.clone(), recs));
            i = i + 1;
        }
        proof {
            let s = self.common_records@;
            assert forall|j: int| 0 <= j < out@.len() implies self@.contains_key(
                (#[trigger] out@[j]).0@,
            ) && out@[j].1@ == self@[out@[j].0@] by {
                lemma_view_at(s, j);
            }
            assert forall|a: Seq<char>| #[trigger] self@.contains_key(a) implies exists|j: int|
                0 <= j < out@.len() && out@[j].0@ == a by {
                let j = choose|j: int| 0 <= j < s.len() && s[j].0@ == a;
                assert(out@[j].0@ == a);
            }
            assert forall|x: int, y: int|
                0 <= x < out@.len() && 0 <= y < out@.len() && x != y implies (#[trigger] out@[x]).0@
                != (#[trigger] out@[y]).0@ by {
                assert(s[x].0@ != s[y].0@);
            }
        }
        out
    }

    /// How many records account `user_id` holds.
    pub fn count_tasks(&self, user_id: &String) -> (n: usize)
        requires
            self.wf(),
        ensures
            n == records_of(self@, user_id@).len(),
    {
        match self.find_account(user_id) {
            None => 0,
            Some(i) => {
                let user = &self.common_records[i].1;
                proof {
                    assert(user@.len() == user.user_records@.len());
                }
                user.user_records.len()
            },
        }
    }
}

} // verus!
