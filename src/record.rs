use vstd::prelude::*;

verus! {

/// Smallest deposit accepted when a task is created: three whole units in the
/// smallest denomination (10^24 per unit).
pub const MIN_DEPOSIT: u128 = 3000000000000000000000000;

/// What became of the deposit attached to a task.
#[derive(Clone, Copy, Debug, PartialEq, Eq, Structural)]
pub enum DepositStatus {
    Contributed,
    Refunded,
    Withheld,
}

/// Why an operation on the ledger was refused.
#[derive(Clone, Copy, Debug, PartialEq, Eq, Structural)]
pub enum LedgerError {
    InsufficientDeposit,
    AccountNotFound,
    RecordNotFound,
    NoRecordsYet,
    AlreadyCompleted,
}

/// One commitment: a task, its deadline and the deposit that backs it.
#[derive(Debug)]
pub struct Record {
    pub task: String,
    pub is_complete_status: bool,
    pub guarantee_of_task_completion: u128,
    pub deadline_time: u64,
    pub account_balance: u128,
    pub deposit_status: DepositStatus,
}

impl Clone for Record {
    fn clone(&self) -> (r: Self)
        ensures
            r == *self,
    {
        Record {
            task: self.task.clone(),
            is_complete_status: self.is_complete_status,
            guarantee_of_task_completion: self.guarantee_of_task_completion,
            deadline_time: self.deadline_time,
            account_balance: self.account_balance,
            deposit_status: self.deposit_status,
        }
    }
}

impl Record {
    /// A deposit is still held exactly while the task is open.
    pub open spec fn status_consistent(self) -> bool {
        (self.deposit_status == DepositStatus::Contributed) == !self.is_complete_status
    }
}

/// The record that a successful creation stores.
pub open spec fn fresh_record(
    task: String,
    deadline_time: u64,
    attached_deposit: u128,
    account_balance: u128,
) -> Record {
    Record {
        task,
        is_complete_status: false,
        guarantee_of_task_completion: attached_deposit,
        deadline_time,
        account_balance,
        deposit_status: DepositStatus::Contributed,
    }
}

/// The record after completion at time `now`: refunded if the deadline is
/// still ahead, withheld otherwise (a deadline equal to `now` has passed).
pub open spec fn settled(r: Record, now: u64) -> Record {
    Record {
        task: r.task,
        is_complete_status: true,
        guarantee_of_task_completion: r.guarantee_of_task_completion,
        deadline_time: r.deadline_time,
        account_balance: r.account_balance,
        deposit_status: if r.deadline_time > now {
            DepositStatus::Refunded
        } else {
            DepositStatus::Withheld
        },
    }
}

/// Relies on num_traits::ToPrimitive::to_u128, which for a u128 returns the
/// value itself.
#[verifier::external_body]
fn deposit_as_u128(amount: &u128) -> (r: Option<u128>)
    ensures
        r == Some(*amount),
{
    num_traits::ToPrimitive::to_u128(amount)
}

/// Whether an attached amount is enough to open a task.
pub fn is_sufficient_deposit(attached_deposit: u128) -> (r: bool)
    ensures
        r == (attached_deposit >= MIN_DEPOSIT),
{
    match deposit_as_u128(&attached_deposit) {
        Some(amount) => amount >= MIN_DEPOSIT,
        None => false,
    }
}

/// The decimal digit for `d < 10`.
pub open spec fn digit_char(d: nat) -> char {
    if d == 0 {
        '0'
    } else if d == 1 {
        '1'
    } else if d == 2 {
        '2'
    } else if d == 3 {
        '3'
    } else if d == 4 {
        '4'
    } else if d == 5 {
        '5'
    } else if d == 6 {
        '6'
    } else if d == 7 {
        '7'
    } else if d == 8 {
        '8'
    } else {
        '9'
    }
}

/// Decimal notation of `n`, most significant digit first, without leading zeros.
pub open spec fn decimal(n: nat) -> Seq<char>
    decreases n,
{
    if n < 10 {
        seq![digit_char(n)]
    } else {
        decimal(n / 10).push(digit_char(n % 10))
    }
}

fn digit_str(d: u128) -> (r: &'static str)
    requires
        d < 10,
    ensures
        r@ == seq![digit_char(d as nat)],
{
    if d == 0 {
        proof { reveal_strlit("0"); }
        "0"
    } else if d == 1 {
        proof { reveal_strlit("1"); }
        "1"
    } else if d == 2 {
        proof { reveal_strlit("2"); }
        "2"
    } else if d == 3 {
        proof { reveal_strlit("3"); }
        "3"
    } else if d == 4 {
        proof { reveal_strlit("4"); }
        "4"
    } else if d == 5 {
        proof { reveal_strlit("5"); }
        "5"
    } else if d == 6 {
        proof { reveal_strlit("6"); }
        "6"
    } else if d == 7 {
        proof { reveal_strlit("7"); }
        "7"
    } else if d == 8 {
        proof { reveal_strlit("8"); }
        "8"
    } else {
        proof { reveal_strlit("9"); }
        "9"
    }
}

/// Writes `n` in decimal notation.
pub fn decimal_string(n: u128) -> (r: String)
    ensures
        r@ == decimal(n as nat),
{
    let mut acc = String::from_str(digit_str(n % 10));
    let mut rest: u128 = n / 10;
    proof {
        if rest > 0 {
            assert(decimal(rest as nat) + acc@ =~= decimal(n as nat));
        }
    }
    while rest > 0
        invariant
            rest == 0 ==> acc@ == decimal(n as nat),
            rest > 0 ==> decimal(rest as nat) + acc@ == decimal(n as nat),
        decreases rest,
    {
        let d = digit_str(rest % 10);
        let ghost old_acc = acc@;
        let ghost old_rest = rest;
        acc = String::from_str(d).concat(acc.as_str());
        rest = rest / 10;
        proof {
            if rest > 0 {
                assert(decimal(old_rest as nat) == decimal(rest as nat).push(
                    digit_char((old_rest % 10) as nat),
                ));
                assert(decimal(rest as nat) + acc@ =~= decimal(old_rest as nat) + old_acc);
            } else {
                assert(acc@ =~= decimal(old_rest as nat) + old_acc);
            }
        }
    }
    acc
}

/// Text reported when a deposit is returned.
pub open spec fn refund_text(amount: u128) -> Seq<char> {
    "Deposit refunded "@ + decimal(amount as nat)
}

/// Text reported when a deposit is kept.
pub open spec fn withheld_text() -> Seq<char> {
    "Deadline was ended, deposit stayed in service"@
}

pub fn refund_message(amount: u128) -> (r: String)
    ensures
        r@ == refund_text(amount),
{
    let mut text = String::from_str("Deposit refunded ");
    proof { reveal_strlit("Deposit refunded "); }
    let digits = decimal_string(amount);
    text.append(digits.as_str());
    text
}

pub fn withheld_message() -> (r: String)
    ensures
        r@ == withheld_text(),
{
    String::from_str("Deadline was ended, deposit stayed in service")
}

/// The result of completing a task: the status text, and the amount to send
/// back to the caller when the deposit is refunded.
#[derive(Debug)]
pub struct Completion {
    pub message: String,
    pub refund: Option<u128>,
}

} // verus!
