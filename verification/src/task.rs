use crate::numeral::{decimal, numeral_of, numeral_reads_back, read_number};
use vstd::pervasive::unreached;
use vstd::prelude::*;
use vstd::std_specs::convert::FromSpecImpl;

verus! {

/// `tokio::task::Id`, the identifier that the runtime gives to a task.
/// Nothing inside it is visible to the verifier.
#[verifier::external_type_specification]
#[verifier::external_body]
pub struct ExRuntimeTaskId(tokio::task::Id);

/// The number that the runtime gave to a task.
pub uninterp spec fn task_number(id: tokio::task::Id) -> u64;

/// The identifier of a task as a plain number, which is never zero.
#[derive(Debug, Copy, Clone, PartialEq, Eq, Hash)]
pub struct TaskId(u64);

/// The `Display` of `tokio::task::Id`: the decimal numeral of the task's
/// number, which is not the numeral of zero.
#[verifier::external_body]
fn task_text(id: &tokio::task::Id) -> (text: String)
    ensures
        text@ == decimal(task_number(*id) as nat),
        text@ != decimal(0),
{
    format!("{}", id)
}

impl TaskId {
    #[verifier::type_invariant]
    spec fn not_zero(self) -> bool {
        self.0 != 0
    }

    /// The number of the task.
    pub closed spec fn number(self) -> u64 {
        self.0
    }

    /// The identifier with the number `n`, in specifications.
    pub closed spec fn of(n: u64) -> TaskId {
        TaskId(n)
    }

    /// The identifier with the number `n`; there is none for zero.
    pub fn new(n: u64) -> (r: Option<TaskId>)
        ensures
            r == if n == 0 {
                None
            } else {
                Some(TaskId::of(n))
            },
    {
        if n == 0 {
            None
        } else {
            Some(TaskId(n))
        }
    }

    /// The number of the task.
    pub fn get(self) -> (n: u64)
        ensures
            n == self.number(),
            n != 0,
    {
        proof {
            use_type_invariant(self);
        }
        self.0
    }

    /// The identifier as text: the decimal numeral of its number.
    pub fn to_text(self) -> (text: String)
        ensures
            text@ == decimal(self.number() as nat),
    {
        numeral_of(self.0)
    }
}

impl From<tokio::task::Id> for TaskId {
    /// The identifier with the number that the runtime gave to the task.
    fn from(value: tokio::task::Id) -> (r: TaskId) {
        let text = task_text(&value);
        proof {
            numeral_reads_back(task_number(value) as nat);
        }
        match read_number(text.as_str()) {
            Some(n) => match TaskId::new(n) {
                Some(id) => id,
                None => unreached(),
            },
            None => unreached(),
        }
    }
}

impl FromSpecImpl<tokio::task::Id> for TaskId {
    open spec fn obeys_from_spec() -> bool {
        true
    }

    open spec fn from_spec(value: tokio::task::Id) -> TaskId {
        TaskId::of(task_number(value))
    }
}

/// The number of an identifier made by `TaskId::of` is the number it was
/// made of.
pub proof fn number_of_task_id(n: u64)
    ensures
        TaskId::of(n).number() == n,
{
}

} // verus!
