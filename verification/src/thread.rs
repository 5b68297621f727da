use crate::numeral::{decimal, numeral_of};
use vstd::prelude::*;
use vstd::string::StrSliceExecFns;

verus! {

/// What the text of a number reads as in RON.
pub uninterp spec fn ron_number(text: Seq<char>) -> Option<u64>;

/// `ron::from_str::<u64>`: the number that the text is in RON, if it is one.
/// A decimal numeral is the number it writes.
#[verifier::external_body]
fn read_ron_number(text: &str) -> (r: Option<u64>)
    ensures
        r == ron_number(text@),
        forall|n: u64| text@ == decimal(n as nat) ==> r == Some(n),
{
    ron::from_str::<u64>(text).ok()
}

/// The identifier of a thread as a plain number, which is never zero.
#[derive(Debug, Copy, Clone, PartialEq, Eq, Hash)]
pub struct ThreadId(u64);

/// What stands between the brackets of a text of the form `ThreadId(..)`,
/// the form in which a thread's identifier is printed for debugging; `None`
/// for a text of another form.
pub open spec fn framed_number(s: Seq<char>) -> Option<Seq<char>> {
    if s.len() >= 10 && s.take(9) == "ThreadId("@ && s.last() == ')' {
        Some(s.subrange(9, s.len() - 1))
    } else {
        None
    }
}

/// The text `ThreadId(..)` around the decimal numeral of `n`.
pub open spec fn debug_form(n: u64) -> Seq<char> {
    "ThreadId("@ + decimal(n as nat) + ")"@
}

impl ThreadId {
    #[verifier::type_invariant]
    spec fn not_zero(self) -> bool {
        self.0 != 0
    }

    /// The number of the thread.
    pub closed spec fn number(self) -> u64 {
        self.0
    }

    /// The identifier with the number `n`, in specifications.
    pub closed spec fn of(n: u64) -> ThreadId {
        ThreadId(n)
    }

    /// The identifier with the number `n`; there is none for zero.
    pub fn new(n: u64) -> (r: Option<ThreadId>)
        ensures
            r == if n == 0 {
                None
            } else {
                Some(ThreadId::of(n))
            },
    {
        if n == 0 {
            None
        } else {
            Some(ThreadId(n))
        }
    }

    /// The number of the thread.
    pub fn get(self) -> (n: u64)
        ensures
            n == self.number(),
            n != 0,
    {
        proof {
            use_type_invariant(self);
        }
        self.0
    }

    /// The identifier as text: the decimal numeral of its number.
    pub fn to_text(self) -> (text: String)
        ensures
            text@ == decimal(self.number() as nat),
    {
        numeral_of(self.0)
    }

    /// The identifier that a text of the form `ThreadId(..)` names: the
    /// number between the brackets is read as RON, and must not be zero.
    /// The text around the decimal numeral of a number other than zero
    /// always names the identifier with that number.
    pub fn from_debug_text(text: &str) -> (r: Option<ThreadId>)
        ensures
            forall|n: u64| n != 0 && text@ == debug_form(n) ==> r == Some(ThreadId::of(n)),
            r == match framed_number(text@) {
                Some(inner) => match ron_number(inner) {
                    Some(n) => if n == 0 {
                        None
                    } else {
                        Some(ThreadId::of(n))
                    },
                    None => None,
                },
                None => None,
            },
    {
        let head = "ThreadId(";
        proof {
            reveal_strlit("ThreadId(");
        }
        assert forall|n: u64| text@ == debug_form(n) implies framed_number(text@) == Some(
            decimal(n as nat),
        ) by {
            debug_form_frames_numeral(n);
        }
        let len = text.unicode_len();
        if len < 10 {
            return None;
        }
        let mut i: usize = 0;
        while i < 9
            invariant
                i <= 9,
                len == text@.len(),
                len >= 10,
                head@ == "ThreadId("@,
                head@.len() == 9,
                forall|n: u64|
                    text@ == debug_form(n) ==> framed_number(text@) == Some(decimal(n as nat)),
                forall|j: int| 0 <= j < i ==> text@[j] == head@[j],
            decreases 9 - i,
        {
            if text.get_char(i) != head.get_char(i) {
                assert(text@.take(9)[i as int] != head@[i as int]);
                return None;
            }
            i += 1;
        }
        assert(text@.take(9) =~= head@);
        if text.get_char(len - 1) != ')' {
            return None;
        }
        match read_ron_number(text.substring_char(9, len - 1)) {
            Some(n) => ThreadId::new(n),
            None => None,
        }
    }
}

/// The number of an identifier made by `ThreadId::of` is the number it was
/// made of.
pub proof fn number_of_thread_id(n: u64)
    ensures
        ThreadId::of(n).number() == n,
{
}

/// The text `ThreadId(..)` around the numeral of a number frames that
/// numeral.
pub proof fn debug_form_frames_numeral(n: u64)
    ensures
        framed_number(debug_form(n)) == Some(decimal(n as nat)),
{
    reveal_strlit("ThreadId(");
    reveal_strlit(")");
    let s = debug_form(n);
    assert(s.take(9) =~= "ThreadId("@);
    assert(s.subrange(9, s.len() - 1) =~= decimal(n as nat));
}

} // verus!
