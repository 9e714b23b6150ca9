//! The failures that ring and channel operations report.

use vstd::prelude::*;

verus! {

/// Why a ring could not be built, or why an operation could not proceed.
#[derive(Debug, Clone, Copy, PartialEq, Eq, Structural)]
pub enum Error {
    /// The ring has no room for another pair.
    Full,
    /// The ring holds no pair to hand out.
    Empty,
    /// The requested capacity, carried here, is not divisible by 2.
    Capacity(usize),
    /// The batch size is below 2.
    BatchSizeTooSmall,
    /// The batch size is odd.
    BatchSizeNotEven,
    /// The capacity is below the batch size.
    CapacityLessThanBatchSize,
    /// The capacity of a batching ring is odd.
    CapacityNotEven,
}

/// The character that stands for a digit.
pub open spec fn digit(d: nat) -> char {
    if d == 0 {
        '0'
    } else if d == 1 {
        '1'
    } else if d == 2 {
        '2'
    } else if d == 3 {
        '3'
    } else if d == 4 {
        '4'
    } else if d == 5 {
        '5'
    } else if d == 6 {
        '6'
    } else if d == 7 {
        '7'
    } else if d == 8 {
        '8'
    } else {
        '9'
    }
}

/// A number written in base ten, without leading zeros.
pub open spec fn decimal(n: nat) -> Seq<char>
    decreases n,
{
    if n < 10 {
        seq![digit(n)]
    } else {
        decimal(n / 10).push(digit(n % 10))
    }
}

/// The one-character text of a digit.
fn digit_text(d: usize) -> (r: &'static str)
    requires
        d < 10,
    ensures
        r@ == seq![digit(d as nat)],
{
    proof {
        reveal_strlit("0");
        reveal_strlit("1");
        reveal_strlit("2");
        reveal_strlit("3");
        reveal_strlit("4");
        reveal_strlit("5");
        reveal_strlit("6");
        reveal_strlit("7");
        reveal_strlit("8");
        reveal_strlit("9");
    }
    let text: &'static str = if d == 0 {
        "0"
    } else if d == 1 {
        "1"
    } else if d == 2 {
        "2"
    } else if d == 3 {
        "3"
    } else if d == 4 {
        "4"
    } else if d == 5 {
        "5"
    } else if d == 6 {
        "6"
    } else if d == 7 {
        "7"
    } else if d == 8 {
        "8"
    } else {
        "9"
    };
    assert(text@ =~= seq![digit(d as nat)]);
    text
}

/// Writes a number in base ten.
pub(crate) fn decimal_text(n: usize) -> (r: String)
    ensures
        r@ == decimal(n as nat),
    decreases n,
{
    if n < 10 {
        String::from_str(digit_text(n))
    } else {
        let mut text: String = decimal_text(n / 10);
        text.append(digit_text(n % 10));
        assert(text@ =~= decimal(n as nat));
        text
    }
}

impl Error {
    /// What the error says, as a sequence of characters.
    pub open spec fn message(self) -> Seq<char> {
        match self {
            Error::Full => "fifo is full"@,
            Error::Empty => "fifo is empty"@,
            Error::Capacity(capacity) => "fifo capacity "@ + decimal(capacity as nat)
                + " is not divisible by 2"@,
            Error::BatchSizeTooSmall => "batch size is too small"@,
            Error::BatchSizeNotEven => "batch size is not even"@,
            Error::CapacityLessThanBatchSize => "capacity is less than batch size"@,
            Error::CapacityNotEven => "capacity is not even"@,
        }
    }

    /// The error in words.
    pub fn to_string(&self) -> (r: String)
        ensures
            r@ == self.message(),
    {
        match self {
            Error::Full => String::from_str("fifo is full"),
            Error::Empty => String::from_str("fifo is empty"),
            Error::Capacity(capacity) => {
                let mut text: String = String::from_str("fifo capacity ");
                let number: String = decimal_text(*capacity);
                text.append(number.as_str());
                text.append(" is not divisible by 2");
                text
            },
            Error::BatchSizeTooSmall => String::from_str("batch size is too small"),
            Error::BatchSizeNotEven => String::from_str("batch size is not even"),
            Error::CapacityLessThanBatchSize => String::from_str(
                "capacity is less than batch size",
            ),
            Error::CapacityNotEven => String::from_str("capacity is not even"),
        }
    }
}

} // verus!
