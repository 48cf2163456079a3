use vstd::prelude::*;

use crate::error::AscendError;
use crate::json::{text, JsonValue};
use crate::types::{Device, DeviceId};

verus! {

/// A decoded push notification.
#[derive(Clone, Debug)]
pub enum StateUpdate {
    /// The raw record of one room.
    RoomUpdate(JsonValue),
    /// A device's record changed.
    DeviceUpdate(DeviceId, Device),
}

/// Why a subscriber's receive failed.
#[derive(Clone, Copy, Debug, PartialEq, Eq, Structural)]
pub enum RecvFailure {
    /// Every sender is gone: the connection closed.
    Closed,
    /// The subscriber fell behind and this many notifications were lost.
    Lagged(u64),
}

/// Decimal text of `n`.
pub open spec fn decimal(n: nat) -> Seq<char>
    decreases n,
{
    if n < 10 {
        seq![digit_char(n)]
    } else {
        decimal(n / 10).push(digit_char(n % 10))
    }
}

/// The decimal digit for `d < 10`.
pub open spec fn digit_char(d: nat) -> char {
    seq!['0', '1', '2', '3', '4', '5', '6', '7', '8', '9'][d as int]
}

/// The text of one decimal digit.
fn digit_text(d: u64) -> (r: &'static str)
    requires
        d < 10,
    ensures
        r@ == seq![digit_char(d as nat)],
{
    proof {
        reveal_strlit("0");
        reveal_strlit("1");
        reveal_strlit("2");
        reveal_strlit("3");
        reveal_strlit("4");
        reveal_strlit("5");
        reveal_strlit("6");
        reveal_strlit("7");
        reveal_strlit("8");
        reveal_strlit("9");
    }
    let r = if d == 0 {
        "0"
    } else if d == 1 {
        "1"
    } else if d == 2 {
        "2"
    } else if d == 3 {
        "3"
    } else if d == 4 {
        "4"
    } else if d == 5 {
        "5"
    } else if d == 6 {
        "6"
    } else if d == 7 {
        "7"
    } else if d == 8 {
        "8"
    } else {
        "9"
    };
    assert(r@ =~= seq![digit_char(d as nat)]);
    r
}

/// The decimal digits of `n`, without sign or padding.
pub fn decimal_text(n: u64) -> (r: String)
    ensures
        r@ == decimal(n as nat),
    decreases n,
{
    if n < 10 {
        text(digit_text(n))
    } else {
        let mut s = decimal_text(n / 10);
        s.append(digit_text(n % 10));
        s
    }
}

/// The error a subscriber sees for a failed receive.
pub open spec fn recv_failure_error(f: RecvFailure, e: AscendError) -> bool {
    match f {
        RecvFailure::Closed => e is ConnectionClosed,
        RecvFailure::Lagged(n) => match e {
            AscendError::ChannelError(m) => m@ == "Lagged by "@ + decimal(n as nat) + " messages"@,
            _ => false,
        },
    }
}

impl RecvFailure {
    /// The error reported to the subscriber for this failure.
    pub fn into_error(self) -> (r: AscendError)
        ensures
            recv_failure_error(self, r),
    {
        match self {
            RecvFailure::Closed => AscendError::ConnectionClosed,
            RecvFailure::Lagged(n) => {
                let mut m = text("Lagged by ");
                m.append(decimal_text(n).as_str());
                m.append(" messages");
                AscendError::ChannelError(m)
            },
        }
    }
}

} // verus!
