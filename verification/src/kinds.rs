//! The closed vocabularies of the ledger: stock locations, payment methods and
//! return modes.

use crate::text::{same_text, to_upper, trim, trimmed, uppercase_of};
use vstd::prelude::*;
use vstd::string::*;

verus! {

/// One of the two physical stock points.
#[derive(Clone, Copy, Debug, PartialEq, Eq, Structural)]
pub enum Location {
    /// The shop floor ("MAGAZA").
    Store,
    /// The back warehouse ("DEPO").
    Warehouse,
}

/// How a receipt, or the price difference of an exchange, was paid.
#[derive(Clone, Copy, Debug, PartialEq, Eq, Structural)]
pub enum PaymentMethod {
    Card,
    Cash,
    Transfer,
}

/// Whether a return group gives money back or swaps goods.
#[derive(Clone, Copy, Debug, PartialEq, Eq, Structural)]
pub enum ReturnMode {
    Refund,
    Exchange,
}

/// Which dictionary an entry belongs to.
#[derive(Clone, Copy, Debug, PartialEq, Eq, Structural)]
pub enum DictKind {
    Category,
    Color,
    Size,
}

impl Location {
    /// The other stock point.
    pub fn other(self) -> (r: Location)
        ensures
            r != self,
            r == (if self == Location::Store {
                Location::Warehouse
            } else {
                Location::Store
            }),
    {
        match self {
            Location::Store => Location::Warehouse,
            Location::Warehouse => Location::Store,
        }
    }
}

/// The location that an upper-case code names: the warehouse for `DEPO`, the
/// store for everything else.
pub open spec fn location_named(upper: Seq<char>) -> Location {
    if upper == "DEPO"@ {
        Location::Warehouse
    } else {
        Location::Store
    }
}

/// The location that a code names, whatever its case.
pub open spec fn location_of(code: Seq<char>) -> Location {
    location_named(uppercase_of(code))
}

/// The location of a line: that of its own code, or, where that is blank,
/// that of the basket's default code, or, where that is blank too, the store.
pub open spec fn location_resolved(code: Seq<char>, default_code: Seq<char>) -> Location {
    if trimmed(code).len() != 0 {
        location_of(code)
    } else if trimmed(default_code).len() != 0 {
        location_of(default_code)
    } else {
        Location::Store
    }
}

/// The payment method of a receipt that an upper-case code names. Codes that
/// name no method count as card.
pub open spec fn sale_method_named(upper: Seq<char>) -> PaymentMethod {
    if upper == "CASH"@ || upper == "NAKIT"@ || upper == "NAKİT"@ {
        PaymentMethod::Cash
    } else if upper == "TRANSFER"@ || upper == "HAVALE"@ || upper == "EFT"@ {
        PaymentMethod::Transfer
    } else {
        PaymentMethod::Card
    }
}

/// The payment method of a receipt that a code names: a blank code counts as
/// card; otherwise the code is trimmed and folded to upper case.
pub open spec fn sale_method_of(code: Seq<char>) -> PaymentMethod {
    if trimmed(code).len() == 0 {
        PaymentMethod::Card
    } else {
        sale_method_named(uppercase_of(trimmed(code)))
    }
}

/// The payment method for the difference of an exchange that an upper-case
/// code names; none where the code names neither card nor cash.
pub open spec fn diff_method_named(upper: Seq<char>) -> Option<PaymentMethod> {
    if upper == "CARD"@ || upper == "KART"@ {
        Some(PaymentMethod::Card)
    } else if upper == "CASH"@ || upper == "NAKIT"@ || upper == "NAKİT"@ {
        Some(PaymentMethod::Cash)
    } else {
        None
    }
}

/// The payment method for the difference of an exchange that an optional
/// code names: a missing code names none; otherwise the code is trimmed and
/// folded to upper case.
pub open spec fn diff_method_of(code: Option<Seq<char>>) -> Option<PaymentMethod> {
    match code {
        None => None,
        Some(c) => diff_method_named(uppercase_of(trimmed(c))),
    }
}

/// Whether an upper-case code names cash.
pub open spec fn names_cash(upper: Seq<char>) -> bool {
    upper == "CASH"@ || upper == "NAKIT"@ || upper == "NAKİT"@
}

impl Location {
    /// The code of the location.
    pub fn code(self) -> (r: &'static str)
        ensures
            r@ == (if self == Location::Warehouse {
                "DEPO"@
            } else {
                "MAGAZA"@
            }),
    {
        match self {
            Location::Store => "MAGAZA",
            Location::Warehouse => "DEPO",
        }
    }

    /// The location that an upper-case code names.
    pub fn from_upper(upper: &str) -> (r: Location)
        ensures
            r == location_named(upper@),
    {
        if same_text(upper, "DEPO") {
            Location::Warehouse
        } else {
            Location::Store
        }
    }

    /// The location that a code names, whatever its case.
    pub fn parse(code: &str) -> (r: Location)
        ensures
            r == location_of(code@),
    {
        let up = to_upper(code);
        Location::from_upper(up.as_str())
    }

    /// The location of a line, given its own code and the basket's default.
    pub fn resolve(code: &str, default_code: &str) -> (r: Location)
        ensures
            r == location_resolved(code@, default_code@),
    {
        if trim(code).unicode_len() != 0 {
            Location::parse(code)
        } else if trim(default_code).unicode_len() != 0 {
            Location::parse(default_code)
        } else {
            Location::Store
        }
    }
}

/// The name of the stock counter of the location that a code names.
pub fn col_for_loc(loc: &str) -> (r: &'static str)
    ensures
        r@ == (if location_of(loc@) == Location::Warehouse {
            "depo_stok"@
        } else {
            "magaza_stok"@
        }),
{
    match Location::parse(loc) {
        Location::Warehouse => "depo_stok",
        Location::Store => "magaza_stok",
    }
}

impl PaymentMethod {
    /// The code of the payment method.
    pub fn code(self) -> (r: &'static str)
        ensures
            r@ == (match self {
                PaymentMethod::Card => "CARD"@,
                PaymentMethod::Cash => "CASH"@,
                PaymentMethod::Transfer => "TRANSFER"@,
            }),
    {
        match self {
            PaymentMethod::Card => "CARD",
            PaymentMethod::Cash => "CASH",
            PaymentMethod::Transfer => "TRANSFER",
        }
    }

    /// The payment method of a receipt that an upper-case code names.
    pub fn sale_from_upper(upper: &str) -> (r: PaymentMethod)
        ensures
            r == sale_method_named(upper@),
    {
        if same_text(upper, "CASH") || same_text(upper, "NAKIT") || same_text(upper, "NAKİT") {
            PaymentMethod::Cash
        } else if same_text(upper, "TRANSFER") || same_text(upper, "HAVALE") || same_text(
            upper,
            "EFT",
        ) {
            PaymentMethod::Transfer
        } else {
            PaymentMethod::Card
        }
    }

    /// The payment method of a receipt that a code names.
    pub fn parse_for_sale(code: &str) -> (r: PaymentMethod)
        ensures
            r == sale_method_of(code@),
    {
        let t = trim(code);
        if t.unicode_len() == 0 {
            PaymentMethod::Card
        } else {
            let up = to_upper(t);
            PaymentMethod::sale_from_upper(up.as_str())
        }
    }

    /// The payment method for the difference of an exchange that an
    /// upper-case code names.
    pub fn diff_from_upper(upper: &str) -> (r: Option<PaymentMethod>)
        ensures
            r == diff_method_named(upper@),
    {
        if same_text(upper, "CARD") || same_text(upper, "KART") {
            Some(PaymentMethod::Card)
        } else if same_text(upper, "CASH") || same_text(upper, "NAKIT") || same_text(
            upper,
            "NAKİT",
        ) {
            Some(PaymentMethod::Cash)
        } else {
            None
        }
    }

    /// The payment method for the difference of an exchange that an optional
    /// code names.
    pub fn parse_for_diff(code: &Option<String>) -> (r: Option<PaymentMethod>)
        ensures
            r == diff_method_of(
                match *code {
                    Some(c) => Some(c@),
                    None => None,
                },
            ),
    {
        match code {
            None => None,
            Some(c) => {
                let up = to_upper(trim(c.as_str()));
                PaymentMethod::diff_from_upper(up.as_str())
            },
        }
    }
}

/// The column of the cash report that an upper-case code falls into: `CASH`
/// for the codes that name cash, `CARD` for everything else.
pub fn bucket_from_upper(upper: &str) -> (r: &'static str)
    ensures
        r@ == (if names_cash(upper@) {
            "CASH"@
        } else {
            "CARD"@
        }),
{
    if same_text(upper, "CASH") || same_text(upper, "NAKIT") || same_text(upper, "NAKİT") {
        "CASH"
    } else {
        "CARD"
    }
}

/// The column of the cash report that a payment code falls into.
pub fn pm_bucket(pm: &str) -> (r: &'static str)
    ensures
        r@ == (if names_cash(uppercase_of(trimmed(pm@))) {
            "CASH"@
        } else {
            "CARD"@
        }),
{
    let up = to_upper(trim(pm));
    bucket_from_upper(up.as_str())
}

/// The payment code that an upper-case text stands for at the door of the
/// application: itself if it is `CARD`, `CASH` or `TRANSFER`, else `CARD`.
pub open spec fn payment_code_named(upper: Seq<char>) -> Seq<char> {
    if upper == "CASH"@ || upper == "TRANSFER"@ {
        upper
    } else {
        "CARD"@
    }
}

/// The payment code that an upper-case text stands for at the door of the
/// application.
pub fn payment_code_from_upper(upper: &str) -> (r: String)
    ensures
        r@ == payment_code_named(upper@),
{
    if same_text(upper, "CASH") {
        String::from_str("CASH")
    } else if same_text(upper, "TRANSFER") {
        String::from_str("TRANSFER")
    } else {
        String::from_str("CARD")
    }
}

/// Normalizes a payment code at the door of the application: the code is
/// trimmed and folded to upper case; `CARD`, `CASH` and `TRANSFER` stand,
/// every other code and a missing one become `CARD`.
pub fn normalize_payment_method(pm: Option<String>) -> (r: String)
    ensures
        r@ == (match pm {
            Some(c) => payment_code_named(uppercase_of(trimmed(c@))),
            None => "CARD"@,
        }),
{
    match pm {
        None => String::from_str("CARD"),
        Some(c) => {
            let up = to_upper(trim(c.as_str()));
            payment_code_from_upper(up.as_str())
        },
    }
}

} // verus!
