//! Postings of a transaction and their canonical text.
use vstd::prelude::*;
use vstd::string::StringExecFns;
use crate::amount::{amount_text, Amount};

verus! {

broadcast use vstd::string::group_string_axioms;

/// The clearing status of a posting.
#[derive(Debug, Clone, Copy, PartialEq, Eq)]
pub enum Status {
    Unmarked,
    Pending,
    Cleared,
}

/// The name of an account, its parts separated by colons.
pub type Account = String;

pub open spec fn status_text(s: Status) -> Seq<char> {
    match s {
        Status::Unmarked => Seq::empty(),
        Status::Pending => seq!['!'],
        Status::Cleared => seq!['*'],
    }
}

impl Status {
    /// `!` for pending, `*` for cleared, nothing for unmarked.
    pub fn to_text(&self) -> (r: String)
        ensures
            r@ == status_text(*self),
    {
        proof {
            reveal_strlit("");
            reveal_strlit("!");
            reveal_strlit("*");
        }
        match self {
            Status::Unmarked => "".to_string(),
            Status::Pending => "!".to_string(),
            Status::Cleared => "*".to_string(),
        }
    }
}

/// Posting of a transaction
#[derive(Debug, Clone, PartialEq, Eq)]
pub struct Posting {
    /// The status of the posting
    pub status: Status,
    /// The account of the posting
    pub account: Account,
    /// The amount of the posting
    pub amount: Option<Amount>,
    /// The unit price of the posting
    pub unit_price: Option<Amount>,
    /// The total price of the posting
    pub total_price: Option<Amount>,
    /// Optional balance assertion of the posting
    pub balance_assertion: Option<Amount>,
}

/// The amounts of a posting as read together: the amount and at most one of
/// its prices.
#[derive(Debug, Clone, Default, PartialEq, Eq)]
pub struct PostingComplexAmount {
    pub amount: Option<Amount>,
    pub unit_price: Option<Amount>,
    pub total_price: Option<Amount>,
}

pub open spec fn amount_in_range(a: Option<Amount>) -> bool {
    a matches Some(x) ==> x.value.wf()
}

impl Posting {
    /// A price only beside an amount, and never both kinds of price.
    pub open spec fn wf(&self) -> bool {
        &&& self.amount is None ==> self.unit_price is None && self.total_price is None
        &&& !(self.unit_price is Some && self.total_price is Some)
        &&& amount_in_range(self.amount)
        &&& amount_in_range(self.unit_price)
        &&& amount_in_range(self.total_price)
    }

    /// Two spaces, the status, a space and the account; then two spaces and
    /// the amount, if any; then ` @ ` and the unit price or ` @@ ` and the
    /// total price, if any.
    pub open spec fn text(&self) -> Seq<char> {
        let head = seq![' ', ' '] + status_text(self.status) + seq![' '] + self.account@;
        match self.amount {
            None => head,
            Some(a) => {
                let base = head + seq![' ', ' '] + amount_text(a);
                match (self.unit_price, self.total_price) {
                    (Some(u), _) => base + seq![' ', '@', ' '] + amount_text(u),
                    (None, Some(t)) => base + seq![' ', '@', '@', ' '] + amount_text(t),
                    (None, None) => base,
                }
            },
        }
    }

    pub fn to_text(&self) -> (r: String)
        requires
            self.wf(),
        ensures
            r@ == self.text(),
    {
        proof {
            reveal_strlit("  ");
            reveal_strlit(" ");
            reveal_strlit(" @ ");
            reveal_strlit(" @@ ");
        }
        let mut t = "  ".to_string();
        let status = self.status.to_text();
        t.append(status.as_str());
        t.append(" ");
        t.append(self.account.as_str());
        match &self.amount {
            None => {},
            Some(a) => {
                t.append("  ");
                let at = a.to_text();
                t.append(at.as_str());
                match (&self.unit_price, &self.total_price) {
                    (Some(u), _) => {
                        t.append(" @ ");
                        let ut = u.to_text();
                        t.append(ut.as_str());
                    },
                    (None, Some(p)) => {
                        t.append(" @@ ");
                        let pt = p.to_text();
                        t.append(pt.as_str());
                    },
                    (None, None) => {},
                }
            },
        }
        proof {
            assert(t@ =~= self.text());
        }
        t
    }
}

} // verus!
