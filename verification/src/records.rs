//! Plain records exchanged with the companion reporting service.
//!
//! The service itself — its storage and its transport — is an external
//! collaborator with its own contract. These are the values handed across
//! that boundary, and the few pieces it computes from them alone.

use vstd::prelude::*;

verus! {

use vstd::string::StringExecFns;

/// Filter parameters of a subscriber listing.
pub struct ListQuery {
    pub platform: Option<String>,
    pub tier: Option<String>,
}

/// Parameters of an expiring-subscriptions query.
pub struct ExpiringQuery {
    pub days: i64,
}

/// A request to record a new subscriber.
pub struct CreateSubscriber {
    pub name: String,
    pub username: String,
    pub platform: String,
    pub tier: Option<String>,
    pub birthday: Option<String>,
    pub notes: Option<String>,
}

/// The expiry window, in days, used when a query names none.
pub fn default_days() -> (r: i64)
    ensures
        r == 7,
{
    7
}

impl CreateSubscriber {
    /// The tier recorded for a new subscriber: the requested one, or
    /// `Casual` when the request names none.
    pub fn tier_or_default(&self) -> (r: String)
        ensures
            self.tier matches Some(t) ==> r == t,
            self.tier is None ==> r@ == "Casual"@,
    {
        match &self.tier {
            Some(t) => t.clone(),
            None => String::from_str("Casual"),
        }
    }
}

/// The listing statement for subscribers, with one placeholder per filter
/// parameter that is present.
pub fn subscriber_list_query(has_platform: bool, has_tier: bool) -> (r: String)
    ensures
        r@ == "SELECT * FROM subscribers WHERE 1=1"@ + (if has_platform {
            " AND platform = ?"@
        } else {
            Seq::<char>::empty()
        }) + (if has_tier {
            " AND tier = ?"@
        } else {
            Seq::<char>::empty()
        }) + " ORDER BY updated_at DESC"@,
{
    let mut q = String::from_str("SELECT * FROM subscribers WHERE 1=1");
    if has_platform {
        q.append(" AND platform = ?");
    }
    if has_tier {
        q.append(" AND tier = ?");
    }
    q.append(" ORDER BY updated_at DESC");
    proof {
        let base = "SELECT * FROM subscribers WHERE 1=1"@;
        let p = if has_platform {
            " AND platform = ?"@
        } else {
            Seq::<char>::empty()
        };
        let t = if has_tier {
            " AND tier = ?"@
        } else {
            Seq::<char>::empty()
        };
        assert(q@ =~= base + p + t + " ORDER BY updated_at DESC"@);
    }
    q
}

} // verus!
