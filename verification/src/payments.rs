//! Payment registration: ticket pricing, validation, the payment ledger,
//! and the choice of contribution target for a purchase.
//!
//! Prices are integer counts of the ledger's smallest unit.

use vstd::prelude::*;
use crate::text::{seq_has_string, vec_contains_string};

verus! {

/// The most tickets one purchase may register.
pub const MAX_TICKET_COUNT: u64 = 1_000_000;

/// Why a purchase was rejected before any transfer was attempted.
#[derive(Clone, Copy, Debug, PartialEq, Eq, Structural)]
pub enum PaymentError {
    /// The ticket count is zero.
    InvalidTicketCount,
    /// The ticket count exceeds `MAX_TICKET_COUNT`.
    TicketCountTooBig,
}

/// One registered purchase.
#[derive(Debug)]
pub struct Payment {
    pub block_height: u64,
    pub payer: String,
    pub ticket_count: u64,
    pub ticket_price: u64,
    pub node_id: Option<String>,
    pub cawa_url: String,
}

/// An exact copy of a payment.
pub fn clone_payment(p: &Payment) -> (r: Payment)
    ensures
        r == *p,
{
    Payment {
        block_height: p.block_height,
        payer: p.payer.clone(),
        ticket_count: p.ticket_count,
        ticket_price: p.ticket_price,
        node_id: match &p.node_id {
            Some(n) => Some(n.clone()),
            None => None,
        },
        cawa_url: p.cawa_url.clone(),
    }
}

/// The price of a purchase: ticket count times ticket price.
pub fn get_price(ticket_count: u64, ticket_price: u64) -> (r: u64)
    requires
        ticket_count * ticket_price <= u64::MAX,
    ensures
        r == ticket_count * ticket_price,
{
    ticket_count * ticket_price
}

/// Accept or reject a requested ticket count: zero and oversized counts are
/// rejected, everything in between is accepted.
pub fn validate_ticket_count(ticket_count: u64) -> (r: Result<(), PaymentError>)
    ensures
        ticket_count == 0 ==> r == Result::<(), PaymentError>::Err(
            PaymentError::InvalidTicketCount,
        ),
        ticket_count > MAX_TICKET_COUNT ==> r == Result::<(), PaymentError>::Err(
            PaymentError::TicketCountTooBig,
        ),
        0 < ticket_count <= MAX_TICKET_COUNT ==> r is Ok,
{
    if ticket_count == 0 {
        Err(PaymentError::InvalidTicketCount)
    } else if ticket_count > MAX_TICKET_COUNT {
        Err(PaymentError::TicketCountTooBig)
    } else {
        Ok(())
    }
}

/// The values of the ledger's entries, in ledger order.
pub open spec fn payment_values(s: Seq<(u64, Payment)>) -> Seq<Payment> {
    Seq::new(s.len(), |i: int| s[i].1)
}

/// Payments whose `node_id` is this one.
pub open spec fn for_node(node_id: Seq<char>) -> spec_fn(Payment) -> bool {
    |p: Payment| p.node_id is Some && p.node_id->0@ == node_id
}

/// The ledger of registered purchases, keyed by an identifier that grows by
/// one with each purchase.
#[derive(Debug)]
pub struct PaymentLedger {
    pub payments: Vec<(u64, Payment)>,
    pub current_payment_id: u64,
}

impl PaymentLedger {
    /// Entry keys grow strictly along the ledger and never pass the current
    /// payment identifier.
    pub open spec fn wf(self) -> bool {
        (forall|i: int, j: int|
            0 <= i < j < self.payments@.len()
                ==> #[trigger] self.payments@[i].0 < #[trigger] self.payments@[j].0)
        && (forall|i: int|
            0 <= i < self.payments@.len()
                ==> #[trigger] self.payments@[i].0 <= self.current_payment_id)
    }

    pub fn new() -> (r: PaymentLedger)
        ensures
            r.wf(),
            r.payments@.len() == 0,
            r.current_payment_id == 0,
    {
        PaymentLedger { payments: Vec::new(), current_payment_id: 0 }
    }

    /// Record one purchase under the next payment identifier and return that
    /// identifier.
    pub fn record_payment(&mut self, payment: Payment) -> (id: u64)
        requires
            old(self).wf(),
            old(self).current_payment_id < u64::MAX,
        ensures
            final(self).wf(),
            id == old(self).current_payment_id + 1,
            final(self).current_payment_id == id,
            final(self).payments@ == old(self).payments@.push((id, payment)),
    {
        self.current_payment_id = self.current_payment_id + 1;
        let id = self.current_payment_id;
        self.payments.push((id, payment));
        proof {
            let pre = old(self).payments@;
            assert forall|i: int, j: int| 0 <= i < j < self.payments@.len()
                implies #[trigger] self.payments@[i].0 < #[trigger] self.payments@[j].0 by {
                if j < pre.len() {
                    assert(pre[i].0 < pre[j].0);
                } else {
                    assert(self.payments@[i] == pre[i]);
                    assert(pre[i].0 <= old(self).current_payment_id);
                }
            }
        }
        id
    }

    /// Every registered purchase, in registration order.
    pub fn get_purchases(&self) -> (r: Vec<Payment>)
        ensures
            r@ == payment_values(self.payments@),
    {
        let mut out: Vec<Payment> = Vec::new();
        let mut i: usize = 0;
        while i < self.payments.len()
            invariant
                i <= self.payments@.len(),
                out@ == payment_values(self.payments@).subrange(0, i as int),
            decreases self.payments@.len() - i,
        {
            out.push(clone_payment(&self.payments[i].1));
            proof {
                assert(payment_values(self.payments@).subrange(0, i + 1) =~= payment_values(
                    self.payments@,
                ).subrange(0, i as int).push(self.payments@[i as int].1));
            }
            i = i + 1;
        }
        proof {
            assert(payment_values(self.payments@).subrange(
                0,
                payment_values(self.payments@).len() as int,
            ) =~= payment_values(self.payments@));
        }
        out
    }

    /// The purchases attributed to one node, in registration order.
    pub fn get_purchases_by_node_id(&self, node_id: &String) -> (r: Vec<Payment>)
        ensures
            r@ == payment_values(self.payments@).filter(for_node(node_id@)),
    {
        let mut out: Vec<Payment> = Vec::new();
        let mut i: usize = 0;
        while i < self.payments.len()
            invariant
                i <= self.payments@.len(),
                out@ == payment_values(self.payments@).subrange(0, i as int).filter(
                    for_node(node_id@),
                ),
            decreases self.payments@.len() - i,
        {
            let ghost vals = payment_values(self.payments@);
            let p = &self.payments[i].1;
            let keep = match &p.node_id {
                Some(n) => *n == *node_id,
                None => false,
            };
            if keep {
                out.push(clone_payment(p));
            }
            proof {
                reveal(Seq::filter);
                assert(vals.subrange(0, i + 1).drop_last() =~= vals.subrange(0, i as int));
                assert(vals.subrange(0, i + 1).last() == vals[i as int]);
                assert(keep == for_node(node_id@)(vals[i as int]));
            }
            i = i + 1;
        }
        proof {
            let vals = payment_values(self.payments@);
            assert(vals.subrange(0, vals.len() as int) =~= vals);
        }
        out
    }
}

/// For whom a purchase sends a contribution, if anyone.
///
/// With no node given, the contribution goes out under the standing client's
/// name. With a node given, a node that is the standing client's own — its
/// designated member node or any of its listed nodes — sends nothing (the
/// purchase is recorded without a contribution), and an outside node sends
/// under the fallback client's name.
pub fn contribution_target(
    node_id: &Option<String>,
    client_name: &String,
    client_node_ids: &Vec<String>,
    member_node_id: &String,
    fallback_client: &String,
) -> (r: Option<String>)
    ensures
        node_id is None ==> r == Some(*client_name),
        node_id is Some && (node_id->0@ == member_node_id@ || seq_has_string(
            client_node_ids@,
            node_id->0@,
        )) ==> r is None,
        node_id is Some && node_id->0@ != member_node_id@ && !seq_has_string(
            client_node_ids@,
            node_id->0@,
        ) ==> r == Some(*fallback_client),
{
    match node_id {
        None => Some(client_name.clone()),
        Some(id) => {
            if *id == *member_node_id {
                None
            } else if vec_contains_string(client_node_ids, id) {
                None
            } else {
                Some(fallback_client.clone())
            }
        }
    }
}

} // verus!
