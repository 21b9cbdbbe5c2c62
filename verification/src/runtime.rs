//! The assembled runtime state: one key-value store per storage item, the
//! current height, and the event log, passed explicitly into every call.

use crate::balance_map::BalanceMap;
use crate::claim_map::{ClaimId, ClaimMap};
use crate::claims;
use crate::ledger;
use crate::system::BlockNumber;
use vstd::prelude::*;

verus! {

/// Any event the runtime's modules can deposit.
#[derive(Clone, Copy, PartialEq, Eq, Structural, Debug)]
pub enum RuntimeEvent {
    /// An event of the account ledger.
    Ledger(ledger::Event),
    /// An event of the claim registry.
    Claims(claims::Event),
}

/// The ledger events in `s`, in deposit order.
pub open spec fn ledger_events_of(s: Seq<RuntimeEvent>) -> Seq<ledger::Event>
    decreases s.len(),
{
    if s.len() == 0 {
        Seq::empty()
    } else {
        let rest = ledger_events_of(s.drop_last());
        match s.last() {
            RuntimeEvent::Ledger(e) => rest.push(e),
            _ => rest,
        }
    }
}

/// The whole durable state of the chain core.
///
/// The environment guarantees one call at a time, so a single mutable
/// handle to this state stands for the store's global serialization.
pub struct Runtime {
    /// The execution environment's monotonic height counter.
    pub block_number: BlockNumber,
    /// Append-only log of the events deposited by successful calls.
    pub events: Vec<RuntimeEvent>,
    /// The `Balances` storage map of the account ledger.
    pub balances: BalanceMap,
    /// The `TotalIssuance` storage value; absent until first mutated.
    pub total_issuance: Option<u128>,
    /// The `Claims` storage map of the claim registry.
    pub claims: ClaimMap,
}

impl Runtime {
    /// The recorded issuance, taking an absent value as zero.
    pub open spec fn issuance_or_zero(self) -> int {
        match self.total_issuance {
            Some(t) => t as int,
            None => 0,
        }
    }

    /// The invariant of every reachable state: well-formed stores, and
    /// conservation — the balances sum to exactly the recorded issuance.
    pub open spec fn inv(self) -> bool {
        &&& self.balances.wf()
        &&& self.claims.wf()
        &&& self.balances.sum() == self.issuance_or_zero()
    }

    /// A fresh state: height zero, no events, no entries, no issuance.
    pub fn new_empty() -> (r: Runtime)
        ensures
            r.block_number == 0,
            r.events@ == Seq::<RuntimeEvent>::empty(),
            r.balances@ == Map::<u64, u128>::empty(),
            r.balances.sum() == 0,
            r.total_issuance is None,
            r.claims@ == Map::<ClaimId, (u64, u64)>::empty(),
            r.inv(),
    {
        Runtime {
            block_number: 0,
            events: Vec::new(),
            balances: BalanceMap::new(),
            total_issuance: None,
            claims: ClaimMap::new(),
        }
    }

    /// Set the current height; every other part of the state is untouched.
    pub fn set_block_number(&mut self, n: BlockNumber)
        ensures
            final(self).block_number == n,
            final(self).events == old(self).events,
            final(self).balances == old(self).balances,
            final(self).total_issuance == old(self).total_issuance,
            final(self).claims == old(self).claims,
    {
        self.block_number = n;
    }

    /// The sum of all stored balances, as a machine integer.
    pub fn sum_of_balances(&self) -> (r: u128)
        requires
            self.balances.sum() <= u128::MAX,
        ensures
            r == self.balances.sum(),
    {
        self.balances.sum_values()
    }

    /// The ledger events deposited so far, in order.
    pub fn ledger_events(&self) -> (r: Vec<ledger::Event>)
        ensures
            r@ == ledger_events_of(self.events@),
    {
        let mut out: Vec<ledger::Event> = Vec::new();
        let n = self.events.len();
        let mut i: usize = 0;
        while i < n
            invariant
                i <= n,
                n == self.events@.len(),
                out@ == ledger_events_of(self.events@.take(i as int)),
            decreases n - i,
        {
            proof {
                assert(self.events@.take(i + 1).drop_last() =~= self.events@.take(i as int));
                assert(self.events@.take(i + 1).last() == self.events@[i as int]);
            }
            match self.events[i] {
                RuntimeEvent::Ledger(e) => out.push(e),
                _ => {},
            }
            i = i + 1;
        }
        proof {
            assert(self.events@.take(n as int) =~= self.events@);
        }
        out
    }
}

/// Version constants identifying a build of this runtime.
#[derive(Clone, Copy, PartialEq, Eq, Structural, Debug)]
pub struct RuntimeVersion {
    pub authoring_version: u32,
    pub spec_version: u32,
    pub impl_version: u32,
    pub transaction_version: u32,
    pub state_version: u8,
}

/// The version information used to identify this runtime when compiled natively.
#[derive(Clone, Copy, PartialEq, Eq, Structural, Debug)]
pub struct NativeVersion {
    pub runtime_version: RuntimeVersion,
}

/// The native build's version record.
pub fn native_version() -> (v: NativeVersion)
    ensures
        v.runtime_version == (RuntimeVersion {
            authoring_version: 1,
            spec_version: 2,
            impl_version: 1,
            transaction_version: 1,
            state_version: 1,
        }),
{
    NativeVersion {
        runtime_version: RuntimeVersion {
            authoring_version: 1,
            spec_version: 2,
            impl_version: 1,
            transaction_version: 1,
            state_version: 1,
        },
    }
}

} // verus!
