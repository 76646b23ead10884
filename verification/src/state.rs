//! The collection's state: who governs it, its settings and its tokens.

use vstd::prelude::*;
use crate::collection::CollectionSettings;
use crate::fleet::principals_view;
use crate::keyed::MapKey;
use crate::ledger::TokenLedger;
use crate::principal::PrincipalId;
use crate::storage_fleet::CanisterInfo;

verus! {

/// The approval limits a collection starts with.
pub struct InitApprovalsArg {
    pub max_approvals: Option<u16>,
    pub max_approvals_per_token_or_collection: Option<u16>,
    pub max_revoke_approvals: Option<u16>,
    pub settle_to_approvals: Option<u16>,
    pub collection_approval_requires_token: Option<bool>,
}

/// The collection's data; `V` is the type of custom metadata values.
pub struct Data<V> {
    pub authorized_principals: Vec<PrincipalId>,
    pub minting_authorities: Vec<PrincipalId>,
    pub settings: CollectionSettings<V>,
    pub tokens_list: TokenLedger,
    pub approval_init: Option<InitApprovalsArg>,
}

impl<V> Data<V> {
    /// A collection with these settings and no tokens.
    pub fn new(
        authorized_principals: Vec<PrincipalId>,
        minting_authorities: Vec<PrincipalId>,
        settings: CollectionSettings<V>,
        approval_init: Option<InitApprovalsArg>,
    ) -> (d: Self)
        ensures
            d.authorized_principals == authorized_principals,
            d.minting_authorities == minting_authorities,
            d.settings == settings,
            d.tokens_list@ == Map::<u128, crate::ledger::TokenView>::empty(),
            d.approval_init == approval_init,
    {
        Data {
            authorized_principals,
            minting_authorities,
            settings,
            tokens_list: TokenLedger::new(),
            approval_init,
        }
    }
}

/// What the collection reports about itself and who governs it.
pub struct Metrics {
    pub canister_info: CanisterInfo,
    pub authorized_principals: Vec<PrincipalId>,
}

/// The state of the collection's canister.
pub struct RuntimeState<V> {
    pub data: Data<V>,
}

impl<V> RuntimeState<V> {
    pub fn new(data: Data<V>) -> (s: Self)
        ensures
            s.data == data,
    {
        RuntimeState { data }
    }

    /// Whether `caller` is one of the collection's authorized principals.
    pub fn is_caller_governance_principal(&self, caller: &PrincipalId) -> (b: bool)
        ensures
            b == principals_view(self.data.authorized_principals@).contains(caller@),
    {
        let mut i: usize = 0;
        while i < self.data.authorized_principals.len()
            invariant
                i <= self.data.authorized_principals@.len(),
                forall|j: int| 0 <= j < i ==> (#[trigger] self.data.authorized_principals@[j])@ != caller@,
            decreases self.data.authorized_principals@.len() - i,
        {
            if self.data.authorized_principals[i].key_eq(caller) {
                assert(principals_view(self.data.authorized_principals@)[i as int] == caller@);
                return true;
            }
            i += 1;
        }
        proof {
            if principals_view(self.data.authorized_principals@).contains(caller@) {
                let k = choose|k: int|
                    0 <= k < principals_view(self.data.authorized_principals@).len()
                        && principals_view(self.data.authorized_principals@)[k] == caller@;
                assert(self.data.authorized_principals@[k]@ == caller@);
            }
        }
        false
    }

    /// The metrics of the collection: `canister_info`, which the canister
    /// reads from its environment, and its authorized principals.
    pub fn metrics(&self, canister_info: CanisterInfo) -> (m: Metrics)
        ensures
            m.canister_info == canister_info,
            principals_view(m.authorized_principals@) == principals_view(self.data.authorized_principals@),
    {
        let mut copy: Vec<PrincipalId> = Vec::new();
        let mut i: usize = 0;
        while i < self.data.authorized_principals.len()
            invariant
                i <= self.data.authorized_principals@.len(),
                principals_view(copy@) == principals_view(self.data.authorized_principals@).take(i as int),
            decreases self.data.authorized_principals@.len() - i,
        {
            let ghost before = copy@;
            copy.push(self.data.authorized_principals[i].key_copy());
            assert(principals_view(copy@) =~= principals_view(before).push(
                self.data.authorized_principals@[i as int]@,
            ));
            assert(principals_view(self.data.authorized_principals@).take(i as int + 1)
                =~= principals_view(self.data.authorized_principals@).take(i as int).push(
                self.data.authorized_principals@[i as int]@,
            ));
            i += 1;
        }
        assert(principals_view(self.data.authorized_principals@).take(i as int) =~= principals_view(
            self.data.authorized_principals@,
        ));
        Metrics { canister_info, authorized_principals: copy }
    }
}

} // verus!
