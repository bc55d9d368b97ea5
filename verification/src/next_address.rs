//! The wallet's next addresses.
use std::str::FromStr;
use vstd::prelude::*;
use bitcoin::address::NetworkUnchecked;
use bitcoin::Address;
use crate::backend::BlockchainBackend;
use crate::bytes::ScriptBuf;
use crate::descriptor::{descriptor_error, wallet_descriptor};
use crate::error::WalletError;
use crate::keys::result_view;
use crate::listing::{address_coins, highest_index};
use crate::primitives::{AddressType, KeychainKind};
use crate::store::WalletStore;
use crate::wallet::Wallet;

verus! {

/// What the backend is asked to derive: the addresses of a descriptor at the indices `start` to `end`,
/// both of them included.
#[derive(Debug)]
pub struct AddressRequest {
    /// The descriptor.
    pub descriptor: String,
    /// The first index.
    pub start: u32,
    /// The last index.
    pub end: u32,
}

/// Whether the descriptors of both chains of an address type can be written.
pub open spec fn has_descriptors(master: Seq<u8>, address_type: AddressType) -> bool {
    wallet_descriptor(master, address_type, KeychainKind::External) is Some && wallet_descriptor(
        master,
        address_type,
        KeychainKind::Internal,
    ) is Some
}

/// The bytes of the script that an address stands for, or the text of the error that reading it gives.
pub uninterp spec fn script_at_address(address: Seq<char>) -> Result<Seq<u8>, Seq<char>>;

/// Calls `bitcoin::Address::from_str`, and takes the `script_pubkey` of what was read, on whatever network.
/// The contract names the script, or the text of the error, as a function of the address.
#[verifier::external_body]
fn outside_address_script(address: &str) -> (script: Result<ScriptBuf, String>)
    ensures
        result_view(script) == script_at_address(address@),
{
    let read = Address::<NetworkUnchecked>::from_str(address).map_err(|e| e.to_string())?;
    Ok(ScriptBuf { bytes: read.assume_checked().script_pubkey().into_bytes() })
}

/// The scripts that a list of addresses stands for, in order. The first address that cannot be read gives
/// the error.
pub fn address_scripts(addresses: &Vec<String>) -> (scripts: Result<Vec<ScriptBuf>, String>)
    ensures
        match scripts {
            Ok(list) => list@.len() == addresses@.len() && forall|i: int|
                0 <= i < list@.len() ==> script_at_address(addresses@[i]@) == Ok::<
                    Seq<u8>,
                    Seq<char>,
                >((#[trigger] list@[i])@),
            Err(e) => exists|k: int|
                {
                    &&& 0 <= k < addresses@.len()
                    &&& script_at_address((#[trigger] addresses@[k])@) == Err::<
                        Seq<u8>,
                        Seq<char>,
                    >(e@)
                    &&& forall|j: int|
                        0 <= j < k ==> script_at_address((#[trigger] addresses@[j])@) is Ok
                },
        },
{
    let mut list: Vec<ScriptBuf> = Vec::new();
    let mut i: usize = 0;
    while i < addresses.len()
        invariant
            i <= addresses.len(),
            list@.len() == i,
            forall|j: int|
                0 <= j < i ==> script_at_address(addresses@[j]@) == Ok::<Seq<u8>, Seq<char>>(
                    (#[trigger] list@[j])@,
                ),
        decreases addresses.len() - i,
    {
        match outside_address_script(addresses[i].as_str()) {
            Ok(script) => {
                list.push(script);
            },
            Err(e) => {
                proof {
                    assert forall|j: int| 0 <= j < i implies script_at_address(
                        (#[trigger] addresses@[j])@,
                    ) is Ok by {
                        assert(script_at_address(addresses@[j]@) == Ok::<Seq<u8>, Seq<char>>(
                            list@[j]@,
                        ));
                    }
                    assert(script_at_address(addresses@[i as int]@) == Err::<Seq<u8>, Seq<char>>(
                        e@,
                    ));
                }
                return Err(e);
            },
        }
        i += 1;
    }
    Ok(list)
}

impl<B: BlockchainBackend> Wallet<B> {
    /// What the backend is asked for the next receiving address: the one at the external index.
    pub fn next_external_request(&self, address_type: AddressType) -> (request: Result<
        AddressRequest,
        WalletError,
    >)
        ensures
            match request {
                Ok(r) => {
                    &&& wallet_descriptor(
                        self.store.master_key@,
                        address_type,
                        KeychainKind::External,
                    ) == Some(r.descriptor@)
                    &&& r.start == self.store.external_index
                    &&& r.end == self.store.external_index
                },
                Err(e) => !has_descriptors(self.store.master_key@, address_type) && e
                    == descriptor_error(self.store.master_key@, address_type),
            },
    {
        let descriptors = self.get_wallet_descriptors(address_type)?;
        Ok(
            AddressRequest {
                descriptor: descriptors.external,
                start: self.store.external_index,
                end: self.store.external_index,
            },
        )
    }

    /// Takes the address that the backend derived as the next receiving address, and moves on to the
    /// index after it.
    pub fn get_next_external_address(&mut self, derived: &Vec<String>) -> (address: String)
        requires
            old(self).well_formed(),
            derived@.len() > 0,
            old(self).store.external_index < u32::MAX,
        ensures
            final(self).well_formed(),
            final(self).rpc == old(self).rpc,
            final(self).store == (WalletStore {
                external_index: (old(self).store.external_index + 1) as u32,
                ..old(self).store
            }),
            address@ == derived@[0]@,
    {
        self.store.external_index = self.store.external_index + 1;
        derived[0].clone()
    }

    /// What the backend is asked for the next change addresses: those at the first unused index and at
    /// the `count` indices after it.
    pub fn get_next_internal_addresses(&self, count: u32, address_type: AddressType) -> (request:
        Result<AddressRequest, WalletError>)
        requires
            self.well_formed(),
            highest_index(
                address_coins(self.store),
                self.rpc.local(),
                KeychainKind::Internal.spec_index_num(),
            ) < i32::MAX,
            highest_index(
                address_coins(self.store),
                self.rpc.local(),
                KeychainKind::Internal.spec_index_num(),
            ) + 1 + count <= u32::MAX,
        ensures
            match request {
                Ok(r) => {
                    &&& wallet_descriptor(
                        self.store.master_key@,
                        address_type,
                        KeychainKind::Internal,
                    ) == Some(r.descriptor@)
                    &&& r.start == highest_index(
                        address_coins(self.store),
                        self.rpc.local(),
                        KeychainKind::Internal.spec_index_num(),
                    ) + 1
                    &&& r.end == r.start + count
                },
                Err(e) => !has_descriptors(self.store.master_key@, address_type) && e
                    == descriptor_error(self.store.master_key@, address_type),
            },
    {
        let next = self.find_hd_next_index(KeychainKind::Internal)?;
        let descriptors = self.get_wallet_descriptors(address_type)?;
        Ok(AddressRequest { descriptor: descriptors.internal, start: next, end: next + count })
    }
}

} // verus!
