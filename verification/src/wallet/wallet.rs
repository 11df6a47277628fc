//! A wallet: the addresses it holds, with their keys, and what it does
//! with them.
//!
//! The addresses are kept in the order in which they came; no address is
//! added twice, a second entry for an address takes the place of the
//! first. The wallet reads balances and unspent outputs from a chain that
//! is handed to it; keeping the wallet in a store is left to its user.

use crate::chain::block::unix_time_now;
use crate::chain::blockchain::Blockchain;
use crate::chain::builder::{
    built_transaction, estimated_size, fee_for, TransactionBuilder,
};
use crate::chain::codec::put_bytes;
use crate::chain::transaction::{
    script_for_address, sum_output_values, Transaction, TransactionView, TxInputView, TxOutputView,
};
use crate::chain::utxo::{
    balance_of, is_largest_first_selection, outputs_of, sum_values, utxo_refs_view, UtxoEntryView,
};
use crate::crypto::hash::sha256_digest;
use crate::crypto::pqc::PqcAddress;
use crate::crypto::signatures::ecdsa_signature;
use crate::crypto::hash::Hash256;
use crate::consensus::validation::{first_where, lemma_first_where, lemma_first_where_is, lemma_first_where_none};
use crate::crypto::hash::hash160_digest;
use crate::crypto::keys::{
    address_payload, base58_text, drawn_key_pair, is_curve_point, is_secret_key, secp_public_key,
    wif_defect,
    wif_payload, base58_bytes, KeyPair, PrivateKey, PublicKey, ADDRESS_VERSION,
};
use crate::error::{CryptoReason, QtcError, TxReason, WalletReason};
use vstd::utf8::encode_utf8;
use crate::wallet::bip39::{
    address_at, address_secret, bip39_entropy, bip39_seed, xpriv_master, HdWallet, Mnemonic,
};
use vstd::prelude::*;
use vstd::string::StringExecFns;

verus! {

/// The kinds of wallet.
#[derive(Clone, Copy, Debug, PartialEq, Eq, Structural)]
pub enum WalletType {
    /// One key.
    Simple,
    /// A hierarchy of keys below a mnemonic sentence.
    HD,
    /// A group of signers.
    Multisig { required: u32, total: u32 },
    /// Addresses without their keys.
    WatchOnly,
    /// Post-quantum keys.
    PostQuantum,
    /// One ordinary key and one post-quantum key.
    HybridClassicPqc,
}

/// The kinds of address.
#[derive(Clone, Copy, Debug, PartialEq, Eq, Structural)]
pub enum AddressType {
    Classic,
    PostQuantum,
    Hybrid,
}

/// What a wallet says of itself.
#[derive(Debug)]
pub struct WalletInfo {
    pub name: String,
    pub wallet_type: WalletType,
    pub created_at: u64,
    pub last_used: u64,
    pub is_encrypted: bool,
    pub balance: u64,
    pub address_count: u32,
}

impl Clone for WalletInfo {
    fn clone(&self) -> (copy: Self)
        ensures
            copy == *self,
    {
        WalletInfo {
            name: self.name.clone(),
            wallet_type: self.wallet_type,
            created_at: self.created_at,
            last_used: self.last_used,
            is_encrypted: self.is_encrypted,
            balance: self.balance,
            address_count: self.address_count,
        }
    }
}

/// The bytes of an optional byte string.
pub open spec fn optional_bytes(bytes: Option<Vec<u8>>) -> Option<Seq<u8>> {
    match bytes {
        Some(b) => Some(b@),
        None => None,
    }
}

/// The text of an optional string.
pub open spec fn optional_text(text: Option<String>) -> Option<Seq<char>> {
    match text {
        Some(t) => Some(t@),
        None => None,
    }
}

/// A copy of an optional byte string.
pub fn clone_optional_bytes(bytes: &Option<Vec<u8>>) -> (copy: Option<Vec<u8>>)
    ensures
        optional_bytes(copy) == optional_bytes(*bytes),
{
    match bytes {
        Some(b) => Some(b.clone()),
        None => None,
    }
}

/// The post-quantum keys of an address, as values.
pub struct PqcAddressDataView {
    pub signing_private_key: Option<Seq<u8>>,
    pub encryption_private_key: Option<Seq<u8>>,
    pub signing_public_key: Seq<u8>,
    pub encryption_public_key: Seq<u8>,
}

/// The post-quantum keys of an address.
#[derive(Debug)]
pub struct PqcAddressData {
    pub signing_private_key: Option<Vec<u8>>,
    pub encryption_private_key: Option<Vec<u8>>,
    pub signing_public_key: Vec<u8>,
    pub encryption_public_key: Vec<u8>,
}

impl View for PqcAddressData {
    type V = PqcAddressDataView;

    open spec fn view(&self) -> PqcAddressDataView {
        PqcAddressDataView {
            signing_private_key: optional_bytes(self.signing_private_key),
            encryption_private_key: optional_bytes(self.encryption_private_key),
            signing_public_key: self.signing_public_key@,
            encryption_public_key: self.encryption_public_key@,
        }
    }
}

impl Clone for PqcAddressData {
    fn clone(&self) -> (copy: Self)
        ensures
            copy@ == self@,
    {
        PqcAddressData {
            signing_private_key: clone_optional_bytes(&self.signing_private_key),
            encryption_private_key: clone_optional_bytes(&self.encryption_private_key),
            signing_public_key: self.signing_public_key.clone(),
            encryption_public_key: self.encryption_public_key.clone(),
        }
    }
}

/// An address of a wallet, as values.
pub struct WalletAddressView {
    pub address: Seq<char>,
    pub private_key: Option<Seq<u8>>,
    pub public_key: Seq<u8>,
    pub derivation_path: Option<Seq<char>>,
    pub is_change: bool,
    pub used: bool,
    pub address_type: AddressType,
    pub pqc_data: Option<PqcAddressDataView>,
}

/// An address of a wallet with what the wallet knows of it.
#[derive(Debug)]
pub struct WalletAddress {
    pub address: String,
    pub private_key: Option<Vec<u8>>,
    pub public_key: Vec<u8>,
    pub derivation_path: Option<String>,
    pub is_change: bool,
    pub used: bool,
    pub address_type: AddressType,
    pub pqc_data: Option<PqcAddressData>,
}

impl View for WalletAddress {
    type V = WalletAddressView;

    open spec fn view(&self) -> WalletAddressView {
        WalletAddressView {
            address: self.address@,
            private_key: optional_bytes(self.private_key),
            public_key: self.public_key@,
            derivation_path: optional_text(self.derivation_path),
            is_change: self.is_change,
            used: self.used,
            address_type: self.address_type,
            pqc_data: match self.pqc_data {
                Some(data) => Some(data@),
                None => None,
            },
        }
    }
}

impl Clone for WalletAddress {
    fn clone(&self) -> (copy: Self)
        ensures
            copy@ == self@,
    {
        WalletAddress {
            address: self.address.clone(),
            private_key: clone_optional_bytes(&self.private_key),
            public_key: self.public_key.clone(),
            derivation_path: match &self.derivation_path {
                Some(path) => Some(path.clone()),
                None => None,
            },
            is_change: self.is_change,
            used: self.used,
            address_type: self.address_type,
            pqc_data: match &self.pqc_data {
                Some(data) => Some(data.clone()),
                None => None,
            },
        }
    }
}

/// The addresses of a wallet, as values.
pub open spec fn entries_view(entries: Seq<WalletAddress>) -> Seq<WalletAddressView> {
    entries.map_values(|e: WalletAddress| e@)
}

/// Whether the entry at an index is for an address.
pub open spec fn holds_address(entries: Seq<WalletAddressView>, address: Seq<char>) -> spec_fn(
    int,
) -> bool {
    |i: int| entries[i].address == address
}

/// Where the entry for an address stands, if there is one: the first.
pub open spec fn position_of(entries: Seq<WalletAddressView>, address: Seq<char>) -> Option<int> {
    first_where(entries.len() as int, holds_address(entries, address))
}

/// The entries with one more: in the place of the entry for the same
/// address where there is one, at the end where there is none.
pub open spec fn with_entry(entries: Seq<WalletAddressView>, entry: WalletAddressView) -> Seq<
    WalletAddressView,
> {
    match position_of(entries, entry.address) {
        Some(i) => entries.update(i, entry),
        None => entries.push(entry),
    }
}

/// Whether no address has two entries.
pub open spec fn addresses_distinct(entries: Seq<WalletAddressView>) -> bool {
    forall|i: int, j: int|
        0 <= i < j < entries.len() ==> (#[trigger] entries[i]).address != (
        #[trigger] entries[j]).address
}

/// The address text of a public key.
pub open spec fn key_address(public: Seq<u8>) -> Seq<char> {
    "qtc"@ + base58_text(address_payload(ADDRESS_VERSION, hash160_digest(public)))
}

/// The entry of an ordinary key: its address, both keys, unused.
pub open spec fn classic_entry(
    secret: Seq<u8>,
    public: Seq<u8>,
    path: Option<Seq<char>>,
    change: bool,
) -> WalletAddressView {
    WalletAddressView {
        address: key_address(public),
        private_key: Some(secret),
        public_key: public,
        derivation_path: path,
        is_change: change,
        used: false,
        address_type: AddressType::Classic,
        pqc_data: None,
    }
}

/// Whether the entry at an index is free to receive: not used, not for
/// change.
pub open spec fn is_unused(entries: Seq<WalletAddressView>) -> spec_fn(int) -> bool {
    |i: int| !entries[i].used && !entries[i].is_change
}

/// Whether the entry at an index is a post-quantum address.
pub open spec fn is_post_quantum(entries: Seq<WalletAddressView>) -> spec_fn(int) -> bool {
    |i: int| entries[i].address_type == AddressType::PostQuantum
}

/// Whether the entry at an index holds a private key.
pub open spec fn has_private_key(entries: Seq<WalletAddressView>) -> spec_fn(int) -> bool {
    |i: int| entries[i].private_key is Some
}

/// The entry marked as used.
pub open spec fn marked_used(entry: WalletAddressView) -> WalletAddressView {
    WalletAddressView { used: true, ..entry }
}

/// The addresses of one kind among the entries, in their order.
pub open spec fn addresses_of_type(entries: Seq<WalletAddressView>, kind: AddressType) -> Seq<
    Seq<char>,
>
    decreases entries.len(),
{
    if entries.len() == 0 {
        Seq::empty()
    } else if entries.last().address_type == kind {
        addresses_of_type(entries.drop_last(), kind).push(entries.last().address)
    } else {
        addresses_of_type(entries.drop_last(), kind)
    }
}

/// What the addresses of the entries own among unspent outputs: the sum
/// of their balances.
pub open spec fn wallet_balance(utxos: Seq<UtxoEntryView>, entries: Seq<WalletAddressView>) -> int
    decreases entries.len(),
{
    if entries.len() == 0 {
        0
    } else {
        wallet_balance(utxos, entries.drop_last()) + balance_of(utxos, entries.last().address)
    }
}

/// The private key of an address in its text form, or the reason for
/// which there is none: the wallet holds the address; it holds a private
/// key for it; the key has 32 bytes and is one of the curve.
pub open spec fn exported_key(entries: Seq<WalletAddressView>, address: Seq<char>) -> Result<
    Seq<char>,
    QtcError,
> {
    match position_of(entries, address) {
        None => Err(QtcError::Wallet(WalletReason::AddressNotFound)),
        Some(i) => match entries[i].private_key {
            None => Err(QtcError::Wallet(WalletReason::NoPrivateKey)),
            Some(key) => if key.len() != 32 {
                Err(QtcError::Crypto(CryptoReason::PrivateKeyLength))
            } else if !is_secret_key(key) {
                Err(QtcError::Crypto(CryptoReason::InvalidPrivateKey))
            } else {
                Ok(base58_text(wif_payload(key)))
            },
        },
    }
}

/// The private key that a text form spells, or the reason for which the
/// wallet does not take it: the text is a private key; its public key has
/// 33 or 65 bytes and is on the curve; the wallet can count one more
/// address.
pub open spec fn imported_key(wif: Seq<char>, address_count: u32) -> Result<Seq<u8>, QtcError> {
    match wif_defect(encode_utf8(wif)) {
        Some(reason) => Err(QtcError::Crypto(reason)),
        None => {
            let secret = base58_bytes(encode_utf8(wif))->0.subrange(1, 33);
            let public = secp_public_key(secret);
            if public.len() != 33 && public.len() != 65 {
                Err(QtcError::Crypto(CryptoReason::PublicKeyLength))
            } else if !is_curve_point(public) {
                Err(QtcError::Crypto(CryptoReason::InvalidPublicKey))
            } else if address_count == u32::MAX {
                Err(QtcError::Wallet(WalletReason::TooManyAddresses))
            } else {
                Ok(secret)
            }
        },
    }
}

/// A balance is not negative.
pub proof fn lemma_balance_not_negative(utxos: Seq<UtxoEntryView>, address: Seq<char>)
    ensures
        balance_of(utxos, address) >= 0,
    decreases utxos.len(),
{
    if utxos.len() > 0 {
        lemma_balance_not_negative(utxos.drop_last(), address);
    }
}

/// What the entries own does not fall when one more is counted.
pub proof fn lemma_wallet_balance_grows(
    utxos: Seq<UtxoEntryView>,
    entries: Seq<WalletAddressView>,
    n: int,
)
    requires
        0 <= n <= entries.len(),
    ensures
        0 <= wallet_balance(utxos, entries.take(n)) <= wallet_balance(utxos, entries),
    decreases entries.len() - n,
{
    if n == entries.len() {
        assert(entries.take(n) =~= entries);
        lemma_wallet_balance_not_negative(utxos, entries);
    } else {
        lemma_wallet_balance_grows(utxos, entries, n + 1);
        assert(entries.take(n + 1).drop_last() =~= entries.take(n));
        assert(entries.take(n + 1).last() == entries[n]);
        lemma_balance_not_negative(utxos, entries[n].address);
        lemma_wallet_balance_not_negative(utxos, entries.take(n));
    }
}

/// What the entries own is not negative.
pub proof fn lemma_wallet_balance_not_negative(
    utxos: Seq<UtxoEntryView>,
    entries: Seq<WalletAddressView>,
)
    ensures
        wallet_balance(utxos, entries) >= 0,
    decreases entries.len(),
{
    if entries.len() > 0 {
        lemma_wallet_balance_not_negative(utxos, entries.drop_last());
        lemma_balance_not_negative(utxos, entries.last().address);
    }
}

/// The decimal digit of a number below ten.
pub open spec fn digit_char(d: nat) -> char {
    if d == 0 {
        '0'
    } else if d == 1 {
        '1'
    } else if d == 2 {
        '2'
    } else if d == 3 {
        '3'
    } else if d == 4 {
        '4'
    } else if d == 5 {
        '5'
    } else if d == 6 {
        '6'
    } else if d == 7 {
        '7'
    } else if d == 8 {
        '8'
    } else {
        '9'
    }
}

/// The decimal digits of a number, without leading zeros.
pub open spec fn decimal_text(n: nat) -> Seq<char>
    decreases n,
{
    if n < 10 {
        seq![digit_char(n)]
    } else {
        decimal_text(n / 10).push(digit_char(n % 10))
    }
}

/// The text of the path of an address of the first account: `m/44'/0'/0'`,
/// the chain, 1 for change and 0 for receiving, and the index.
pub open spec fn path_text(change: bool, index: u32) -> Seq<char> {
    (if change {
        "m/44'/0'/0'/1/"@
    } else {
        "m/44'/0'/0'/0/"@
    }) + decimal_text(index as nat)
}

/// The entry of the address at an index of a chain below a master key,
/// where there is such an address.
pub open spec fn derived_entry(master: Seq<u8>, account: u32, change: bool, index: u32) -> WalletAddressView {
    let secret = address_secret(master, account, change, index)->Ok_0;
    classic_entry(secret, secp_public_key(secret), Some(path_text(change, index)), change)
}

/// The entries after `count` addresses of the receiving chain were added,
/// from the index `next` on.
pub open spec fn generated(
    entries: Seq<WalletAddressView>,
    master: Seq<u8>,
    account: u32,
    next: u32,
    count: nat,
) -> Seq<WalletAddressView>
    decreases count,
{
    if count == 0 {
        entries
    } else {
        with_entry(
            generated(entries, master, account, next, (count - 1) as nat),
            derived_entry(master, account, false, (next + count - 1) as u32),
        )
    }
}

/// Whether the receiving chain has no address at the index `next + i`.
pub open spec fn generation_fails(master: Seq<u8>, account: u32, next: u32) -> spec_fn(int) -> bool {
    |i: int| address_at(master, account, false, (next + i) as u32) is Err
}

/// Whether `after` is `before` with its two next indices moved.
pub open spec fn hierarchy_moved(before: HdWallet, after: HdWallet, external: int, internal: int) -> bool {
    &&& after.master_key@ == before.master_key@
    &&& after.mnemonic_hash == before.mnemonic_hash
    &&& after.account_index == before.account_index
    &&& after.next_external_index == external
    &&& after.next_internal_index == internal
}

/// The unspent outputs that the addresses of the entries own, entry by
/// entry.
pub open spec fn wallet_outputs(utxos: Seq<UtxoEntryView>, entries: Seq<WalletAddressView>) -> Seq<
    (Seq<u8>, u32, u64),
>
    decreases entries.len(),
{
    if entries.len() == 0 {
        Seq::empty()
    } else {
        wallet_outputs(utxos, entries.drop_last()) + outputs_of(utxos, entries.last().address)
    }
}

/// The estimated size as a builder keeps it: held at `usize::MAX`.
pub open spec fn kept_size(to_pay: Seq<TxOutputView>) -> int {
    if estimated_size(to_pay) <= usize::MAX {
        estimated_size(to_pay)
    } else {
        usize::MAX as int
    }
}

/// What a payment needs: what is paid and the fee for the estimated size.
pub open spec fn payment_needed(to_pay: Seq<TxOutputView>, fee_rate: u64) -> int {
    sum_output_values(to_pay) + fee_for(fee_rate, kept_size(to_pay))
}

/// The one output of a payment of `amount` to an address.
pub open spec fn payment(to_address: Seq<char>, amount: u64) -> Seq<TxOutputView> {
    seq![TxOutputView { value: amount, script_pubkey: script_for_address(to_address) }]
}

/// The address that takes the change of a payment: the first of the
/// entries, no address where there is none.
pub open spec fn change_address_of(entries: Seq<WalletAddressView>) -> Seq<char> {
    if entries.len() > 0 {
        entries[0].address
    } else {
        Seq::empty()
    }
}

/// The script that signs for a private key over a transaction: the
/// signature over the transaction's signature hash, the recovery id 0, and
/// the public key.
pub open spec fn signing_script(secret: Seq<u8>, tx: TransactionView) -> Seq<u8> {
    ecdsa_signature(secret, sha256_digest(tx.signing_encoding())).push(0u8) + secp_public_key(
        secret,
    )
}

/// The transaction with `script` as the script of every input.
pub open spec fn signed_with(tx: TransactionView, script: Seq<u8>) -> TransactionView {
    TransactionView {
        inputs: tx.inputs.map_values(
            |input: TxInputView| TxInputView { signature_script: script, ..input },
        ),
        ..tx
    }
}

/// What signing does to a transaction with the entries of a wallet: the
/// first private key among the entries signs every input. Without inputs
/// or without a private key the transaction stays as it is. Refused where
/// the key has not 32 bytes, is no key of the curve, or has no public key
/// of 33 or 65 bytes on the curve.
pub open spec fn signing_result(entries: Seq<WalletAddressView>, tx: TransactionView) -> Result<
    TransactionView,
    QtcError,
> {
    if tx.inputs.len() == 0 {
        Ok(tx)
    } else {
        match first_where(entries.len() as int, has_private_key(entries)) {
            None => Ok(tx),
            Some(i) => {
                let secret = entries[i].private_key->0;
                let public = secp_public_key(secret);
                if secret.len() != 32 {
                    Err(QtcError::Crypto(CryptoReason::PrivateKeyLength))
                } else if !is_secret_key(secret) {
                    Err(QtcError::Crypto(CryptoReason::InvalidPrivateKey))
                } else if public.len() != 33 && public.len() != 65 {
                    Err(QtcError::Crypto(CryptoReason::PublicKeyLength))
                } else if !is_curve_point(public) {
                    Err(QtcError::Crypto(CryptoReason::InvalidPublicKey))
                } else {
                    Ok(signed_with(tx, signing_script(secret, tx)))
                }
            },
        }
    }
}

/// The entry of a post-quantum address with its private keys.
pub open spec fn pqc_entry(
    address: PqcAddress,
    signing_private_key: Seq<u8>,
    encryption_private_key: Seq<u8>,
) -> WalletAddressView {
    WalletAddressView {
        address: address.address@,
        private_key: None,
        public_key: address.signing_public_key@,
        derivation_path: None,
        is_change: false,
        used: false,
        address_type: AddressType::PostQuantum,
        pqc_data: Some(
            PqcAddressDataView {
                signing_private_key: Some(signing_private_key),
                encryption_private_key: Some(encryption_private_key),
                signing_public_key: address.signing_public_key@,
                encryption_public_key: address.encryption_public_key@,
            },
        ),
    }
}

/// The text of a decimal digit.
pub fn digit_text(d: u32) -> (text: &'static str)
    requires
        d < 10,
    ensures
        text@ == seq![digit_char(d as nat)],
{
    proof {
        reveal_strlit("0");
        reveal_strlit("1");
        reveal_strlit("2");
        reveal_strlit("3");
        reveal_strlit("4");
        reveal_strlit("5");
        reveal_strlit("6");
        reveal_strlit("7");
        reveal_strlit("8");
        reveal_strlit("9");
    }
    let text = if d == 0 {
        "0"
    } else if d == 1 {
        "1"
    } else if d == 2 {
        "2"
    } else if d == 3 {
        "3"
    } else if d == 4 {
        "4"
    } else if d == 5 {
        "5"
    } else if d == 6 {
        "6"
    } else if d == 7 {
        "7"
    } else if d == 8 {
        "8"
    } else {
        "9"
    };
    assert(text@ =~= seq![digit_char(d as nat)]);
    text
}

/// Appends the decimal digits of `n`.
pub fn append_decimal(text: &mut String, n: u32)
    ensures
        final(text)@ == old(text)@ + decimal_text(n as nat),
    decreases n,
{
    if n >= 10 {
        append_decimal(text, n / 10);
    }
    text.append(digit_text(n % 10));
    assert(text@ =~= old(text)@ + decimal_text(n as nat));
}

/// The text of the path of an address of the first account.
pub fn path_string(change: bool, index: u32) -> (text: String)
    ensures
        text@ == path_text(change, index),
{
    let mut text = if change {
        String::from_str("m/44'/0'/0'/1/")
    } else {
        String::from_str("m/44'/0'/0'/0/")
    };
    append_decimal(&mut text, index);
    text
}

/// The entry of a post-quantum address with its private keys.
pub fn pqc_address_entry(
    address: &PqcAddress,
    signing_private_key: Vec<u8>,
    encryption_private_key: Vec<u8>,
) -> (entry: WalletAddress)
    ensures
        entry@ == pqc_entry(*address, signing_private_key@, encryption_private_key@),
{
    WalletAddress {
        address: address.address.clone(),
        private_key: None,
        public_key: address.signing_public_key.clone(),
        derivation_path: None,
        is_change: false,
        used: false,
        address_type: AddressType::PostQuantum,
        pqc_data: Some(
            PqcAddressData {
                signing_private_key: Some(signing_private_key),
                encryption_private_key: Some(encryption_private_key),
                signing_public_key: address.signing_public_key.clone(),
                encryption_public_key: address.encryption_public_key.clone(),
            },
        ),
    }
}

/// Adding an entry keeps the addresses distinct.
pub proof fn lemma_with_entry_distinct(entries: Seq<WalletAddressView>, entry: WalletAddressView)
    requires
        addresses_distinct(entries),
    ensures
        addresses_distinct(with_entry(entries, entry)),
{
    lemma_first_where(entries.len() as int, holds_address(entries, entry.address));
    let after = with_entry(entries, entry);
    match position_of(entries, entry.address) {
        Some(at) => {
            assert forall|i: int, j: int| 0 <= i < j < after.len() implies (#[trigger] after[i]).address
                != (#[trigger] after[j]).address by {
                assert(entries[at].address == entry.address);
                assert(entries[i].address != entries[j].address);
            }
        },
        None => {
            assert forall|i: int, j: int| 0 <= i < j < after.len() implies (#[trigger] after[i]).address
                != (#[trigger] after[j]).address by {
                if j < entries.len() {
                    assert(entries[i].address != entries[j].address);
                } else {
                    assert(!holds_address(entries, entry.address)(i));
                }
            }
        },
    }
}

/// The entry of an ordinary key.
pub fn classic_address_entry(
    private_key: &PrivateKey,
    public_key: &PublicKey,
    derivation_path: Option<String>,
    is_change: bool,
) -> (entry: WalletAddress)
    ensures
        entry@ == classic_entry(
            private_key@,
            public_key@,
            optional_text(derivation_path),
            is_change,
        ),
{
    let secret = private_key.to_bytes();
    WalletAddress {
        address: public_key.to_address(),
        private_key: Some(vstd::slice::slice_to_vec(secret.as_slice())),
        public_key: vstd::slice::slice_to_vec(public_key.to_bytes()),
        derivation_path,
        is_change,
        used: false,
        address_type: AddressType::Classic,
        pqc_data: None,
    }
}

/// A wallet.
#[derive(Debug)]
pub struct Wallet {
    pub info: WalletInfo,
    pub addresses: Vec<WalletAddress>,
    pub hd_wallet: Option<HdWallet>,
}

impl View for Wallet {
    type V = Seq<WalletAddressView>;

    open spec fn view(&self) -> Seq<WalletAddressView> {
        entries_view(self.addresses@)
    }
}

impl Wallet {
    /// Where the entry for an address stands, if the wallet holds one.
    pub fn find_address(&self, address: &str) -> (found: Option<usize>)
        ensures
            found matches Some(at) ==> position_of(self@, address@) == Some(at as int) && at
                < self.addresses@.len(),
            found is None ==> position_of(self@, address@) is None,
    {
        let ghost holds = holds_address(self@, address@);
        let wanted = String::from_str(address);
        let mut i: usize = 0;
        while i < self.addresses.len()
            invariant
                i <= self.addresses@.len(),
                wanted@ == address@,
                holds == holds_address(self@, address@),
                forall|j: int| 0 <= j < i ==> !#[trigger] holds(j),
            decreases self.addresses@.len() - i,
        {
            if self.addresses[i].address == wanted {
                proof {
                    assert(holds(i as int));
                    lemma_first_where_is(self@.len() as int, holds, i as int);
                }
                return Some(i);
            }
            assert(!holds(i as int));
            i += 1;
        }
        proof {
            lemma_first_where_none(self@.len() as int, holds);
        }
        None
    }

    /// Puts an entry into the wallet: in the place of the entry for the
    /// same address where there is one, at the end where there is none.
    pub fn insert_address(&mut self, entry: WalletAddress)
        ensures
            final(self)@ == with_entry(old(self)@, entry@),
            final(self).info == old(self).info,
            final(self).hd_wallet == old(self).hd_wallet,
            addresses_distinct(old(self)@) ==> addresses_distinct(final(self)@),
    {
        proof {
            if addresses_distinct(self@) {
                lemma_with_entry_distinct(self@, entry@);
            }
        }
        let ghost added = entry@;
        let found = self.find_address(entry.address.as_str());
        match found {
            Some(at) => {
                assert(position_of(old(self)@, added.address) == Some(at as int));
                self.addresses.set(at, entry);
                assert(self@ =~= old(self)@.update(at as int, added));
            },
            None => {
                assert(position_of(old(self)@, added.address) is None);
                self.addresses.push(entry);
                assert(self@ =~= old(self)@.push(added));
            },
        }
    }

    /// A wallet of one key, made at `created_at`.
    pub fn with_keypair(name: String, keypair: &KeyPair, created_at: u64) -> (wallet: Self)
        ensures
            wallet@ == seq![
                classic_entry(keypair.private_key@, keypair.public_key@, None, false),
            ],
            wallet.info == (WalletInfo {
                name,
                wallet_type: WalletType::Simple,
                created_at,
                last_used: 0,
                is_encrypted: false,
                balance: 0,
                address_count: 1,
            }),
            wallet.hd_wallet is None,
    {
        let entry = classic_address_entry(&keypair.private_key, &keypair.public_key, None, false);
        let mut addresses: Vec<WalletAddress> = Vec::new();
        addresses.push(entry);
        let wallet = Wallet {
            info: WalletInfo {
                name,
                wallet_type: WalletType::Simple,
                created_at,
                last_used: 0,
                is_encrypted: false,
                balance: 0,
                address_count: 1,
            },
            addresses,
            hd_wallet: None,
        };
        assert(wallet@ =~= seq![entry@]);
        wallet
    }

    /// Whether `out` is the wallet of the one key that 32 drawn bytes
    /// give, made at `now`, or the refusal of those bytes.
    pub open spec fn is_simple_of(
        out: Result<Self, QtcError>,
        name: String,
        drawn: Seq<u8>,
        now: u64,
    ) -> bool {
        match drawn_key_pair(drawn) {
            Err(e) => out matches Err(refusal) && refusal == e,
            Ok(keys) => {
                &&& out is Ok
                &&& out->Ok_0@ == seq![classic_entry(keys.0, keys.1, None, false)]
                &&& out->Ok_0.info == (WalletInfo {
                    name,
                    wallet_type: WalletType::Simple,
                    created_at: now,
                    last_used: 0,
                    is_encrypted: false,
                    balance: 0,
                    address_count: 1,
                })
                &&& out->Ok_0.hd_wallet is None
            },
        }
    }

    /// A wallet of one key from the system's source of randomness, made
    /// now: the 32 bytes drawn are its private key; where they are no key
    /// of the curve, or have no public key, they are refused.
    pub fn new_simple(name: String) -> (out: Result<Self, QtcError>)
        ensures
            exists|drawn: Seq<u8>, now: u64|
                drawn.len() == 32 && #[trigger] Self::is_simple_of(out, name, drawn, now),
            out matches Ok(wallet) ==> {
                &&& wallet@.len() == 1
                &&& wallet@[0].private_key is Some
                &&& wallet@[0] == classic_entry(
                    wallet@[0].private_key->0,
                    secp_public_key(wallet@[0].private_key->0),
                    None,
                    false,
                )
                &&& wallet.info.name == name
                &&& wallet.info.wallet_type == WalletType::Simple
                &&& wallet.info.last_used == 0
                &&& !wallet.info.is_encrypted
                &&& wallet.info.balance == 0
                &&& wallet.info.address_count == 1
                &&& wallet.hd_wallet is None
            },
    {
        let made = KeyPair::new();
        let ghost drawn = choose|drawn: Seq<u8>|
            drawn.len() == 32 && #[trigger] KeyPair::is_drawn(made, drawn);
        let keypair = match made {
            Err(e) => {
                let out = Err(e);
                assert(Self::is_simple_of(out, name, drawn, 0));
                return out;
            },
            Ok(pair) => pair,
        };
        let now = unix_time_now();
        let out = Ok(Self::with_keypair(name, &keypair, now));
        assert(Self::is_simple_of(out, name, drawn, now));
        out
    }

    /// The addresses the wallet holds, in its order.
    pub fn get_addresses(&self) -> (found: Vec<String>)
        ensures
            found@.len() == self@.len(),
            forall|i: int| 0 <= i < found@.len() ==> (#[trigger] found@[i])@ == self@[i].address,
    {
        let mut found: Vec<String> = Vec::new();
        let mut i: usize = 0;
        while i < self.addresses.len()
            invariant
                i <= self.addresses@.len(),
                found@.len() == i,
                forall|j: int| 0 <= j < i ==> (#[trigger] found@[j])@ == self@[j].address,
            decreases self.addresses@.len() - i,
        {
            found.push(self.addresses[i].address.clone());
            i += 1;
        }
        found
    }
    /// What the addresses of the wallet own among the unspent outputs of
    /// a chain, or an error where that does not fit in 64 bits.
    pub fn get_balance(&self, chain: &Blockchain) -> (out: Result<u64, QtcError>)
        ensures
            out is Ok <==> wallet_balance(chain.utxos(), self@) <= u64::MAX,
            out matches Ok(balance) ==> balance == wallet_balance(chain.utxos(), self@),
            out matches Err(e) ==> e == QtcError::Transaction(TxReason::ValueOverflow),
    {
        let mut total: u64 = 0;
        let mut i: usize = 0;
        assert(self@.take(0) =~= Seq::<WalletAddressView>::empty());
        while i < self.addresses.len()
            invariant
                i <= self.addresses@.len(),
                total == wallet_balance(chain.utxos(), self@.take(i as int)),
            decreases self.addresses@.len() - i,
        {
            proof {
                lemma_wallet_balance_grows(chain.utxos(), self@, i as int + 1);
                assert(self@.take(i as int + 1).drop_last() =~= self@.take(i as int));
                lemma_wallet_balance_not_negative(chain.utxos(), self@.take(i as int));
                lemma_balance_not_negative(chain.utxos(), self@[i as int].address);
            }
            let balance = match chain.get_balance(self.addresses[i].address.as_str()) {
                Err(e) => {
                    return Err(e);
                },
                Ok(b) => b,
            };
            total = match total.checked_add(balance) {
                None => {
                    return Err(QtcError::Transaction(TxReason::ValueOverflow));
                },
                Some(sum) => sum,
            };
            i += 1;
        }
        assert(self@.take(i as int) =~= self@);
        Ok(total)
    }

    /// What one address of the wallet owns among the unspent outputs of a
    /// chain.
    pub fn get_address_balance(&self, chain: &Blockchain, address: &str) -> (out: Result<
        u64,
        QtcError,
    >)
        ensures
            out is Ok <==> position_of(self@, address@) is Some && balance_of(
                chain.utxos(),
                address@,
            ) <= u64::MAX,
            out matches Ok(balance) ==> balance == balance_of(chain.utxos(), address@),
            out matches Err(e) ==> e == if position_of(self@, address@) is None {
                QtcError::Wallet(WalletReason::AddressNotFound)
            } else {
                QtcError::Transaction(TxReason::ValueOverflow)
            },
    {
        if self.find_address(address).is_none() {
            return Err(QtcError::Wallet(WalletReason::AddressNotFound));
        }
        chain.get_balance(address)
    }

    /// The first address that is free to receive: not used, not for
    /// change.
    pub fn get_unused_address(&self) -> (found: Option<String>)
        ensures
            match first_where(self@.len() as int, is_unused(self@)) {
                Some(i) => found matches Some(address) && address@ == self@[i].address,
                None => found is None,
            },
    {
        let ghost unused = is_unused(self@);
        let mut i: usize = 0;
        while i < self.addresses.len()
            invariant
                i <= self.addresses@.len(),
                unused == is_unused(self@),
                forall|j: int| 0 <= j < i ==> !#[trigger] unused(j),
            decreases self.addresses@.len() - i,
        {
            if !self.addresses[i].used && !self.addresses[i].is_change {
                proof {
                    assert(unused(i as int));
                    lemma_first_where_is(self@.len() as int, unused, i as int);
                }
                return Some(self.addresses[i].address.clone());
            }
            assert(!unused(i as int));
            i += 1;
        }
        proof {
            lemma_first_where_none(self@.len() as int, unused);
        }
        None
    }

    /// The address that takes change: the first the wallet holds.
    pub fn get_change_address(&self) -> (out: Result<String, QtcError>)
        ensures
            out is Ok <==> self@.len() > 0,
            out matches Ok(address) ==> address@ == self@[0].address,
            out matches Err(e) ==> e == QtcError::Wallet(WalletReason::NoAddresses),
    {
        if self.addresses.len() == 0 {
            return Err(QtcError::Wallet(WalletReason::NoAddresses));
        }
        Ok(self.addresses[0].address.clone())
    }

    /// Marks the entry of an address as used, where the wallet holds the
    /// address.
    pub fn mark_address_used(&mut self, address: &str) -> (out: Result<(), QtcError>)
        ensures
            out is Ok,
            final(self)@ == (match position_of(old(self)@, address@) {
                Some(i) => old(self)@.update(i, marked_used(old(self)@[i])),
                None => old(self)@,
            }),
            final(self).info == old(self).info,
            final(self).hd_wallet == old(self).hd_wallet,
    {
        match self.find_address(address) {
            Some(at) => {
                let mut entry = self.addresses[at].clone();
                entry.used = true;
                assert(entry@ == marked_used(old(self)@[at as int]));
                self.addresses.set(at, entry);
                assert(self@ =~= old(self)@.update(at as int, marked_used(old(self)@[at as int])));
            },
            None => {},
        }
        Ok(())
    }

    /// The private key of an address of the wallet in its text form.
    pub fn export_private_key(&self, address: &str) -> (out: Result<String, QtcError>)
        ensures
            out is Ok <==> exported_key(self@, address@) is Ok,
            out matches Ok(text) ==> Ok::<Seq<char>, QtcError>(text@) == exported_key(
                self@,
                address@,
            ),
            out matches Err(e) ==> Err::<Seq<char>, QtcError>(e) == exported_key(self@, address@),
    {
        let at = match self.find_address(address) {
            None => {
                return Err(QtcError::Wallet(WalletReason::AddressNotFound));
            },
            Some(at) => at,
        };
        let bytes = match &self.addresses[at].private_key {
            None => {
                return Err(QtcError::Wallet(WalletReason::NoPrivateKey));
            },
            Some(bytes) => bytes,
        };
        let private_key = match PrivateKey::from_bytes(bytes.as_slice()) {
            Err(e) => {
                return Err(e);
            },
            Ok(key) => key,
        };
        Ok(private_key.to_wif())
    }

    /// Takes a private key in its text form into the wallet: the entry of
    /// its address is added, and the wallet counts one more address. Gives
    /// the address. A key that is refused leaves the wallet as it was.
    pub fn import_private_key(&mut self, wif: &str) -> (out: Result<String, QtcError>)
        ensures
            final(self).hd_wallet == old(self).hd_wallet,
            match imported_key(wif@, old(self).info.address_count) {
                Ok(secret) => {
                    &&& out matches Ok(address) && address@ == key_address(secp_public_key(secret))
                    &&& final(self)@ == with_entry(
                        old(self)@,
                        classic_entry(secret, secp_public_key(secret), None, false),
                    )
                    &&& final(self).info == (WalletInfo {
                        address_count: (old(self).info.address_count + 1) as u32,
                        ..old(self).info
                    })
                },
                Err(e) => {
                    &&& out == Err::<String, QtcError>(e)
                    &&& *final(self) == *old(self)
                },
            },
            addresses_distinct(old(self)@) ==> addresses_distinct(final(self)@),
    {
        let private_key = match PrivateKey::from_wif(wif) {
            Err(e) => {
                return Err(e);
            },
            Ok(key) => key,
        };
        let public_key = match private_key.public_key() {
            Err(e) => {
                return Err(e);
            },
            Ok(key) => key,
        };
        if self.info.address_count == u32::MAX {
            return Err(QtcError::Wallet(WalletReason::TooManyAddresses));
        }
        let entry = classic_address_entry(&private_key, &public_key, None, false);
        let address = entry.address.clone();
        self.insert_address(entry);
        self.info.address_count = self.info.address_count + 1;
        Ok(address)
    }

    /// The transactions of the wallet's addresses: none are kept.
    pub fn get_transaction_history(&self) -> (out: Result<Vec<(Hash256, Transaction, u64)>, QtcError>)
        ensures
            out matches Ok(history) && history@.len() == 0,
    {
        Ok(Vec::new())
    }

    /// The addresses of one kind, in the wallet's order.
    pub fn get_addresses_by_type(&self, address_type: AddressType) -> (found: Vec<String>)
        ensures
            found@.map_values(|a: String| a@) == addresses_of_type(self@, address_type),
    {
        let mut found: Vec<String> = Vec::new();
        let mut i: usize = 0;
        assert(self@.take(0) =~= Seq::<WalletAddressView>::empty());
        assert(found@.map_values(|a: String| a@) =~= Seq::<Seq<char>>::empty());
        while i < self.addresses.len()
            invariant
                i <= self.addresses@.len(),
                found@.map_values(|a: String| a@) == addresses_of_type(
                    self@.take(i as int),
                    address_type,
                ),
            decreases self.addresses@.len() - i,
        {
            assert(self@.take(i as int + 1).drop_last() =~= self@.take(i as int));
            if self.addresses[i].address_type == address_type {
                let ghost before = found@.map_values(|a: String| a@);
                found.push(self.addresses[i].address.clone());
                assert(found@.map_values(|a: String| a@) =~= before.push(self@[i as int].address));
            }
            i += 1;
        }
        assert(self@.take(i as int) =~= self@);
        found
    }

    /// Whether the wallet holds a post-quantum address.
    pub fn has_pqc_addresses(&self) -> (found: bool)
        ensures
            found == exists|i: int|
                0 <= i < self@.len() && (#[trigger] self@[i]).address_type
                    == AddressType::PostQuantum,
    {
        let mut i: usize = 0;
        while i < self.addresses.len()
            invariant
                i <= self.addresses@.len(),
                forall|j: int|
                    0 <= j < i ==> (#[trigger] self@[j]).address_type != AddressType::PostQuantum,
            decreases self.addresses@.len() - i,
        {
            match self.addresses[i].address_type {
                AddressType::PostQuantum => {
                    assert(self@[i as int].address_type == AddressType::PostQuantum);
                    return true;
                },
                _ => {},
            }
            i += 1;
        }
        false
    }
    /// Adds the next `count` addresses of the receiving chain, each with
    /// its keys and its path, and counts them. Gives the addresses.
    /// Refused, with the wallet as it was, where the wallet has no
    /// hierarchy or cannot count that many more; where an index has no
    /// address, the addresses before it stay added and the chain stands
    /// at that index.
    pub fn generate_addresses(&mut self, count: u32) -> (out: Result<Vec<String>, QtcError>)
        ensures
            old(self).hd_wallet is None ==> out == Err::<Vec<String>, QtcError>(
                QtcError::Wallet(WalletReason::NotHierarchical),
            ) && *final(self) == *old(self),
            old(self).hd_wallet is Some && old(self).info.address_count + count > u32::MAX ==> out
                == Err::<Vec<String>, QtcError>(QtcError::Wallet(WalletReason::TooManyAddresses))
                && *final(self) == *old(self),
            old(self).hd_wallet is Some && old(self).info.address_count + count <= u32::MAX ==> {
                let hd = old(self).hd_wallet->0;
                let next = hd.next_external_index;
                &&& final(self).hd_wallet is Some
                &&& match first_where(
                    count as int,
                    generation_fails(hd.master_key@, hd.account_index, next),
                ) {
                    Some(i) => {
                        &&& out is Err
                        &&& Err::<Seq<char>, QtcError>(out->Err_0) == address_at(
                            hd.master_key@,
                            hd.account_index,
                            false,
                            (next + i) as u32,
                        )
                        &&& final(self)@ == generated(
                            old(self)@,
                            hd.master_key@,
                            hd.account_index,
                            next,
                            i as nat,
                        )
                        &&& hierarchy_moved(
                            hd,
                            final(self).hd_wallet->0,
                            next + i,
                            hd.next_internal_index as int,
                        )
                        &&& final(self).info == old(self).info
                    },
                    None => {
                        &&& out is Ok
                        &&& out->Ok_0@.len() == count
                        &&& forall|j: int|
                            0 <= j < count ==> Ok::<Seq<char>, QtcError>(
                                (#[trigger] out->Ok_0@[j])@,
                            ) == address_at(
                                hd.master_key@,
                                hd.account_index,
                                false,
                                (next + j) as u32,
                            )
                        &&& final(self)@ == generated(
                            old(self)@,
                            hd.master_key@,
                            hd.account_index,
                            next,
                            count as nat,
                        )
                        &&& hierarchy_moved(
                            hd,
                            final(self).hd_wallet->0,
                            next + count,
                            hd.next_internal_index as int,
                        )
                        &&& final(self).info == (WalletInfo {
                            address_count: (old(self).info.address_count + count) as u32,
                            ..old(self).info
                        })
                    },
                }
            },
            addresses_distinct(old(self)@) ==> addresses_distinct(final(self)@),
    {
        let mut hd = match self.hd_wallet.take() {
            None => {
                return Err(QtcError::Wallet(WalletReason::NotHierarchical));
            },
            Some(hd) => hd,
        };
        if count > u32::MAX - self.info.address_count {
            self.hd_wallet = Some(hd);
            return Err(QtcError::Wallet(WalletReason::TooManyAddresses));
        }
        let ghost before = old(self).hd_wallet->0;
        let ghost master = before.master_key@;
        let ghost account = before.account_index;
        let ghost next = before.next_external_index;
        let ghost fails = generation_fails(master, account, next);
        let mut new_addresses: Vec<String> = Vec::new();
        let mut i: u32 = 0;
        while i < count
            invariant
                i <= count,
                old(self).hd_wallet is Some,
                old(self).info.address_count + count <= u32::MAX,
                before == old(self).hd_wallet->0,
                master == before.master_key@,
                account == before.account_index,
                next == before.next_external_index,
                fails == generation_fails(master, account, next),
                hierarchy_moved(before, hd, next + i, before.next_internal_index as int),
                self@ == generated(old(self)@, master, account, next, i as nat),
                self.info == old(self).info,
                self.hd_wallet is None,
                addresses_distinct(old(self)@) ==> addresses_distinct(self@),
                forall|j: int| 0 <= j < i ==> !#[trigger] fails(j),
                new_addresses@.len() == i,
                forall|j: int|
                    0 <= j < i ==> Ok::<Seq<char>, QtcError>((#[trigger] new_addresses@[j])@)
                        == address_at(master, account, false, (next + j) as u32),
            decreases count - i,
        {
            let ghost at = hd.next_external_index;
            assert(at == (next + i) as u32);
            let (address, index) = match hd.get_next_address(false) {
                Err(e) => {
                    proof {
                        assert(fails(i as int));
                        lemma_first_where_is(count as int, fails, i as int);
                    }
                    self.hd_wallet = Some(hd);
                    return Err(e);
                },
                Ok(pair) => pair,
            };
            assert(!fails(i as int));
            let private_key = match hd.get_private_key_for_address(false, index) {
                Err(e) => {
                    self.hd_wallet = Some(hd);
                    return Err(e);
                },
                Ok(key) => key,
            };
            let public_key = match private_key.public_key() {
                Err(e) => {
                    self.hd_wallet = Some(hd);
                    return Err(e);
                },
                Ok(key) => key,
            };
            let entry = classic_address_entry(
                &private_key,
                &public_key,
                Some(path_string(false, index)),
                false,
            );
            assert(entry@ == derived_entry(master, account, false, index));
            self.insert_address(entry);
            new_addresses.push(address);
            i += 1;
        }
        proof {
            lemma_first_where_none(count as int, fails);
        }
        self.info.address_count = self.info.address_count + count;
        self.hd_wallet = Some(hd);
        Ok(new_addresses)
    }

    /// The address that takes change, for a wallet that may add one:
    /// with a hierarchy, the next address of the change chain, which is
    /// added with its keys and its path; without, the first address the
    /// wallet holds.
    pub fn get_change_address_mut(&mut self) -> (out: Result<String, QtcError>)
        ensures
            final(self).info == old(self).info,
            match old(self).hd_wallet {
                None => {
                    &&& *final(self) == *old(self)
                    &&& out is Ok <==> old(self)@.len() > 0
                    &&& out matches Ok(address) ==> address@ == old(self)@[0].address
                    &&& out matches Err(e) ==> e == QtcError::Wallet(WalletReason::NoAddresses)
                },
                Some(hd) => {
                    &&& final(self).hd_wallet is Some
                    &&& match address_at(
                        hd.master_key@,
                        hd.account_index,
                        true,
                        hd.next_internal_index,
                    ) {
                        Ok(address) => {
                            &&& out matches Ok(text) && text@ == address
                            &&& final(self)@ == with_entry(
                                old(self)@,
                                derived_entry(
                                    hd.master_key@,
                                    hd.account_index,
                                    true,
                                    hd.next_internal_index,
                                ),
                            )
                            &&& hierarchy_moved(
                                hd,
                                final(self).hd_wallet->0,
                                hd.next_external_index as int,
                                hd.next_internal_index + 1,
                            )
                        },
                        Err(e) => {
                            &&& out == Err::<String, QtcError>(e)
                            &&& final(self)@ == old(self)@
                            &&& hierarchy_moved(
                                hd,
                                final(self).hd_wallet->0,
                                hd.next_external_index as int,
                                hd.next_internal_index as int,
                            )
                        },
                    }
                },
            },
            addresses_distinct(old(self)@) ==> addresses_distinct(final(self)@),
    {
        let mut hd = match self.hd_wallet.take() {
            None => {
                return self.get_change_address();
            },
            Some(hd) => hd,
        };
        let (address, index) = match hd.get_next_address(true) {
            Err(e) => {
                self.hd_wallet = Some(hd);
                return Err(e);
            },
            Ok(pair) => pair,
        };
        let private_key = match hd.get_private_key_for_address(true, index) {
            Err(e) => {
                self.hd_wallet = Some(hd);
                return Err(e);
            },
            Ok(key) => key,
        };
        let public_key = match private_key.public_key() {
            Err(e) => {
                self.hd_wallet = Some(hd);
                return Err(e);
            },
            Ok(key) => key,
        };
        let entry = classic_address_entry(
            &private_key,
            &public_key,
            Some(path_string(true, index)),
            true,
        );
        self.insert_address(entry);
        self.hd_wallet = Some(hd);
        Ok(address)
    }
    /// The number of addresses that a wallet with a hierarchy starts
    /// with.
    pub const INITIAL_ADDRESSES: u32 = 10;

    /// A wallet over the hierarchy of a sentence under a passphrase, made
    /// now, with the first ten addresses of the receiving chain.
    pub fn new_hd(name: String, mnemonic: &Mnemonic, passphrase: &str) -> (out: Result<
        Self,
        QtcError,
    >)
        ensures
            match xpriv_master(bip39_seed(mnemonic@, passphrase@)) {
                None => out matches Err(e) && e == QtcError::Wallet(WalletReason::NoMasterKey),
                Some(master) => match first_where(10, generation_fails(master, 0, 0)) {
                    Some(i) => out is Err && Err::<Seq<char>, QtcError>(out->Err_0) == address_at(
                        master,
                        0,
                        false,
                        i as u32,
                    ),
                    None => {
                        &&& out is Ok
                        &&& out->Ok_0@ == generated(
                            Seq::<WalletAddressView>::empty(),
                            master,
                            0,
                            0,
                            10,
                        )
                        &&& addresses_distinct(out->Ok_0@)
                        &&& out->Ok_0.info.name == name
                        &&& out->Ok_0.info.wallet_type == WalletType::HD
                        &&& out->Ok_0.info.last_used == 0
                        &&& !out->Ok_0.info.is_encrypted
                        &&& out->Ok_0.info.balance == 0
                        &&& out->Ok_0.info.address_count == 10
                        &&& out->Ok_0.hd_wallet is Some
                        &&& out->Ok_0.hd_wallet->0.master_key@ == master
                        &&& out->Ok_0.hd_wallet->0.account_index == 0
                        &&& out->Ok_0.hd_wallet->0.next_external_index == 10
                        &&& out->Ok_0.hd_wallet->0.next_internal_index == 0
                    },
                },
            },
    {
        let hd_wallet = match HdWallet::new(mnemonic, passphrase) {
            Err(e) => {
                return Err(e);
            },
            Ok(hd) => hd,
        };
        let mut wallet = Wallet {
            info: WalletInfo {
                name,
                wallet_type: WalletType::HD,
                created_at: unix_time_now(),
                last_used: 0,
                is_encrypted: false,
                balance: 0,
                address_count: 0,
            },
            addresses: Vec::new(),
            hd_wallet: Some(hd_wallet),
        };
        assert(wallet@ =~= Seq::<WalletAddressView>::empty());
        match wallet.generate_addresses(Self::INITIAL_ADDRESSES) {
            Err(e) => Err(e),
            Ok(_) => Ok(wallet),
        }
    }

    /// A wallet over the hierarchy of an English sentence, given as
    /// text, under a passphrase.
    pub fn from_mnemonic_phrase(name: String, phrase: &str, passphrase: &str) -> (out: Result<
        Self,
        QtcError,
    >)
        ensures
            bip39_entropy(phrase@) is None ==> out == Err::<Self, QtcError>(
                QtcError::Wallet(WalletReason::InvalidPhrase),
            ),
            bip39_entropy(phrase@) matches Some(entropy) ==> match xpriv_master(
                bip39_seed(entropy, passphrase@),
            ) {
                None => out matches Err(e) && e == QtcError::Wallet(WalletReason::NoMasterKey),
                Some(master) => match first_where(10, generation_fails(master, 0, 0)) {
                    Some(i) => out is Err && Err::<Seq<char>, QtcError>(out->Err_0) == address_at(
                        master,
                        0,
                        false,
                        i as u32,
                    ),
                    None => {
                        &&& out is Ok
                        &&& out->Ok_0@ == generated(
                            Seq::<WalletAddressView>::empty(),
                            master,
                            0,
                            0,
                            10,
                        )
                        &&& out->Ok_0.info.name == name
                        &&& out->Ok_0.info.wallet_type == WalletType::HD
                        &&& out->Ok_0.info.address_count == 10
                        &&& out->Ok_0.hd_wallet is Some
                        &&& out->Ok_0.hd_wallet->0.master_key@ == master
                        &&& out->Ok_0.hd_wallet->0.next_external_index == 10
                    },
                },
            },
    {
        let mnemonic = match Mnemonic::from_phrase(phrase) {
            Err(e) => {
                return Err(e);
            },
            Ok(m) => m,
        };
        Self::new_hd(name, &mnemonic, passphrase)
    }

    /// The unspent outputs of a chain that the addresses of the wallet
    /// own, address by address.
    pub fn spendable_outputs(&self, chain: &Blockchain) -> (found: Vec<(Hash256, u32, u64)>)
        ensures
            utxo_refs_view(found@) == wallet_outputs(chain.utxos(), self@),
    {
        let mut found: Vec<(Hash256, u32, u64)> = Vec::new();
        let mut i: usize = 0;
        assert(self@.take(0) =~= Seq::<WalletAddressView>::empty());
        assert(utxo_refs_view(found@) =~= Seq::<(Seq<u8>, u32, u64)>::empty());
        while i < self.addresses.len()
            invariant
                i <= self.addresses@.len(),
                utxo_refs_view(found@) == wallet_outputs(chain.utxos(), self@.take(i as int)),
            decreases self.addresses@.len() - i,
        {
            assert(self@.take(i as int + 1).drop_last() =~= self@.take(i as int));
            let ghost before = found@;
            match chain.get_utxos(self.addresses[i].address.as_str()) {
                Ok(owned) => {
                    let mut owned = owned;
                    let ghost added = owned@;
                    found.append(&mut owned);
                    assert(utxo_refs_view(found@) =~= utxo_refs_view(before) + utxo_refs_view(
                        added,
                    ));
                },
                Err(_) => {},
            }
            i += 1;
        }
        assert(self@.take(i as int) =~= self@);
        found
    }

    /// The unsigned transaction that pays `amount` to an address from
    /// what the wallet owns on a chain, at a fee rate per 1000 bytes: it
    /// spends the largest outputs first, and pays the change, where it is
    /// more than dust, to the wallet's first address.
    pub fn create_transaction(
        &self,
        chain: &Blockchain,
        to_address: &str,
        amount: u64,
        fee_rate: u64,
    ) -> (out: Result<Transaction, QtcError>)
        ensures
            ({
                let at_hand = wallet_outputs(chain.utxos(), self@);
                let to_pay = payment(to_address@, amount);
                let needed = payment_needed(to_pay, fee_rate);
                &&& out is Ok <==> sum_values(at_hand) <= u64::MAX && needed <= sum_values(at_hand)
                &&& out matches Ok(tx) ==> exists|
                    selected: Seq<(Seq<u8>, u32, u64)>,
                    left: Seq<(Seq<u8>, u32, u64)>,
                |
                    #[trigger] is_largest_first_selection(at_hand, needed as u64, selected, left)
                        && tx@ == built_transaction(
                        selected,
                        to_pay,
                        fee_rate,
                        change_address_of(self@),
                    )
                &&& out matches Err(e) ==> e == if sum_values(at_hand) > u64::MAX || needed
                    > u64::MAX {
                    QtcError::Transaction(TxReason::ValueOverflow)
                } else {
                    QtcError::Transaction(
                        TxReason::InsufficientFunds {
                            required: needed as u64,
                            available: sum_values(at_hand) as u64,
                        },
                    )
                }
            }),
    {
        let candidates = self.spendable_outputs(chain);
        let change_address = if self.addresses.len() > 0 {
            self.addresses[0].address.clone()
        } else {
            String::new()
        };
        let mut builder = TransactionBuilder::new(candidates, change_address);
        let _ = builder.add_output(to_address, amount);
        builder.set_fee_rate(fee_rate);
        assert(builder.to_pay() =~= payment(to_address@, amount));
        builder.build()
    }

    /// Signs every input of a transaction with the first private key the
    /// wallet holds: the script of each input becomes the signature over
    /// the transaction's signature hash, the recovery id and the public
    /// key. A transaction without inputs, or a wallet without a private
    /// key, leaves the transaction as it is; so does a key that is
    /// refused.
    pub fn sign_transaction(&self, tx: &mut Transaction) -> (out: Result<(), QtcError>)
        ensures
            match signing_result(self@, old(tx)@) {
                Ok(signed) => out is Ok && final(tx)@ == signed,
                Err(e) => out == Err::<(), QtcError>(e) && final(tx)@ == old(tx)@,
            },
    {
        if tx.inputs.len() == 0 {
            return Ok(());
        }
        let ghost holds = has_private_key(self@);
        let mut at: usize = 0;
        while at < self.addresses.len() && self.addresses[at].private_key.is_none()
            invariant
                at <= self.addresses@.len(),
                holds == has_private_key(self@),
                forall|j: int| 0 <= j < at ==> !#[trigger] holds(j),
            decreases self.addresses@.len() - at,
        {
            assert(!holds(at as int));
            at += 1;
        }
        if at == self.addresses.len() {
            proof {
                lemma_first_where_none(self@.len() as int, holds);
            }
            return Ok(());
        }
        proof {
            assert(holds(at as int));
            lemma_first_where_is(self@.len() as int, holds, at as int);
        }
        let bytes = match &self.addresses[at].private_key {
            None => {
                return Ok(());
            },
            Some(bytes) => bytes,
        };
        let private_key = match PrivateKey::from_bytes(bytes.as_slice()) {
            Err(e) => {
                return Err(e);
            },
            Ok(key) => key,
        };
        let hash = tx.get_signature_hash(0);
        let signature = match private_key.sign(&hash) {
            Err(e) => {
                return Err(e);
            },
            Ok(signature) => signature,
        };
        let public_key = match private_key.public_key() {
            Err(e) => {
                return Err(e);
            },
            Ok(key) => key,
        };
        let mut script = signature.to_bytes();
        put_bytes(&mut script, public_key.to_bytes());
        assert(script@ =~= signing_script(private_key@, old(tx)@));
        let ghost goal = signed_with(old(tx)@, script@);
        let mut i: usize = 0;
        while i < tx.inputs.len()
            invariant
                i <= tx.inputs@.len(),
                tx.inputs@.len() == old(tx).inputs@.len(),
                tx@.version == old(tx)@.version,
                tx@.outputs == old(tx)@.outputs,
                tx@.lock_time == old(tx)@.lock_time,
                goal == signed_with(old(tx)@, script@),
                forall|j: int| 0 <= j < i ==> (#[trigger] tx@.inputs[j]) == goal.inputs[j],
                forall|j: int|
                    i <= j < tx.inputs@.len() ==> (#[trigger] tx@.inputs[j]) == old(tx)@.inputs[j],
            decreases tx.inputs@.len() - i,
        {
            let ghost before = tx@.inputs;
            let mut input = tx.inputs[i].clone();
            input.signature_script = script.clone();
            assert(tx.inputs@[i as int]@ == tx@.inputs[i as int]);
            assert(tx@.inputs[i as int] == old(tx)@.inputs[i as int]);
            assert(goal.inputs[i as int] == (TxInputView {
                signature_script: script@,
                ..old(tx)@.inputs[i as int]
            }));
            assert(input@ == goal.inputs[i as int]);
            tx.inputs.set(i, input);
            assert(tx@.inputs =~= before.update(i as int, goal.inputs[i as int]));
            i += 1;
        }
        assert(tx@.inputs =~= goal.inputs);
        Ok(())
    }

    /// A wallet of one post-quantum address with its private keys, made
    /// now.
    pub fn new_pqc(
        name: String,
        address: &PqcAddress,
        signing_private_key: Vec<u8>,
        encryption_private_key: Vec<u8>,
    ) -> (out: Result<Self, QtcError>)
        ensures
            out matches Ok(wallet) && {
                &&& wallet@ == seq![
                    pqc_entry(*address, signing_private_key@, encryption_private_key@),
                ]
                &&& wallet.info.name == name
                &&& wallet.info.wallet_type == WalletType::PostQuantum
                &&& wallet.info.last_used == 0
                &&& !wallet.info.is_encrypted
                &&& wallet.info.balance == 0
                &&& wallet.info.address_count == 1
                &&& wallet.hd_wallet is None
            },
    {
        let entry = pqc_address_entry(address, signing_private_key, encryption_private_key);
        let mut addresses: Vec<WalletAddress> = Vec::new();
        addresses.push(entry);
        let wallet = Wallet {
            info: WalletInfo {
                name,
                wallet_type: WalletType::PostQuantum,
                created_at: unix_time_now(),
                last_used: 0,
                is_encrypted: false,
                balance: 0,
                address_count: 1,
            },
            addresses,
            hd_wallet: None,
        };
        assert(wallet@ =~= seq![entry@]);
        Ok(wallet)
    }

    /// Adds a post-quantum address with its private keys and counts it.
    /// Gives the address. Refused, with the wallet as it was, where the
    /// wallet cannot count one more.
    pub fn generate_pqc_address(
        &mut self,
        address: &PqcAddress,
        signing_private_key: Vec<u8>,
        encryption_private_key: Vec<u8>,
    ) -> (out: Result<String, QtcError>)
        ensures
            final(self).hd_wallet == old(self).hd_wallet,
            out is Ok <==> old(self).info.address_count < u32::MAX,
            out matches Ok(text) ==> {
                &&& text@ == address.address@
                &&& final(self)@ == with_entry(
                    old(self)@,
                    pqc_entry(*address, signing_private_key@, encryption_private_key@),
                )
                &&& final(self).info == (WalletInfo {
                    address_count: (old(self).info.address_count + 1) as u32,
                    ..old(self).info
                })
            },
            out matches Err(e) ==> e == QtcError::Wallet(WalletReason::TooManyAddresses)
                && *final(self) == *old(self),
            addresses_distinct(old(self)@) ==> addresses_distinct(final(self)@),
    {
        if self.info.address_count == u32::MAX {
            return Err(QtcError::Wallet(WalletReason::TooManyAddresses));
        }
        let entry = pqc_address_entry(address, signing_private_key, encryption_private_key);
        self.insert_address(entry);
        self.info.address_count = self.info.address_count + 1;
        Ok(address.address.clone())
    }

    /// Whether `out` is the wallet of the one ordinary key that 32 drawn
    /// bytes give and of a post-quantum address with its private keys,
    /// made at `now`, or the refusal of those bytes.
    pub open spec fn is_hybrid_of(
        out: Result<Self, QtcError>,
        name: String,
        address: PqcAddress,
        signing_private_key: Seq<u8>,
        encryption_private_key: Seq<u8>,
        drawn: Seq<u8>,
        now: u64,
    ) -> bool {
        match drawn_key_pair(drawn) {
            Err(e) => out matches Err(refusal) && refusal == e,
            Ok(keys) => {
                &&& out is Ok
                &&& out->Ok_0@ == with_entry(
                    seq![classic_entry(keys.0, keys.1, None, false)],
                    pqc_entry(address, signing_private_key, encryption_private_key),
                )
                &&& out->Ok_0.info == (WalletInfo {
                    name,
                    wallet_type: WalletType::HybridClassicPqc,
                    created_at: now,
                    last_used: 0,
                    is_encrypted: false,
                    balance: 0,
                    address_count: 2,
                })
                &&& out->Ok_0.hd_wallet is None
            },
        }
    }

    /// A wallet of one ordinary key from the system's source of
    /// randomness and one post-quantum address with its private keys,
    /// made now: the 32 bytes drawn are the private key; where they are
    /// no key of the curve, or have no public key, they are refused.
    pub fn new_hybrid(
        name: String,
        address: &PqcAddress,
        signing_private_key: Vec<u8>,
        encryption_private_key: Vec<u8>,
    ) -> (out: Result<Self, QtcError>)
        ensures
            exists|drawn: Seq<u8>, now: u64|
                drawn.len() == 32 && #[trigger] Self::is_hybrid_of(
                    out,
                    name,
                    *address,
                    signing_private_key@,
                    encryption_private_key@,
                    drawn,
                    now,
                ),
            out matches Ok(wallet) ==> {
                &&& exists|secret: Seq<u8>|
                    #![trigger secp_public_key(secret)]
                    wallet@ == with_entry(
                        seq![classic_entry(secret, secp_public_key(secret), None, false)],
                        pqc_entry(*address, signing_private_key@, encryption_private_key@),
                    )
                &&& wallet.info.name == name
                &&& wallet.info.wallet_type == WalletType::HybridClassicPqc
                &&& wallet.info.last_used == 0
                &&& !wallet.info.is_encrypted
                &&& wallet.info.balance == 0
                &&& wallet.info.address_count == 2
                &&& wallet.hd_wallet is None
            },
    {
        let made = KeyPair::new();
        let ghost drawn = choose|drawn: Seq<u8>|
            drawn.len() == 32 && #[trigger] KeyPair::is_drawn(made, drawn);
        let keypair = match made {
            Err(e) => {
                let out = Err(e);
                assert(Self::is_hybrid_of(
                    out,
                    name,
                    *address,
                    signing_private_key@,
                    encryption_private_key@,
                    drawn,
                    0,
                ));
                return out;
            },
            Ok(pair) => pair,
        };
        let now = unix_time_now();
        let mut wallet = Self::with_keypair(name, &keypair, now);
        wallet.info.wallet_type = WalletType::HybridClassicPqc;
        wallet.info.address_count = 2;
        let entry = pqc_address_entry(address, signing_private_key, encryption_private_key);
        wallet.insert_address(entry);
        proof {
            let secret = keypair.private_key@;
            assert(keypair.public_key@ == secp_public_key(secret));
            assert(wallet@ == with_entry(
                seq![classic_entry(secret, secp_public_key(secret), None, false)],
                pqc_entry(*address, signing_private_key@, encryption_private_key@),
            ));
        }
        let out = Ok(wallet);
        assert(Self::is_hybrid_of(
            out,
            name,
            *address,
            signing_private_key@,
            encryption_private_key@,
            drawn,
            now,
        ));
        out
    }
}

} // verus!
