//! Errors: each names the rule that failed and where.

use vstd::prelude::*;

verus! {

/// Why a block was refused.
#[allow(inconsistent_fields)]
#[derive(Clone, Copy, Debug, PartialEq, Eq, Structural)]
pub enum BlockReason {
    /// The block holds no transaction.
    NoTransactions,
    /// The first transaction is no coinbase.
    FirstNotCoinbase,
    /// The transaction at `index`, which is not the first, is a coinbase.
    ExtraCoinbase { index: usize },
    /// The transaction at `index` has the hash of an earlier one.
    DuplicateTransaction { index: usize },
    /// The encoded block is larger than allowed.
    TooLarge { size: usize, max: usize },
    /// The encoded transaction at `index` is larger than allowed.
    TransactionTooLarge { index: usize, size: usize, max: usize },
    /// The header's merkle root is not that of the transactions.
    MerkleMismatch,
    /// The height is not the one after the tip's.
    BadHeight { expected: u64, got: u64 },
    /// The previous hash is not the tip.
    BadPreviousHash,
    /// The timestamp lies more than two hours after the reference time.
    TimestampTooFarInFuture,
    /// The timestamp is not after the median of the last eleven blocks.
    TimestampNotAfterMedian,
    /// The difficulty is not the required one.
    WrongDifficulty { expected: u32, got: u32 },
    /// The proof-of-work hash does not meet the header's difficulty.
    BadProofOfWork,
    /// The coinbase script is shorter than 2 or longer than 100 bytes.
    CoinbaseScriptSize,
    /// The coinbase has no output.
    CoinbaseNoOutputs,
    /// The coinbase output at `index` carries no value.
    CoinbaseZeroOutput { index: usize },
    /// The coinbase pays out more than the reward and the fees.
    CoinbaseExceedsReward,
    /// The transaction at `index` is invalid.
    InvalidTransaction { index: usize, reason: TxReason },
    /// In a chain of blocks, the block at `index` does not name the hash of
    /// the one before it.
    BrokenLink { index: usize },
}

/// Why a transaction was refused.
#[allow(inconsistent_fields)]
#[derive(Clone, Copy, Debug, PartialEq, Eq, Structural)]
pub enum TxReason {
    /// No inputs.
    NoInputs,
    /// No outputs.
    NoOutputs,
    /// A coinbase where an ordinary transaction is expected.
    UnexpectedCoinbase,
    /// The input at `index` names the same output as an earlier input.
    DuplicateInput { index: usize },
    /// The input at `index` names no unspent output.
    MissingUtxo { index: usize },
    /// The input at `index` spends a coinbase that has not matured.
    ImmatureCoinbase { index: usize },
    /// The output at `index` carries no value.
    ZeroOutput { index: usize },
    /// The output at `index` is below the dust threshold.
    DustOutput { index: usize },
    /// The outputs are worth more than the inputs.
    InputsBelowOutputs,
    /// The fee is below the minimum.
    FeeBelowMinimum { fee: u64, minimum: u64 },
    /// The fee is larger than the outputs together.
    ExcessiveFee,
    /// There is no input at `index`.
    InvalidInputIndex { index: usize },
    /// A sum of values does not fit in 64 bits.
    ValueOverflow,
    /// What is at hand is worth less than what is needed.
    InsufficientFunds { required: u64, available: u64 },
    /// The input at `index` carries no signature script.
    MissingSignature { index: usize },
}

/// Why a key, signature or address was refused.
#[derive(Clone, Copy, Debug, PartialEq, Eq, Structural)]
pub enum CryptoReason {
    /// A signature is neither 64 nor 65 bytes long.
    SignatureLength,
    /// The signature is not one the curve accepts.
    InvalidSignature,
    /// A public key is neither 33 nor 65 bytes long.
    PublicKeyLength,
    /// The bytes are no point on the curve.
    InvalidPublicKey,
    /// The address does not start with the network's tag.
    AddressPrefix,
    /// The address is no base-58 text.
    AddressEncoding,
    /// The decoded address is not 25 bytes long or has another version.
    AddressFormat,
    /// The checksum of the address does not match.
    AddressChecksum,
    /// A private key is not 32 bytes long.
    PrivateKeyLength,
    /// The bytes are no private key of the curve.
    InvalidPrivateKey,
    /// The text is no base-58 text.
    WifEncoding,
    /// The decoded text is not 37 bytes long or has another version.
    WifFormat,
    /// The checksum of the text does not match.
    WifChecksum,
    /// A recovery id above 3.
    InvalidRecoveryId,
    /// The signature recovers no key for the hash.
    RecoveryFailed,
}

/// Why the miner or its hasher refused.
#[derive(Clone, Copy, Debug, PartialEq, Eq, Structural)]
pub enum MiningReason {
    /// The hasher's cache holds no key yet.
    CacheNotInitialized,
    /// The text is no hexadecimal.
    InvalidHex,
    /// The text spells a hash of another length than 32 bytes.
    HashLength,
    /// The payout address is invalid.
    InvalidAddress,
}

/// Why the parameters of the monetary policy or of the difficulty were
/// refused.
#[derive(Clone, Copy, Debug, PartialEq, Eq, Structural)]
pub enum ConfigReason {
    /// The initial reward is zero.
    ZeroInitialReward,
    /// The halving interval is zero.
    ZeroHalvingInterval,
    /// The maximum supply is zero.
    ZeroMaxSupply,
    /// The dust threshold is zero.
    ZeroDustThreshold,
    /// The maximum supply is more than halving can ever issue.
    MaxSupplyUnreachable,
    /// A difficulty below the minimum.
    DifficultyBelowMinimum { difficulty: u32, minimum: u32 },
    /// A difficulty above the maximum.
    DifficultyAboveMaximum { difficulty: u32, maximum: u32 },
}

/// Why stored bytes were refused.
#[derive(Clone, Copy, Debug, PartialEq, Eq, Structural)]
pub enum StorageReason {
    /// A key of the unspent-output family is not 36 bytes long.
    OutPointKeyLength,
    /// A stored hash is not 32 bytes long.
    HashLength,
    /// The bytes are no canonical encoding.
    Malformed,
}

/// Why a group of signers was refused.
#[derive(Clone, Copy, Debug, PartialEq, Eq, Structural)]
pub enum MultisigReason {
    /// The threshold is zero or above the number of keys.
    InvalidThreshold,
    /// More than the allowed number of keys.
    TooManyKeys,
    /// A key index that the script does not have.
    InvalidKeyIndex,
    /// A signer index that the script does not have.
    InvalidSignerIndex,
    /// The signature does not verify under the signer's key.
    InvalidSignature,
    /// Fewer signatures than the threshold.
    NotEnoughSignatures { have: usize, need: u32 },
    /// Not exactly five keys.
    NeedFiveKeys,
    /// The bytes are no partially signed transaction.
    InvalidPsbt,
    /// Partially signed transactions cannot be read.
    PsbtNotSupported,
    /// The private key is not that of the signer's public key.
    KeyMismatch,
    /// The text is not framed by `multi(` and `)`.
    InvalidDescriptor,
    /// The text names no key.
    InvalidDescriptorFormat,
    /// The threshold in the text is no number.
    InvalidRequiredCount,
    /// A key in the text is not hexadecimal.
    InvalidKeyHex,
}

/// Why a mnemonic sentence or a key of the hierarchy was refused.
#[derive(Clone, Copy, Debug, PartialEq, Eq, Structural)]
pub enum WalletReason {
    /// A sentence has 12, 15, 18, 21 or 24 words.
    InvalidWordCount,
    /// The text is no mnemonic sentence.
    InvalidPhrase,
    /// The seed gives no master key.
    NoMasterKey,
    /// The stored bytes are no extended private key.
    InvalidMasterKey,
    /// An account or an index of 2^31 or more.
    InvalidChildNumber,
    /// The key has no child of that number.
    NoChildKey,
    /// More entropy than one byte of checksum covers.
    EntropyTooLong,
    /// The wallet has no hierarchy of keys.
    NotHierarchical,
    /// The wallet does not hold the address.
    AddressNotFound,
    /// The wallet holds no private key for the address.
    NoPrivateKey,
    /// The wallet holds no address at all.
    NoAddresses,
    /// More addresses than the wallet can count.
    TooManyAddresses,
}

/// An error of the library.
#[derive(Clone, Copy, Debug, PartialEq, Eq, Structural)]
pub enum QtcError {
    /// An invalid block.
    Consensus(BlockReason),
    /// An invalid transaction.
    Transaction(TxReason),
    /// An invalid key, signature or address.
    Crypto(CryptoReason),
    /// The miner or its hasher refused.
    Mining(MiningReason),
    /// Invalid parameters.
    Config(ConfigReason),
    /// Stored bytes were refused.
    Storage(StorageReason),
    /// A group of signers was refused.
    Multisig(MultisigReason),
    /// A mnemonic sentence or a key of the hierarchy was refused.
    Wallet(WalletReason),
}

} // verus!
