//! Building a transaction from outputs at hand: what is to be paid, the
//! outputs that pay for it, and the change.

use crate::chain::transaction::{
    clone_outputs, lemma_outputs_step, outputs_view, script_for_address,
    sum_output_values, OutPoint, OutPointView, Transaction, TransactionView, TxInputView, TxOutput, TxOutputView, FINAL_SEQUENCE,
};
use crate::chain::utxo::{
    is_largest_first_selection, select_largest_first, sum_values,
    utxo_refs_view,
};
use crate::consensus::monetary::DEFAULT_DUST_THRESHOLD;
use crate::crypto::hash::Hash256;
use crate::error::{QtcError, TxReason};
use vstd::prelude::*;

verus! {

/// The fee rate that a builder starts with, per 1000 bytes.
pub const DEFAULT_FEE_RATE: u64 = 1000;

/// The estimated size of a transaction without outputs: 10 bytes for the
/// frame and 148 for each of two inputs.
pub const BASE_ESTIMATED_SIZE: usize = 306;

/// The estimated size of a transaction with the given outputs: the base
/// and for every output 9 bytes and its script.
pub open spec fn estimated_size(outputs: Seq<TxOutputView>) -> int
    decreases outputs.len(),
{
    if outputs.len() == 0 {
        BASE_ESTIMATED_SIZE as int
    } else {
        estimated_size(outputs.drop_last()) + 9 + outputs.last().script_pubkey.len()
    }
}

/// The fee for a size at a rate per 1000 bytes, rounded down.
pub open spec fn fee_for(fee_rate: u64, size: int) -> int {
    fee_rate * size / 1000
}

/// The inputs that spend the selected outputs, unsigned.
pub open spec fn inputs_for(selected: Seq<(Seq<u8>, u32, u64)>) -> Seq<TxInputView> {
    selected.map_values(
        |s: (Seq<u8>, u32, u64)|
            TxInputView {
                previous_output: OutPointView { txid: s.0, vout: s.1 },
                signature_script: Seq::empty(),
                sequence: FINAL_SEQUENCE,
            },
    )
}

/// The transaction that spends `selected` to `outputs`: version 1, no lock
/// time, and the change, where it is more than dust, paid to the change
/// address in a last output. The change is what the selected are worth
/// over the outputs and the fee for the size of the transaction without
/// the change output.
pub open spec fn built_transaction(
    selected: Seq<(Seq<u8>, u32, u64)>,
    outputs: Seq<TxOutputView>,
    fee_rate: u64,
    change_address: Seq<char>,
) -> TransactionView {
    let plain = TransactionView { version: 1, inputs: inputs_for(selected), outputs, lock_time: 0 };
    let spent = sum_output_values(outputs) + fee_for(fee_rate, plain.encoding().len() as int);
    let change = sum_values(selected) - spent;
    if change > DEFAULT_DUST_THRESHOLD {
        TransactionView {
            outputs: outputs.push(
                TxOutputView {
                    value: change as u64,
                    script_pubkey: script_for_address(change_address),
                },
            ),
            ..plain
        }
    } else {
        plain
    }
}

/// Collects outputs to pay and builds the transaction that pays them from
/// the outputs at hand.
#[derive(Debug)]
pub struct TransactionBuilder {
    candidates: Vec<(Hash256, u32, u64)>,
    change_address: String,
    outputs: Vec<TxOutput>,
    fee_rate: u64,
    estimated_size: usize,
}

impl TransactionBuilder {
    /// The outputs at hand.
    pub closed spec fn at_hand(&self) -> Seq<(Seq<u8>, u32, u64)> {
        utxo_refs_view(self.candidates@)
    }

    /// The outputs to pay.
    pub closed spec fn to_pay(&self) -> Seq<TxOutputView> {
        outputs_view(self.outputs@)
    }

    /// The fee rate per 1000 bytes.
    pub closed spec fn rate(&self) -> u64 {
        self.fee_rate
    }

    /// The address that the change is paid to.
    pub closed spec fn change_to(&self) -> Seq<char> {
        self.change_address@
    }

    /// The estimated size as it is kept.
    pub closed spec fn size_estimate(&self) -> usize {
        self.estimated_size
    }

    /// What is needed: the outputs and the fee for the estimated size.
    pub open spec fn needed(&self) -> int {
        sum_output_values(self.to_pay()) + fee_for(self.rate(), self.size_estimate() as int)
    }

    /// A builder over the outputs at hand, with nothing to pay yet and the
    /// default fee rate.
    pub fn new(candidates: Vec<(Hash256, u32, u64)>, change_address: String) -> (builder: Self)
        ensures
            builder.at_hand() == utxo_refs_view(candidates@),
            builder.change_to() == change_address@,
            builder.to_pay() == Seq::<TxOutputView>::empty(),
            builder.rate() == DEFAULT_FEE_RATE,
            builder.size_estimate() == 0,
    {
        let builder = TransactionBuilder {
            candidates,
            change_address,
            outputs: Vec::new(),
            fee_rate: DEFAULT_FEE_RATE,
            estimated_size: 0,
        };
        assert(builder.to_pay() =~= Seq::<TxOutputView>::empty());
        builder
    }

    /// Adds an output that pays `amount` to `address` and estimates the
    /// size anew, held at `usize::MAX`.
    pub fn add_output(&mut self, address: &str, amount: u64) -> (out: Result<(), QtcError>)
        ensures
            out is Ok,
            final(self).to_pay() == old(self).to_pay().push(
                TxOutputView { value: amount, script_pubkey: script_for_address(address@) },
            ),
            final(self).size_estimate() == if estimated_size(final(self).to_pay()) <= usize::MAX {
                estimated_size(final(self).to_pay())
            } else {
                usize::MAX as int
            },
            final(self).at_hand() == old(self).at_hand(),
            final(self).rate() == old(self).rate(),
            final(self).change_to() == old(self).change_to(),
    {
        let script_pubkey = Transaction::address_to_script_pubkey(address);
        let output = TxOutput { value: amount, script_pubkey };
        self.outputs.push(output);
        assert(self.to_pay() =~= old(self).to_pay().push(output@));
        self.update_estimated_size();
        Ok(())
    }

    pub fn set_fee_rate(&mut self, fee_rate: u64)
        ensures
            final(self).rate() == fee_rate,
            final(self).to_pay() == old(self).to_pay(),
            final(self).at_hand() == old(self).at_hand(),
            final(self).change_to() == old(self).change_to(),
            final(self).size_estimate() == old(self).size_estimate(),
    {
        self.fee_rate = fee_rate;
    }

    /// Estimates the size for the outputs to pay.
    fn update_estimated_size(&mut self)
        ensures
            final(self).size_estimate() == if estimated_size(old(self).to_pay()) <= usize::MAX {
                estimated_size(old(self).to_pay())
            } else {
                usize::MAX as int
            },
            final(self).to_pay() == old(self).to_pay(),
            final(self).at_hand() == old(self).at_hand(),
            final(self).rate() == old(self).rate(),
            final(self).change_to() == old(self).change_to(),
    {
        let ghost outputs = self.to_pay();
        // The size is counted up to a cap above every `usize`.
        let cap: u128 = 0x1_0000_0000_0000_0000;
        let mut size: u128 = BASE_ESTIMATED_SIZE as u128;
        let mut i: usize = 0;
        while i < self.outputs.len()
            invariant
                i <= self.outputs@.len(),
                cap == 0x1_0000_0000_0000_0000,
                outputs == outputs_view(self.outputs@),
                size == if estimated_size(outputs.take(i as int)) <= cap {
                    estimated_size(outputs.take(i as int))
                } else {
                    cap as int
                },
                estimated_size(outputs.take(i as int)) >= 0,
            decreases self.outputs@.len() - i,
        {
            proof {
                assert(outputs.take(i as int + 1).drop_last() =~= outputs.take(i as int));
            }
            let next: u128 = size + 9 + self.outputs[i].script_pubkey.len() as u128;
            size = if next > cap {
                cap
            } else {
                next
            };
            i += 1;
        }
        assert(outputs.take(i as int) =~= outputs);
        self.estimated_size = if size > usize::MAX as u128 {
            usize::MAX
        } else {
            size as usize
        };
    }

    /// The unsigned transaction that pays the outputs: it spends the
    /// largest outputs at hand first until they are worth the outputs and
    /// the fee for the estimated size, and pays the change, where it is
    /// more than dust, to the change address. Refused where there is
    /// nothing to pay, where what is at hand is worth less than what is
    /// needed, or where a sum does not fit in 64 bits.
    pub fn build(&self) -> (out: Result<Transaction, QtcError>)
        ensures
            out is Ok <==> self.to_pay().len() > 0 && sum_values(self.at_hand()) <= u64::MAX
                && self.needed() <= sum_values(self.at_hand()),
            out matches Ok(tx) ==> exists|
                selected: Seq<(Seq<u8>, u32, u64)>,
                left: Seq<(Seq<u8>, u32, u64)>,
            |
                #[trigger] is_largest_first_selection(
                    self.at_hand(),
                    self.needed() as u64,
                    selected,
                    left,
                ) && tx@ == built_transaction(
                    selected,
                    self.to_pay(),
                    self.rate(),
                    self.change_to(),
                ),
            out matches Err(e) ==> e == if self.to_pay().len() == 0 {
                QtcError::Transaction(TxReason::NoOutputs)
            } else if sum_values(self.at_hand()) > u64::MAX || self.needed() > u64::MAX {
                QtcError::Transaction(TxReason::ValueOverflow)
            } else {
                QtcError::Transaction(
                    TxReason::InsufficientFunds {
                        required: self.needed() as u64,
                        available: sum_values(self.at_hand()) as u64,
                    },
                )
            },
    {
        if self.outputs.len() == 0 {
            return Err(QtcError::Transaction(TxReason::NoOutputs));
        }
        let total_available = match sum_of_values(&self.candidates) {
            None => {
                return Err(QtcError::Transaction(TxReason::ValueOverflow));
            },
            Some(v) => v,
        };
        let total_output_value = sum_of_outputs(&self.outputs);
        proof {
            assert(self.fee_rate * self.estimated_size <= 0xFFFF_FFFF_FFFF_FFFF
                * 0xFFFF_FFFF_FFFF_FFFF) by (nonlinear_arith)
                requires
                    0 <= self.fee_rate <= 0xFFFF_FFFF_FFFF_FFFF,
                    0 <= self.estimated_size <= 0xFFFF_FFFF_FFFF_FFFF,
            ;
            assert(self.fee_rate * self.estimated_size >= 0) by (nonlinear_arith)
                requires
                    0 <= self.fee_rate,
                    0 <= self.estimated_size,
            ;
        }
        let estimated_fee: u128 = (self.fee_rate as u128) * (self.estimated_size as u128) / 1000;
        if total_output_value > u64::MAX as u128 || total_output_value + estimated_fee
            > u64::MAX as u128 {
            return Err(QtcError::Transaction(TxReason::ValueOverflow));
        }
        let total_needed: u64 = (total_output_value + estimated_fee) as u64;
        if total_available < total_needed {
            return Err(
                QtcError::Transaction(
                    TxReason::InsufficientFunds {
                        required: total_needed,
                        available: total_available,
                    },
                ),
            );
        }
        let (selected_value, selected) = match select_largest_first(
            clone_refs(&self.candidates),
            total_needed,
        ) {
            Err(e) => {
                return Err(e);
            },
            Ok(found) => found,
        };
        let ghost chosen = utxo_refs_view(selected@);
        let mut tx = Transaction::new();
        let mut i: usize = 0;
        assert(tx@.inputs =~= inputs_for(chosen.take(0)));
        while i < selected.len()
            invariant
                i <= selected@.len(),
                chosen == utxo_refs_view(selected@),
                tx@ == (TransactionView {
                    version: 1,
                    inputs: inputs_for(chosen.take(i as int)),
                    outputs: Seq::empty(),
                    lock_time: 0,
                }),
            decreases selected@.len() - i,
        {
            let ghost before = tx@.inputs;
            tx.add_input(OutPoint::new(selected[i].0, selected[i].1), Vec::new());
            assert(tx@.inputs =~= inputs_for(chosen.take(i as int + 1)));
            i += 1;
        }
        assert(chosen.take(i as int) =~= chosen);
        tx.outputs = clone_outputs(&self.outputs);
        let size = tx.size();
        proof {
            assert(self.fee_rate * size <= 0xFFFF_FFFF_FFFF_FFFF * 0xFFFF_FFFF_FFFF_FFFF)
                by (nonlinear_arith)
                requires
                    0 <= self.fee_rate <= 0xFFFF_FFFF_FFFF_FFFF,
                    0 <= size <= 0xFFFF_FFFF_FFFF_FFFF,
            ;
            assert(self.fee_rate * size >= 0) by (nonlinear_arith)
                requires
                    0 <= self.fee_rate,
                    0 <= size,
            ;
        }
        let actual_fee: u128 = (self.fee_rate as u128) * (size as u128) / 1000;
        let spent: u128 = total_output_value + actual_fee;
        if (selected_value as u128) > spent && (selected_value as u128) - spent
            > DEFAULT_DUST_THRESHOLD as u128 {
            let change_amount: u64 = ((selected_value as u128) - spent) as u64;
            tx.add_output(change_amount, self.change_address.as_str());
        }
        Ok(tx)
    }
}

/// A copy of a vector of outpoint-and-value triples.
pub fn clone_refs(refs: &Vec<(Hash256, u32, u64)>) -> (copy: Vec<(Hash256, u32, u64)>)
    ensures
        utxo_refs_view(copy@) == utxo_refs_view(refs@),
{
    let mut copy: Vec<(Hash256, u32, u64)> = Vec::new();
    let mut i: usize = 0;
    while i < refs.len()
        invariant
            i <= refs@.len(),
            copy@.len() == i,
            forall|j: int| 0 <= j < i ==> copy@[j] == refs@[j],
        decreases refs@.len() - i,
    {
        copy.push(refs[i]);
        i += 1;
    }
    assert(utxo_refs_view(copy@) =~= utxo_refs_view(refs@));
    copy
}

/// The sum of the values of outpoint-and-value triples, or nothing where
/// it does not fit in 64 bits.
pub fn sum_of_values(refs: &Vec<(Hash256, u32, u64)>) -> (sum: Option<u64>)
    ensures
        sum is Some <==> sum_values(utxo_refs_view(refs@)) <= u64::MAX,
        sum matches Some(v) ==> v == sum_values(utxo_refs_view(refs@)),
{
    let ghost all = utxo_refs_view(refs@);
    let mut total: u128 = 0;
    let mut i: usize = 0;
    while i < refs.len()
        invariant
            i <= refs@.len(),
            all == utxo_refs_view(refs@),
            total == sum_values(all.take(i as int)),
            total <= i * 0xFFFF_FFFF_FFFF_FFFF,
        decreases refs@.len() - i,
    {
        proof {
            assert(all.take(i as int + 1).drop_last() =~= all.take(i as int));
        }
        total = total + refs[i].2 as u128;
        i += 1;
    }
    assert(all.take(i as int) =~= all);
    if total > u64::MAX as u128 {
        None
    } else {
        Some(total as u64)
    }
}

/// The sum of the values of outputs.
pub fn sum_of_outputs(outputs: &Vec<TxOutput>) -> (sum: u128)
    ensures
        sum == sum_output_values(outputs_view(outputs@)),
{
    let ghost all = outputs_view(outputs@);
    let mut total: u128 = 0;
    let mut i: usize = 0;
    while i < outputs.len()
        invariant
            i <= outputs@.len(),
            all == outputs_view(outputs@),
            total == sum_output_values(all.take(i as int)),
            total <= i * 0xFFFF_FFFF_FFFF_FFFF,
        decreases outputs@.len() - i,
    {
        proof {
            lemma_outputs_step(all, i as int);
        }
        total = total + outputs[i].value as u128;
        i += 1;
    }
    assert(all.take(i as int) =~= all);
    total
}

} // verus!
