//! SLP classification: how a transaction's node-side SLP annotation and its
//! token sums decide the stored [`TxMetaVariant`].
//!
//! The decision table:
//! - no SLP info: sats-only;
//! - judged invalid with zero token input: sats-only (nothing was burned);
//! - judged invalid with positive token input: an invalid-SLP burn;
//! - valid but no SLP action: sats-only;
//! - valid but a burn / parse error / unsupported version: an invalid-SLP burn;
//! - valid with one of the eight supported actions: a token transaction.

use vstd::prelude::*;

use crate::chain::{Transaction, TxInput, TxOutput, SlpTransactionInfo, SlpTxAction, SlpValidity};
use crate::records::{SlpAction, TxMetaVariant};

verus! {

/// Addition that sticks at the top of the `u64` range.
pub open spec fn sat_add_u64(a: u64, b: u64) -> u64 {
    if a + b > u64::MAX {
        u64::MAX
    } else {
        (a + b) as u64
    }
}

pub open spec fn spec_input_token_amount(i: TxInput) -> u64 {
    match i.slp_token {
        Some(t) => t.amount,
        None => 0,
    }
}

pub open spec fn spec_output_token_amount(o: TxOutput) -> u64 {
    match o.slp_token {
        Some(t) => t.amount,
        None => 0,
    }
}

/// Total token amount over the inputs, saturating.
pub open spec fn spec_token_input_sum(s: Seq<TxInput>) -> u64
    decreases s.len(),
{
    if s.len() == 0 {
        0
    } else {
        sat_add_u64(spec_token_input_sum(s.drop_last()), spec_input_token_amount(s.last()))
    }
}

/// Total token amount over the outputs, saturating.
pub open spec fn spec_token_output_sum(s: Seq<TxOutput>) -> u64
    decreases s.len(),
{
    if s.len() == 0 {
        0
    } else {
        sat_add_u64(spec_token_output_sum(s.drop_last()), spec_output_token_amount(s.last()))
    }
}

pub fn token_input_sum(inputs: &Vec<TxInput>) -> (r: u64)
    ensures
        r == spec_token_input_sum(inputs@),
{
    let n: usize = inputs.len();
    let mut sum: u64 = 0;
    let mut i: usize = 0;
    while i < n
        invariant
            0 <= i <= n,
            n == inputs@.len(),
            sum == spec_token_input_sum(inputs@.subrange(0, i as int)),
        decreases n - i,
    {
        let amount: u64 = match &inputs[i].slp_token {
            Some(t) => t.amount,
            None => 0,
        };
        proof {
            assert(inputs@.subrange(0, i + 1).drop_last() =~= inputs@.subrange(0, i as int));
            assert(inputs@.subrange(0, i + 1).last() == inputs@[i as int]);
        }
        if sum > u64::MAX - amount {
            sum = u64::MAX;
        } else {
            sum = sum + amount;
        }
        i = i + 1;
    }
    proof {
        assert(inputs@.subrange(0, n as int) =~= inputs@);
    }
    sum
}

pub fn token_output_sum(outputs: &Vec<TxOutput>) -> (r: u64)
    ensures
        r == spec_token_output_sum(outputs@),
{
    let n: usize = outputs.len();
    let mut sum: u64 = 0;
    let mut i: usize = 0;
    while i < n
        invariant
            0 <= i <= n,
            n == outputs@.len(),
            sum == spec_token_output_sum(outputs@.subrange(0, i as int)),
        decreases n - i,
    {
        let amount: u64 = match &outputs[i].slp_token {
            Some(t) => t.amount,
            None => 0,
        };
        proof {
            assert(outputs@.subrange(0, i + 1).drop_last() =~= outputs@.subrange(0, i as int));
            assert(outputs@.subrange(0, i + 1).last() == outputs@[i as int]);
        }
        if sum > u64::MAX - amount {
            sum = u64::MAX;
        } else {
            sum = sum + amount;
        }
        i = i + 1;
    }
    proof {
        assert(outputs@.subrange(0, n as int) =~= outputs@);
    }
    sum
}

/// The supported actions and the stored action they map to.
pub open spec fn spec_supported_action(a: SlpTxAction) -> Option<SlpAction> {
    match a {
        SlpTxAction::SlpV1Genesis => Some(SlpAction::SlpV1Genesis),
        SlpTxAction::SlpV1Mint => Some(SlpAction::SlpV1Mint),
        SlpTxAction::SlpV1Send => Some(SlpAction::SlpV1Send),
        SlpTxAction::SlpV1Nft1GroupGenesis => Some(SlpAction::SlpV1Nft1GroupGenesis),
        SlpTxAction::SlpV1Nft1GroupMint => Some(SlpAction::SlpV1Nft1GroupMint),
        SlpTxAction::SlpV1Nft1GroupSend => Some(SlpAction::SlpV1Nft1GroupSend),
        SlpTxAction::SlpV1Nft1UniqueChildGenesis => Some(SlpAction::SlpV1Nft1UniqueChildGenesis),
        SlpTxAction::SlpV1Nft1UniqueChildSend => Some(SlpAction::SlpV1Nft1UniqueChildSend),
        _ => None,
    }
}

/// The classification relation: `r` is the variant the decision table picks
/// for this SLP annotation and these token sums. Byte-string fields are
/// pinned by content.
pub open spec fn classified_variant(
    slp: Option<SlpTransactionInfo>,
    in_sum: u64,
    out_sum: u64,
    r: TxMetaVariant,
) -> bool {
    match slp {
        None => r == TxMetaVariant::SatsOnly,
        Some(info) => {
            if info.validity_judgement == SlpValidity::UnknownOrInvalid {
                if in_sum == 0 {
                    r == TxMetaVariant::SatsOnly
                } else {
                    r matches TxMetaVariant::InvalidSlp { token_id, token_input } && token_id@
                        == info.token_id@ && token_input == in_sum
                }
            } else {
                match spec_supported_action(info.slp_action) {
                    Some(action) => r == (TxMetaVariant::Slp {
                        action,
                        token_input: in_sum,
                        token_output: out_sum,
                        token_id: r->Slp_token_id,
                    }) && r->Slp_token_id@ == info.token_id@,
                    None => {
                        if info.slp_action == SlpTxAction::NonSlp {
                            r == TxMetaVariant::SatsOnly
                        } else {
                            r matches TxMetaVariant::InvalidSlp { token_id, token_input }
                                && token_id@ == info.token_id@ && token_input == in_sum
                        }
                    },
                }
            }
        },
    }
}

/// A transaction is classifiable if a valid supported action carries a
/// 32-byte token id (anything else would be a malformed node answer).
pub open spec fn classifiable(tx: Transaction) -> bool {
    match tx.slp_transaction_info {
        Some(info) => {
            &&& info.token_id@.len() <= u32::MAX
            &&& (info.validity_judgement == SlpValidity::Valid && spec_supported_action(
                info.slp_action,
            ) is Some) ==> info.token_id@.len() == 32
        },
        None => true,
    }
}

/// Pick the stored variant for a transaction per the decision table.
pub fn tx_meta_variant(tx: &Transaction) -> (r: TxMetaVariant)
    requires
        classifiable(*tx),
    ensures
        r.wf(),
        classified_variant(
            tx.slp_transaction_info,
            spec_token_input_sum(tx.inputs@),
            spec_token_output_sum(tx.outputs@),
            r,
        ),
{
    match &tx.slp_transaction_info {
        None => TxMetaVariant::SatsOnly,
        Some(info) => {
            let input_sum = token_input_sum(&tx.inputs);
            let output_sum = token_output_sum(&tx.outputs);
            if info.validity_judgement == SlpValidity::UnknownOrInvalid {
                if input_sum == 0 {
                    return TxMetaVariant::SatsOnly;
                }
                return TxMetaVariant::InvalidSlp {
                    token_id: crate::store::clone_bytes(&info.token_id),
                    token_input: input_sum,
                };
            }
            let action: SlpAction = match info.slp_action {
                SlpTxAction::SlpV1Genesis => SlpAction::SlpV1Genesis,
                SlpTxAction::SlpV1Mint => SlpAction::SlpV1Mint,
                SlpTxAction::SlpV1Send => SlpAction::SlpV1Send,
                SlpTxAction::SlpV1Nft1GroupGenesis => SlpAction::SlpV1Nft1GroupGenesis,
                SlpTxAction::SlpV1Nft1GroupMint => SlpAction::SlpV1Nft1GroupMint,
                SlpTxAction::SlpV1Nft1GroupSend => SlpAction::SlpV1Nft1GroupSend,
                SlpTxAction::SlpV1Nft1UniqueChildGenesis => SlpAction::SlpV1Nft1UniqueChildGenesis,
                SlpTxAction::SlpV1Nft1UniqueChildSend => SlpAction::SlpV1Nft1UniqueChildSend,
                SlpTxAction::NonSlp => {
                    return TxMetaVariant::SatsOnly;
                },
                _ => {
                    return TxMetaVariant::InvalidSlp {
                        token_id: crate::store::clone_bytes(&info.token_id),
                        token_input: input_sum,
                    };
                },
            };
            let token_id: [u8; 32] = crate::keys::read_hash32(info.token_id.as_slice(), 0);
            proof {
                assert(token_id@ =~= info.token_id@);
            }
            TxMetaVariant::Slp {
                action,
                token_input: input_sum,
                token_output: output_sum,
                token_id,
            }
        },
    }
}

/// The decision table is a pure function of the SLP annotation and the token
/// sums: any two classifications of the same data agree.
pub proof fn lemma_classification_deterministic(
    slp: Option<SlpTransactionInfo>,
    in_sum: u64,
    out_sum: u64,
    r1: TxMetaVariant,
    r2: TxMetaVariant,
)
    requires
        classified_variant(slp, in_sum, out_sum, r1),
        classified_variant(slp, in_sum, out_sum, r2),
    ensures
        crate::records::variant_eq_view(r1, r2),
{
    broadcast use vstd::array::axiom_array_ext_equal;

    match slp {
        None => {
            assert(r1 == TxMetaVariant::SatsOnly && r2 == TxMetaVariant::SatsOnly);
            assert(crate::records::variant_eq_view(r1, r2));
        },
        Some(info) => {
            if info.validity_judgement == SlpValidity::UnknownOrInvalid {
                if in_sum == 0 {
                    assert(crate::records::variant_eq_view(r1, r2));
                } else {
                    assert(r1 is InvalidSlp && r2 is InvalidSlp);
                    assert(crate::records::variant_eq_view(r1, r2));
                }
            } else {
                match spec_supported_action(info.slp_action) {
                    Some(action) => {
                        assert(r1->Slp_token_id@ =~= r2->Slp_token_id@);
                        assert(r1->Slp_token_id == r2->Slp_token_id);
                        assert(crate::records::variant_eq_view(r1, r2));
                    },
                    None => {
                        assert(crate::records::variant_eq_view(r1, r2));
                    },
                }
            }
        },
    }
}

} // verus!
