//! The byte codec of confirmed transactions.
//!
//! A confirmed transaction is framed as a variant byte, a little-endian index,
//! the transaction identifier, and the variant's payload: a two-byte count of
//! finalize operations followed by the operations for the accepted variants,
//! or the rejected payload. Decoding accepts exactly the canonical encodings:
//! whatever decodes re-encodes to the very same bytes.

use vstd::prelude::*;

use crate::rounds::{spec_u64_le, spec_u64_le_byte, u64_le_bytes};

verus! {

/// A transaction, carried by its identifier.
#[derive(Clone, Copy, Debug, PartialEq, Eq, Hash, Structural)]
pub struct Transaction {
    /// The transaction identifier.
    pub id: u64,
}

/// One finalize operation, carried by its encoded word.
#[derive(Clone, Copy, Debug, PartialEq, Eq, Hash, Structural)]
pub struct FinalizeOperation {
    /// The operation's encoded word.
    pub op: u64,
}

/// A rejected deployment, carried by its edition word.
#[derive(Clone, Copy, Debug, PartialEq, Eq, Hash, Structural)]
pub struct Deployment {
    /// The deployment's edition word.
    pub edition: u64,
}

/// A rejected execution, carried by its state root word.
#[derive(Clone, Copy, Debug, PartialEq, Eq, Hash, Structural)]
pub struct Execution {
    /// The execution's state root word.
    pub root: u64,
}

/// A transaction confirmed in a block.
#[derive(Clone, Debug, PartialEq, Eq)]
pub enum ConfirmedTransaction {
    /// An accepted deployment: index, transaction, finalize operations.
    AcceptedDeploy(u32, Transaction, Vec<FinalizeOperation>),
    /// An accepted execution: index, transaction, finalize operations.
    AcceptedExecute(u32, Transaction, Vec<FinalizeOperation>),
    /// A rejected deployment: index, transaction, rejected payload.
    RejectedDeploy(u32, Transaction, Deployment),
    /// A rejected execution: index, transaction, rejected payload.
    RejectedExecute(u32, Transaction, Execution),
}

/// What decoding can fail with.
#[derive(Clone, Copy, Debug, PartialEq, Eq, Structural)]
pub enum CodecError {
    /// The bytes end before the frame does.
    UnexpectedEnd,
    /// The variant byte names no variant.
    InvalidVariant(u8),
    /// More finalize operations than the two-byte count can carry.
    TooManyOperations,
    /// The bytes are not the canonical encoding of any transaction.
    NonCanonical,
}

/// The little-endian bytes of a 32-bit word, as a sequence.
pub open spec fn spec_u32_le(v: u32) -> Seq<u8> {
    Seq::new(4, |i: int| spec_u64_le_byte(v as u64, i))
}

/// The little-endian bytes of a 16-bit word, as a sequence.
pub open spec fn spec_u16_le(v: u16) -> Seq<u8> {
    Seq::new(2, |i: int| spec_u64_le_byte(v as u64, i))
}

/// The encoding of a list of finalize operations, in order.
pub open spec fn spec_ops_encode(ops: Seq<FinalizeOperation>) -> Seq<u8>
    decreases ops.len(),
{
    if ops.len() == 0 {
        Seq::<u8>::empty()
    } else {
        spec_ops_encode(ops.drop_last()) + spec_u64_le(ops.last().op)
    }
}

/// Whether a transaction can be framed: its operation count fits two bytes.
pub open spec fn spec_encodable(t: ConfirmedTransaction) -> bool {
    match t {
        ConfirmedTransaction::AcceptedDeploy(_, _, ops) => ops@.len() <= 0xffff,
        ConfirmedTransaction::AcceptedExecute(_, _, ops) => ops@.len() <= 0xffff,
        ConfirmedTransaction::RejectedDeploy(_, _, _) => true,
        ConfirmedTransaction::RejectedExecute(_, _, _) => true,
    }
}

/// The canonical encoding of a confirmed transaction.
pub open spec fn spec_encode(t: ConfirmedTransaction) -> Seq<u8> {
    match t {
        ConfirmedTransaction::AcceptedDeploy(index, tx, ops) => seq![0u8] + spec_u32_le(index)
            + spec_u64_le(tx.id) + spec_u16_le(ops@.len() as u16) + spec_ops_encode(ops@),
        ConfirmedTransaction::AcceptedExecute(index, tx, ops) => seq![1u8] + spec_u32_le(index)
            + spec_u64_le(tx.id) + spec_u16_le(ops@.len() as u16) + spec_ops_encode(ops@),
        ConfirmedTransaction::RejectedDeploy(index, tx, rejected) => seq![2u8] + spec_u32_le(index)
            + spec_u64_le(tx.id) + spec_u64_le(rejected.edition),
        ConfirmedTransaction::RejectedExecute(index, tx, rejected) => seq![3u8] + spec_u32_le(
            index,
        ) + spec_u64_le(tx.id) + spec_u64_le(rejected.root),
    }
}

fn push_u64_le(out: &mut Vec<u8>, v: u64)
    ensures
        final(out)@ == old(out)@ + spec_u64_le(v),
{
    let bytes = u64_le_bytes(v);
    let ghost pre = out@;
    let mut i: usize = 0;
    while i < 8
        invariant
            i <= 8,
            bytes@.len() == 8,
            forall|j: int| 0 <= j < 8 ==> bytes@[j] == spec_u64_le_byte(v, j),
            out@ == pre + bytes@.subrange(0, i as int),
        decreases 8 - i,
    {
        out.push(bytes[i]);
        proof {
            assert(out@ =~= pre + bytes@.subrange(0, i as int + 1));
        }
        i = i + 1;
    }
    assert(out@ =~= pre + spec_u64_le(v));
}

fn push_u32_le(out: &mut Vec<u8>, v: u32)
    ensures
        final(out)@ == old(out)@ + spec_u32_le(v),
{
    let bytes = u64_le_bytes(v as u64);
    let ghost pre = out@;
    let mut i: usize = 0;
    while i < 4
        invariant
            i <= 4,
            bytes@.len() == 8,
            forall|j: int| 0 <= j < 8 ==> bytes@[j] == spec_u64_le_byte(v as u64, j),
            out@ == pre + bytes@.subrange(0, i as int),
        decreases 4 - i,
    {
        out.push(bytes[i]);
        proof {
            assert(out@ =~= pre + bytes@.subrange(0, i as int + 1));
        }
        i = i + 1;
    }
    assert(out@ =~= pre + spec_u32_le(v));
}

fn push_u16_le(out: &mut Vec<u8>, v: u16)
    ensures
        final(out)@ == old(out)@ + spec_u16_le(v),
{
    let bytes = u64_le_bytes(v as u64);
    let ghost pre = out@;
    let mut i: usize = 0;
    while i < 2
        invariant
            i <= 2,
            bytes@.len() == 8,
            forall|j: int| 0 <= j < 8 ==> bytes@[j] == spec_u64_le_byte(v as u64, j),
            out@ == pre + bytes@.subrange(0, i as int),
        decreases 2 - i,
    {
        out.push(bytes[i]);
        proof {
            assert(out@ =~= pre + bytes@.subrange(0, i as int + 1));
        }
        i = i + 1;
    }
    assert(out@ =~= pre + spec_u16_le(v));
}

fn push_ops(out: &mut Vec<u8>, ops: &Vec<FinalizeOperation>)
    ensures
        final(out)@ == old(out)@ + spec_ops_encode(ops@),
{
    let ghost pre = out@;
    let mut i: usize = 0;
    assert(out@ =~= pre + spec_ops_encode(ops@.subrange(0, 0)));
    while i < ops.len()
        invariant
            i <= ops@.len(),
            out@ == pre + spec_ops_encode(ops@.subrange(0, i as int)),
        decreases ops@.len() - i,
    {
        proof {
            let next = ops@.subrange(0, i as int + 1);
            assert(next.drop_last() =~= ops@.subrange(0, i as int));
        }
        push_u64_le(out, ops[i].op);
        i = i + 1;
    }
    assert(ops@.subrange(0, ops@.len() as int) =~= ops@);
}

/// The frame's index field.
pub open spec fn spec_tx_index(t: ConfirmedTransaction) -> u32 {
    match t {
        ConfirmedTransaction::AcceptedDeploy(index, _, _) => index,
        ConfirmedTransaction::AcceptedExecute(index, _, _) => index,
        ConfirmedTransaction::RejectedDeploy(index, _, _) => index,
        ConfirmedTransaction::RejectedExecute(index, _, _) => index,
    }
}

/// The frame's transaction identifier.
pub open spec fn spec_tx_id(t: ConfirmedTransaction) -> u64 {
    match t {
        ConfirmedTransaction::AcceptedDeploy(_, tx, _) => tx.id,
        ConfirmedTransaction::AcceptedExecute(_, tx, _) => tx.id,
        ConfirmedTransaction::RejectedDeploy(_, tx, _) => tx.id,
        ConfirmedTransaction::RejectedExecute(_, tx, _) => tx.id,
    }
}

/// The accepted frame's finalize operations.
pub open spec fn spec_tx_ops(t: ConfirmedTransaction) -> Seq<FinalizeOperation> {
    match t {
        ConfirmedTransaction::AcceptedDeploy(_, _, ops) => ops@,
        ConfirmedTransaction::AcceptedExecute(_, _, ops) => ops@,
        _ => Seq::<FinalizeOperation>::empty(),
    }
}

/// The rejected frame's payload word.
pub open spec fn spec_tx_payload(t: ConfirmedTransaction) -> u64 {
    match t {
        ConfirmedTransaction::RejectedDeploy(_, _, rejected) => rejected.edition,
        ConfirmedTransaction::RejectedExecute(_, _, rejected) => rejected.root,
        _ => 0u64,
    }
}

/// A machine word is the value of its eight little-endian bytes.
proof fn lemma_u64_value(v: u64)
    ensures
        (spec_u64_le_byte(v, 0) as int) + 0x100 * (spec_u64_le_byte(v, 1) as int) + 0x1_0000 * (
        spec_u64_le_byte(v, 2) as int) + 0x100_0000 * (spec_u64_le_byte(v, 3) as int)
            + 0x1_0000_0000 * (spec_u64_le_byte(v, 4) as int) + 0x100_0000_0000 * (
        spec_u64_le_byte(v, 5) as int) + 0x1_0000_0000_0000 * (spec_u64_le_byte(v, 6) as int)
            + 0x100_0000_0000_0000 * (spec_u64_le_byte(v, 7) as int) == v as int,
{
    lemma_pow256();
    assert((v % 0x100) + 0x100 * ((v / 0x100) % 0x100) + 0x1_0000 * ((v / 0x1_0000) % 0x100)
        + 0x100_0000 * ((v / 0x100_0000) % 0x100) + 0x1_0000_0000 * ((v / 0x1_0000_0000) % 0x100)
        + 0x100_0000_0000 * ((v / 0x100_0000_0000) % 0x100) + 0x1_0000_0000_0000 * ((v
        / 0x1_0000_0000_0000) % 0x100) + 0x100_0000_0000_0000 * ((v / 0x100_0000_0000_0000)
        % 0x100) == v) by (bit_vector);
}

/// A 32-bit word is the value of its four little-endian bytes.
proof fn lemma_u32_value(v: u32)
    ensures
        (spec_u64_le_byte(v as u64, 0) as int) + 0x100 * (spec_u64_le_byte(v as u64, 1) as int)
            + 0x1_0000 * (spec_u64_le_byte(v as u64, 2) as int) + 0x100_0000 * (spec_u64_le_byte(
            v as u64,
            3,
        ) as int) == v as int,
{
    lemma_pow256();
    let w = v as u64;
    assert((w % 0x100) + 0x100 * ((w / 0x100) % 0x100) + 0x1_0000 * ((w / 0x1_0000) % 0x100)
        + 0x100_0000 * ((w / 0x100_0000) % 0x100) == w) by (bit_vector)
        requires
            w < 0x1_0000_0000,
    ;
}

/// Canonical encodings are injective: two framable transactions with one
/// encoding agree in their variant and in every field. Together with the
/// encoder's and the decoder's contracts, this gives the round trip: decoding
/// an encoding returns the transaction that was encoded.
pub proof fn lemma_encode_injective(t1: ConfirmedTransaction, t2: ConfirmedTransaction)
    requires
        spec_encodable(t1),
        spec_encodable(t2),
        spec_encode(t1) == spec_encode(t2),
    ensures
        t1 is AcceptedDeploy <==> t2 is AcceptedDeploy,
        t1 is AcceptedExecute <==> t2 is AcceptedExecute,
        t1 is RejectedDeploy <==> t2 is RejectedDeploy,
        t1 is RejectedExecute <==> t2 is RejectedExecute,
        spec_tx_index(t1) == spec_tx_index(t2),
        spec_tx_id(t1) == spec_tx_id(t2),
        spec_tx_ops(t1) == spec_tx_ops(t2),
        spec_tx_payload(t1) == spec_tx_payload(t2),
{
    lemma_encode_shape(t1);
    lemma_encode_shape(t2);
    lemma_u32_value(spec_tx_index(t1));
    lemma_u32_value(spec_tx_index(t2));
    assert forall|i: int| 0 <= i < 4 implies #[trigger] spec_u64_le_byte(
        spec_tx_index(t1) as u64,
        i,
    ) == spec_u64_le_byte(spec_tx_index(t2) as u64, i) by {
        assert(spec_encode(t1)[1 + i] == spec_encode(t2)[1 + i]);
    }
    assert(spec_tx_index(t1) == spec_tx_index(t2));
    lemma_u64_value(spec_tx_id(t1));
    lemma_u64_value(spec_tx_id(t2));
    assert forall|i: int| 0 <= i < 8 implies #[trigger] spec_u64_le_byte(spec_tx_id(t1), i)
        == spec_u64_le_byte(spec_tx_id(t2), i) by {
        assert(spec_encode(t1)[5 + i] == spec_encode(t2)[5 + i]);
    }
    assert(spec_tx_id(t1) == spec_tx_id(t2));
    match (t1, t2) {
        (
            ConfirmedTransaction::AcceptedDeploy(_, tx1, ops1),
            ConfirmedTransaction::AcceptedDeploy(_, tx2, ops2),
        ) => {
            lemma_accepted_ops_equal(t1, t2);
        },
        (
            ConfirmedTransaction::AcceptedExecute(_, tx1, ops1),
            ConfirmedTransaction::AcceptedExecute(_, tx2, ops2),
        ) => {
            lemma_accepted_ops_equal(t1, t2);
        },
        (
            ConfirmedTransaction::RejectedDeploy(_, tx1, _),
            ConfirmedTransaction::RejectedDeploy(_, tx2, _),
        ) => {
            lemma_u64_value(spec_tx_payload(t1));
            lemma_u64_value(spec_tx_payload(t2));
            assert forall|i: int| 0 <= i < 8 implies #[trigger] spec_u64_le_byte(
                spec_tx_payload(t1),
                i,
            ) == spec_u64_le_byte(spec_tx_payload(t2), i) by {
                assert(spec_encode(t1)[13 + i] == spec_encode(t2)[13 + i]);
            }
            assert(spec_tx_payload(t1) == spec_tx_payload(t2));
        },
        (
            ConfirmedTransaction::RejectedExecute(_, tx1, _),
            ConfirmedTransaction::RejectedExecute(_, tx2, _),
        ) => {
            lemma_u64_value(spec_tx_payload(t1));
            lemma_u64_value(spec_tx_payload(t2));
            assert forall|i: int| 0 <= i < 8 implies #[trigger] spec_u64_le_byte(
                spec_tx_payload(t1),
                i,
            ) == spec_u64_le_byte(spec_tx_payload(t2), i) by {
                assert(spec_encode(t1)[13 + i] == spec_encode(t2)[13 + i]);
            }
            assert(spec_tx_payload(t1) == spec_tx_payload(t2));
        },
        _ => {
            assert(spec_encode(t1)[0] == spec_encode(t2)[0]);
            assert(false);
        },
    }
}

/// Two accepted frames with one encoding carry the same operations.
proof fn lemma_accepted_ops_equal(t1: ConfirmedTransaction, t2: ConfirmedTransaction)
    requires
        spec_encodable(t1),
        spec_encodable(t2),
        spec_encode(t1) == spec_encode(t2),
        (t1 is AcceptedDeploy && t2 is AcceptedDeploy) || (t1 is AcceptedExecute && t2
            is AcceptedExecute),
    ensures
        spec_tx_ops(t1) =~= spec_tx_ops(t2),
{
    lemma_encode_shape(t1);
    lemma_encode_shape(t2);
    let ops1 = spec_tx_ops(t1);
    let ops2 = spec_tx_ops(t2);
    lemma_ops_encode_len(ops1);
    lemma_ops_encode_len(ops2);
    assert(ops1.len() == ops2.len());
    assert forall|k: int| 0 <= k < ops1.len() implies ops1[k] == ops2[k] by {
        lemma_u64_value(ops1[k].op);
        lemma_u64_value(ops2[k].op);
        assert forall|i: int| 0 <= i < 8 implies #[trigger] spec_u64_le_byte(ops1[k].op, i)
            == spec_u64_le_byte(ops2[k].op, i) by {
            lemma_ops_encode_index(ops1, k, i);
            lemma_ops_encode_index(ops2, k, i);
            assert(spec_encode(t1)[15 + 8 * k + i] == spec_ops_encode(ops1)[8 * k + i]);
            assert(spec_encode(t2)[15 + 8 * k + i] == spec_ops_encode(ops2)[8 * k + i]);
        }
        assert(ops1[k].op == ops2[k].op);
    }
}

/// The shape of a canonical encoding: its length, its variant byte, and the
/// placement of its header words.
pub proof fn lemma_encode_shape(t: ConfirmedTransaction)
    requires
        spec_encodable(t),
    ensures
        t is AcceptedDeploy || t is AcceptedExecute ==> spec_encode(t).len() == 15 + 8
            * spec_tx_ops(t).len(),
        t is RejectedDeploy || t is RejectedExecute ==> spec_encode(t).len() == 21,
        spec_encode(t).len() >= 13,
        spec_encode(t)[0] == (match t {
            ConfirmedTransaction::AcceptedDeploy(_, _, _) => 0u8,
            ConfirmedTransaction::AcceptedExecute(_, _, _) => 1u8,
            ConfirmedTransaction::RejectedDeploy(_, _, _) => 2u8,
            ConfirmedTransaction::RejectedExecute(_, _, _) => 3u8,
        }),
        forall|i: int|
            0 <= i < 4 ==> spec_encode(t)[1 + i] == #[trigger] spec_u64_le_byte(
                spec_tx_index(t) as u64,
                i,
            ),
        forall|i: int|
            0 <= i < 8 ==> spec_encode(t)[5 + i] == #[trigger] spec_u64_le_byte(spec_tx_id(t), i),
        t is AcceptedDeploy || t is AcceptedExecute ==> forall|i: int|
            0 <= i < 2 ==> spec_encode(t)[13 + i] == #[trigger] spec_u64_le_byte(
                spec_tx_ops(t).len() as u16 as u64,
                i,
            ),
        t is RejectedDeploy || t is RejectedExecute ==> forall|i: int|
            0 <= i < 8 ==> spec_encode(t)[13 + i] == #[trigger] spec_u64_le_byte(
                spec_tx_payload(t),
                i,
            ),
{
    lemma_ops_encode_len(spec_tx_ops(t));
}

impl ConfirmedTransaction {
    /// Writes the transaction's canonical encoding.
    ///
    /// Fails exactly when the operation count does not fit two bytes.
    pub fn write_le(&self) -> (r: Result<Vec<u8>, CodecError>)
        ensures
            spec_encodable(*self) ==> (r matches Ok(b) && b@ == spec_encode(*self)),
            !spec_encodable(*self) ==> r == Result::<Vec<u8>, CodecError>::Err(
                CodecError::TooManyOperations,
            ),
    {
        let mut out: Vec<u8> = Vec::new();
        match self {
            ConfirmedTransaction::AcceptedDeploy(index, tx, ops) => {
                if ops.len() > 0xffff {
                    return Err(CodecError::TooManyOperations);
                }
                out.push(0);
                assert(out@ =~= seq![0u8]);
                push_u32_le(&mut out, *index);
                push_u64_le(&mut out, tx.id);
                push_u16_le(&mut out, ops.len() as u16);
                push_ops(&mut out, ops);
                assert(out@ =~= spec_encode(*self));
                Ok(out)
            },
            ConfirmedTransaction::AcceptedExecute(index, tx, ops) => {
                if ops.len() > 0xffff {
                    return Err(CodecError::TooManyOperations);
                }
                out.push(1);
                assert(out@ =~= seq![1u8]);
                push_u32_le(&mut out, *index);
                push_u64_le(&mut out, tx.id);
                push_u16_le(&mut out, ops.len() as u16);
                push_ops(&mut out, ops);
                assert(out@ =~= spec_encode(*self));
                Ok(out)
            },
            ConfirmedTransaction::RejectedDeploy(index, tx, rejected) => {
                out.push(2);
                assert(out@ =~= seq![2u8]);
                push_u32_le(&mut out, *index);
                push_u64_le(&mut out, tx.id);
                push_u64_le(&mut out, rejected.edition);
                assert(out@ =~= spec_encode(*self));
                Ok(out)
            },
            ConfirmedTransaction::RejectedExecute(index, tx, rejected) => {
                out.push(3);
                assert(out@ =~= seq![3u8]);
                push_u32_le(&mut out, *index);
                push_u64_le(&mut out, tx.id);
                push_u64_le(&mut out, rejected.root);
                assert(out@ =~= spec_encode(*self));
                Ok(out)
            },
        }
    }

    /// Reads a confirmed transaction from its canonical encoding.
    ///
    /// The buffer must hold exactly one frame: whatever decodes re-encodes to
    /// exactly the given bytes, and non-canonical, truncated or trailing
    /// bytes, and unknown variant bytes, are rejected. Callers that read from
    /// a stream drain one frame's worth of bytes first.
    pub fn read_le(bytes: &Vec<u8>) -> (r: Result<ConfirmedTransaction, CodecError>)
        ensures
            r matches Ok(t) ==> spec_encodable(t) && bytes@ == spec_encode(t),
            (r is Ok) <==> (exists|t: ConfirmedTransaction| spec_encodable(t) && bytes@
                == spec_encode(t)),
            bytes@.len() == 0 ==> r == Result::<ConfirmedTransaction, CodecError>::Err(
                CodecError::UnexpectedEnd,
            ),
            bytes@.len() >= 1 && bytes@[0] >= 4 ==> r == Result::<
                ConfirmedTransaction,
                CodecError,
            >::Err(CodecError::InvalidVariant(bytes@[0])),
    {
        let parsed = match Self::parse(bytes) {
            Ok(t) => t,
            Err(e) => {
                return Err(e);
            },
        };
        let reencoded = match parsed.write_le() {
            Ok(b) => b,
            Err(e) => {
                assert(false);
                return Err(e);
            },
        };
        if !bytes_equal(&reencoded, bytes) {
            assert(false);
            return Err(CodecError::NonCanonical);
        }
        assert(spec_encodable(parsed) && bytes@ == spec_encode(parsed));
        Ok(parsed)
    }

    /// Parses a frame without the canonical-form check.
    fn parse(bytes: &Vec<u8>) -> (r: Result<ConfirmedTransaction, CodecError>)
        ensures
            r matches Ok(p) ==> spec_encodable(p) && bytes@ == spec_encode(p),
            (exists|t: ConfirmedTransaction| spec_encodable(t) && bytes@ == spec_encode(t)) ==> r
                is Ok,
            bytes@.len() == 0 ==> r == Result::<ConfirmedTransaction, CodecError>::Err(
                CodecError::UnexpectedEnd,
            ),
            bytes@.len() >= 1 && bytes@[0] >= 4 ==> r == Result::<
                ConfirmedTransaction,
                CodecError,
            >::Err(CodecError::InvalidVariant(bytes@[0])),
    {
        let ghost encoded = exists|t: ConfirmedTransaction| spec_encodable(t) && bytes@
            == spec_encode(t);
        proof {
            if encoded {
                let t = choose|t: ConfirmedTransaction| spec_encodable(t) && bytes@
                    == spec_encode(t);
                lemma_encode_shape(t);
            }
        }
        let n = bytes.len();
        if n < 1 {
            return Err(CodecError::UnexpectedEnd);
        }
        let variant = bytes[0];
        if variant >= 4 {
            return Err(CodecError::InvalidVariant(variant));
        }
        if n < 13 {
            return Err(CodecError::UnexpectedEnd);
        }
        let index = read_u32_at(bytes, 1);
        let tx = Transaction { id: read_u64_at(bytes, 5) };
        if variant == 0 || variant == 1 {
            if n < 15 {
                return Err(CodecError::UnexpectedEnd);
            }
            let count_word = read_u16_at(bytes, 13);
            let count: usize = count_word as usize;
            proof {
                if encoded {
                    let t = choose|t: ConfirmedTransaction| spec_encodable(t) && bytes@
                        == spec_encode(t);
                    lemma_encode_shape(t);
                    match t {
                        ConfirmedTransaction::AcceptedDeploy(_, _, tops) => {
                            lemma_u16_value(tops@.len() as u16);
                            lemma_u16_value(count_word);
                            assert(count == tops@.len());
                        },
                        ConfirmedTransaction::AcceptedExecute(_, _, tops) => {
                            lemma_u16_value(tops@.len() as u16);
                            lemma_u16_value(count_word);
                            assert(count == tops@.len());
                        },
                        _ => {},
                    }
                }
            }
            if n < 15 + 8 * count {
                return Err(CodecError::UnexpectedEnd);
            }
            if n > 15 + 8 * count {
                return Err(CodecError::NonCanonical);
            }
            let mut ops: Vec<FinalizeOperation> = Vec::new();
            let mut k: usize = 0;
            while k < count
                invariant
                    k <= count,
                    n as int == bytes@.len(),
                    n == 15 + 8 * count,
                    ops@.len() == k as int,
                    forall|t: int|
                        0 <= t < k as int ==> forall|i: int|
                            0 <= i < 8 ==> #[trigger] spec_u64_le_byte((#[trigger] ops@[t]).op, i)
                                == bytes@[15 + 8 * t + i],
                decreases count - k,
            {
                assert(15 + 8 * k as int + 8 <= n as int);
                ops.push(FinalizeOperation { op: read_u64_at(bytes, 15 + 8 * k) });
                k = k + 1;
            }
            let parsed = if variant == 0 {
                ConfirmedTransaction::AcceptedDeploy(index, tx, ops)
            } else {
                ConfirmedTransaction::AcceptedExecute(index, tx, ops)
            };
            proof {
                lemma_encode_shape(parsed);
                Self::lemma_parse_matches_accepted(parsed, bytes@);
            }
            Ok(parsed)
        } else {
            if n != 21 {
                if n < 21 {
                    return Err(CodecError::UnexpectedEnd);
                }
                return Err(CodecError::NonCanonical);
            }
            let payload = read_u64_at(bytes, 13);
            let parsed = if variant == 2 {
                ConfirmedTransaction::RejectedDeploy(index, tx, Deployment { edition: payload })
            } else {
                ConfirmedTransaction::RejectedExecute(index, tx, Execution { root: payload })
            };
            proof {
                lemma_encode_shape(parsed);
                Self::lemma_parse_matches_rejected(parsed, bytes@);
            }
            Ok(parsed)
        }
    }

    /// An accepted frame whose header words and operation words were read
    /// from the buffer re-encodes to the buffer.
    proof fn lemma_parse_matches_accepted(p: ConfirmedTransaction, bytes: Seq<u8>)
        requires
            spec_encodable(p),
            p is AcceptedDeploy || p is AcceptedExecute,
            spec_encode(p).len() == bytes.len(),
            bytes[0] == spec_encode(p)[0],
            forall|i: int|
                0 <= i < 4 ==> #[trigger] spec_u64_le_byte(spec_tx_index(p) as u64, i) == bytes[1
                    + i],
            forall|i: int|
                0 <= i < 8 ==> #[trigger] spec_u64_le_byte(spec_tx_id(p), i) == bytes[5 + i],
            forall|i: int|
                0 <= i < 2 ==> #[trigger] spec_u64_le_byte(spec_tx_ops(p).len() as u16 as u64, i)
                    == bytes[13 + i],
            forall|t: int|
                0 <= t < spec_tx_ops(p).len() ==> forall|i: int|
                    0 <= i < 8 ==> #[trigger] spec_u64_le_byte(
                        (#[trigger] spec_tx_ops(p)[t]).op,
                        i,
                    ) == bytes[15 + 8 * t + i],
        ensures
            bytes == spec_encode(p),
    {
        lemma_encode_shape(p);
        let e = spec_encode(p);
        let ops = spec_tx_ops(p);
        lemma_ops_encode_len(ops);
        assert forall|j: int| 0 <= j < e.len() implies e[j] == bytes[j] by {
            if j == 0 {
            } else if j < 5 {
                assert(e[j] == spec_u64_le_byte(spec_tx_index(p) as u64, j - 1));
            } else if j < 13 {
                assert(e[j] == spec_u64_le_byte(spec_tx_id(p), j - 5));
            } else if j < 15 {
                assert(e[j] == spec_u64_le_byte(ops.len() as u16 as u64, j - 13));
            } else {
                let t = (j - 15) / 8;
                let i = (j - 15) % 8;
                assert(j == 15 + 8 * t + i);
                assert(0 <= t < ops.len());
                lemma_ops_encode_index(ops, t, i);
                assert(e[j] == spec_u64_le_byte(ops[t].op, i));
            }
        }
        assert(bytes =~= e);
    }

    /// A rejected frame whose header and payload words were read from the
    /// buffer re-encodes to the buffer.
    proof fn lemma_parse_matches_rejected(p: ConfirmedTransaction, bytes: Seq<u8>)
        requires
            spec_encodable(p),
            p is RejectedDeploy || p is RejectedExecute,
            spec_encode(p).len() == bytes.len(),
            bytes[0] == spec_encode(p)[0],
            forall|i: int|
                0 <= i < 4 ==> #[trigger] spec_u64_le_byte(spec_tx_index(p) as u64, i) == bytes[1
                    + i],
            forall|i: int|
                0 <= i < 8 ==> #[trigger] spec_u64_le_byte(spec_tx_id(p), i) == bytes[5 + i],
            forall|i: int|
                0 <= i < 8 ==> #[trigger] spec_u64_le_byte(spec_tx_payload(p), i) == bytes[13 + i],
        ensures
            bytes == spec_encode(p),
    {
        lemma_encode_shape(p);
        let e = spec_encode(p);
        assert forall|j: int| 0 <= j < e.len() implies e[j] == bytes[j] by {
            if j == 0 {
            } else if j < 5 {
                assert(e[j] == spec_u64_le_byte(spec_tx_index(p) as u64, j - 1));
            } else if j < 13 {
                assert(e[j] == spec_u64_le_byte(spec_tx_id(p), j - 5));
            } else {
                assert(e[j] == spec_u64_le_byte(spec_tx_payload(p), j - 13));
            }
        }
        assert(bytes =~= e);
    }
}

/// The powers of two-hundred-fifty-six the byte encodings are built from.
proof fn lemma_pow256()
    ensures
        vstd::arithmetic::power::pow(256, 0) == 1,
        vstd::arithmetic::power::pow(256, 1) == 0x100,
        vstd::arithmetic::power::pow(256, 2) == 0x1_0000,
        vstd::arithmetic::power::pow(256, 3) == 0x100_0000,
        vstd::arithmetic::power::pow(256, 4) == 0x1_0000_0000,
        vstd::arithmetic::power::pow(256, 5) == 0x100_0000_0000,
        vstd::arithmetic::power::pow(256, 6) == 0x1_0000_0000_0000,
        vstd::arithmetic::power::pow(256, 7) == 0x100_0000_0000_0000,
{
    reveal_with_fuel(vstd::arithmetic::power::pow, 9);
}

/// A sixteen-bit value is the value of its two little-endian bytes.
proof fn lemma_u16_value(v: u16)
    ensures
        (spec_u64_le_byte(v as u64, 0) as int) + 0x100 * (spec_u64_le_byte(v as u64, 1) as int)
            == v as int,
{
    lemma_pow256();
    let w = v as u64;
    assert((w % 0x100) + 0x100 * ((w / 0x100) % 0x100) == w) by (bit_vector)
        requires
            w < 0x1_0000,
    ;
}

/// Reads a little-endian machine word at a byte offset; the word's bytes are
/// exactly the bytes read.
fn read_u64_at(bytes: &Vec<u8>, at: usize) -> (r: u64)
    requires
        at + 8 <= bytes@.len(),
    ensures
        forall|i: int| 0 <= i < 8 ==> #[trigger] spec_u64_le_byte(r, i) == bytes@[at + i],
{
    let n = bytes.len();
    assert(at + 8 <= n);
    let x0 = bytes[at] as u64;
    let x1 = bytes[at + 1] as u64;
    let x2 = bytes[at + 2] as u64;
    let x3 = bytes[at + 3] as u64;
    let x4 = bytes[at + 4] as u64;
    let x5 = bytes[at + 5] as u64;
    let x6 = bytes[at + 6] as u64;
    let x7 = bytes[at + 7] as u64;
    let r = x0 + x1 * 0x100 + x2 * 0x1_0000 + x3 * 0x100_0000 + x4 * 0x1_0000_0000 + x5
        * 0x100_0000_0000 + x6 * 0x1_0000_0000_0000 + x7 * 0x100_0000_0000_0000;
    proof {
        lemma_pow256();
        assert((r / 0x1) % 0x100 == x0 && (r / 0x100) % 0x100 == x1 && (r / 0x1_0000) % 0x100
            == x2 && (r / 0x100_0000) % 0x100 == x3 && (r / 0x1_0000_0000) % 0x100 == x4 && (r
            / 0x100_0000_0000) % 0x100 == x5 && (r / 0x1_0000_0000_0000) % 0x100 == x6 && (r
            / 0x100_0000_0000_0000) % 0x100 == x7) by (bit_vector)
            requires
                r == x0 + x1 * 0x100 + x2 * 0x1_0000 + x3 * 0x100_0000 + x4 * 0x1_0000_0000 + x5
                    * 0x100_0000_0000 + x6 * 0x1_0000_0000_0000 + x7 * 0x100_0000_0000_0000,
                x0 < 0x100,
                x1 < 0x100,
                x2 < 0x100,
                x3 < 0x100,
                x4 < 0x100,
                x5 < 0x100,
                x6 < 0x100,
                x7 < 0x100,
        ;
    }
    r
}

/// Reads a little-endian 32-bit word at a byte offset; the word's bytes are
/// exactly the bytes read.
fn read_u32_at(bytes: &Vec<u8>, at: usize) -> (r: u32)
    requires
        at + 4 <= bytes@.len(),
    ensures
        forall|i: int| 0 <= i < 4 ==> #[trigger] spec_u64_le_byte(r as u64, i) == bytes@[at + i],
{
    let n = bytes.len();
    assert(at + 4 <= n);
    let x0 = bytes[at] as u64;
    let x1 = bytes[at + 1] as u64;
    let x2 = bytes[at + 2] as u64;
    let x3 = bytes[at + 3] as u64;
    let r64 = x0 + x1 * 0x100 + x2 * 0x1_0000 + x3 * 0x100_0000;
    proof {
        lemma_pow256();
        assert(r64 < 0x1_0000_0000 && (r64 / 0x1) % 0x100 == x0 && (r64 / 0x100) % 0x100 == x1
            && (r64 / 0x1_0000) % 0x100 == x2 && (r64 / 0x100_0000) % 0x100 == x3)
            by (bit_vector)
            requires
                r64 == x0 + x1 * 0x100 + x2 * 0x1_0000 + x3 * 0x100_0000,
                x0 < 0x100,
                x1 < 0x100,
                x2 < 0x100,
                x3 < 0x100,
        ;
    }
    (r64) as u32
}

/// Reads a little-endian 16-bit word at a byte offset; the word's bytes are
/// exactly the bytes read.
fn read_u16_at(bytes: &Vec<u8>, at: usize) -> (r: u16)
    requires
        at + 2 <= bytes@.len(),
    ensures
        forall|i: int| 0 <= i < 2 ==> #[trigger] spec_u64_le_byte(r as u64, i) == bytes@[at + i],
{
    let n = bytes.len();
    assert(at + 2 <= n);
    let x0 = bytes[at] as u64;
    let x1 = bytes[at + 1] as u64;
    let r64 = x0 + x1 * 0x100;
    proof {
        lemma_pow256();
        assert(r64 < 0x1_0000 && (r64 / 0x1) % 0x100 == x0 && (r64 / 0x100) % 0x100 == x1)
            by (bit_vector)
            requires
                r64 == x0 + x1 * 0x100,
                x0 < 0x100,
                x1 < 0x100,
        ;
    }
    (r64) as u16
}

/// The operations' encoding is eight bytes per operation: the `i`-th byte of
/// the `k`-th operation's word stands at position `8k + i`.
proof fn lemma_ops_encode_index(ops: Seq<FinalizeOperation>, k: int, i: int)
    requires
        0 <= k < ops.len(),
        0 <= i < 8,
    ensures
        spec_ops_encode(ops).len() == 8 * ops.len(),
        spec_ops_encode(ops)[8 * k + i] == spec_u64_le(ops[k].op)[i],
    decreases ops.len(),
{
    lemma_ops_encode_len(ops);
    if k < ops.len() - 1 {
        lemma_ops_encode_index(ops.drop_last(), k, i);
    } else {
        lemma_ops_encode_len(ops.drop_last());
    }
}

/// The operations' encoding holds eight bytes per operation.
proof fn lemma_ops_encode_len(ops: Seq<FinalizeOperation>)
    ensures
        spec_ops_encode(ops).len() == 8 * ops.len(),
    decreases ops.len(),
{
    if ops.len() > 0 {
        lemma_ops_encode_len(ops.drop_last());
    }
}

/// Decides byte-for-byte equality of two buffers.
fn bytes_equal(a: &Vec<u8>, b: &Vec<u8>) -> (r: bool)
    ensures
        r == (a@ == b@),
{
    if a.len() != b.len() {
        assert(a@ != b@);
        return false;
    }
    let mut i: usize = 0;
    while i < a.len()
        invariant
            i <= a@.len(),
            a@.len() == b@.len(),
            forall|j: int| 0 <= j < i as int ==> a@[j] == b@[j],
        decreases a@.len() - i,
    {
        if a[i] != b[i] {
            assert(a@[i as int] != b@[i as int]);
            return false;
        }
        i = i + 1;
    }
    proof {
        assert(a@ =~= b@);
    }
    true
}

} // verus!
