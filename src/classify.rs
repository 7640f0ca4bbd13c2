use vstd::prelude::*;

verus! {

/// Base58 address of the network's vote program.
pub const VOTE_PROGRAM_ID: &'static str = "Vote111111111111111111111111111111111111111";

/// One instruction of a decoded message.
pub enum Instruction {
    /// Resolved by the node's parser: the invoking program is known.
    Parsed { program_id: String },
    /// Not parsed, but with the invoking program's address resolved.
    PartiallyDecoded { program_id: String },
    /// Compiled form: the program is only an account index.
    Other,
}

/// The message of a transaction, in the form the node delivered it.
pub enum Message {
    /// Instructions resolved to program identifiers.
    Parsed(Vec<Instruction>),
    /// Only account-index references; programs are not resolved.
    Raw,
}

/// A transaction as delivered by the node.
pub enum EncodedTransaction {
    /// JSON encoding, carrying a message.
    Json(Message),
    /// Binary or account-only encodings, which carry no decoded message.
    Other,
}

pub open spec fn vote_program_view() -> Seq<char> {
    VOTE_PROGRAM_ID@
}

/// Whether an instruction is invoked on the vote program.
pub open spec fn instruction_is_vote(ix: Instruction) -> bool {
    match ix {
        Instruction::Parsed { program_id } => program_id@ == vote_program_view(),
        Instruction::PartiallyDecoded { program_id } => program_id@ == vote_program_view(),
        Instruction::Other => false,
    }
}

/// A transaction is a vote when its message is parsed and some instruction
/// of it invokes the vote program.
pub open spec fn transaction_is_vote(tx: EncodedTransaction) -> bool {
    match tx {
        EncodedTransaction::Json(Message::Parsed(ixs)) => invokes_vote_program(ixs@),
        _ => false,
    }
}

/// Some instruction of the sequence invokes the vote program.
pub open spec fn invokes_vote_program(ixs: Seq<Instruction>) -> bool {
    exists|i: int| 0 <= i < ixs.len() && #[trigger] instruction_is_vote(ixs[i])
}

/// Classifies a transaction as a vote.
pub fn is_vote_transaction(tx: &EncodedTransaction) -> (r: bool)
    ensures
        r == transaction_is_vote(*tx),
        *tx == EncodedTransaction::Json(Message::Raw) ==> !r,
        (tx matches EncodedTransaction::Json(Message::Parsed(ixs)) && exists|i: int|
            0 <= i < ixs@.len() && #[trigger] instruction_is_vote(ixs@[i])) ==> r,
{
    match tx {
        EncodedTransaction::Json(Message::Parsed(ixs)) => {
            let vote_id: String = VOTE_PROGRAM_ID.to_owned();
            let mut i: usize = 0;
            while i < ixs.len()
                invariant
                    0 <= i <= ixs@.len(),
                    *tx == EncodedTransaction::Json(Message::Parsed(*ixs)),
                    vote_id@ == vote_program_view(),
                    forall|j: int| 0 <= j < i ==> !#[trigger] instruction_is_vote(ixs@[j]),
                decreases ixs@.len() - i,
            {
                match &ixs[i] {
                    Instruction::Parsed { program_id } => {
                        if *program_id == vote_id {
                            assert(instruction_is_vote(ixs@[i as int]));
                            return true;
                        }
                    },
                    Instruction::PartiallyDecoded { program_id } => {
                        if *program_id == vote_id {
                            assert(instruction_is_vote(ixs@[i as int]));
                            return true;
                        }
                    },
                    Instruction::Other => {},
                }
                i = i + 1;
            }
            false
        },
        EncodedTransaction::Json(Message::Raw) => false,
        EncodedTransaction::Other => false,
    }
}

} // verus!
