//! The hash-chained audit journal's accumulator and entry format. Each entry
//! stores an accumulator value that is a deterministic function of the
//! previous entry's accumulator and the literal message, so recomputing the
//! fold detects alteration of past content. The fold here is a fast
//! non-cryptographic multiply-xor chain: tamper evidence against accidental
//! corruption, not adversarial forgery; production use calls for a
//! cryptographic accumulator with the same fold contract.

use vstd::prelude::*;
use crate::text::dec_digits;
use crate::text::u64_to_dec;

verus! {

/// Multiplicative constant of the fold.
pub const CHAIN_PRIME: u64 = 0x100000001b3;

/// Constant folded into the previous accumulator before a message is
/// absorbed.
pub const CHAIN_OFFSET: u64 = 0xcbf29ce484222325;

/// One fold step: absorb one character into the rolling value.
pub open spec fn absorb(h: u64, c: char) -> u64 {
    vstd::wrapping::u64_specs::wrapping_mul(h ^ (c as u64), CHAIN_PRIME)
}

/// The rolling value seeded from the previous accumulator.
pub open spec fn chain_seed(acc: u64) -> u64 {
    vstd::wrapping::u64_specs::wrapping_mul(acc ^ CHAIN_OFFSET, CHAIN_PRIME)
}

pub open spec fn chain_fold(h: u64, msg: Seq<char>) -> u64
    decreases msg.len(),
{
    if msg.len() == 0 {
        h
    } else {
        chain_fold(absorb(h, msg[0]), msg.drop_first())
    }
}

/// The accumulator stored alongside a message appended when the previous
/// accumulator was `acc`: a deterministic function of `acc` and the literal
/// message characters alone.
pub open spec fn chain_step(acc: u64, msg: Seq<char>) -> u64 {
    chain_fold(chain_seed(acc), msg)
}

/// The accumulator column of a fresh log that appended `msgs` in order.
pub open spec fn chain_values(msgs: Seq<Seq<char>>) -> Seq<u64>
    decreases msgs.len(),
{
    if msgs.len() == 0 {
        Seq::<u64>::empty()
    } else {
        let prev = chain_values(msgs.drop_last());
        let prev_acc: u64 = if prev.len() == 0 {
            0u64
        } else {
            prev.last()
        };
        prev.push(chain_step(prev_acc, msgs.last()))
    }
}

pub proof fn lemma_chain_values_len(msgs: Seq<Seq<char>>)
    ensures
        chain_values(msgs).len() == msgs.len(),
    decreases msgs.len(),
{
    if msgs.len() > 0 {
        lemma_chain_values_len(msgs.drop_last());
    }
}

/// The value stored with entry `n` is the fold of the value stored with entry
/// `n - 1` (the fresh-chain value for the first entry) and entry `n`'s own
/// message: the chain invariant that makes alteration of past content
/// detectable by recomputing the fold.
pub proof fn lemma_chain_link(msgs: Seq<Seq<char>>, n: int)
    requires
        0 <= n < msgs.len(),
    ensures
        chain_values(msgs)[n] == chain_step(
            if n == 0 {
                0u64
            } else {
                chain_values(msgs)[n - 1]
            },
            msgs[n],
        ),
    decreases msgs.len(),
{
    lemma_chain_values_len(msgs.drop_last());
    if n == msgs.len() - 1 {
        if n > 0 {
            assert(chain_values(msgs)[n - 1] == chain_values(msgs.drop_last())[n - 1]);
            assert(chain_values(msgs.drop_last()).last() == chain_values(msgs.drop_last())[n - 1]);
        }
    } else {
        lemma_chain_link(msgs.drop_last(), n);
        assert(msgs.drop_last()[n] == msgs[n]);
        if n > 0 {
            assert(chain_values(msgs)[n - 1] == chain_values(msgs.drop_last())[n - 1]);
        }
    }
}

/// Chain determinism: appending the same ordered messages to two fresh logs
/// yields identical accumulator values. In its prefix form: two logs that
/// agree on their first `n` messages agree on their first `n` accumulators,
/// whatever they append afterwards.
pub proof fn lemma_chain_deterministic(msgs1: Seq<Seq<char>>, msgs2: Seq<Seq<char>>, n: int)
    requires
        0 <= n <= msgs1.len(),
        n <= msgs2.len(),
        forall|i: int| 0 <= i < n ==> msgs1[i] == msgs2[i],
    ensures
        forall|i: int| 0 <= i < n ==> chain_values(msgs1)[i] == chain_values(msgs2)[i],
    decreases n,
{
    lemma_chain_values_len(msgs1);
    lemma_chain_values_len(msgs2);
    if n > 0 {
        lemma_chain_deterministic(msgs1, msgs2, n - 1);
        lemma_chain_link(msgs1, n - 1);
        lemma_chain_link(msgs2, n - 1);
    }
}

/// Rolling accumulator for the audit chain, seeded to zero for a fresh log.
#[derive(Debug, Clone, Copy)]
pub struct ChainHash(pub u64);

impl ChainHash {
    pub fn new() -> (r: ChainHash)
        ensures
            r.0 == 0,
    {
        ChainHash(0)
    }

    /// Folds one message into the accumulator.
    pub fn update(&mut self, msg: &str)
        ensures
            final (self).0 == chain_step(old(self).0, msg@),
    {
        let n: usize = msg.unicode_len();
        let mut h: u64 = (self.0 ^ CHAIN_OFFSET).wrapping_mul(CHAIN_PRIME);
        let mut i: usize = 0;
        proof {
            assert(msg@.skip(0) =~= msg@);
        }
        while i < n
            invariant
                i <= n,
                n == msg@.len(),
                chain_fold(h, msg@.skip(i as int)) == chain_step(old(self).0, msg@),
            decreases n - i,
        {
            let c = msg.get_char(i);
            proof {
                assert(msg@.skip(i as int)[0] == msg@[i as int]);
                assert(msg@.skip(i as int).drop_first() =~= msg@.skip(i as int + 1));
            }
            h = (h ^ (c as u64)).wrapping_mul(CHAIN_PRIME);
            i = i + 1;
        }
        proof {
            assert(msg@.skip(n as int) =~= Seq::<char>::empty());
        }
        self.0 = h;
    }
}

/// The serialized journal entry for accumulator `acc` and message `msg`: the
/// accumulator in decimal, a separator bar, the message, a line break.
pub open spec fn audit_line_spec(acc: u64, msg: Seq<char>) -> Seq<char> {
    dec_digits(acc as nat) + seq!['|'] + msg + seq!['\n']
}

/// Renders one journal entry.
pub fn audit_line(acc: u64, message: &str) -> (r: String)
    ensures
        r@ == audit_line_spec(acc, message@),
{
    let mut s = u64_to_dec(acc);
    proof {
        reveal_strlit("|");
        reveal_strlit("\n");
        assert("|"@ =~= seq!['|']);
        assert("\n"@ =~= seq!['\n']);
    }
    s.append("|");
    s.append(message);
    s.append("\n");
    proof {
        assert(s@ =~= audit_line_spec(acc, message@));
    }
    s
}

} // verus!
