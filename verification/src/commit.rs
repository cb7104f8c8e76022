//! The commit coordinator: it collects the commit messages of all writers
//! and hands them over for one snapshot commit at the end.
use crate::error::PaimonError;
use vstd::prelude::*;

verus! {

/// The meta of one block that reaches the commit sink.
pub enum CommitBlockMeta {
    /// The block carries no meta.
    Absent,
    /// The block carries a meta that is not a Paimon commit meta.
    Foreign,
    /// The block carries a Paimon commit meta whose messages could not be
    /// decoded, with the error the decoding gave.
    Undecodable(PaimonError),
    /// The block carries the commit messages of one writer.
    Commit(Vec<paimon::table::CommitMessage>),
}

/// What finishing does with the pending messages: nothing to commit when
/// there are none; otherwise all of them, in the order they came, with
/// nothing left pending.
pub open spec fn finish_outcome<M>(pending: Seq<M>) -> (Option<Seq<M>>, Seq<M>) {
    if pending.len() == 0 {
        (None, pending)
    } else {
        (Some(pending), Seq::empty())
    }
}

/// Messages are committed once: finishing a second time commits nothing.
pub proof fn lemma_commit_at_most_once<M>(pending: Seq<M>)
    ensures
        finish_outcome(finish_outcome(pending).1).0 is None,
{
}

/// The messages a block adds to the pending ones: a commit meta's
/// messages; none for a block without meta.
pub open spec fn block_messages(meta: CommitBlockMeta) -> Seq<paimon::table::CommitMessage> {
    match meta {
        CommitBlockMeta::Commit(messages) => messages@,
        _ => Seq::empty(),
    }
}

/// The messages pending after a fresh sink has consumed the blocks.
pub open spec fn consumed(blocks: Seq<CommitBlockMeta>) -> Seq<paimon::table::CommitMessage>
    decreases blocks.len(),
{
    if blocks.len() == 0 {
        Seq::empty()
    } else {
        consumed(blocks.drop_last()) + block_messages(blocks.last())
    }
}

proof fn lemma_consumed_prefix(blocks: Seq<CommitBlockMeta>, i: int)
    requires
        0 <= i <= blocks.len(),
    ensures
        consumed(blocks.take(i)) == consumed(blocks).subrange(0, consumed(blocks.take(i)).len() as int),
        consumed(blocks.take(i)).len() <= consumed(blocks).len(),
    decreases blocks.len(),
{
    if i == blocks.len() {
        assert(blocks.take(i) =~= blocks);
        assert(consumed(blocks).subrange(0, consumed(blocks).len() as int) =~= consumed(blocks));
    } else {
        let prefix = blocks.drop_last();
        lemma_consumed_prefix(prefix, i);
        assert(prefix.take(i) =~= blocks.take(i));
        let c = consumed(blocks.take(i));
        assert(consumed(blocks) == consumed(prefix) + block_messages(blocks.last()));
        assert(consumed(blocks).subrange(0, c.len() as int) =~= consumed(prefix).subrange(0, c.len() as int));
    }
}

/// A run of a fresh sink over blocks that it accepts (its `accepted()`,
/// whose messages are what it has pending), then one finish: the
/// messages of each block stand, in the order the blocks came, one after
/// another in what is committed; everything is committed in one batch, or
/// nothing when no block carried a message; and a further finish commits
/// nothing.
pub proof fn lemma_commit_run(blocks: Seq<CommitBlockMeta>)
    ensures
        forall|i: int|
            0 <= i < blocks.len() ==> consumed(blocks).subrange(
                consumed(#[trigger] blocks.take(i)).len() as int,
                consumed(blocks.take(i + 1)).len() as int,
            ) == block_messages(blocks[i]),
        consumed(blocks).len() == 0 ==> finish_outcome(consumed(blocks)).0 is None,
        consumed(blocks).len() > 0 ==> finish_outcome(consumed(blocks)).0 == Some(consumed(blocks)),
        finish_outcome(consumed(blocks)).1.len() == 0,
        finish_outcome(finish_outcome(consumed(blocks)).1).0 is None,
{
    assert forall|i: int| 0 <= i < blocks.len() implies consumed(blocks).subrange(
        consumed(#[trigger] blocks.take(i)).len() as int,
        consumed(blocks.take(i + 1)).len() as int,
    ) == block_messages(blocks[i]) by {
        lemma_consumed_prefix(blocks, i + 1);
        let next = blocks.take(i + 1);
        assert(next.drop_last() =~= blocks.take(i));
        assert(next.last() == blocks[i]);
        let a = consumed(blocks.take(i));
        let b = consumed(next);
        assert(b == a + block_messages(blocks[i]));
        assert(consumed(blocks).subrange(a.len() as int, b.len() as int) =~= b.subrange(a.len() as int, b.len() as int));
        assert(b.subrange(a.len() as int, b.len() as int) =~= block_messages(blocks[i]));
    }
}

/// The messages a sink holds, with the blocks it accepted since it was made
/// or last finished.
struct SinkState {
    messages: Vec<paimon::table::CommitMessage>,
    accepted: Ghost<Seq<CommitBlockMeta>>,
}

impl SinkState {
    fn empty() -> (s: Self)
        ensures
            s.messages@ == Seq::<paimon::table::CommitMessage>::empty(),
            s.accepted@ == Seq::<CommitBlockMeta>::empty(),
    {
        SinkState { messages: Vec::new(), accepted: Ghost(Seq::empty()) }
    }
}

/// Coordinator sink that collects writer commit messages and submits one
/// snapshot with all of them.
pub struct PaimonCommitSink {
    table: paimon::Table,
    state: SinkState,
}

impl PaimonCommitSink {
    /// The pending messages are those of the accepted blocks, in order.
    #[verifier::type_invariant]
    closed spec fn inv(self) -> bool {
        self.state.messages@ == consumed(self.state.accepted@)
    }

    /// The table the snapshot is committed to.
    pub closed spec fn spec_table(self) -> paimon::Table {
        self.table
    }

    /// The messages collected and not yet handed over for commit.
    pub closed spec fn pending(self) -> Seq<paimon::table::CommitMessage> {
        self.state.messages@
    }

    /// The metas of the blocks accepted since the sink was made or last
    /// finished, in the order they came.
    pub closed spec fn accepted(self) -> Seq<CommitBlockMeta> {
        self.state.accepted@
    }

    /// A sink for `table` with nothing collected.
    pub fn new(table: paimon::Table) -> (sink: Self)
        ensures
            sink.spec_table() == table,
            sink.pending() == Seq::<paimon::table::CommitMessage>::empty(),
            sink.accepted() == Seq::<CommitBlockMeta>::empty(),
    {
        PaimonCommitSink { table, state: SinkState::empty() }
    }

    /// The table the snapshot is committed to.
    pub fn table(&self) -> (table: &paimon::Table)
        ensures
            *table == self.spec_table(),
    {
        &self.table
    }

    /// Takes one block's meta: a commit meta's messages are appended to the
    /// pending ones; a block without meta changes nothing; a meta that is
    /// not a commit meta is rejected with `InvalidCommitMeta`, and one whose
    /// messages could not be decoded with the decoding error, both leaving
    /// the pending messages as they were. An accepted block is recorded
    /// among the accepted ones. The sink never asks to stop early.
    pub fn consume(&mut self, meta: CommitBlockMeta) -> (r: Result<bool, PaimonError>)
        ensures
            final(self).spec_table() == old(self).spec_table(),
            match meta {
                CommitBlockMeta::Absent => r == Ok::<bool, PaimonError>(false) && final(self).pending() == old(self).pending(),
                CommitBlockMeta::Foreign => (r matches Err(PaimonError::InvalidCommitMeta)) && final(self).pending() == old(self).pending(),
                CommitBlockMeta::Undecodable(error) => r == Err::<bool, PaimonError>(error)
                    && final(self).pending() == old(self).pending(),
                CommitBlockMeta::Commit(messages) => r == Ok::<bool, PaimonError>(false)
                    && final(self).pending() == old(self).pending() + messages@,
            },
            r is Ok ==> final(self).accepted() == old(self).accepted().push(meta)
                && final(self).pending() == old(self).pending() + block_messages(meta),
            r is Err ==> final(self).accepted() == old(self).accepted(),
            final(self).pending() == consumed(final(self).accepted()),
    {
        proof {
            use_type_invariant(&*self);
        }
        let ghost block = meta;
        match meta {
            CommitBlockMeta::Absent => {
                let mut state = SinkState::empty();
                std::mem::swap(&mut state, &mut self.state);
                proof {
                    state.accepted@ = state.accepted@.push(block);
                    assert(state.accepted@.drop_last() =~= old(self).state.accepted@);
                    assert(state.messages@ =~= consumed(state.accepted@));
                }
                self.state = state;
                Ok(false)
            },
            CommitBlockMeta::Foreign => Err(PaimonError::InvalidCommitMeta),
            CommitBlockMeta::Undecodable(error) => Err(error),
            CommitBlockMeta::Commit(messages) => {
                let mut state = SinkState::empty();
                std::mem::swap(&mut state, &mut self.state);
                let mut messages = messages;
                state.messages.append(&mut messages);
                proof {
                    state.accepted@ = state.accepted@.push(block);
                    assert(state.accepted@.drop_last() =~= old(self).state.accepted@);
                }
                self.state = state;
                Ok(false)
            },
        }
    }

    /// Finishes the sink: with nothing pending there is nothing to commit;
    /// otherwise all pending messages, those of the accepted blocks in the
    /// order they came, are handed over for one commit, and none stay
    /// pending. The sink starts over with no accepted block.
    pub fn on_finish(&mut self) -> (batch: Option<Vec<paimon::table::CommitMessage>>)
        ensures
            final(self).spec_table() == old(self).spec_table(),
            old(self).pending() == consumed(old(self).accepted()),
            final(self).pending() == finish_outcome(old(self).pending()).1,
            final(self).accepted() == Seq::<CommitBlockMeta>::empty(),
            match batch {
                Some(messages) => finish_outcome(old(self).pending()).0 == Some(messages@),
                None => finish_outcome(old(self).pending()).0 is None,
            },
    {
        proof {
            use_type_invariant(&*self);
        }
        let mut state = SinkState::empty();
        std::mem::swap(&mut state, &mut self.state);
        if state.messages.len() == 0 {
            None
        } else {
            Some(state.messages)
        }
    }
}

} // verus!
