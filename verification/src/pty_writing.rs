//! Buffers on their way to the PTY: ordinary terminal responses, and the
//! bounded steps in which any buffer is written.

use std::collections::VecDeque;

use vstd::prelude::*;

verus! {

/// Most bytes written to the PTY in one turn.
pub const IO_BUDGET: usize = 65_536;

/// A buffer that is written piece by piece.
pub struct Writing {
    source: Vec<u8>,
    written: usize,
}

impl View for Writing {
    type V = Seq<u8>;

    /// The bytes that were not written yet.
    closed spec fn view(&self) -> Seq<u8> {
        self.source@.skip(self.written as int)
    }
}

impl Writing {
    /// No more was written than there is.
    #[verifier::type_invariant]
    closed spec fn inv(self) -> bool {
        self.written <= self.source@.len()
    }

    /// A buffer of which nothing was written.
    pub fn new(source: Vec<u8>) -> (r: Self)
        ensures
            r@ == source@,
    {
        let writing = Writing { source, written: 0 };
        assert(writing@ =~= source@);
        writing
    }

    /// The bytes that were not written yet.
    pub fn remaining_bytes(&self) -> (r: &[u8])
        ensures
            r@ == self@,
    {
        proof {
            use_type_invariant(self);
        }
        let rest = vstd::slice::slice_subrange(
            self.source.as_slice(),
            self.written,
            self.source.len(),
        );
        assert(rest@ =~= self@);
        rest
    }

    /// Whether every byte was written.
    pub fn finished(&self) -> (r: bool)
        ensures
            r == (self@.len() == 0),
    {
        proof {
            use_type_invariant(self);
        }
        self.written == self.source.len()
    }

    /// Counts `count` more bytes as written.
    pub fn advance(&mut self, count: usize)
        requires
            count <= old(self)@.len(),
        ensures
            final(self)@ == old(self)@.skip(count as int),
    {
        proof {
            use_type_invariant(&*self);
        }
        let ghost before = self@;
        let len: usize = self.source.len();
        assert(self.written + count <= len);
        self.written = self.written + count;
        assert(self@ =~= before.skip(count as int));
    }
}

/// What came of one write to the PTY.
#[derive(Clone, Copy, Debug, PartialEq, Eq, Structural)]
pub enum WriteResult {
    /// This many of the offered bytes were taken.
    Wrote(usize),
    /// The PTY takes no more for now.
    WouldBlock,
    /// The write was interrupted before it began.
    Interrupted,
}

/// How many bytes of `remaining` are offered to the PTY with `budget` left.
pub open spec fn offered(remaining: nat, budget: nat) -> nat {
    if remaining <= budget {
        remaining
    } else {
        budget
    }
}

/// How many bytes of the buffer are offered next; none where the buffer or the
/// budget is used up.
pub fn next_write(buffer: &Writing, budget: usize) -> (r: usize)
    ensures
        r == offered(buffer@.len(), budget as nat),
{
    let remaining: usize = buffer.remaining_bytes().len();
    if remaining <= budget {
        remaining
    } else {
        budget
    }
}

/// Takes over what came of a write: whether this turn goes on writing.
pub fn note_write(
    buffer: &mut Writing,
    budget: &mut usize,
    can_write: &mut bool,
    result: WriteResult,
) -> (r: bool)
    requires
        result matches WriteResult::Wrote(count) ==> count <= offered(
            old(buffer)@.len(),
            *old(budget) as nat,
        ),
    ensures
        match result {
            WriteResult::Wrote(count) => {
                &&& final(buffer)@ == old(buffer)@.skip(count as int)
                &&& *final(budget) == *old(budget) - count
                &&& *final(can_write) == (*old(can_write) && count != 0)
                &&& r == (count != 0 && final(buffer)@.len() != 0 && *final(budget) != 0)
            },
            _ => {
                &&& final(buffer)@ == old(buffer)@
                &&& *final(budget) == *old(budget)
                &&& *final(can_write) == (*old(can_write) && !(result is WouldBlock))
                &&& !r
            },
        },
{
    match result {
        WriteResult::Wrote(count) => {
            buffer.advance(count);
            *budget = *budget - count;
            if count == 0 {
                *can_write = false;
                return false;
            }
            !buffer.finished() && *budget != 0
        },
        WriteResult::WouldBlock => {
            *can_write = false;
            false
        },
        WriteResult::Interrupted => false,
    }
}

/// Ordinary terminal responses over plain values.
pub ghost struct StateView {
    /// What is being written.
    pub writing: Option<Seq<u8>>,
    /// What waits behind it.
    pub write_list: Seq<Seq<u8>>,
}

/// The view of waiting buffers.
pub open spec fn buffers_view(buffers: Seq<Vec<u8>>) -> Seq<Seq<u8>> {
    buffers.map_values(|buffer: Vec<u8>| buffer@)
}

/// Ordinary terminal responses. Transfer data never enters this queue.
pub struct State {
    write_list: VecDeque<Vec<u8>>,
    writing: Option<Writing>,
}

impl View for State {
    type V = StateView;

    closed spec fn view(&self) -> StateView {
        StateView {
            writing: match self.writing {
                Some(writing) => Some(writing@),
                None => None,
            },
            write_list: buffers_view(self.write_list@),
        }
    }
}

impl Default for State {
    fn default() -> (r: Self)
        ensures
            r@ == (StateView { writing: None, write_list: Seq::empty() }),
    {
        let state = State { write_list: VecDeque::new(), writing: None };
        assert(state@.write_list =~= Seq::<Seq<u8>>::empty());
        state
    }
}

impl State {
    /// Whether anything is to be written.
    pub fn needs_write(&self) -> (r: bool)
        ensures
            r == (self@.writing is Some || self@.write_list.len() > 0),
    {
        self.writing.is_some() || self.write_list.len() > 0
    }

    /// Drops everything that was not written.
    pub fn clear_writes(&mut self)
        ensures
            final(self)@ == (StateView { writing: None, write_list: Seq::empty() }),
    {
        self.writing = None;
        self.write_list.clear();
        assert(self@.write_list =~= Seq::<Seq<u8>>::empty());
    }

    /// Puts a buffer at the end of the queue.
    pub fn queue(&mut self, buffer: Vec<u8>)
        ensures
            final(self)@ == (StateView {
                write_list: old(self)@.write_list.push(buffer@),
                ..old(self)@
            }),
    {
        let ghost before = self@.write_list;
        let ghost view = buffer@;
        self.write_list.push_back(buffer);
        assert(self@.write_list =~= before.push(view));
    }

    /// Takes the buffer to be written next, if there is one: the one in hand
    /// before those that wait.
    pub fn take_writing(&mut self) -> (r: Option<Writing>)
        ensures
            match (old(self)@.writing, r) {
                (Some(rest), Some(writing)) => writing@ == rest && final(self)@ == (StateView {
                    writing: None,
                    ..old(self)@
                }),
                (None, Some(writing)) => old(self)@.write_list.len() > 0 && writing@
                    == old(self)@.write_list[0] && final(self)@ == (StateView {
                    writing: None,
                    write_list: old(self)@.write_list.skip(1),
                }),
                (None, None) => old(self)@.write_list.len() == 0 && final(self)@ == old(self)@,
                _ => false,
            },
    {
        if let Some(writing) = self.writing.take() {
            return Some(writing);
        }
        let ghost before = self@.write_list;
        match self.write_list.pop_front() {
            Some(buffer) => {
                assert(buffer@ == before[0]);
                assert(self@.write_list =~= before.skip(1));
                Some(Writing::new(buffer))
            },
            None => None,
        }
    }

    /// Puts an unfinished buffer back; a finished one is let go.
    pub fn put_writing(&mut self, writing: Writing)
        ensures
            final(self)@ == (StateView {
                writing: if writing@.len() == 0 {
                    None
                } else {
                    Some(writing@)
                },
                ..old(self)@
            }),
    {
        self.writing = if writing.finished() {
            None
        } else {
            Some(writing)
        };
    }
}

/// The PTY is offered as much as is left and as the budget allows.
pub proof fn law_offers_keep_the_budget(remaining: nat, budget: nat)
    ensures
        offered(remaining, budget) <= remaining,
        offered(remaining, budget) <= budget,
        offered(remaining, budget) == remaining || offered(remaining, budget) == budget,
{
}

} // verus!
