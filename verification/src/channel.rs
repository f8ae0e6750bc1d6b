//! The command bridge between the network listener and the game loop,
//! as the loop sees it: a first-in-first-out queue of replacement
//! commands, fed by the listener and drained at most one command per
//! tick. The cross-thread conduit that realizes it hands commands to and
//! from this model unchanged.

use vstd::prelude::*;

verus! {

/// A letter-replacement request from a viewer: `(replace, with)`, both
/// uppercase letters.
pub type Command = (char, char);

/// Queue of commands not yet applied, oldest first.
pub struct CommandQueue {
    items: Vec<Command>,
}

impl View for CommandQueue {
    type V = Seq<Command>;

    closed spec fn view(&self) -> Seq<Command> {
        self.items@
    }
}

impl CommandQueue {
    pub fn new() -> (q: CommandQueue)
        ensures
            q@.len() == 0,
    {
        CommandQueue { items: Vec::new() }
    }

    /// Enqueue a command behind everything already pending.
    pub fn send(&mut self, c: Command)
        ensures
            final(self)@ == old(self)@.push(c),
    {
        self.items.push(c);
    }

    /// Non-blocking receive: at most one pending command per call, the
    /// oldest one; the rest stay queued for later ticks.
    pub fn try_receive(&mut self) -> (r: Option<Command>)
        ensures
            old(self)@.len() == 0 ==> r is None && final(self)@ == old(self)@,
            old(self)@.len() > 0 ==> r == Some(old(self)@[0]) && final(self)@ == old(
                self,
            )@.drop_first(),
    {
        if self.items.len() == 0 {
            None
        } else {
            Some(self.items.remove(0))
        }
    }
}

/// The commands handed out by `k` successive receives from a queue
/// holding `s`, in order.
pub open spec fn received(s: Seq<Command>, k: int) -> Seq<Command>
    decreases k,
{
    if k <= 0 || s.len() == 0 {
        Seq::empty()
    } else {
        seq![s[0]] + received(s.drop_first(), k - 1)
    }
}

/// What is left in the queue after `k` successive receives.
pub open spec fn after_receives(s: Seq<Command>, k: int) -> Seq<Command>
    decreases k,
{
    if k <= 0 || s.len() == 0 {
        s
    } else {
        after_receives(s.drop_first(), k - 1)
    }
}

/// Draining law: commands sent before the loop ticks are dequeued
/// exactly one per tick, oldest first; after `k` ticks exactly the first
/// `k` commands have been handed out, once each, and the rest are still
/// queued. None are lost and none are duplicated.
pub proof fn lemma_fifo_drain(s: Seq<Command>, k: int)
    requires
        0 <= k <= s.len(),
    ensures
        received(s, k) == s.take(k),
        after_receives(s, k) == s.skip(k),
    decreases k,
{
    if k == 0 {
        assert(received(s, 0) =~= s.take(0));
        assert(after_receives(s, 0) =~= s.skip(0));
    } else {
        lemma_fifo_drain(s.drop_first(), k - 1);
        assert(seq![s[0]] + s.drop_first().take(k - 1) =~= s.take(k));
        assert(s.drop_first().skip(k - 1) =~= s.skip(k));
    }
}

} // verus!
