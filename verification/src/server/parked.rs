//! Commands that wait in the session while the writer's queue is full.
use bytes::Bytes;
use std::collections::VecDeque;
use vstd::prelude::*;

use crate::server::writer;
use crate::server::writer::seal_reservation;
use crate::sshbuffer::Compression;
use crate::wire;
use crate::wire::bytes_len;

verus! {

/// A command that could not be handed over yet.
#[derive(Debug)]
pub enum PendingOutboundCmd {
    SealPayload(Bytes),
    SealRaw(Bytes),
    InitOutboundCompress(Compression),
}

/// The content of a [`PendingOutboundCmd`].
#[verifier::ext_equal]
pub enum ParkedCmd {
    SealPayload(Seq<u8>),
    SealRaw(Seq<u8>),
    InitOutboundCompress(Compression),
}

impl View for PendingOutboundCmd {
    type V = ParkedCmd;

    open spec fn view(&self) -> ParkedCmd {
        match *self {
            PendingOutboundCmd::SealPayload(b) => ParkedCmd::SealPayload(wire::bytes_view(b)),
            PendingOutboundCmd::SealRaw(b) => ParkedCmd::SealRaw(wire::bytes_view(b)),
            PendingOutboundCmd::InitOutboundCompress(c) => ParkedCmd::InitOutboundCompress(c),
        }
    }
}

impl ParkedCmd {
    /// What the command reserves: the same as in the writer's queue.
    pub open spec fn weight(self) -> usize {
        match self {
            ParkedCmd::SealPayload(p) => writer::reservation(p.len()),
            ParkedCmd::SealRaw(p) => writer::reservation(p.len()),
            ParkedCmd::InitOutboundCompress(_) => 0,
        }
    }
}

/// Parked commands in order, with what they reserve.
#[derive(Debug)]
pub struct PendingOutbound {
    pub q: VecDeque<PendingOutboundCmd>,
    pub bytes: usize,
}

/// The content of a [`PendingOutbound`].
#[verifier::ext_equal]
pub struct Parked {
    pub q: Seq<ParkedCmd>,
    pub bytes: usize,
}

/// The commands of a queue.
pub open spec fn cmds(q: Seq<PendingOutboundCmd>) -> Seq<ParkedCmd> {
    q.map_values(|c: PendingOutboundCmd| c@)
}

impl View for PendingOutbound {
    type V = Parked;

    open spec fn view(&self) -> Parked {
        Parked { q: cmds(self.q@), bytes: self.bytes }
    }
}

impl Parked {
    /// One more at the end.
    pub open spec fn pushed_back(self, c: ParkedCmd) -> Parked {
        Parked { q: self.q.push(c), bytes: self.bytes.wrapping_add(c.weight()) }
    }

    /// One more at the front.
    pub open spec fn pushed_front(self, c: ParkedCmd) -> Parked {
        Parked { q: seq![c] + self.q, bytes: self.bytes.wrapping_add(c.weight()) }
    }

    /// The first one gone. A count that runs short starts over at zero.
    pub open spec fn popped(self) -> Parked {
        let w = self.q[0].weight();
        Parked {
            q: self.q.drop_first(),
            bytes: if w <= self.bytes {
                (self.bytes - w) as usize
            } else {
                0
            },
        }
    }

    /// The sum of the weights, without a machine limit.
    pub open spec fn total(q: Seq<ParkedCmd>) -> nat
        decreases q.len(),
    {
        if q.len() == 0 {
            0
        } else {
            q[0].weight() as nat + Parked::total(q.drop_first())
        }
    }

    /// The count is the sum of the weights.
    pub open spec fn exact(self) -> bool {
        self.bytes == Parked::total(self.q)
    }
}

impl Default for PendingOutbound {
    /// Nothing parked.
    fn default() -> (r: PendingOutbound)
        ensures
            r@ == (Parked { q: Seq::empty(), bytes: 0 }),
    {
        let r = PendingOutbound { q: VecDeque::new(), bytes: 0 };
        assert(cmds(r.q@) =~= Seq::empty());
        r
    }
}

impl PendingOutbound {
    /// Whether nothing is parked.
    pub fn is_empty(&self) -> (r: bool)
        ensures
            r == (self@.q.len() == 0),
    {
        self.q.len() == 0
    }

    /// What the parked commands reserve.
    pub fn bytes(&self) -> (r: usize)
        ensures
            r == self@.bytes,
    {
        self.bytes
    }

    /// What a command reserves.
    pub fn weight_of(cmd: &PendingOutboundCmd) -> (r: usize)
        ensures
            r == cmd@.weight(),
    {
        match cmd {
            PendingOutboundCmd::SealPayload(b) | PendingOutboundCmd::SealRaw(b) => seal_reservation(
                bytes_len(b),
            ),
            PendingOutboundCmd::InitOutboundCompress(_) => 0,
        }
    }

    /// Parks a command behind the others.
    pub fn push_back(&mut self, cmd: PendingOutboundCmd)
        ensures
            final(self)@ == old(self)@.pushed_back(cmd@),
    {
        let w: usize = Self::weight_of(&cmd);
        self.bytes = self.bytes.wrapping_add(w);
        self.q.push_back(cmd);
        assert(cmds(self.q@) =~= cmds(old(self).q@).push(cmd@));
    }

    /// Parks a command behind the others that has just been taken from where
    /// it was counted before.
    pub fn push_back_already_counted(&mut self, cmd: PendingOutboundCmd)
        ensures
            final(self)@ == old(self)@.pushed_back(cmd@),
    {
        self.push_back(cmd);
    }

    /// Takes the first command.
    pub fn pop_front(&mut self) -> (r: Option<PendingOutboundCmd>)
        ensures
            r is Some <==> old(self)@.q.len() > 0,
            r matches Some(c) ==> c@ == old(self)@.q[0] && final(self)@ == old(self)@.popped(),
            r is None ==> final(self)@ == old(self)@,
    {
        match self.q.pop_front() {
            Some(cmd) => {
                let w: usize = Self::weight_of(&cmd);
                self.bytes =
                if w <= self.bytes {
                    self.bytes - w
                } else {
                    0
                };
                assert(cmds(self.q@) =~= cmds(old(self).q@).drop_first());
                Some(cmd)
            },
            None => None,
        }
    }

    /// Puts a command back before the others.
    pub fn push_front(&mut self, cmd: PendingOutboundCmd)
        ensures
            final(self)@ == old(self)@.pushed_front(cmd@),
    {
        let w: usize = Self::weight_of(&cmd);
        self.bytes = self.bytes.wrapping_add(w);
        self.q.push_front(cmd);
        assert(cmds(self.q@) =~= seq![cmd@] + cmds(old(self).q@));
    }
}

/// One more weight at the end.
proof fn lemma_total_push(q: Seq<ParkedCmd>, c: ParkedCmd)
    ensures
        Parked::total(q.push(c)) == Parked::total(q) + c.weight(),
    decreases q.len(),
{
    if q.len() == 0 {
        assert(q.push(c).drop_first() =~= Seq::empty());
        assert(Parked::total(Seq::<ParkedCmd>::empty()) == 0);
    } else {
        lemma_total_push(q.drop_first(), c);
        assert(q.push(c).drop_first() =~= q.drop_first().push(c));
    }
}

/// Parking and taking keep the count exact, and putting a command back where
/// it was taken from undoes the taking.
pub proof fn law_parked_count_is_exact(p: Parked, c: ParkedCmd)
    requires
        p.exact(),
        p.bytes + c.weight() <= usize::MAX,
    ensures
        p.pushed_back(c).exact(),
        p.pushed_front(c).exact(),
        p.q.len() > 0 ==> p.popped().exact() && p.popped().pushed_front(p.q[0]) == p,
        p.pushed_front(c).popped() == p,
{
    lemma_total_push(p.q, c);
    assert(p.pushed_front(c).q.drop_first() =~= p.q);
    if p.q.len() > 0 {
        assert(seq![p.q[0]] + p.q.drop_first() =~= p.q);
    }
}

} // verus!
