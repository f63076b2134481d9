//! A whole run of the writer: whatever the order in which commands are offered,
//! channels marked, commands taken and bytes written, and whatever keys come
//! into force on the way, every payload that was accepted reaches the socket
//! once, in order, as it was sealed under the key of its turn, or is dropped
//! because its channel was marked, or fails; and nothing else reaches the
//! socket.
use vstd::prelude::*;

use crate::error::Error;
use crate::server::ledger::FullLedger;
use crate::server::parked::ParkedCmd;
use crate::server::session::Peer;
use crate::server::writer;
use crate::server::writer::{Cmd, Link, OutboundEpoch};
use crate::server::writer_drain;
use crate::server::writer_laws;
use crate::server::writer_task;
use crate::server::writer_task::Task;
use crate::sshbuffer;
use crate::sshbuffer::{CipherKey, PacketSink};
use crate::wire::WIRE_OVERHEAD_PER_PACKET;

verus! {

/// How the turn of a payload ended.
#[verifier::ext_equal]
pub enum End {
    /// It became these wire bytes.
    Sealed(Seq<u8>),
    /// Its channel was marked.
    Dropped,
    /// The holder of the key could not seal it.
    Failed,
    /// One before it in its batch had failed.
    GivenBack,
}

/// What became of a payload that was taken.
#[verifier::ext_equal]
pub struct Fate {
    pub payload: Seq<u8>,
    /// The key that was in force.
    pub key: CipherKey,
    /// The channels that were marked.
    pub marks: Set<u32>,
    /// What the holder of the key made of the payload.
    pub given: Option<Result<Seq<u8>, Error>>,
    pub end: End,
}

impl Fate {
    /// Its end is what it has to be. A payload of a marked channel is dropped.
    /// Any other becomes a clear packet under the clear key, and what the
    /// holder of the key made of it under any other key; it fails exactly where
    /// the holder made nothing of it. Of an empty payload nothing is left.
    pub open spec fn is_due(self) -> bool {
        let drop = writer_task::should_drop(self.payload, self.marks);
        let bare = self.payload.len() == 0 || self.key.is_clear();
        match self.end {
            End::Dropped => drop,
            End::Sealed(w) => !drop && if self.payload.len() == 0 {
                w == Seq::<u8>::empty()
            } else if self.key.is_clear() {
                w == sshbuffer::clear_packet(self.payload)
            } else {
                self.given == Some(Ok::<Seq<u8>, Error>(w))
            },
            End::Failed => !drop && !bare && !(self.given matches Some(Ok(_))),
            End::GivenBack => true,
        }
    }

    /// What of it goes to the socket.
    pub open spec fn on_wire(self) -> Seq<u8> {
        match self.end {
            End::Sealed(w) => w,
            _ => Seq::empty(),
        }
    }
}

/// What is given back stands behind what failed.
pub open spec fn blamed(fs: Seq<Fate>) -> bool {
    forall|k: int|
        0 <= k < fs.len() && (#[trigger] fs[k]).end is GivenBack ==> exists|j: int|
            0 <= j < k && (#[trigger] fs[j]).end is Failed
}

/// What goes to the socket of several payloads, one after the other.
pub open spec fn on_wire(fs: Seq<Fate>) -> Seq<u8>
    decreases fs.len(),
{
    if fs.len() == 0 {
        Seq::empty()
    } else {
        on_wire(fs.drop_last()) + fs.last().on_wire()
    }
}

/// The payloads and their keys.
pub open spec fn turns(fs: Seq<Fate>) -> Seq<(Seq<u8>, CipherKey)> {
    fs.map_values(|f: Fate| (f.payload, f.key))
}

/// The payloads of a command.
pub open spec fn payloads_of(c: Cmd) -> Seq<Seq<u8>> {
    match c {
        Cmd::SealPayload(p) => seq![p],
        Cmd::SealRaw(p) => seq![p],
        Cmd::SealBatchAndInstallEpoch { payloads, .. } => payloads,
        _ => Seq::empty(),
    }
}

/// The key in force behind a command: a batch that was sealed and an install
/// bring a new one.
pub open spec fn key_behind(c: Cmd, ok: bool, key: CipherKey) -> CipherKey {
    match c {
        Cmd::SealBatchAndInstallEpoch { epoch, .. } => if ok {
            epoch.cipher
        } else {
            key
        },
        Cmd::InstallOutboundEpoch { epoch, .. } => epoch.cipher,
        _ => key,
    }
}

/// The key in force once all of `q` were carried out, some of them in vain.
pub open spec fn key_after(q: Seq<(Cmd, bool)>, key: CipherKey) -> CipherKey
    decreases q.len(),
{
    if q.len() == 0 {
        key
    } else {
        key_behind(q.last().0, q.last().1, key_after(q.drop_last(), key))
    }
}

/// Payloads that all have their turn under one key.
pub open spec fn under(ps: Seq<Seq<u8>>, key: CipherKey) -> Seq<(Seq<u8>, CipherKey)> {
    ps.map_values(|p: Seq<u8>| (p, key))
}

/// The payloads of commands in order, each with the key of its turn.
pub open spec fn in_turn(q: Seq<(Cmd, bool)>, key: CipherKey) -> Seq<(Seq<u8>, CipherKey)>
    decreases q.len(),
{
    if q.len() == 0 {
        Seq::empty()
    } else {
        in_turn(q.drop_last(), key) + under(
            payloads_of(q.last().0),
            key_after(q.drop_last(), key),
        )
    }
}

/// The commands alone.
pub open spec fn commands(q: Seq<(Cmd, bool)>) -> Seq<Cmd> {
    q.map_values(|e: (Cmd, bool)| e.0)
}

/// A writer at some point of its run, with what it accepted, took and has
/// written so far.
#[verifier::ext_equal]
pub struct Run {
    pub task: Task,
    pub link: Link,
    /// The wire bytes that the task took over.
    pub head: Seq<u8>,
    /// The key that the task took over.
    pub first_key: CipherKey,
    pub accepted: Seq<Cmd>,
    /// The commands that were taken, and whether each was carried out.
    pub taken: Seq<(Cmd, bool)>,
    /// What became of their payloads.
    pub fates: Seq<Fate>,
    pub written: Seq<u8>,
    /// A packet would have taken the count beyond the machine limit.
    pub beyond: bool,
}

/// What can happen in a run.
pub enum RunStep {
    /// The session offers a payload, or the start of a compressor.
    Offer(ParkedCmd),
    /// The session offers the last packets of a key exchange and the new key.
    OfferBatch(Seq<Seq<u8>>, OutboundEpoch),
    /// The session offers a key to install with nothing to seal before it.
    OfferInstall(OutboundEpoch),
    /// The session asks the writer to stop once everything is written.
    Stop,
    /// The session marks a channel.
    Mark(u32),
    /// The task takes a command, if one is there and it takes one now. The
    /// holder of the key has made this of its payloads.
    Take(Seq<Result<Seq<u8>, Error>>),
    /// The socket takes so many bytes, if they are there.
    Write(nat),
}

/// What becomes of one payload.
pub open spec fn fate(
    t: Task,
    l: Link,
    p: Seq<u8>,
    given: Option<Result<Seq<u8>, Error>>,
) -> Fate {
    Fate {
        payload: p,
        key: t.sink.cipher,
        marks: l.tombstone,
        given,
        end: if writer_task::should_drop(p, l.tombstone) {
            End::Dropped
        } else {
            match t.sink.seal_result(p, given) {
                Ok(w) => End::Sealed(w),
                Err(_) => End::Failed,
            }
        },
    }
}

/// The payloads of a batch from `i` on, given back.
pub open spec fn back_from(
    t: Task,
    l: Link,
    ps: Seq<Seq<u8>>,
    given: Seq<Result<Seq<u8>, Error>>,
    i: int,
) -> Seq<Fate> {
    ps.skip(i).map(
        |k: int, p: Seq<u8>|
            Fate {
                payload: p,
                key: t.sink.cipher,
                marks: l.tombstone,
                given: writer_task::nth(given, i + k),
                end: End::GivenBack,
            },
    )
}

/// What becomes of the payloads of a command from `i` on.
pub open spec fn fates_from(
    t: Task,
    l: Link,
    ps: Seq<Seq<u8>>,
    as_kex: bool,
    given: Seq<Result<Seq<u8>, Error>>,
    i: int,
) -> Seq<Fate>
    decreases ps.len() - i,
{
    if 0 <= i < ps.len() {
        let g = writer_task::nth(given, i);
        let s = t.seal_one(l, ps[i], as_kex, g);
        seq![fate(t, l, ps[i], g)] + if s.result is Ok {
            fates_from(s.task, s.link, ps, as_kex, given, i + 1)
        } else {
            back_from(t, l, ps, given, i + 1)
        }
    } else {
        Seq::empty()
    }
}

/// What becomes of the payloads of a command.
pub open spec fn fates_of(t: Task, l: Link, c: Cmd, given: Seq<Result<Seq<u8>, Error>>) -> Seq<
    Fate,
> {
    fates_from(t, l, payloads_of(c), c is SealBatchAndInstallEpoch, given, 0)
}

impl Run {
    /// The command offered last was accepted: it stands at the end of the
    /// queue.
    pub open spec fn offered(self, link: Link) -> Run {
        Run {
            link,
            accepted: if link.bulk.len() > self.link.bulk.len() {
                self.accepted.push(link.bulk.last())
            } else {
                self.accepted
            },
            ..self
        }
    }

    /// The first command taken. Where a seal fails the task reports it and goes
    /// on.
    pub open spec fn took(self, given: Seq<Result<Seq<u8>, Error>>) -> Run {
        let popped = self.task.pulled(self.link).1;
        let c = self.task.next_command(self.link)->0;
        let s = self.task.handle(popped, c, given);
        if writer_laws::cmd_fits(self.task, popped, c, given) {
            Run {
                task: s.task,
                link: s.link,
                taken: self.taken.push((c, s.result is Ok)),
                fates: self.fates + fates_of(self.task, popped, c, given),
                ..self
            }
        } else {
            Run { beyond: true, ..self }
        }
    }

    /// One step. What would take the count beyond the machine limit is not
    /// offered.
    #[verifier::opaque]
    pub open spec fn next(self, s: RunStep) -> Run {
        if self.beyond {
            self
        } else {
            match s {
                RunStep::Offer(c) => if self.link.pending_bytes + c.weight() > usize::MAX {
                    self
                } else {
                    self.offered(Peer::offer_link(self.link, c))
                },
                RunStep::OfferBatch(ps, epoch) => if self.link.pending_bytes
                    + writer_laws::reserved_for(ps) > usize::MAX {
                    self
                } else {
                    self.offered(self.link.offered_batch(ps, epoch))
                },
                RunStep::OfferInstall(epoch) => self.offered(self.link.offered_install(epoch)),
                RunStep::Stop => self.offered(self.link.asked_to_stop()),
                RunStep::Mark(to) => Run {
                    link: Link { tombstone: self.link.tombstone.insert(to), ..self.link },
                    ..self
                },
                RunStep::Take(given) => if self.task.next_command(self.link) is Some {
                    self.took(given)
                } else {
                    self
                },
                RunStep::Write(n) => {
                    let h = self.task.headed();
                    if 0 < n <= h.unsent().len() && n <= self.link.pending_bytes {
                        let (task, link) = h.wrote(self.link, n as usize);
                        Run { task, link, written: self.written + h.unsent().take(n as int), ..self }
                    } else {
                        self
                    }
                },
            }
        }
    }

    /// Several steps.
    pub open spec fn after(self, steps: Seq<RunStep>) -> Run
        decreases steps.len(),
    {
        if steps.len() == 0 {
            self
        } else {
            self.after(steps.drop_last()).next(steps.last())
        }
    }

    /// From here on the socket takes all that it is given, and nothing more is
    /// offered. `given` is what the holder of the key makes of the commands
    /// that are queued, one after the other.
    pub open spec fn finished(self, given: Seq<Seq<Result<Seq<u8>, Error>>>) -> Run
        decreases self.link.bulk.len(), self.task.unsent().len(),
    {
        let n = self.task.headed().gathered(true).flatten().len();
        let w = self.next(RunStep::Write(n));
        let g = if given.len() > 0 {
            given[0]
        } else {
            Seq::empty()
        };
        let t = self.next(RunStep::Take(g));
        if self.beyond {
            self
        } else if self.task.unsent().len() > 0 {
            if w.link.bulk.len() == self.link.bulk.len() && w.task.unsent().len()
                < self.task.unsent().len() {
                w.finished(given)
            } else {
                w
            }
        } else if t.link.bulk.len() < self.link.bulk.len() {
            t.finished(given.drop_first())
        } else {
            t
        }
    }

    /// A writer before anything has happened.
    pub open spec fn is_fresh(self) -> bool {
        &&& self.task.sink.wire.len() == 0
        &&& self.task.sink.cipher == self.first_key
        &&& self.task.current is None
        &&& self.task.out == (if self.head.len() > 0 {
            seq![self.head]
        } else {
            Seq::empty()
        })
        &&& self.head.len() <= usize::MAX
        &&& !self.task.dequeue_hold
        &&& self.link.bulk.len() == 0
        &&& self.link.pending_bytes == self.head.len()
        &&& self.accepted.len() == 0
        &&& self.taken.len() == 0
        &&& self.fates.len() == 0
        &&& self.written.len() == 0
        &&& !self.beyond
    }

    /// The commands that were accepted are those that were taken and those
    /// that are queued, in this order. The payloads of those that were taken
    /// met their due, in order and once each, under the key of their turn.
    /// What was written and what is sealed are what the task took over and
    /// what became of the payloads. The pending count is what is sealed and
    /// queued.
    pub open spec fn is_sound(self) -> bool {
        &&& self.task.sink.wire.len() == 0
        &&& !self.task.dequeue_hold
        &&& writer_laws::cursor_ok(self.task)
        &&& packets_fit(self.task)
        &&& writer_laws::in_balance(self.task, self.link, 0)
        &&& commands(self.taken) + self.link.bulk == self.accepted
        &&& turns(self.fates) == in_turn(self.taken, self.first_key)
        &&& self.task.sink.cipher == key_after(self.taken, self.first_key)
        &&& all_due(self.fates)
        &&& self.written + self.task.unsent() == self.head + on_wire(self.fates)
    }
}

/// Every payload met its due.
pub open spec fn all_due(fs: Seq<Fate>) -> bool {
    &&& forall|k: int| 0 <= k < fs.len() ==> (#[trigger] fs[k]).is_due()
    &&& blamed(fs)
}

/// No sealed packet is empty or beyond the machine limit.
pub open spec fn packets_fit(t: Task) -> bool {
    &&& forall|k: int| 0 <= k < t.out.len() ==> 0 < (#[trigger] t.out[k]).len() <= usize::MAX
    &&& t.current matches Some(b) ==> b.len() <= usize::MAX
}

/// Looking for the head packet touches nothing else.
proof fn lemma_headed_frame(t: Task)
    ensures
        t.headed() == (Task {
            out: t.headed().out,
            current: t.headed().current,
            cursor: t.headed().cursor,
            ..t
        }),
        packets_fit(t) ==> packets_fit(t.headed()),
        t.headed().current is None ==> t.headed().out.len() == 0,
        t.headed().current matches Some(b) ==> t.headed().cursor < b.len(),
    decreases t.depth(),
{
    match t.current {
        None => {
            if t.out.len() > 0 {
                let a = t.advanced();
                if packets_fit(t) {
                    assert forall|k: int| 0 <= k < a.out.len() implies 0 < (
                    #[trigger] a.out[k]).len() <= usize::MAX by {
                        assert(a.out[k] == t.out[k + 1]);
                    }
                }
                lemma_headed_frame(a);
            }
        },
        Some(b) => {
            if t.cursor >= b.len() {
                lemma_headed_frame(Task { current: None, cursor: 0, ..t });
            }
        },
    }
}

/// Spending written bytes touches nothing else.
proof fn lemma_spent_frame(t: Task, n: nat)
    requires
        packets_fit(t),
    ensures
        t.spent(n) == (Task {
            out: t.spent(n).out,
            current: t.spent(n).current,
            cursor: t.spent(n).cursor,
            ..t
        }),
        packets_fit(t.spent(n)),
    decreases t.depth(),
{
    if let Some(b) = t.current {
        let a = t.advanced();
        assert forall|k: int| 0 <= k < a.out.len() implies 0 < (#[trigger] a.out[k]).len()
            <= usize::MAX by {
            assert(a.out[k] == t.out[k + 1]);
        }
        let remaining: nat = if t.cursor <= b.len() {
            (b.len() - t.cursor) as nat
        } else {
            0
        };
        if n > remaining {
            lemma_spent_frame(a, (n - remaining) as nat);
        }
    }
}

/// Several payloads more.
proof fn lemma_on_wire_add(a: Seq<Fate>, b: Seq<Fate>)
    ensures
        on_wire(a + b) == on_wire(a) + on_wire(b),
    decreases b.len(),
{
    if b.len() == 0 {
        assert(a + b =~= a);
        assert(on_wire(a) + on_wire(b) =~= on_wire(a));
    } else {
        lemma_on_wire_add(a, b.drop_last());
        assert((a + b).drop_last() =~= a + b.drop_last());
        assert(on_wire(a + b) =~= on_wire(a) + on_wire(b));
    }
}

/// Payloads that met their due, one behind the other.
proof fn lemma_due_add(a: Seq<Fate>, b: Seq<Fate>)
    requires
        all_due(a),
        all_due(b),
    ensures
        all_due(a + b),
{
    let all = a + b;
    assert forall|k: int| 0 <= k < all.len() implies (#[trigger] all[k]).is_due() by {
        if k < a.len() {
            assert(all[k] == a[k]);
        } else {
            assert(all[k] == b[k - a.len()]);
        }
    }
    assert forall|k: int| 0 <= k < all.len() && (#[trigger] all[k]).end is GivenBack implies exists|
        j: int,
    |
        0 <= j < k && (#[trigger] all[j]).end is Failed by {
        if k < a.len() {
            assert(all[k] == a[k]);
            let j = choose|j: int| 0 <= j < k && (#[trigger] a[j]).end is Failed;
            assert(all[j] == a[j]);
        } else {
            assert(all[k] == b[k - a.len()]);
            let j = choose|j: int| 0 <= j < k - a.len() && (#[trigger] b[j]).end is Failed;
            assert(all[a.len() + j] == b[j]);
        }
    }
}

/// A command that was accepted, or not.
proof fn lemma_offered(r: Run, link: Link, c: Cmd)
    requires
        r.is_sound(),
        link.bulk == r.link.bulk || link.bulk == r.link.bulk.push(c),
        writer_laws::in_balance(r.task, link, 0),
    ensures
        r.offered(link).is_sound(),
{
    if link.bulk != r.link.bulk {
        assert(commands(r.taken) + r.link.bulk.push(c) =~= (commands(r.taken) + r.link.bulk).push(
            c,
        ));
    }
}

/// Something offered.
proof fn lemma_offer(r: Run, c: ParkedCmd)
    requires
        r.is_sound(),
    ensures
        r.next(RunStep::Offer(c)).is_sound(),
{
    reveal(Run::next);
    if !r.beyond && r.link.pending_bytes + c.weight() <= usize::MAX {
        let link = Peer::offer_link(r.link, c);
        match c {
            ParkedCmd::SealPayload(p) => {
                writer_laws::law_offers_keep_the_balance(r.task, r.link, p, false);
                lemma_offered(r, link, Cmd::SealPayload(p));
            },
            ParkedCmd::SealRaw(p) => {
                writer_laws::law_offers_keep_the_balance(r.task, r.link, p, true);
                lemma_offered(r, link, Cmd::SealRaw(p));
            },
            ParkedCmd::InitOutboundCompress(m) => {
                let d = Cmd::InitOutboundCompress { compression: m, ack: r.link.next_ack };
                writer_laws::lemma_queue_weight_push(r.link.bulk, d);
                lemma_offered(r, link, d);
            },
        }
    }
}

/// A batch offered.
proof fn lemma_offer_batch(r: Run, ps: Seq<Seq<u8>>, epoch: OutboundEpoch)
    requires
        r.is_sound(),
    ensures
        r.next(RunStep::OfferBatch(ps, epoch)).is_sound(),
{
    reveal(Run::next);
    if !r.beyond && r.link.pending_bytes + writer_laws::reserved_for(ps) <= usize::MAX {
        writer_laws::law_batch_offers_keep_the_balance(r.task, r.link, ps, epoch);
        lemma_offered(
            r,
            r.link.offered_batch(ps, epoch),
            Cmd::SealBatchAndInstallEpoch { payloads: ps, epoch, ack: r.link.next_ack },
        );
    }
}

/// A command without a payload offered.
proof fn lemma_offer_bare(r: Run, link: Link, c: Cmd)
    requires
        r.is_sound(),
        writer_laws::weight(c) == 0,
        link == (Link { bulk: link.bulk, kex: link.kex, next_ack: link.next_ack, ..r.link }),
        link.bulk == r.link.bulk || link.bulk == r.link.bulk.push(c),
    ensures
        r.offered(link).is_sound(),
{
    writer_laws::lemma_queue_weight_push(r.link.bulk, c);
    lemma_offered(r, link, c);
}

/// A payload that was sealed joins the sealed packets; one that was dropped or
/// failed does not.
proof fn lemma_seal_one(
    t: Task,
    l: Link,
    p: Seq<u8>,
    as_kex: bool,
    given: Option<Result<Seq<u8>, Error>>,
    more: nat,
)
    requires
        t.sink.wire.len() == 0,
        packets_fit(t),
        writer_laws::fits(t, l, p, given),
        writer_laws::in_balance(t, l, writer::reservation(p.len()) as nat + more),
    ensures
        ({
            let s = t.seal_one(l, p, as_kex, given);
            let f = fate(t, l, p, given);
            &&& f.is_due()
            &&& s.result is Err <==> f.end is Failed
            &&& !(f.end is GivenBack)
            &&& s.result is Ok ==> writer_laws::in_balance(s.task, s.link, more)
            &&& sealed_all(t, s.task, seq![f], seq![p])
            &&& s.link.bulk == l.bulk
        }),
{
    let s = t.seal_one(l, p, as_kex, given);
    let f = fate(t, l, p, given);
    writer_laws::lemma_seal_one_balance(t, l, p, as_kex, given, more);
    assert(t.sink.wire =~= Seq::empty());
    assert(seq![f].drop_last() =~= Seq::empty());
    assert(on_wire(seq![f].drop_last()) =~= Seq::empty());
    assert(on_wire(seq![f]) =~= f.on_wire());
    assert(turns(seq![f]) =~= under(seq![p], t.sink.cipher));
    if writer_task::should_drop(p, l.tombstone) || f.end is Failed {
        assert(t.unsent() + f.on_wire() =~= t.unsent());
    } else {
        let w = t.sink.seal_result(p, given)->Ok_0;
        assert(t.sink.wire + sshbuffer::clear_packet(p) =~= sshbuffer::clear_packet(p));
        if let Some(Ok(v)) = given {
            assert(t.sink.wire + v =~= v);
        }
        writer_laws::lemma_flatten_push(t.out, w);
        if w.len() == 0 {
            assert(s.task.out == t.out);
            assert(t.unsent() + w =~= t.unsent());
        } else {
            assert(s.task.out == t.out.push(w));
            assert(s.task.unsent() =~= t.unsent() + w);
            assert forall|k: int| 0 <= k < s.task.out.len() implies 0 < (
            #[trigger] s.task.out[k]).len() <= usize::MAX by {
                if k < t.out.len() {
                    assert(s.task.out[k] == t.out[k]);
                }
            }
        }
    }
}

/// What the turns of several payloads leave.
pub open spec fn sealed_all(t: Task, u: Task, fs: Seq<Fate>, ps: Seq<Seq<u8>>) -> bool {
    &&& turns(fs) == under(ps, t.sink.cipher)
    &&& all_due(fs)
    &&& u.unsent() == t.unsent() + on_wire(fs)
    &&& packets_fit(u)
    &&& u.sink.wire.len() == 0
    &&& u.sink.cipher == t.sink.cipher
    &&& u.dequeue_hold == t.dequeue_hold
    &&& u.current == t.current
    &&& u.cursor == t.cursor
}

/// What is given back leaves nothing on the wire.
proof fn lemma_back_on_wire(fs: Seq<Fate>)
    requires
        forall|k: int| 0 <= k < fs.len() ==> (#[trigger] fs[k]).end is GivenBack,
    ensures
        on_wire(fs) == Seq::<u8>::empty(),
    decreases fs.len(),
{
    if fs.len() > 0 {
        lemma_back_on_wire(fs.drop_last());
        assert(fs[fs.len() - 1].end is GivenBack);
        assert(on_wire(fs) =~= Seq::empty());
    }
}

/// A payload that failed and what is given back behind it.
proof fn lemma_failed(
    t: Task,
    l: Link,
    ps: Seq<Seq<u8>>,
    given: Seq<Result<Seq<u8>, Error>>,
    i: int,
    f: Fate,
)
    requires
        0 <= i < ps.len(),
        f.end is Failed,
        sealed_all(t, t, seq![f], seq![ps[i]]),
    ensures
        sealed_all(t, t, seq![f] + back_from(t, l, ps, given, i + 1), ps.skip(i)),
{
    let back = back_from(t, l, ps, given, i + 1);
    let fs = seq![f] + back;
    let key = t.sink.cipher;
    assert forall|k: int| 0 <= k < back.len() implies (#[trigger] back[k]).end is GivenBack by {}
    lemma_back_on_wire(back);
    lemma_on_wire_add(seq![f], back);
    assert(turns(seq![f])[0] == (f.payload, f.key));
    assert(under(seq![ps[i]], key)[0] == (ps[i], key));
    assert(turns(fs) =~= under(ps.skip(i), key)) by {
        assert forall|k: int| 0 <= k < turns(fs).len() implies turns(fs)[k] == under(
            ps.skip(i),
            key,
        )[k] by {
            if k > 0 {
                assert(fs[k] == back[k - 1]);
                assert(ps.skip(i + 1)[k - 1] == ps.skip(i)[k]);
            }
        }
    }
    assert forall|k: int| 0 <= k < fs.len() implies (#[trigger] fs[k]).is_due() by {
        if k > 0 {
            assert(fs[k] == back[k - 1]);
        } else {
            assert(seq![f][0].is_due());
        }
    }
    assert forall|k: int| 0 <= k < fs.len() && (#[trigger] fs[k]).end is GivenBack implies exists|
        j: int,
    |
        0 <= j < k && (#[trigger] fs[j]).end is Failed by {
        assert(fs[0].end is Failed);
    }
    assert(on_wire(seq![f]) + Seq::<u8>::empty() =~= on_wire(seq![f]));
}

/// The payloads of a batch.
proof fn lemma_batch(
    t: Task,
    l: Link,
    ps: Seq<Seq<u8>>,
    given: Seq<Result<Seq<u8>, Error>>,
    i: int,
)
    requires
        0 <= i <= ps.len(),
        t.sink.wire.len() == 0,
        packets_fit(t),
        writer_laws::batch_fits(t, l, ps, given, i),
        writer_laws::in_balance(t, l, writer_laws::reserved_for(ps.skip(i))),
    ensures
        sealed_all(
            t,
            t.seal_from(l, ps, given, i).0.task,
            fates_from(t, l, ps, true, given, i),
            ps.skip(i),
        ),
        t.seal_from(l, ps, given, i).0.link.bulk == l.bulk,
    decreases ps.len() - i,
{
    let fs = fates_from(t, l, ps, true, given, i);
    let key = t.sink.cipher;
    if i < ps.len() {
        let g = writer_task::nth(given, i);
        let s = t.seal_one(l, ps[i], true, g);
        let f = fate(t, l, ps[i], g);
        let more = writer_laws::reserved_for(ps.skip(i + 1));
        assert(ps.skip(i).drop_first() =~= ps.skip(i + 1));
        assert(ps.skip(i)[0] == ps[i]);
        lemma_seal_one(t, l, ps[i], true, g, more);
        if s.result is Ok {
            lemma_batch(s.task, s.link, ps, given, i + 1);
            let rest = fates_from(s.task, s.link, ps, true, given, i + 1);
            assert(fs == seq![f] + rest);
            assert(turns(seq![f])[0] == (f.payload, f.key));
            assert(under(seq![ps[i]], key)[0] == (ps[i], key));
            assert(turns(fs) =~= seq![(ps[i], key)] + turns(rest));
            assert(under(ps.skip(i), key) =~= seq![(ps[i], key)] + under(ps.skip(i + 1), key));
            lemma_on_wire_add(seq![f], rest);
            assert(t.unsent() + (on_wire(seq![f]) + on_wire(rest)) =~= t.unsent() + on_wire(
                seq![f],
            ) + on_wire(rest));
            lemma_due_add(seq![f], rest);
        } else {
            assert(s.task == t);
            lemma_failed(t, l, ps, given, i, f);
        }
    } else {
        assert(ps.skip(i) =~= Seq::empty());
        assert(turns(fs) =~= under(ps.skip(i), key));
        assert(on_wire(fs) =~= Seq::empty());
        assert(t.unsent() + on_wire(fs) =~= t.unsent());
    }
}

/// A command carried out: its payloads meet their due, and its key is in force
/// unless a seal failed.
proof fn lemma_handled(t: Task, l: Link, c: Cmd, given: Seq<Result<Seq<u8>, Error>>)
    requires
        t.sink.wire.len() == 0,
        packets_fit(t),
        writer_laws::cmd_fits(t, l, c, given),
        writer_laws::in_balance(t, l, writer_laws::weight(c)),
    ensures
        ({
            let s = t.handle(l, c, given);
            let fs = fates_of(t, l, c, given);
            &&& turns(fs) == under(payloads_of(c), t.sink.cipher)
            &&& all_due(fs)
            &&& s.task.unsent() == t.unsent() + on_wire(fs)
            &&& packets_fit(s.task)
            &&& s.task.sink.wire.len() == 0
            &&& s.task.sink.cipher == key_behind(c, s.result is Ok, t.sink.cipher)
            &&& s.task.dequeue_hold == t.dequeue_hold
            &&& s.task.current == t.current
            &&& s.task.cursor == t.cursor
            &&& s.link.bulk == l.bulk
        }),
{
    let s = t.handle(l, c, given);
    let fs = fates_of(t, l, c, given);
    match c {
        Cmd::SealPayload(p) => lemma_handled_payload(t, l, p, given),
        Cmd::SealRaw(p) => lemma_handled_payload(t, l, p, given),
        Cmd::SealBatchAndInstallEpoch { payloads, epoch, ack } => {
            assert(payloads.skip(0) =~= payloads);
            lemma_batch(t, l, payloads, given, 0);
            let u = t.seal_from(l, payloads, given, 0).0;
            assert(s.task.unsent() == u.task.unsent());
        },
        _ => {
            assert(fs =~= Seq::empty());
            assert(turns(fs) =~= under(payloads_of(c), t.sink.cipher));
            assert(t.unsent() + on_wire(fs) =~= t.unsent());
            assert(s.task.unsent() == t.unsent());
        },
    }
}

proof fn lemma_handled_payload(t: Task, l: Link, p: Seq<u8>, given: Seq<Result<Seq<u8>, Error>>)
    requires
        t.sink.wire.len() == 0,
        packets_fit(t),
        writer_laws::fits(t, l, p, writer_task::nth(given, 0)),
        writer_laws::in_balance(t, l, writer::reservation(p.len()) as nat),
    ensures
        sealed_all(
            t,
            t.handle_payload(l, p, given).task,
            fates_from(t, l, seq![p], false, given, 0),
            seq![p],
        ),
        t.handle_payload(l, p, given).link.bulk == l.bulk,
{
    let g = writer_task::nth(given, 0);
    let s = t.seal_one(l, p, false, g);
    let f = fate(t, l, p, g);
    lemma_seal_one(t, l, p, false, g, 0);
    let ps = seq![p];
    reveal_with_fuel(fates_from, 2);
    assert(back_from(t, l, ps, given, 1) =~= Seq::empty());
    assert(fates_from(t, l, ps, false, given, 0) =~= seq![f]);
    assert(t.handle_payload(l, p, given).task.unsent() == s.task.unsent());
}

/// What the step of taking a command is.
proof fn lemma_take_step(r: Run, given: Seq<Result<Seq<u8>, Error>>)
    ensures
        r.next(RunStep::Take(given)) == (if !r.beyond && r.task.next_command(r.link) is Some {
            r.took(given)
        } else {
            r
        }),
{
    reveal(Run::next);
}

/// What the step of writing is.
proof fn lemma_write_step(r: Run, n: nat)
    ensures
        ({
            let h = r.task.headed();
            r.next(RunStep::Write(n)) == (if !r.beyond && 0 < n <= h.unsent().len() && n
                <= r.link.pending_bytes {
                let (task, link) = h.wrote(r.link, n as usize);
                Run { task, link, written: r.written + h.unsent().take(n as int), ..r }
            } else {
                r
            })
        }),
{
    reveal(Run::next);
}

/// A command taken.
proof fn lemma_take(r: Run, given: Seq<Result<Seq<u8>, Error>>)
    requires
        r.is_sound(),
    ensures
        r.next(RunStep::Take(given)).is_sound(),
        r.next(RunStep::Take(given)).accepted == r.accepted,
        r.next(RunStep::Take(given)).head == r.head,
        r.next(RunStep::Take(given)).first_key == r.first_key,
        !r.next(RunStep::Take(given)).beyond && r.task.pulls() && r.link.bulk.len() > 0 ==> r.next(
            RunStep::Take(given),
        ).link.bulk == r.link.bulk.drop_first(),
        r.link.bulk.len() == 0 ==> r.next(RunStep::Take(given)) == r,
{
    lemma_take_step(r, given);
    if !r.beyond && r.task.pulls() && r.link.bulk.len() > 0 {
        let n = r.took(given);
        let popped = r.task.pulled(r.link).1;
        let c = r.link.bulk[0];
        assert(r.task.next_command(r.link) == Some(c));
        if writer_laws::cmd_fits(r.task, popped, c, given) {
            lemma_handled(r.task, popped, c, given);
            let l = Link { capacity: popped.capacity, ..r.link };
            assert(popped == (Link { bulk: l.bulk.drop_first(), ..l }));
            assert(writer_laws::in_balance(r.task, l, 0));
            writer_laws::law_commands_keep_the_balance(r.task, l, given);
            let ok = r.task.handle(popped, c, given).result is Ok;
            lemma_taken(r, n, c, ok, fates_of(r.task, popped, c, given));
        }
    }
}

/// What a command that was taken adds to what became of the payloads.
proof fn lemma_taken(r: Run, n: Run, c: Cmd, ok: bool, fs: Seq<Fate>)
    requires
        r.is_sound(),
        r.link.bulk.len() > 0,
        c == r.link.bulk[0],
        n.link.bulk == r.link.bulk.drop_first(),
        n.task.sink.cipher == key_behind(c, ok, r.task.sink.cipher),
        n.task.unsent() == r.task.unsent() + on_wire(fs),
        turns(fs) == under(payloads_of(c), r.task.sink.cipher),
        all_due(fs),
        n.taken == r.taken.push((c, ok)),
        n.fates == r.fates + fs,
        n.written == r.written,
        n.accepted == r.accepted,
        n.head == r.head,
        n.first_key == r.first_key,
    ensures
        commands(n.taken) + n.link.bulk == n.accepted,
        turns(n.fates) == in_turn(n.taken, n.first_key),
        n.task.sink.cipher == key_after(n.taken, n.first_key),
        all_due(n.fates),
        n.written + n.task.unsent() == n.head + on_wire(n.fates),
{
    assert(n.taken.drop_last() =~= r.taken);
    assert(commands(n.taken) + n.link.bulk =~= commands(r.taken) + r.link.bulk);
    assert(turns(n.fates) =~= turns(r.fates) + turns(fs));
    lemma_on_wire_add(r.fates, fs);
    lemma_due_add(r.fates, fs);
    assert(r.written + (r.task.unsent() + on_wire(fs)) =~= (r.written + r.task.unsent()) + on_wire(
        fs,
    ));
    assert(r.head + on_wire(r.fates) + on_wire(fs) =~= r.head + (on_wire(r.fates) + on_wire(fs)));
}

/// Bytes written.
#[verifier::rlimit(60)]
#[verifier::spinoff_prover]
proof fn lemma_write(r: Run, n: nat)
    requires
        r.is_sound(),
    ensures
        r.next(RunStep::Write(n)).is_sound(),
        r.next(RunStep::Write(n)) == (Run {
            task: r.next(RunStep::Write(n)).task,
            link: r.next(RunStep::Write(n)).link,
            written: r.next(RunStep::Write(n)).written,
            ..r
        }),
        r.next(RunStep::Write(n)).link.bulk == r.link.bulk,
        !r.beyond && 0 < n <= r.task.unsent().len() ==> r.next(
            RunStep::Write(n),
        ).task.unsent().len() < r.task.unsent().len(),
{
    lemma_write_step(r, n);
    let h = r.task.headed();
    lemma_headed_frame(r.task);
    writer_laws::law_seeking_keeps_the_bytes(r.task);
    if !r.beyond && 0 < n <= h.unsent().len() && n <= r.link.pending_bytes {
        let (t, l) = h.wrote(r.link, n as usize);
        writer_laws::law_writes_keep_the_balance(h, r.link, n as usize);
        let v = Task {
            segs: match r.link.full_ledger {
                Some(fl) => writer_drain::retire(
                    fl.at_writer((r.link.pending_bytes - n) as usize),
                    h.segs,
                    n,
                ).1,
                None => h.segs,
            },
            ..h
        };
        assert(v.unsent() == h.unsent());
        writer_laws::law_writes_take_the_first_bytes(v, n);
        lemma_spent_frame(v, n);
        assert(h.unsent().take(n as int) + h.unsent().skip(n as int) =~= h.unsent());
        assert((r.written + h.unsent().take(n as int)) + h.unsent().skip(n as int) =~= r.written
            + (h.unsent().take(n as int) + h.unsent().skip(n as int)));
    }
}

/// Every step keeps the run sound.
pub proof fn law_steps_keep_the_run_sound(r: Run, s: RunStep)
    requires
        r.is_sound(),
    ensures
        r.next(s).is_sound(),
{
    match s {
        RunStep::Offer(c) => lemma_offer(r, c),
        RunStep::OfferBatch(ps, epoch) => lemma_offer_batch(r, ps, epoch),
        RunStep::OfferInstall(epoch) => {
            reveal(Run::next);
            lemma_offer_bare(
                r,
                r.link.offered_install(epoch),
                Cmd::InstallOutboundEpoch { epoch, ack: r.link.next_ack },
            );
        },
        RunStep::Stop => {
            reveal(Run::next);
            lemma_offer_bare(r, r.link.asked_to_stop(), Cmd::Shutdown(r.link.next_ack));
        },
        RunStep::Mark(_) => {
            reveal(Run::next);
        },
        RunStep::Take(given) => lemma_take(r, given),
        RunStep::Write(n) => lemma_write(r, n),
    }
}

/// A writer that has just been started is at the beginning of its run, whatever
/// key, wire bytes, marks and ledger it takes over.
pub proof fn law_new_writers_are_fresh(
    sink: PacketSink,
    marks: Set<u32>,
    ledger: Option<FullLedger>,
    full: bool,
)
    requires
        sink.wire.len() <= usize::MAX,
    ensures
        (Run {
            task: Task::started(sink, ledger is Some),
            link: Link::idle(marks, ledger, full).taken_over(sink),
            head: sink.wire,
            first_key: sink.cipher,
            accepted: Seq::empty(),
            taken: Seq::empty(),
            fates: Seq::empty(),
            written: Seq::empty(),
            beyond: false,
        }).is_fresh(),
{
}

/// The beginning of a run is sound.
proof fn lemma_fresh(r: Run)
    requires
        r.is_fresh(),
    ensures
        r.is_sound(),
{
    assert(in_turn(r.taken, r.first_key) =~= Seq::empty());
    assert(turns(r.fates) =~= Seq::empty());
    assert(commands(r.taken) + r.link.bulk =~= r.accepted);
    assert(on_wire(r.fates) =~= Seq::empty());
    if r.head.len() > 0 {
        assert(r.task.out.drop_first() =~= Seq::empty());
        assert(r.task.out.flatten() =~= r.head + Seq::<Seq<u8>>::empty().flatten());
        assert(Seq::<Seq<u8>>::empty().flatten() =~= Seq::empty());
        assert(r.task.out.flatten() =~= r.head);
    } else {
        assert(r.task.out.flatten() =~= Seq::empty());
    }
    assert(r.written + r.task.unsent() =~= r.head + on_wire(r.fates));
}

/// Over any run from the beginning, what was written is the beginning of what
/// the task took over and of what became of the payloads that were taken; and
/// the commands that were taken are the first that were accepted, in order and
/// each once.
pub proof fn law_runs_are_sound(r: Run, steps: Seq<RunStep>)
    requires
        r.is_fresh(),
    ensures
        r.after(steps).is_sound(),
        r.after(steps).written.is_prefix_of(r.after(steps).head + on_wire(r.after(steps).fates)),
        commands(r.after(steps).taken).is_prefix_of(r.after(steps).accepted),
    decreases steps.len(),
{
    if steps.len() == 0 {
        lemma_fresh(r);
    } else {
        law_runs_are_sound(r, steps.drop_last());
        law_steps_keep_the_run_sound(r.after(steps.drop_last()), steps.last());
    }
    let e = r.after(steps);
    let all = e.written + e.task.unsent();
    assert(all.take(e.written.len() as int) =~= e.written);
    let cs = commands(e.taken) + e.link.bulk;
    assert(cs.take(commands(e.taken).len() as int) =~= commands(e.taken));
}

/// Where no seal failed, every payload that was taken was sealed, or dropped
/// because its channel was marked.
pub proof fn law_nothing_is_lost_unless_a_seal_fails(r: Run, k: int)
    requires
        r.is_sound(),
        0 <= k < r.fates.len(),
        forall|j: int| 0 <= j < r.fates.len() ==> !((#[trigger] r.fates[j]).end is Failed),
    ensures
        r.fates[k].end is Sealed <==> !writer_task::should_drop(
            r.fates[k].payload,
            r.fates[k].marks,
        ),
        r.fates[k].end is Dropped <==> writer_task::should_drop(
            r.fates[k].payload,
            r.fates[k].marks,
        ),
{
    assert(r.fates[k].is_due());
}

/// Packets with something in them make bytes.
proof fn lemma_flatten_nonempty(s: Seq<Seq<u8>>)
    requires
        s.len() > 0,
        s[0].len() > 0,
    ensures
        s.flatten().len() > 0,
{
    assert(s.flatten() == s[0] + s.drop_first().flatten());
}

/// As long as something is sealed, a socket that takes all that it is given
/// takes something.
proof fn lemma_given(r: Run)
    requires
        r.is_sound(),
        r.task.unsent().len() > 0,
    ensures
        0 < r.task.headed().gathered(true).flatten().len() <= r.task.unsent().len(),
{
    let h = r.task.headed();
    lemma_headed_frame(r.task);
    writer_laws::law_seeking_keeps_the_bytes(r.task);
    assert(h.current is Some) by {
        if h.current is None {
            assert(h.out.flatten() =~= Seq::empty());
        }
    }
    writer_laws::law_gathered_bytes_come_first(h, true);
    let g = h.gathered(true);
    assert(g[0] == h.current->0.skip(h.cursor as int));
    lemma_flatten_nonempty(g);
}

/// Once nothing is sealed any more, the task takes a command if one is there.
proof fn lemma_takes(r: Run)
    requires
        r.is_sound(),
        r.task.unsent().len() == 0,
    ensures
        r.task.pulls(),
{
    if r.task.out.len() > 0 {
        lemma_flatten_nonempty(r.task.out);
    }
}

/// Once nothing is sealed or queued any more, everything is written.
proof fn lemma_end(r: Run)
    requires
        r.is_sound(),
        r.task.unsent().len() == 0,
        r.link.bulk.len() == 0,
    ensures
        r.written == r.head + on_wire(r.fates),
        commands(r.taken) == r.accepted,
        r.link.pending_bytes == 0,
{
    assert(r.written + r.task.unsent() =~= r.written);
    assert(commands(r.taken) + r.link.bulk =~= commands(r.taken));
}

/// Once the socket takes all that it is given, every command that was accepted
/// has been taken, in order and once, and all that became of their payloads is
/// written, and nothing else. The pending count ends at zero.
pub proof fn law_runs_end_with_everything_written(
    r: Run,
    given: Seq<Seq<Result<Seq<u8>, Error>>>,
)
    requires
        r.is_sound(),
    ensures
        ({
            let e = r.finished(given);
            &&& e.is_sound()
            &&& e.accepted == r.accepted
            &&& e.head == r.head
            &&& e.first_key == r.first_key
            &&& !e.beyond ==> {
                &&& e.written == e.head + on_wire(e.fates)
                &&& commands(e.taken) == e.accepted
                &&& turns(e.fates) == in_turn(e.taken, e.first_key)
                &&& e.link.pending_bytes == 0
            }
        }),
    decreases r.link.bulk.len(), r.task.unsent().len(),
{
    let g = if given.len() > 0 {
        given[0]
    } else {
        Seq::empty()
    };
    lemma_take(r, g);
    if !r.beyond {
        if r.task.unsent().len() > 0 {
            let n = r.task.headed().gathered(true).flatten().len();
            lemma_given(r);
            lemma_write(r, n);
            law_runs_end_with_everything_written(r.next(RunStep::Write(n)), given);
        } else {
            lemma_takes(r);
            let t = r.next(RunStep::Take(g));
            if r.link.bulk.len() > 0 {
                if t.link.bulk.len() < r.link.bulk.len() {
                    law_runs_end_with_everything_written(t, given.drop_first());
                }
            } else {
                lemma_end(r);
            }
        }
    }
}

/// Within the size that a machine can hold, a payload under the clear key goes
/// out as a clear packet, or is dropped because its channel is marked.
#[verifier::rlimit(60)]
#[verifier::spinoff_prover]
pub proof fn law_clear_payloads_go_out(r: Run, given: Seq<Result<Seq<u8>, Error>>)
    requires
        r.is_sound(),
        !r.beyond,
        r.task.sink.cipher.is_clear(),
        r.task.pulls(),
        r.link.bulk.len() > 0,
        r.link.bulk[0] is SealPayload || r.link.bulk[0] is SealRaw,
        payloads_of(r.link.bulk[0])[0].len() + WIRE_OVERHEAD_PER_PACKET <= usize::MAX,
    ensures
        ({
            let p = payloads_of(r.link.bulk[0])[0];
            let n = r.next(RunStep::Take(given));
            &&& !n.beyond
            &&& n.fates.len() == r.fates.len() + 1
            &&& n.fates.last().end == (if writer_task::should_drop(p, r.link.tombstone) {
                End::Dropped
            } else if p.len() == 0 {
                End::Sealed(Seq::empty())
            } else {
                End::Sealed(sshbuffer::clear_packet(p))
            })
        }),
{
    reveal(Run::next);
    let c = r.link.bulk[0];
    let p = payloads_of(c)[0];
    let popped = r.task.pulled(r.link).1;
    assert(r.task.next_command(r.link) == Some(c));
    assert(popped.tombstone == r.link.tombstone);
    assert(popped.pending_bytes == r.link.pending_bytes);
    let w = sshbuffer::clear_packet(p);
    assert(w.len() == p.len() + 5 + sshbuffer::clear_padding(p.len()));
    assert(r.task.sink.wire =~= Seq::empty());
    assert(r.task.sink.wire + w =~= w);
    assert(writer_laws::queue_weight(r.link.bulk) >= writer::reservation(p.len()));
    assert(writer_laws::cmd_fits(r.task, popped, c, given));
    reveal_with_fuel(fates_from, 2);
    let fs = fates_of(r.task, popped, c, given);
    assert(back_from(r.task, popped, payloads_of(c), given, 1) =~= Seq::empty());
    assert(fs =~= seq![fate(r.task, popped, p, writer_task::nth(given, 0))]);
}

} // verus!
