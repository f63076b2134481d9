//! Queues for what came in faster than the application takes it.
use bytes::Bytes;
use std::collections::VecDeque;
use vstd::prelude::*;

use crate::wire;
use crate::wire::bytes_len;

verus! {

/// Something for the application's end of a channel.
#[derive(Debug)]
pub enum InboundItem {
    Data(Bytes),
    ExtendedData { ext: u32, data: Bytes },
    Eof,
    Close,
}

/// The content of an [`InboundItem`].
#[verifier::ext_equal]
pub enum Item {
    Data(Seq<u8>),
    ExtendedData { ext: u32, data: Seq<u8> },
    Eof,
    Close,
}

impl View for InboundItem {
    type V = Item;

    open spec fn view(&self) -> Item {
        match *self {
            InboundItem::Data(b) => Item::Data(wire::bytes_view(b)),
            InboundItem::ExtendedData { ext, data } => Item::ExtendedData {
                ext,
                data: wire::bytes_view(data),
            },
            InboundItem::Eof => Item::Eof,
            InboundItem::Close => Item::Close,
        }
    }
}

/// What waits for the application's end of one channel.
#[derive(Debug)]
pub struct InboundQueue {
    pub queue: VecDeque<InboundItem>,
    pub pending_bytes: usize,
    /// Tells this queue's waits from those of an earlier queue.
    pub generation: u64,
    /// A place in the application's buffer has been asked for.
    pub reserving: bool,
    pub eof_queued: bool,
    pub close_queued: bool,
}

/// The content of an [`InboundQueue`].
#[verifier::ext_equal]
pub struct Inbound {
    pub queue: Seq<Item>,
    pub pending_bytes: usize,
    pub generation: u64,
    pub reserving: bool,
    pub eof_queued: bool,
    pub close_queued: bool,
}

/// The items of a queue.
pub open spec fn items(q: Seq<InboundItem>) -> Seq<Item> {
    q.map_values(|i: InboundItem| i@)
}

impl View for InboundQueue {
    type V = Inbound;

    open spec fn view(&self) -> Inbound {
        Inbound {
            queue: items(self.queue@),
            pending_bytes: self.pending_bytes,
            generation: self.generation,
            reserving: self.reserving,
            eof_queued: self.eof_queued,
            close_queued: self.close_queued,
        }
    }
}

impl Item {
    /// Payload bytes.
    pub open spec fn size(self) -> nat {
        match self {
            Item::Data(d) => d.len(),
            Item::ExtendedData { data, .. } => data.len(),
            _ => 0,
        }
    }

    /// The item carries payload.
    pub open spec fn is_payload(self) -> bool {
        self is Data || self is ExtendedData
    }
}

impl Inbound {
    /// A queue with one item, and a place asked for.
    pub open spec fn started(item: Item, generation: u64) -> Inbound {
        Inbound {
            queue: seq![item],
            pending_bytes: item.size() as usize,
            generation,
            reserving: true,
            eof_queued: item is Eof,
            close_queued: item is Close,
        }
    }

    /// One more item at the end.
    pub open spec fn joined(self, item: Item) -> Inbound {
        Inbound {
            queue: self.queue.push(item),
            pending_bytes: (self.pending_bytes + item.size()) as usize,
            eof_queued: self.eof_queued || item is Eof,
            close_queued: self.close_queued || item is Close,
            ..self
        }
    }

    /// The first item gone.
    pub open spec fn popped(self) -> Inbound {
        Inbound {
            queue: self.queue.drop_first(),
            pending_bytes: if self.queue[0].size() <= self.pending_bytes {
                (self.pending_bytes - self.queue[0].size()) as usize
            } else {
                0
            },
            ..self
        }
    }
}

impl InboundItem {
    /// Payload bytes.
    pub fn byte_len(&self) -> (r: usize)
        ensures
            r == self@.size(),
    {
        match self {
            InboundItem::Data(d) => bytes_len(d),
            InboundItem::ExtendedData { data, .. } => bytes_len(data),
            _ => 0,
        }
    }

    /// Whether the item carries payload, so that its delivery earns the peer
    /// a window grant.
    pub fn grants_window(&self) -> (r: bool)
        ensures
            r == self@.is_payload(),
    {
        match self {
            InboundItem::Data(_) | InboundItem::ExtendedData { .. } => true,
            _ => false,
        }
    }
}

impl InboundQueue {
    /// A queue with one item, and a place asked for.
    pub fn start(item: InboundItem, generation: u64) -> (r: InboundQueue)
        ensures
            r@ == Inbound::started(item@, generation),
    {
        let pending_bytes: usize = item.byte_len();
        let eof_queued: bool = match &item {
            InboundItem::Eof => true,
            _ => false,
        };
        let close_queued: bool = match &item {
            InboundItem::Close => true,
            _ => false,
        };
        let ghost i = item@;
        let mut queue: VecDeque<InboundItem> = VecDeque::new();
        queue.push_back(item);
        assert(items(queue@) =~= seq![i]);
        InboundQueue {
            queue,
            pending_bytes,
            generation,
            reserving: true,
            eof_queued,
            close_queued,
        }
    }

    /// Adds an item at the end.
    pub fn join(&mut self, item: InboundItem)
        requires
            old(self)@.pending_bytes + item@.size() <= usize::MAX,
        ensures
            final(self)@ == old(self)@.joined(item@),
    {
        self.pending_bytes = self.pending_bytes + item.byte_len();
        match &item {
            InboundItem::Eof => {
                self.eof_queued = true;
            },
            InboundItem::Close => {
                self.close_queued = true;
            },
            _ => {},
        }
        let ghost i = item@;
        self.queue.push_back(item);
        assert(items(self.queue@) =~= items(old(self).queue@).push(i));
    }

    /// Takes the first item.
    pub fn pop(&mut self) -> (r: Option<InboundItem>)
        ensures
            r is Some <==> old(self)@.queue.len() > 0,
            r matches Some(i) ==> i@ == old(self)@.queue[0] && final(self)@ == old(self)@.popped(),
            r is None ==> final(self)@ == old(self)@,
    {
        match self.queue.pop_front() {
            Some(item) => {
                self.pending_bytes = self.pending_bytes.saturating_sub(item.byte_len());
                assert(items(self.queue@) =~= items(old(self).queue@).drop_first());
                Some(item)
            },
            None => None,
        }
    }
}

} // verus!
