//! The session's end of the reader task: one slot for the next inbound key,
//! the lanes that the task fills, and the commands it is sent.
use std::collections::HashMap;
use vstd::prelude::*;

use crate::sshbuffer::{CipherKey, Compression};

verus! {

broadcast use vstd::std_specs::hash::group_hash_axioms;

/// A key to install for inbound packets, and what goes with it.
#[derive(Clone, Copy, Debug, PartialEq, Eq, Structural)]
pub struct InstallInboundEpoch {
    pub generation: u64,
    pub cipher: CipherKey,
    pub compression: Compression,
    pub activate_decompress: bool,
    pub reset_seqn: bool,
}

/// What the session asks of the reader task.
#[derive(Clone, Copy, Debug, PartialEq, Eq, Structural)]
pub enum ReaderCmd {
    Install(InstallInboundEpoch),
    EnableDecompress(Compression),
    OpenLane { id: u32, generation: u64, window: u32, max_packet: u32 },
    CloseLane { id: u32, generation: u64 },
    ReleaseCtrl(usize),
}

/// A lane that the reader task fills.
#[derive(Clone, Copy, Debug, PartialEq, Eq, Structural)]
pub struct LaneInfo {
    /// Tells a channel from an earlier one of the same number.
    pub generation: u64,
    /// Payload bytes in the lane.
    pub bytes: usize,
}

/// Why an inbound key was not taken.
#[derive(Clone, Copy, Debug, PartialEq, Eq, Structural)]
pub enum TryInstallInboundError {
    Full,
    Closed,
}

/// The session's end of the reader task.
#[derive(Debug)]
pub struct ReaderHandle {
    pub closed: bool,
    /// An inbound key waits to be taken by the task.
    pub installing: bool,
    pub lanes: HashMap<u32, LaneInfo>,
    pub next_generation: u64,
    /// For the task, in order.
    pub cmds: Vec<ReaderCmd>,
}

/// The content of a [`ReaderHandle`].
#[verifier::ext_equal]
pub struct Reader {
    pub closed: bool,
    pub installing: bool,
    pub lanes: Map<u32, LaneInfo>,
    pub next_generation: u64,
    pub cmds: Seq<ReaderCmd>,
}

impl View for ReaderHandle {
    type V = Reader;

    open spec fn view(&self) -> Reader {
        Reader {
            closed: self.closed,
            installing: self.installing,
            lanes: self.lanes@,
            next_generation: self.next_generation,
            cmds: self.cmds@,
        }
    }
}

impl Reader {
    /// One more command for the task.
    pub open spec fn told(self, c: ReaderCmd) -> Reader {
        Reader { cmds: self.cmds.push(c), ..self }
    }

    /// The generation of lane `id`; 0 where there is none.
    pub open spec fn generation(self, id: u32) -> u64 {
        if self.lanes.contains_key(id) {
            self.lanes[id].generation
        } else {
            0
        }
    }

    /// A lane for channel `id`, under a generation of its own.
    pub open spec fn opened(self, id: u32, window: u32, max_packet: u32) -> Reader {
        let g = self.next_generation;
        (Reader {
            lanes: self.lanes.insert(id, LaneInfo { generation: g, bytes: 0 }),
            next_generation: g.wrapping_add(1),
            ..self
        }).told(ReaderCmd::OpenLane { id, generation: g, window, max_packet })
    }

    /// The lane of channel `id` gone.
    pub open spec fn shut(self, id: u32) -> Reader {
        (Reader { lanes: self.lanes.remove(id), ..self }).told(
            ReaderCmd::CloseLane { id, generation: self.generation(id) },
        )
    }

    /// Payload bytes in the lane of channel `id`.
    pub open spec fn occupancy(self, id: u32) -> usize {
        if self.lanes.contains_key(id) {
            self.lanes[id].bytes
        } else {
            0
        }
    }
}

impl ReaderHandle {
    /// No lane, no key on its way.
    pub fn new() -> (r: ReaderHandle)
        ensures
            r@ == (Reader {
                closed: false,
                installing: false,
                lanes: Map::empty(),
                next_generation: 1,
                cmds: Seq::empty(),
            }),
    {
        ReaderHandle {
            closed: false,
            installing: false,
            lanes: HashMap::new(),
            next_generation: 1,
            cmds: Vec::new(),
        }
    }

    /// Hands the next inbound key over; there is one slot for it.
    pub fn try_install_inbound(&mut self, epoch: InstallInboundEpoch) -> (r: Result<
        (),
        TryInstallInboundError,
    >)
        ensures
            if old(self)@.closed {
                r == Err::<(), TryInstallInboundError>(TryInstallInboundError::Closed) && final(
                    self)@ == old(self)@
            } else if old(self)@.installing {
                r == Err::<(), TryInstallInboundError>(TryInstallInboundError::Full) && final(
                    self)@ == old(self)@
            } else {
                r is Ok && final(self)@ == (Reader { installing: true, ..old(self)@ }).told(
                    ReaderCmd::Install(epoch),
                )
            },
    {
        if self.closed {
            return Err(TryInstallInboundError::Closed);
        }
        if self.installing {
            return Err(TryInstallInboundError::Full);
        }
        self.installing = true;
        self.cmds.push(ReaderCmd::Install(epoch));
        Ok(())
    }

    /// Asks for the decompressor that was put off until authentication.
    pub fn try_enable_decompress(&mut self, compression: Compression)
        ensures
            final(self)@ == (if old(self)@.closed {
                old(self)@
            } else {
                old(self)@.told(ReaderCmd::EnableDecompress(compression))
            }),
    {
        if !self.closed {
            self.cmds.push(ReaderCmd::EnableDecompress(compression));
        }
    }

    /// Opens a lane.
    pub fn open_lane(&mut self, id: u32, window: u32, max_packet: u32)
        ensures
            final(self)@ == old(self)@.opened(id, window, max_packet),
    {
        let generation: u64 = self.next_generation;
        self.next_generation = generation.wrapping_add(1);
        self.lanes.insert(id, LaneInfo { generation, bytes: 0 });
        self.cmds.push(ReaderCmd::OpenLane { id, generation, window, max_packet });
    }

    /// The generation of a lane.
    pub fn lane_gen(&self, id: u32) -> (r: Option<u64>)
        ensures
            r == (if self@.lanes.contains_key(id) {
                Some(self@.lanes[id].generation)
            } else {
                None
            }),
    {
        match self.lanes.get(&id) {
            Some(l) => Some(l.generation),
            None => None,
        }
    }

    /// Closes the lane that a channel has now.
    pub fn close_lane(&mut self, id: u32)
        ensures
            final(self)@ == old(self)@.shut(id),
    {
        let generation: u64 = match self.lane_gen(id) {
            Some(g) => g,
            None => 0,
        };
        self.lanes.remove(&id);
        self.cmds.push(ReaderCmd::CloseLane { id, generation });
    }

    /// Payload bytes in a lane.
    pub fn occupancy_bytes(&self, id: u32) -> (r: usize)
        ensures
            r == self@.occupancy(id),
    {
        match self.lanes.get(&id) {
            Some(l) => l.bytes,
            None => 0,
        }
    }

    /// Gives back the room that a control message took.
    pub fn release_ctrl(&mut self, n: usize)
        ensures
            final(self)@ == old(self)@.told(ReaderCmd::ReleaseCtrl(n)),
    {
        self.cmds.push(ReaderCmd::ReleaseCtrl(n));
    }
}

} // verus!
