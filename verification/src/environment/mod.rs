//! The parts of the emulator's environment that the host functions here
//! read and change.
use vstd::prelude::*;
use crate::frameworks::FrameworkState;
use crate::mem::{Mem, block_size, mapped, put_u32, put_words};
use crate::frameworks::audio_toolbox::audio_queue::{
    queues, queue_ref, queues_well_formed, AudioQueueHostObject, HostObjectView,
};

pub mod app_picker;

verus! {

/// The emulator state that the audio host functions work on. Its fields
/// are changed only through this crate, whose functions all keep the audio
/// queues well formed (see [`queues_well_formed`]); [`Environment::new`]
/// makes them so.
pub struct Environment {
    /// Guest memory.
    pub(crate) mem: Mem,
    /// Per-framework host state.
    pub(crate) framework_state: FrameworkState,
    /// The guest's main run loop (what `CFRunLoopGetMain` returns).
    pub(crate) main_run_loop: u32,
    /// Audio queues attached to run loops, as (run loop, queue) pairs in the
    /// order they were attached; the run loop drives their callbacks.
    pub(crate) run_loop_audio_queues: Vec<(u32, u32)>,
}

/// [`Environment`] as mathematical values.
pub struct EnvironmentView {
    /// Guest memory, byte by byte.
    pub mem: Seq<u8>,
    /// The audio queues, by the address of their guest object.
    pub queues: Map<u32, HostObjectView>,
    pub main_run_loop: u32,
    pub run_loop_audio_queues: Seq<(u32, u32)>,
}

impl View for Environment {
    type V = EnvironmentView;

    open(crate) spec fn view(&self) -> EnvironmentView {
        EnvironmentView {
            mem: self.mem@,
            queues: queues(self.framework_state),
            main_run_loop: self.main_run_loop,
            run_loop_audio_queues: self.run_loop_audio_queues@,
        }
    }
}

impl Environment {
    /// A fresh environment: empty guest memory, no audio queue, none
    /// attached to a run loop.
    pub fn new(main_run_loop: u32) -> (env: Environment)
        ensures
            env@.mem == Seq::new(crate::mem::NULL_PAGE_SIZE as nat, |i: int| 0u8),
            env@.queues == Map::<u32, HostObjectView>::empty(),
            env@.main_run_loop == main_run_loop,
            env@.run_loop_audio_queues.len() == 0,
            queues_well_formed(env),
    {
        Environment {
            mem: Mem::new(),
            framework_state: FrameworkState { audio_toolbox: None },
            main_run_loop,
            run_loop_audio_queues: Vec::new(),
        }
    }

    /// Guest memory, to read.
    pub fn mem(&self) -> (m: &Mem)
        ensures
            m@ == self@.mem,
    {
        &self.mem
    }

    /// The audio queues attached to run loops, as (run loop, queue) pairs.
    pub fn run_loop_audio_queues(&self) -> (q: &Vec<(u32, u32)>)
        ensures
            q@ == self@.run_loop_audio_queues,
    {
        &self.run_loop_audio_queues
    }

    /// The audio queue whose guest object is at `aq`, if there is one.
    pub fn audio_queue(&self, aq: u32) -> (h: Option<&AudioQueueHostObject>)
        ensures
            match h {
                Some(x) => self@.queues.contains_key(aq) && x@ == self@.queues[aq],
                None => !self@.queues.contains_key(aq),
            },
    {
        match &self.framework_state.audio_toolbox {
            None => None,
            Some(state) => queue_ref(state, aq),
        }
    }

    /// Allocates a zeroed block of guest memory of at least `size` bytes
    /// (see [`Mem::allocate`]).
    pub fn allocate(&mut self, size: u32) -> (addr: u32)
        requires
            old(self)@.mem.len() + block_size(size as nat) <= u32::MAX,
        ensures
            addr == old(self)@.mem.len(),
            final(self)@ == (EnvironmentView {
                mem: old(self)@.mem + Seq::new(block_size(size as nat), |i: int| 0u8),
                ..old(self)@
            }),
            queues_well_formed(*old(self)) ==> queues_well_formed(*final(self)),
    {
        self.mem.allocate(size)
    }

    /// Stores the little-endian word `v` at guest address `addr`.
    pub fn write_u32(&mut self, addr: u32, v: u32)
        requires
            mapped(old(self)@.mem, addr as int, 4),
        ensures
            final(self)@ == (EnvironmentView { mem: put_u32(old(self)@.mem, addr as int, v), ..old(self)@ }),
            queues_well_formed(*old(self)) ==> queues_well_formed(*final(self)),
    {
        self.mem.write_u32(addr, v)
    }

    /// Stores the words `w` one after the other from guest address `addr`.
    pub fn write_words(&mut self, addr: u32, w: &[u32])
        requires
            mapped(old(self)@.mem, addr as int, 4 * w@.len() as int),
        ensures
            final(self)@ == (EnvironmentView { mem: put_words(old(self)@.mem, addr as int, w@), ..old(self)@ }),
            queues_well_formed(*old(self)) ==> queues_well_formed(*final(self)),
    {
        self.mem.write_words(addr, w)
    }
}

} // verus!
