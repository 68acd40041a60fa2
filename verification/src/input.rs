//! The kernel's keyboard input buffer.
//!
//! Keystrokes arrive from the serial interrupt and wait in a bounded
//! lock-free queue until a process reads standard input.  The queue
//! itself comes from an outside crate; its contents are named below and
//! every call the kernel makes is wrapped with the contract the crate's
//! source shows.

use vstd::prelude::*;
use crossbeam_queue::ArrayQueue;

verus! {

/// How many pending keystrokes the buffer holds at most.
pub const INPUT_BUF_SIZE: usize = 128;

/// The pending keystrokes, oldest first.
pub uninterp spec fn input_contents(b: InputBuffer) -> Seq<u8>;

/// The bound the buffer was created with.
pub uninterp spec fn input_capacity(b: InputBuffer) -> nat;

/// The buffer of keystrokes not yet read, in arrival order.
#[verifier::external_body]
pub struct InputBuffer {
    queue: ArrayQueue<u8>,
}

impl InputBuffer {
    /// An empty buffer bounded at [`INPUT_BUF_SIZE`].
    ///
    /// Relies on `crossbeam_queue::ArrayQueue::new`: a queue that holds
    /// no element and accepts at most `cap` of them.
    #[verifier::external_body]
    pub fn new() -> (r: InputBuffer)
        ensures
            input_contents(r) == Seq::<u8>::empty(),
            input_capacity(r) == INPUT_BUF_SIZE,
    {
        InputBuffer { queue: ArrayQueue::new(INPUT_BUF_SIZE) }
    }

    /// Append a keystroke if the buffer has room, else report failure
    /// and change nothing.
    ///
    /// Relies on `crossbeam_queue::ArrayQueue::push`: appends the element
    /// at the tail unless the queue is full.
    #[verifier::external_body]
    pub fn push(&mut self, key: u8) -> (r: bool)
        ensures
            input_capacity(*final(self)) == input_capacity(*old(self)),
            r == (input_contents(*old(self)).len() < input_capacity(*old(self))),
            r ==> input_contents(*final(self)) == input_contents(*old(self)).push(key),
            !r ==> input_contents(*final(self)) == input_contents(*old(self)),
    {
        self.queue.push(key).is_ok()
    }

    /// Take the oldest keystroke, if any.
    ///
    /// Relies on `crossbeam_queue::ArrayQueue::pop`: removes and returns
    /// the element at the head unless the queue is empty.
    #[verifier::external_body]
    pub fn pop(&mut self) -> (r: Option<u8>)
        ensures
            input_capacity(*final(self)) == input_capacity(*old(self)),
            match r {
                Some(key) => input_contents(*old(self)).len() > 0 && key == input_contents(
                    *old(self),
                )[0] && input_contents(*final(self)) == input_contents(*old(self)).drop_first(),
                None => input_contents(*old(self)).len() == 0 && input_contents(*final(self))
                    == input_contents(*old(self)),
            },
    {
        self.queue.pop()
    }
}

/// Queue a keystroke from the serial interrupt; a full buffer drops it.
pub fn push_key(buffer: &mut InputBuffer, key: u8) -> (r: bool)
    ensures
        r == (input_contents(*old(buffer)).len() < input_capacity(*old(buffer))),
        r ==> input_contents(*final(buffer)) == input_contents(*old(buffer)).push(key),
        !r ==> input_contents(*final(buffer)) == input_contents(*old(buffer)),
        input_capacity(*final(buffer)) == input_capacity(*old(buffer)),
{
    buffer.push(key)
}

/// Take the oldest pending keystroke, if any.
pub fn try_pop_key(buffer: &mut InputBuffer) -> (r: Option<u8>)
    ensures
        input_capacity(*final(buffer)) == input_capacity(*old(buffer)),
        match r {
            Some(key) => input_contents(*old(buffer)).len() > 0 && key == input_contents(
                *old(buffer),
            )[0] && input_contents(*final(buffer)) == input_contents(*old(buffer)).drop_first(),
            None => input_contents(*old(buffer)).len() == 0 && input_contents(*final(buffer))
                == input_contents(*old(buffer)),
        },
{
    buffer.pop()
}

/// Take the oldest pending keystroke.  The kernel calls this only while
/// a keystroke is pending; on hardware this spins until the serial
/// interrupt hands one over, which a single instruction stream cannot.
pub fn pop_key(buffer: &mut InputBuffer) -> (r: u8)
    requires
        input_contents(*old(buffer)).len() > 0,
    ensures
        r == input_contents(*old(buffer))[0],
        input_contents(*final(buffer)) == input_contents(*old(buffer)).drop_first(),
        input_capacity(*final(buffer)) == input_capacity(*old(buffer)),
{
    match try_pop_key(buffer) {
        Some(key) => key,
        None => {
            proof {
                assert(false);
            }
            0
        },
    }
}

} // verus!
