//! Bounded first-in first-out queue of ethernet frames, a
//! `crossbeam_queue::ArrayQueue`.
use vstd::prelude::*;

verus! {

/// The bounded queue of `crossbeam_queue`.
#[verifier::external_type_specification]
#[verifier::external_body]
#[verifier::reject_recursive_types(T)]
pub struct ExArrayQueue<T>(crossbeam_queue::ArrayQueue<T>);

/// The frames that a queue holds, oldest first.
pub uninterp spec fn frames_in(queue: crossbeam_queue::ArrayQueue<Vec<u8>>) -> Seq<Seq<u8>>;

/// The number of frames that a queue was made for.
pub uninterp spec fn room_of(queue: crossbeam_queue::ArrayQueue<Vec<u8>>) -> nat;

/// Calls `ArrayQueue::new`: an empty queue for `capacity` frames. It panics
/// without room, and where its slots of at most 32 bytes do not fit in memory's
/// address range.
#[verifier::external_body]
fn make_queue(capacity: usize) -> (r: crossbeam_queue::ArrayQueue<Vec<u8>>)
    requires
        0 < capacity,
        capacity * 32 <= isize::MAX,
    ensures
        frames_in(r) == Seq::<Seq<u8>>::empty(),
        room_of(r) == capacity,
{
    crossbeam_queue::ArrayQueue::new(capacity)
}

/// Calls `ArrayQueue::push` on a queue that nobody else uses: the frame is put
/// last, or handed back where the queue is full.
#[verifier::external_body]
fn push_frame(queue: &mut crossbeam_queue::ArrayQueue<Vec<u8>>, frame: Vec<u8>) -> (r: Result<
    (),
    Vec<u8>,
>)
    ensures
        room_of(*final(queue)) == room_of(*old(queue)),
        match r {
            Ok(_) => frames_in(*old(queue)).len() < room_of(*old(queue)) && frames_in(*final(queue))
                == frames_in(*old(queue)).push(frame@),
            Err(rejected) => frames_in(*old(queue)).len() >= room_of(*old(queue)) && frames_in(
                *final(queue),
            ) == frames_in(*old(queue)) && rejected@ == frame@,
        },
{
    queue.push(frame)
}

/// Calls `ArrayQueue::pop` on a queue that nobody else uses: the oldest frame
/// is taken out, and nothing of an empty queue.
#[verifier::external_body]
fn pop_frame(queue: &mut crossbeam_queue::ArrayQueue<Vec<u8>>) -> (r: Option<Vec<u8>>)
    ensures
        room_of(*final(queue)) == room_of(*old(queue)),
        match r {
            Some(frame) => frames_in(*old(queue)).len() > 0 && frame@ == frames_in(*old(queue))[0]
                && frames_in(*final(queue)) == frames_in(*old(queue)).drop_first(),
            None => frames_in(*old(queue)).len() == 0 && frames_in(*final(queue)) == frames_in(
                *old(queue),
            ),
        },
{
    queue.pop()
}

/// Calls `ArrayQueue::len` on a queue that nobody else uses: the number of
/// frames in it.
#[verifier::external_body]
fn count_frames(queue: &crossbeam_queue::ArrayQueue<Vec<u8>>) -> (r: usize)
    ensures
        r == frames_in(*queue).len(),
{
    queue.len()
}

/// Calls `ArrayQueue::capacity`: the number of frames that the queue was made
/// for.
#[verifier::external_body]
fn queue_capacity(queue: &crossbeam_queue::ArrayQueue<Vec<u8>>) -> (r: usize)
    ensures
        r == room_of(*queue),
{
    queue.capacity()
}

/// A bounded first-in first-out queue of ethernet frames.
#[derive(Debug)]
pub struct FrameQueue {
    queue: crossbeam_queue::ArrayQueue<Vec<u8>>,
}

impl View for FrameQueue {
    type V = Seq<Seq<u8>>;

    closed spec fn view(&self) -> Seq<Seq<u8>> {
        frames_in(self.queue)
    }
}

impl FrameQueue {
    /// The number of frames that the queue was made for.
    pub closed spec fn room(&self) -> nat {
        room_of(self.queue)
    }

    /// The queue holds no more frames than it was made for.
    pub open spec fn wf(&self) -> bool {
        self@.len() <= self.room()
    }

    /// An empty queue for `capacity` frames.
    pub fn new(capacity: usize) -> (r: Self)
        requires
            0 < capacity,
            capacity * 32 <= isize::MAX,
        ensures
            r@ == Seq::<Seq<u8>>::empty(),
            r.room() == capacity,
            r.wf(),
    {
        FrameQueue { queue: make_queue(capacity) }
    }

    /// Puts a frame last, or hands it back where the queue is full.
    pub fn push(&mut self, frame: Vec<u8>) -> (r: Result<(), Vec<u8>>)
        ensures
            final(self).room() == old(self).room(),
            old(self).wf() ==> final(self).wf(),
            match r {
                Ok(_) => old(self)@.len() < old(self).room() && final(self)@ == old(self)@.push(
                    frame@,
                ),
                Err(rejected) => old(self)@.len() >= old(self).room() && final(self)@ == old(self)@
                    && rejected@ == frame@,
            },
    {
        push_frame(&mut self.queue, frame)
    }

    /// Takes the oldest frame out.
    pub fn pop(&mut self) -> (r: Option<Vec<u8>>)
        ensures
            final(self).room() == old(self).room(),
            old(self).wf() ==> final(self).wf(),
            match r {
                Some(frame) => old(self)@.len() > 0 && frame@ == old(self)@[0] && final(self)@
                    == old(self)@.drop_first(),
                None => old(self)@.len() == 0 && final(self)@ == old(self)@,
            },
    {
        pop_frame(&mut self.queue)
    }

    /// Number of frames in the queue.
    pub fn len(&self) -> (r: usize)
        ensures
            r == self@.len(),
    {
        count_frames(&self.queue)
    }

    /// Number of frames that the queue was made for.
    pub fn capacity(&self) -> (r: usize)
        ensures
            r == self.room(),
    {
        queue_capacity(&self.queue)
    }
}

} // verus!
