//! Bounded Receive Buffer: a fixed-capacity FIFO byte queue with drop-oldest
//! eviction, backed by a `heapless` deque.

use vstd::prelude::*;

verus! {

#[verifier::external_type_specification]
#[verifier::external_body]
#[verifier::reject_recursive_types(T)]
pub struct ExDeque<T, const N: usize>(heapless::Deque<T, N>);

/// The bytes a deque holds, front to back.
pub uninterp spec fn deque_bytes(d: heapless::Deque<u8, 1024>) -> Seq<u8>;

/// Relies on heapless::Deque::new: a freshly constructed deque is empty.
#[verifier::external_body]
fn deque_new() -> (d: heapless::Deque<u8, 1024>)
    ensures
        deque_bytes(d) == Seq::<u8>::empty(),
{
    heapless::Deque::new()
}

/// Relies on heapless::Deque::len: the number of elements currently stored.
#[verifier::external_body]
fn deque_len(d: &heapless::Deque<u8, 1024>) -> (n: usize)
    ensures
        n == deque_bytes(*d).len(),
{
    d.len()
}

/// Relies on heapless::Deque::push_back: appends at the back, or hands the
/// byte back untouched when the deque already holds its capacity of 1024;
/// neither path can panic.
#[verifier::external_body]
fn deque_push_back(d: &mut heapless::Deque<u8, 1024>, b: u8) -> (r: Result<(), u8>)
    ensures
        deque_bytes(*old(d)).len() < 1024 ==> r is Ok && deque_bytes(*final(d))
            == deque_bytes(*old(d)).push(b),
        deque_bytes(*old(d)).len() >= 1024 ==> r is Err && deque_bytes(*final(d))
            == deque_bytes(*old(d)),
    no_unwind
{
    d.push_back(b)
}

/// Relies on heapless::Deque::pop_front: removes and returns the front
/// element, or returns `None` and changes nothing when the deque is empty;
/// neither path can panic.
#[verifier::external_body]
fn deque_pop_front(d: &mut heapless::Deque<u8, 1024>) -> (r: Option<u8>)
    ensures
        deque_bytes(*old(d)).len() == 0 ==> r is None && deque_bytes(*final(d))
            == deque_bytes(*old(d)),
        deque_bytes(*old(d)).len() > 0 ==> r == Some(deque_bytes(*old(d))[0])
            && deque_bytes(*final(d)) == deque_bytes(*old(d)).drop_first(),
    no_unwind
{
    d.pop_front()
}

/// Relies on heapless::Deque::iter: visits the elements front to back.
#[verifier::external_body]
fn deque_to_vec(d: &heapless::Deque<u8, 1024>) -> (r: Vec<u8>)
    ensures
        r@ == deque_bytes(*d),
{
    d.iter().copied().collect()
}

/// The `cap` most recently appended bytes of the history `s`: all of `s` when
/// it fits, else its last `cap` bytes in order.
pub open spec fn keep_last(s: Seq<u8>, cap: nat) -> Seq<u8> {
    if s.len() <= cap {
        s
    } else {
        s.skip(s.len() - cap)
    }
}

/// Drop-oldest eviction forgets nothing it would not have to: evicting down
/// to the last `cap` bytes after every single append leaves the same contents
/// as keeping the last `cap` bytes of the whole append history.
pub proof fn lemma_keep_last_push(s: Seq<u8>, b: u8, cap: nat)
    ensures
        keep_last(keep_last(s, cap).push(b), cap) == keep_last(s.push(b), cap),
{
    assert(keep_last(keep_last(s, cap).push(b), cap) =~= keep_last(s.push(b), cap));
}

/// For an append history that exceeds the capacity, the contents `append` and
/// `extend` leave behind are exactly the last 1024 appended bytes, in order:
/// byte `j` of the buffer is the byte appended `1024 - j` appends before the
/// end of the history.
pub proof fn lemma_contents_are_last_capacity(history: Seq<u8>)
    requires
        history.len() >= 1024,
    ensures
        keep_last(history, 1024).len() == 1024,
        forall|j: int|
            0 <= j < 1024 ==> keep_last(history, 1024)[j] == history[history.len() - 1024 + j],
{
}

/// First-in-first-out byte queue of fixed capacity 1024. Appending to a full
/// buffer evicts the oldest byte first, so the buffer always holds the most
/// recently appended bytes in arrival order.
pub struct RecvBuffer {
    inner: heapless::Deque<u8, 1024>,
}

impl View for RecvBuffer {
    type V = Seq<u8>;

    closed spec fn view(&self) -> Seq<u8> {
        deque_bytes(self.inner)
    }
}

impl RecvBuffer {
    /// The buffer never holds more than its capacity.
    #[verifier::type_invariant]
    spec fn capacity_inv(self) -> bool {
        self@.len() <= 1024
    }

    /// An empty buffer.
    pub fn new() -> (r: RecvBuffer)
        ensures
            r@ == Seq::<u8>::empty(),
    {
        RecvBuffer { inner: deque_new() }
    }

    /// The number of bytes currently buffered.
    pub fn len(&self) -> (n: usize)
        ensures
            n == self@.len(),
    {
        deque_len(&self.inner)
    }

    /// Append one byte at the tail; when the buffer is full, the head byte is
    /// evicted first, never the new one.
    pub fn append(&mut self, b: u8)
        ensures
            final(self)@ == keep_last(old(self)@.push(b), 1024),
    {
        proof {
            use_type_invariant(&*self);
        }
        match deque_push_back(&mut self.inner, b) {
            Ok(_) => {
                proof {
                    assert(self@ =~= keep_last(old(self)@.push(b), 1024));
                }
            }
            Err(_) => {
                let _ = deque_pop_front(&mut self.inner);
                let _ = deque_push_back(&mut self.inner, b);
                proof {
                    assert(self@ =~= keep_last(old(self)@.push(b), 1024));
                }
            }
        }
    }

    /// Append a whole chunk in order; the buffer ends up holding the last
    /// 1024 bytes of its previous contents followed by the chunk.
    pub fn extend(&mut self, bytes: &[u8])
        ensures
            final(self)@ == keep_last(old(self)@ + bytes@, 1024),
    {
        let mut j: usize = 0;
        proof {
            use_type_invariant(&*self);
            assert(old(self)@ + bytes@.take(0) =~= old(self)@);
        }
        while j < bytes.len()
            invariant
                j <= bytes@.len(),
                old(self)@.len() <= 1024,
                self@ == keep_last(old(self)@ + bytes@.take(j as int), 1024),
            decreases bytes@.len() - j,
        {
            let b = bytes[j];
            self.append(b);
            proof {
                lemma_keep_last_push(old(self)@ + bytes@.take(j as int), b, 1024);
                assert((old(self)@ + bytes@.take(j as int)).push(b)
                    =~= old(self)@ + bytes@.take(j + 1));
            }
            j = j + 1;
        }
        proof {
            assert(old(self)@ + bytes@.take(bytes@.len() as int) =~= old(self)@ + bytes@);
        }
    }

    /// Remove and discard the first `n` bytes.
    pub fn drain_front(&mut self, n: usize)
        requires
            n <= old(self)@.len(),
        ensures
            final(self)@ == old(self)@.skip(n as int),
    {
        let mut k: usize = 0;
        proof {
            use_type_invariant(&*self);
            assert(old(self)@.skip(0) =~= old(self)@);
        }
        while k < n
            invariant
                k <= n,
                n <= old(self)@.len(),
                old(self)@.len() <= 1024,
                self@ == old(self)@.skip(k as int),
            decreases n - k,
        {
            let _ = deque_pop_front(&mut self.inner);
            proof {
                assert(old(self)@.skip(k as int).drop_first() =~= old(self)@.skip(k + 1));
            }
            k = k + 1;
        }
    }

    /// A contiguous read-only copy of the buffered bytes in FIFO order.
    pub fn snapshot(&self) -> (r: Vec<u8>)
        ensures
            r@ == self@,
    {
        deque_to_vec(&self.inner)
    }
}

} // verus!
