use heapless::spsc::{Consumer, Producer, Queue};
use vstd::prelude::*;

verus! {

/// Why a non-blocking link operation moved no bytes.
#[derive(Debug, Clone, Copy, PartialEq, Eq, Hash, Structural)]
pub enum LinkError {
    /// Nothing can be moved right now; try again later.
    WouldBlock,
    /// The link failed.
    Other,
}

/// A byte transport between two nodes.
pub trait Link: Send {
    /// Read as many bytes as possible into `buf`.
    ///
    /// If no bytes are available, `LinkError::WouldBlock` is returned.
    fn read(&mut self, buf: &mut [u8]) -> Result<usize, LinkError>;

    /// Write as many bytes as possible from `buf`.
    ///
    /// If no bytes are written, `LinkError::WouldBlock` is returned.
    fn write(&mut self, buf: &[u8]) -> Result<usize, LinkError>;
}

/// The number of bytes a transfer moves when `available` bytes (or free
/// slots) meet a request for `requested` bytes.
pub open spec fn transfer_amount(available: int, requested: int) -> int {
    if available <= requested {
        available
    } else {
        requested
    }
}

/// How many bytes a buffer-backed link moves: the smaller of what it has
/// (or has room for) and what the caller asked for; nothing to move is a
/// `WouldBlock`.
pub fn transfer_len(available: usize, requested: usize) -> (r: Result<usize, LinkError>)
    ensures
        (available == 0 || requested == 0) <==> r == Err::<usize, LinkError>(LinkError::WouldBlock),
        r matches Ok(n) ==> n <= available && n <= requested && (n == available || n == requested),
        0 < available <= requested ==> r == Ok::<usize, LinkError>(available),
        0 < requested < available ==> r == Ok::<usize, LinkError>(requested),
        transfer_amount(available as int, requested as int) == 0 ==> r == Err::<usize, LinkError>(
            LinkError::WouldBlock,
        ),
        transfer_amount(available as int, requested as int) != 0 ==> r == Ok::<usize, LinkError>(
            transfer_amount(available as int, requested as int) as usize,
        ),
{
    let bytes = if available <= requested {
        available
    } else {
        requested
    };
    if bytes == 0 {
        Err(LinkError::WouldBlock)
    } else {
        Ok(bytes)
    }
}

/// A bounded vector of bytes used as a link: writes append at the back,
/// reads take from the front. It holds at most `N` bytes.
pub struct VecLink<const N: usize> {
    data: Vec<u8>,
}

impl<const N: usize> View for VecLink<N> {
    type V = Seq<u8>;

    closed spec fn view(&self) -> Seq<u8> {
        self.data@
    }
}

/// The bytes a link holding `held` (with room for `cap` bytes) holds after
/// a write of `data`.
pub open spec fn after_write(held: Seq<u8>, cap: int, data: Seq<u8>) -> Seq<u8> {
    held + data.take(transfer_amount(cap - held.len(), data.len() as int))
}

impl<const N: usize> VecLink<N> {
    #[verifier::type_invariant]
    closed spec fn bounded(self) -> bool {
        self.data@.len() <= N
    }

    /// Creates an empty link.
    pub fn new() -> (r: Self)
        ensures
            r@ == Seq::<u8>::empty(),
    {
        VecLink { data: Vec::new() }
    }

    /// The number of bytes held.
    pub fn len(&self) -> (r: usize)
        ensures
            r == self@.len(),
            r <= N,
    {
        proof {
            use_type_invariant(self);
        }
        self.data.len()
    }

    /// The maximum number of bytes held.
    pub fn capacity(&self) -> (r: usize)
        ensures
            r == N,
    {
        N
    }

    /// The bytes held, front first.
    pub fn as_slice(&self) -> (r: &[u8])
        ensures
            r@ == self@,
    {
        self.data.as_slice()
    }
}

impl<const N: usize> Link for VecLink<N> {
    fn read(&mut self, buf: &mut [u8]) -> (r: Result<usize, LinkError>)
        ensures
            (old(self)@.len() == 0 || old(buf)@.len() == 0) <==> r is Err,
            r is Err ==> final(self)@ == old(self)@ && final(buf)@ == old(buf)@,
            r matches Ok(n) ==> {
                &&& n <= old(self)@.len() && n <= old(buf)@.len()
                &&& (n == old(self)@.len() || n == old(buf)@.len())
                &&& final(buf)@.take(n as int) == old(self)@.take(n as int)
                &&& final(buf)@.skip(n as int) == old(buf)@.skip(n as int)
                &&& old(self)@ == final(buf)@.take(n as int) + final(self)@
            },
            ({
                let n = transfer_amount(old(self)@.len() as int, old(buf)@.len() as int);
                if n == 0 {
                    &&& r == Err::<usize, LinkError>(LinkError::WouldBlock)
                    &&& final(self)@ == old(self)@
                    &&& final(buf)@ == old(buf)@
                } else {
                    &&& r == Ok::<usize, LinkError>(n as usize)
                    &&& final(buf)@ == old(self)@.take(n) + old(buf)@.skip(n)
                    &&& final(self)@ == old(self)@.skip(n)
                }
            }),
    {
        proof {
            use_type_invariant(&*self);
        }
        let len = self.data.len();
        let bytes = match transfer_len(len, buf.len()) {
            Ok(b) => b,
            Err(e) => return Err(e),
        };
        let ghost buf0 = buf@;
        let mut i: usize = 0;
        while i < bytes
            invariant
                bytes <= self.data@.len(),
                bytes <= buf0.len(),
                buf@.len() == buf0.len(),
                0 <= i <= bytes,
                forall|j: int| 0 <= j < i ==> buf@[j] == self.data@[j],
                forall|j: int| i <= j < buf0.len() ==> buf@[j] == buf0[j],
            decreases bytes - i,
        {
            buf[i] = self.data[i];
            i = i + 1;
        }
        assert(buf@ =~= self.data@.take(bytes as int) + buf0.skip(bytes as int));
        let mut held = Vec::new();
        std::mem::swap(&mut held, &mut self.data);
        let rest = held.split_off(bytes);
        self.data = rest;
        Ok(bytes)
    }

    fn write(&mut self, buf: &[u8]) -> (r: Result<usize, LinkError>)
        ensures
            (old(self)@.len() == N || buf@.len() == 0) <==> r is Err,
            r is Err ==> final(self)@ == old(self)@,
            r matches Ok(n) ==> {
                &&& n <= N - old(self)@.len() && n <= buf@.len()
                &&& (n == N - old(self)@.len() || n == buf@.len())
                &&& final(self)@ == old(self)@ + buf@.take(n as int)
            },
            ({
                let n = transfer_amount(N - old(self)@.len(), buf@.len() as int);
                if n == 0 {
                    &&& r == Err::<usize, LinkError>(LinkError::WouldBlock)
                    &&& final(self)@ == old(self)@
                } else {
                    &&& r == Ok::<usize, LinkError>(n as usize)
                    &&& final(self)@ == after_write(old(self)@, N as int, buf@)
                }
            }),
    {
        proof {
            use_type_invariant(&*self);
        }
        let bytes = match transfer_len(N - self.data.len(), buf.len()) {
            Ok(b) => b,
            Err(e) => return Err(e),
        };
        let mut data = Vec::new();
        std::mem::swap(&mut data, &mut self.data);
        let ghost held = data@;
        let mut i: usize = 0;
        while i < bytes
            invariant
                bytes <= buf@.len(),
                held.len() + bytes <= N,
                0 <= i <= bytes,
                data@ == held + buf@.take(i as int),
            decreases bytes - i,
        {
            data.push(buf[i]);
            assert(buf@.take(i + 1) =~= buf@.take(i as int).push(buf@[i as int]));
            i = i + 1;
        }
        self.data = data;
        Ok(bytes)
    }
}

#[verifier::external_type_specification]
#[verifier::external_body]
#[verifier::reject_recursive_types(T)]
pub struct ExQueue<T, const N: usize>(Queue<T, N>);

#[verifier::external_type_specification]
#[verifier::external_body]
#[verifier::reject_recursive_types(T)]
pub struct ExConsumer<'a, T, const N: usize>(Consumer<'a, T, N>);

#[verifier::external_type_specification]
#[verifier::external_body]
#[verifier::reject_recursive_types(T)]
pub struct ExProducer<'a, T, const N: usize>(Producer<'a, T, N>);

/// `heapless::spsc::Queue::split`: hands out the producer and consumer
/// ends of a queue. Nothing is claimed of the two handles.
#[verifier::external_body]
fn split_queue<'a, const N: usize>(queue: &'a mut Queue<u8, N>) -> (Producer<'a, u8, N>, Consumer<'a, u8, N>) {
    queue.split()
}

/// `heapless::spsc::Consumer::peek`, reduced to whether the queue looked
/// empty. The answer depends on the other end of the queue, so nothing is
/// claimed of it.
#[verifier::external_body]
fn consumer_is_empty<const N: usize>(rx: &Consumer<'_, u8, N>) -> bool {
    rx.peek().is_none()
}

/// `heapless::spsc::Consumer::dequeue`. What comes out depends on the other
/// end of the queue, so nothing is claimed of it.
#[verifier::external_body]
fn consumer_dequeue<const N: usize>(rx: &mut Consumer<'_, u8, N>) -> Option<u8> {
    rx.dequeue()
}

/// `heapless::spsc::Producer::ready`: whether there looked to be room. The
/// answer depends on the other end of the queue, so nothing is claimed of it.
#[verifier::external_body]
fn producer_ready<const N: usize>(tx: &Producer<'_, u8, N>) -> bool {
    tx.ready()
}

/// `heapless::spsc::Producer::enqueue`, reporting the byte either way: `Ok`
/// carries the byte that went into the queue, `Err` the refused byte handed
/// back. Whether the queue has room depends on the other end.
#[verifier::external_body]
fn producer_enqueue<const N: usize>(tx: &mut Producer<'_, u8, N>, byte: u8) -> (r: Result<u8, u8>)
    ensures
        r matches Ok(b) ==> b == byte,
        r matches Err(b) ==> b == byte,
{
    match tx.enqueue(byte) {
        Ok(()) => Ok(byte),
        Err(b) => Err(b),
    }
}

/// A link over a pair of single-producer single-consumer byte queues.
///
/// Besides the two queue ends it keeps, as ghost state, the history of what
/// it took from its incoming queue and what it offered to its outgoing one.
pub struct ChannelLink<'a, const T: usize, const N: usize> {
    rx: Consumer<'a, u8, T>,
    tx: Producer<'a, u8, N>,
    taken: Ghost<Seq<Option<u8>>>,
    offered: Ghost<Seq<Result<u8, u8>>>,
}

/// Bytes as they come out of a queue, one `Some` each.
pub open spec fn arrivals(bytes: Seq<u8>) -> Seq<Option<u8>> {
    bytes.map_values(|b: u8| Some(b))
}

/// Bytes as a queue accepts them, one `Ok` each.
pub open spec fn acceptances(bytes: Seq<u8>) -> Seq<Result<u8, u8>> {
    bytes.map_values(|b: u8| Ok::<u8, u8>(b))
}

impl<'a, const T: usize, const N: usize> ChannelLink<'a, T, N> {
    /// Every result of taking a byte from the incoming queue, oldest first:
    /// `Some(b)` for a byte `b`, `None` for a queue found empty.
    pub closed spec fn taken(self) -> Seq<Option<u8>> {
        self.taken@
    }

    /// Every result of offering a byte to the outgoing queue, oldest first:
    /// `Ok(b)` for a byte the queue accepted, `Err(b)` for one it refused.
    pub closed spec fn offered(self) -> Seq<Result<u8, u8>> {
        self.offered@
    }

    /// Creates two links joined by the two queues: what one writes, the
    /// other reads.
    pub fn new(queue_1: &'a mut Queue<u8, T>, queue_2: &'a mut Queue<u8, N>) -> (r: (ChannelLink<'a, T, N>, ChannelLink<'a, N, T>))
        ensures
            r.0.taken() == Seq::<Option<u8>>::empty(),
            r.0.offered() == Seq::<Result<u8, u8>>::empty(),
            r.1.taken() == Seq::<Option<u8>>::empty(),
            r.1.offered() == Seq::<Result<u8, u8>>::empty(),
    {
        let split_1 = split_queue(queue_1);
        let split_2 = split_queue(queue_2);
        (
            ChannelLink {
                rx: split_1.1,
                tx: split_2.0,
                taken: Ghost(Seq::empty()),
                offered: Ghost(Seq::empty()),
            },
            ChannelLink {
                rx: split_2.1,
                tx: split_1.0,
                taken: Ghost(Seq::empty()),
                offered: Ghost(Seq::empty()),
            },
        )
    }
}

/// Takes the next byte from the incoming queue and records the result in
/// the link's history.
fn take_byte<const T: usize>(rx: &mut Consumer<'_, u8, T>, taken: &mut Ghost<Seq<Option<u8>>>) -> (r: Option<u8>)
    ensures
        final(taken)@ == old(taken)@.push(r),
{
    let got = consumer_dequeue(rx);
    *taken = Ghost(taken@.push(got));
    got
}

/// Offers a byte to the outgoing queue and records the result in the
/// link's history: `Ok` with the byte the queue took, or `Err` with the byte
/// it refused.
fn give_byte<const N: usize>(tx: &mut Producer<'_, u8, N>, byte: u8, offered: &mut Ghost<Seq<Result<u8, u8>>>) -> (r: Result<(), u8>)
    ensures
        r is Ok ==> final(offered)@ == old(offered)@.push(Ok(byte)),
        r is Err ==> final(offered)@ == old(offered)@.push(Err(byte)),
        r matches Err(b) ==> b == byte,
{
    let handed = producer_enqueue(tx, byte);
    *offered = Ghost(offered@.push(handed));
    match handed {
        Ok(_) => Ok(()),
        Err(b) => Err(b),
    }
}

/// One step of a queue-pair link read: a byte that came out of the queue
/// goes into `buf` at `written` and the count moves on; an empty queue ends
/// the read where it is.
pub fn store_dequeued(buf: &mut [u8], written: usize, got: Option<u8>) -> (r: Option<usize>)
    requires
        written < old(buf)@.len(),
    ensures
        got matches Some(b) ==> final(buf)@ == old(buf)@.update(written as int, b) && r == Some(
            (written + 1) as usize,
        ),
        got is None ==> final(buf)@ == old(buf)@ && r is None,
{
    match got {
        Some(byte) => {
            buf[written] = byte;
            Some(written + 1)
        },
        None => None,
    }
}

/// Hands byte `n` of `buf` to the producer end of a queue. A byte the queue
/// refuses comes back as that byte.
pub fn offer_byte<const N: usize>(tx: &mut Producer<'_, u8, N>, buf: &[u8], n: usize) -> (r: Result<(), u8>)
    requires
        n < buf@.len(),
    ensures
        r matches Err(b) ==> b == buf@[n as int],
{
    match producer_enqueue(tx, buf[n]) {
        Ok(_) => Ok(()),
        Err(b) => Err(b),
    }
}

/// One step of a queue-pair link write: a byte the queue took moves the
/// count on; a refused byte ends the write with the count where it is.
pub fn count_accepted(n: usize, offered: Result<(), u8>) -> (r: Option<usize>)
    requires
        n < usize::MAX,
    ensures
        offered is Ok ==> r == Some((n + 1) as usize),
        offered is Err ==> r is None,
{
    match offered {
        Ok(()) => Some(n + 1),
        Err(_) => None,
    }
}

impl<'a, const T: usize, const N: usize> Link for ChannelLink<'a, T, N> {
    /// Takes bytes from the incoming queue into `buf`, in order, until `buf`
    /// is full or the queue is found empty: every byte taken lands in `buf`.
    fn read(&mut self, buf: &mut [u8]) -> (r: Result<usize, LinkError>)
        ensures
            final(buf)@.len() == old(buf)@.len(),
            final(self).offered() == old(self).offered(),
            match r {
                Err(e) => {
                    &&& e == LinkError::WouldBlock
                    &&& final(buf)@ == old(buf)@
                    &&& final(self).taken() == old(self).taken()
                },
                Ok(n) => {
                    &&& n <= old(buf)@.len()
                    &&& final(buf)@.skip(n as int) == old(buf)@.skip(n as int)
                    &&& n == old(buf)@.len() ==> final(self).taken() == old(self).taken() + arrivals(
                        final(buf)@.take(n as int),
                    )
                    &&& n < old(buf)@.len() ==> final(self).taken() == old(self).taken() + arrivals(
                        final(buf)@.take(n as int),
                    ).push(None)
                },
            },
    {
        if consumer_is_empty(&self.rx) {
            return Err(LinkError::WouldBlock);
        }
        let ghost buf0 = buf@;
        let ghost taken0 = self.taken@;
        let mut written: usize = 0;
        let mut stopped = false;
        while written < buf.len()
            invariant_except_break
                self.taken@ == taken0 + arrivals(buf@.take(written as int)),
            invariant
                buf@.len() == buf0.len(),
                written <= buf0.len(),
                forall|j: int| written <= j < buf0.len() ==> buf@[j] == buf0[j],
                self.offered@ == old(self).offered@,
            ensures
                written <= buf0.len(),
                written < buf0.len() ==> self.taken@ == taken0 + arrivals(buf@.take(written as int)).push(None),
                written == buf0.len() ==> self.taken@ == taken0 + arrivals(buf@.take(written as int)),
            decreases buf0.len() - written,
        {
            let got = take_byte(&mut self.rx, &mut self.taken);
            let ghost before = buf@;
            match store_dequeued(buf, written, got) {
                Some(next) => {
                    assert(buf@.take(next as int) =~= before.take(written as int).push(got.unwrap()));
                    assert(arrivals(buf@.take(next as int)) =~= arrivals(before.take(written as int)).push(got));
                    written = next;
                },
                None => {
                    break;
                },
            }
        }
        assert(buf@.skip(written as int) =~= buf0.skip(written as int));
        Ok(written)
    }

    /// Offers the bytes of `buf` to the outgoing queue, in order, until the
    /// queue refuses one: the queue gets exactly the front of `buf` that is
    /// reported written.
    fn write(&mut self, buf: &[u8]) -> (r: Result<usize, LinkError>)
        ensures
            final(self).taken() == old(self).taken(),
            match r {
                Err(e) => e == LinkError::WouldBlock && final(self).offered() == old(self).offered(),
                Ok(n) => {
                    &&& n <= buf@.len()
                    &&& n == buf@.len() ==> final(self).offered() == old(self).offered() + acceptances(
                        buf@.take(n as int),
                    )
                    &&& n < buf@.len() ==> final(self).offered() == old(self).offered() + acceptances(
                        buf@.take(n as int),
                    ).push(Err(buf@[n as int]))
                },
            },
    {
        if !producer_ready(&self.tx) {
            return Err(LinkError::WouldBlock);
        }
        let ghost offered0 = self.offered@;
        let mut n: usize = 0;
        while n < buf.len()
            invariant
                n <= buf@.len(),
                self.offered@ == offered0 + acceptances(buf@.take(n as int)),
                self.taken@ == old(self).taken@,
                offered0 == old(self).offered@,
            decreases buf@.len() - n,
        {
            let offered = give_byte(&mut self.tx, buf[n], &mut self.offered);
            match count_accepted(n, offered) {
                Some(next) => {
                    assert(buf@.take(next as int) =~= buf@.take(n as int).push(buf@[n as int]));
                    assert(acceptances(buf@.take(next as int)) =~= acceptances(buf@.take(n as int)).push(Ok(buf@[n as int])));
                    n = next;
                },
                None => {
                    return Ok(n);
                },
            }
        }
        assert(buf@.take(n as int) =~= buf@);
        Ok(buf.len())
    }
}

/// Size of the window in which bytes read from a link wait to be decoded.
pub const LOOK_AHEAD: usize = 128;

/// `n` zero bytes.
pub open spec fn zeros(n: nat) -> Seq<u8> {
    Seq::new(n, |i: int| 0u8)
}

/// The window after the bytes `fresh` read from the link land behind the
/// `pending` bytes waiting at its front.
pub open spec fn window_after_read(window: Seq<u8>, pending: int, fresh: Seq<u8>) -> Seq<u8> {
    window.take(pending) + fresh + window.skip(pending + fresh.len())
}

/// The window after the decoder, fed its first `fed` bytes, left the last
/// `rem` of them unconsumed: they move to the front, the rest is cleared.
pub open spec fn window_after_feed(window: Seq<u8>, fed: int, rem: int) -> Seq<u8> {
    window.subrange(fed - rem, fed) + zeros((LOOK_AHEAD - rem) as nat)
}

/// What the frame decoder made of the bytes it was fed, with the length of
/// the unconsumed tail of its input where it reports one.
#[derive(Debug, Clone, Copy, PartialEq, Eq, Hash, Structural)]
pub enum FeedOutcome {
    /// Every byte was taken in; no frame is complete yet.
    Consumed,
    /// A frame did not fit the decoder's buffer and was dropped.
    OverFull { remaining: usize },
    /// A complete frame did not decode and was dropped.
    DeserError { remaining: usize },
    /// A complete frame decoded into a packet.
    Success { remaining: usize },
}

/// The length of the unconsumed tail that an outcome reports (none for
/// `Consumed`).
pub open spec fn outcome_remaining(outcome: FeedOutcome) -> int {
    match outcome {
        FeedOutcome::Consumed => 0,
        FeedOutcome::OverFull { remaining } => remaining as int,
        FeedOutcome::DeserError { remaining } => remaining as int,
        FeedOutcome::Success { remaining } => remaining as int,
    }
}

/// The look-ahead window of a linked node: the bytes read from the link that
/// the frame decoder has not taken in yet wait at its front.
pub struct LookAhead {
    buf: [u8; 128],
    idx: usize,
}

impl LookAhead {
    #[verifier::type_invariant]
    closed spec fn well_formed(self) -> bool {
        self.idx <= LOOK_AHEAD
    }

    /// The whole window.
    pub closed spec fn bytes(self) -> Seq<u8> {
        self.buf@
    }

    /// The window always holds `LOOK_AHEAD` bytes.
    pub proof fn lemma_window_length(self)
        ensures
            self.bytes().len() == LOOK_AHEAD,
    {
        broadcast use vstd::array::group_array_axioms;
    }

    /// How many bytes at the front of the window wait to be decoded.
    pub closed spec fn pending(self) -> nat {
        self.idx as nat
    }

    /// An empty, zeroed window.
    pub fn new() -> (r: Self)
        ensures
            r.bytes() == zeros(LOOK_AHEAD as nat),
            r.pending() == 0,
    {
        let buf = [0u8; 128];
        assert(buf@ =~= zeros(LOOK_AHEAD as nat));
        LookAhead { buf, idx: 0 }
    }

    /// The number of bytes waiting at the front of the window.
    pub fn pending_len(&self) -> (r: usize)
        ensures
            r == self.pending(),
    {
        self.idx
    }

    /// The room behind the waiting bytes: how much the next link read may
    /// bring in.
    pub fn space(&self) -> (r: usize)
        ensures
            r == LOOK_AHEAD - self.pending(),
            self.pending() <= LOOK_AHEAD,
    {
        proof {
            use_type_invariant(self);
        }
        LOOK_AHEAD - self.idx
    }

    /// Takes in the result of reading the link into a chunk of `space()`
    /// bytes, and says how many bytes at the front of the window go to the
    /// frame decoder: the waiting bytes and what was just read. A link with
    /// nothing new leaves the waiting bytes to be fed again, and with none
    /// waiting either the read would block. A failed link is reported.
    pub fn receive(&mut self, chunk: &[u8], read: Result<usize, LinkError>) -> (r: Result<usize, LinkError>)
        requires
            read matches Ok(n) ==> n <= chunk@.len() && old(self).pending() + n <= LOOK_AHEAD,
        ensures
            final(self).pending() == old(self).pending(),
            match read {
                Ok(n) => {
                    &&& r == Ok::<usize, LinkError>((old(self).pending() + n) as usize)
                    &&& final(self).bytes() == window_after_read(
                        old(self).bytes(),
                        old(self).pending() as int,
                        chunk@.take(n as int),
                    )
                },
                Err(LinkError::WouldBlock) => {
                    &&& final(self).bytes() == old(self).bytes()
                    &&& old(self).pending() == 0 ==> r == Err::<usize, LinkError>(LinkError::WouldBlock)
                    &&& old(self).pending() != 0 ==> r == Ok::<usize, LinkError>(old(self).pending() as usize)
                },
                Err(LinkError::Other) => {
                    &&& final(self).bytes() == old(self).bytes()
                    &&& r == Err::<usize, LinkError>(LinkError::Other)
                },
            },
    {
        proof {
            use_type_invariant(&*self);
        }
        match read {
            Ok(n) => {
                let mut buf = self.buf;
                let ghost buf0 = buf@;
                let idx = self.idx;
                let mut i: usize = 0;
                while i < n
                    invariant
                        buf@.len() == buf0.len(),
                        buf0.len() == LOOK_AHEAD,
                        idx + n <= LOOK_AHEAD,
                        n <= chunk@.len(),
                        0 <= i <= n,
                        forall|j: int| 0 <= j < idx ==> buf@[j] == buf0[j],
                        forall|j: int| 0 <= j < i ==> buf@[idx + j] == chunk@[j],
                        forall|j: int| idx + i <= j < buf0.len() ==> buf@[j] == buf0[j],
                    decreases n - i,
                {
                    buf[idx + i] = chunk[i];
                    i = i + 1;
                }
                assert(buf@ =~= buf0.take(idx as int) + chunk@.take(n as int) + buf0.skip(idx + n));
                self.buf = buf;
                Ok(idx + n)
            },
            Err(LinkError::WouldBlock) => {
                if self.idx == 0 {
                    Err(LinkError::WouldBlock)
                } else {
                    Ok(self.idx)
                }
            },
            Err(LinkError::Other) => Err(LinkError::Other),
        }
    }

    /// The first `bytes` bytes of the window, as fed to the frame decoder.
    pub fn filled(&self, bytes: usize) -> (r: &[u8])
        requires
            bytes <= LOOK_AHEAD,
        ensures
            r@ == self.bytes().take(bytes as int),
    {
        proof {
            use_type_invariant(self);
        }
        let s = self.buf.as_slice();
        &s[0..bytes]
    }

    /// Settles the window after the decoder was fed its first `bytes` bytes.
    /// When the decoder took everything in, nothing waits any more. When it
    /// left a tail unconsumed, that tail moves to the front of the window to
    /// wait for the next read, and the rest of the window is cleared.
    pub fn settle(&mut self, bytes: usize, outcome: FeedOutcome)
        requires
            bytes <= LOOK_AHEAD,
            outcome matches FeedOutcome::OverFull { remaining } ==> remaining <= bytes,
            outcome matches FeedOutcome::DeserError { remaining } ==> remaining <= bytes,
            outcome matches FeedOutcome::Success { remaining } ==> remaining <= bytes,
        ensures
            final(self).bytes().len() == LOOK_AHEAD,
            outcome matches FeedOutcome::OverFull { remaining } ==> {
                &&& final(self).pending() == remaining
                &&& final(self).bytes().take(remaining as int) == old(self).bytes().subrange(
                    bytes - remaining,
                    bytes as int,
                )
                &&& forall|i: int| remaining <= i < LOOK_AHEAD ==> final(self).bytes()[i] == 0u8
            },
            outcome matches FeedOutcome::DeserError { remaining } ==> {
                &&& final(self).pending() == remaining
                &&& final(self).bytes().take(remaining as int) == old(self).bytes().subrange(
                    bytes - remaining,
                    bytes as int,
                )
                &&& forall|i: int| remaining <= i < LOOK_AHEAD ==> final(self).bytes()[i] == 0u8
            },
            outcome matches FeedOutcome::Success { remaining } ==> {
                &&& final(self).pending() == remaining
                &&& final(self).bytes().take(remaining as int) == old(self).bytes().subrange(
                    bytes - remaining,
                    bytes as int,
                )
                &&& forall|i: int| remaining <= i < LOOK_AHEAD ==> final(self).bytes()[i] == 0u8
            },
            outcome == FeedOutcome::Consumed ==> {
                &&& final(self).pending() == 0
                &&& final(self).bytes() == old(self).bytes()
            },
            outcome != FeedOutcome::Consumed ==> {
                let rem = outcome_remaining(outcome);
                &&& final(self).pending() == rem
                &&& final(self).bytes() == window_after_feed(old(self).bytes(), bytes as int, rem)
            },
    {
        proof {
            use_type_invariant(&*self);
        }
        let rem = match outcome {
            FeedOutcome::Consumed => {
                self.idx = 0;
                return;
            },
            FeedOutcome::OverFull { remaining } => remaining,
            FeedOutcome::DeserError { remaining } => remaining,
            FeedOutcome::Success { remaining } => remaining,
        };
        let rem_idx = bytes - rem;
        let mut buf = self.buf;
        let ghost buf0 = buf@;
        let mut i: usize = 0;
        while i < rem
            invariant
                buf@.len() == buf0.len(),
                buf0.len() == LOOK_AHEAD,
                rem_idx + rem == bytes,
                bytes <= LOOK_AHEAD,
                0 <= i <= rem,
                forall|j: int| 0 <= j < i ==> buf@[j] == buf0[rem_idx + j],
                forall|j: int| i <= j < buf0.len() ==> buf@[j] == buf0[j],
            decreases rem - i,
        {
            let b = buf[rem_idx + i];
            buf[i] = b;
            i = i + 1;
        }
        let mut k: usize = rem;
        while k < LOOK_AHEAD
            invariant
                buf@.len() == LOOK_AHEAD,
                rem <= k <= LOOK_AHEAD,
                rem_idx + rem == bytes,
                bytes <= LOOK_AHEAD,
                forall|j: int| 0 <= j < rem ==> buf@[j] == buf0[rem_idx + j],
                forall|j: int| rem <= j < k ==> buf@[j] == 0u8,
            decreases LOOK_AHEAD - k,
        {
            buf[k] = 0;
            k = k + 1;
        }
        assert(buf@ =~= buf0.subrange(rem_idx as int, bytes as int) + zeros((LOOK_AHEAD - rem) as nat));
        self.buf = buf;
        self.idx = rem;
    }
}

/// What one attempt to push a frame into a link came to.
#[derive(Debug, Clone, Copy, PartialEq, Eq, Hash, Structural)]
pub enum WriteStep {
    /// The frame is on the link: the write is done and succeeded.
    Complete,
    /// The link failed: the write is done and did not succeed.
    Failed,
    /// The link took part of what was left: ask to be woken and try again.
    Partial,
    /// The link took nothing for now: ask to be woken and try again.
    Blocked,
}

impl WriteStep {
    /// Whether the write is over, successful or not.
    pub open spec fn is_done(self) -> bool {
        self == WriteStep::Complete || self == WriteStep::Failed
    }

    /// Whether the writer must ask to be woken before the next attempt: every
    /// step that leaves the write unfinished does, so the write never stalls.
    pub fn wants_wake(&self) -> (r: bool)
        ensures
            r == !self.is_done(),
    {
        match self {
            WriteStep::Complete => false,
            WriteStep::Failed => false,
            WriteStep::Partial => true,
            WriteStep::Blocked => true,
        }
    }
}

/// A frame being pushed into a link, with how much of it the link has
/// taken so far.
pub struct PendingWrite {
    frame: Vec<u8>,
    written: usize,
}

impl PendingWrite {
    #[verifier::type_invariant]
    closed spec fn well_formed(self) -> bool {
        self.written <= self.frame@.len()
    }

    /// The frame being written.
    pub closed spec fn frame(self) -> Seq<u8> {
        self.frame@
    }

    /// How many bytes of the frame the link has taken.
    pub closed spec fn written(self) -> nat {
        self.written as nat
    }

    /// Starts writing `frame`.
    pub fn new(frame: Vec<u8>) -> (r: Self)
        ensures
            r.frame() == frame@,
            r.written() == 0,
    {
        PendingWrite { frame, written: 0 }
    }

    /// A write with nothing to send, which is complete from the start.
    pub fn empty() -> (r: Self)
        ensures
            r.frame() == Seq::<u8>::empty(),
            r.written() == 0,
    {
        PendingWrite { frame: Vec::new(), written: 0 }
    }

    /// Whether the link has taken the whole frame.
    pub fn is_complete(&self) -> (r: bool)
        ensures
            r == (self.written() == self.frame().len()),
    {
        self.written == self.frame.len()
    }

    /// The part of the frame the link has not taken yet.
    pub fn remaining(&self) -> (r: &[u8])
        ensures
            r@ == self.frame().skip(self.written() as int),
            self.written() <= self.frame().len(),
    {
        proof {
            use_type_invariant(self);
        }
        let s = self.frame.as_slice();
        let r = &s[self.written..self.frame.len()];
        assert(r@ =~= self.frame().skip(self.written() as int));
        r
    }

    /// Takes in the result of writing `remaining()` to the link. The bytes
    /// the link took count as written; the write completes on the attempt
    /// that takes the last byte of the frame.
    pub fn on_write(&mut self, result: Result<usize, LinkError>) -> (step: WriteStep)
        requires
            result matches Ok(n) ==> old(self).written() + n <= old(self).frame().len(),
        ensures
            final(self).frame() == old(self).frame(),
            match result {
                Ok(n) => {
                    &&& final(self).written() == old(self).written() + n
                    &&& (old(self).written() + n == old(self).frame().len() <==> step
                        == WriteStep::Complete)
                    &&& (old(self).written() + n < old(self).frame().len() <==> step
                        == WriteStep::Partial)
                },
                Err(LinkError::WouldBlock) => step == WriteStep::Blocked && final(self).written()
                    == old(self).written(),
                Err(LinkError::Other) => step == WriteStep::Failed && final(self).written()
                    == old(self).written(),
            },
    {
        proof {
            use_type_invariant(&*self);
        }
        let len = self.frame.len();
        match result {
            Ok(bytes) => {
                self.written = self.written + bytes;
                if self.written == len {
                    WriteStep::Complete
                } else {
                    WriteStep::Partial
                }
            },
            Err(LinkError::WouldBlock) => WriteStep::Blocked,
            Err(LinkError::Other) => WriteStep::Failed,
        }
    }
}

/// Bytes the decoder leaves unconsumed are fed to it again, in order,
/// ahead of the bytes the next link read brings in: nothing is lost,
/// repeated or reordered between two feeds.
pub proof fn lemma_unconsumed_bytes_are_fed_first(
    window: Seq<u8>,
    fed: int,
    rem: int,
    fresh: Seq<u8>,
)
    requires
        window.len() == LOOK_AHEAD,
        0 <= rem <= fed <= LOOK_AHEAD,
        rem + fresh.len() <= LOOK_AHEAD,
    ensures
        window_after_read(window_after_feed(window, fed, rem), rem, fresh).take(rem + fresh.len())
            == window.subrange(fed - rem, fed) + fresh,
        window_after_read(window_after_feed(window, fed, rem), rem, fresh).len() == LOOK_AHEAD,
{
    let settled = window_after_feed(window, fed, rem);
    let next = window_after_read(settled, rem, fresh);
    assert(settled.take(rem) =~= window.subrange(fed - rem, fed));
    assert(next.take(rem + fresh.len()) =~= window.subrange(fed - rem, fed) + fresh);
}

/// Bytes come out of a vector link in the order they went in: reading from
/// a link that held `held` and then took a write of `data` yields the
/// front of `held` followed by the accepted front of `data`.
pub proof fn lemma_vec_link_first_in_first_out(held: Seq<u8>, cap: int, data: Seq<u8>, want: int)
    requires
        held.len() <= cap,
        0 <= want,
    ensures
        ({
            let after = after_write(held, cap, data);
            let accepted = transfer_amount(cap - held.len(), data.len() as int);
            let n = transfer_amount(after.len() as int, want);
            &&& after.take(n) == (held + data.take(accepted)).take(n)
            &&& want >= held.len() + accepted ==> after.take(n) == held + data.take(accepted)
            &&& after.len() <= cap
        }),
{
    let after = after_write(held, cap, data);
    let accepted = transfer_amount(cap - held.len(), data.len() as int);
    let n = transfer_amount(after.len() as int, want);
    assert(after.len() == held.len() + accepted);
    if want >= held.len() + accepted {
        assert(after.take(n) =~= held + data.take(accepted));
    }
}

/// The total of a run of byte counts.
pub open spec fn total(counts: Seq<nat>) -> nat
    decreases counts.len(),
{
    if counts.len() == 0 {
        0
    } else {
        total(counts.drop_last()) + counts.last()
    }
}

/// What a link took of `frame` over a run of write attempts that took
/// `counts` bytes each, every attempt being handed what was left of the
/// frame (`PendingWrite::remaining`).
pub open spec fn bytes_taken(frame: Seq<u8>, counts: Seq<nat>) -> Seq<u8>
    decreases counts.len(),
{
    if counts.len() == 0 {
        Seq::empty()
    } else {
        let before = total(counts.drop_last());
        bytes_taken(frame, counts.drop_last()) + frame.skip(before as int).take(counts.last() as int)
    }
}

/// Over any run of write attempts, the pieces a link takes line up into
/// the front of the frame: no byte is sent twice or skipped. The write
/// completes on the attempt after which the whole frame has been taken.
pub proof fn lemma_write_sends_the_frame_in_order(frame: Seq<u8>, counts: Seq<nat>)
    requires
        total(counts) <= frame.len(),
    ensures
        bytes_taken(frame, counts) == frame.take(total(counts) as int),
        total(counts) == frame.len() ==> bytes_taken(frame, counts) == frame,
    decreases counts.len(),
{
    if counts.len() > 0 {
        let before = total(counts.drop_last());
        lemma_write_sends_the_frame_in_order(frame, counts.drop_last());
        assert(frame.take(before as int) + frame.skip(before as int).take(counts.last() as int)
            =~= frame.take(total(counts) as int));
    }
    if total(counts) == frame.len() {
        assert(frame.take(total(counts) as int) =~= frame);
    }
}

/// All the byte strings of `parts`, one after another.
pub open spec fn concat(parts: Seq<Seq<u8>>) -> Seq<u8>
    decreases parts.len(),
{
    if parts.len() == 0 {
        Seq::empty()
    } else {
        concat(parts.drop_last()) + parts.last()
    }
}

/// The bytes that wait in the window after a run of reads: read `i`
/// brought `reads[i].0` and the decoder left the last `reads[i].1` bytes
/// of what it was fed (the waiting bytes, then the fresh ones).
pub open spec fn waiting_after(reads: Seq<(Seq<u8>, nat)>) -> Seq<u8>
    decreases reads.len(),
{
    if reads.len() == 0 {
        Seq::empty()
    } else {
        let fed = waiting_after(reads.drop_last()) + reads.last().0;
        fed.skip(fed.len() - reads.last().1)
    }
}

/// The bytes the decoder took in over a run of reads.
pub open spec fn taken_after(reads: Seq<(Seq<u8>, nat)>) -> Seq<u8>
    decreases reads.len(),
{
    if reads.len() == 0 {
        Seq::empty()
    } else {
        let fed = waiting_after(reads.drop_last()) + reads.last().0;
        taken_after(reads.drop_last()) + fed.take(fed.len() - reads.last().1)
    }
}

/// Whether every step of a run of reads left no more than it was fed.
pub open spec fn run_is_valid(reads: Seq<(Seq<u8>, nat)>) -> bool
    decreases reads.len(),
{
    reads.len() == 0 || {
        &&& run_is_valid(reads.drop_last())
        &&& reads.last().1 <= waiting_after(reads.drop_last()).len() + reads.last().0.len()
    }
}

/// Over any run of link reads, what the decoder has taken in followed by
/// what still waits is exactly the bytes the link delivered, in order: the
/// window never loses, repeats or reorders a byte of the stream.
pub proof fn lemma_stream_reaches_the_decoder_in_order(reads: Seq<(Seq<u8>, nat)>)
    requires
        run_is_valid(reads),
    ensures
        taken_after(reads) + waiting_after(reads) == concat(reads.map_values(|r: (Seq<u8>, nat)| r.0)),
    decreases reads.len(),
{
    let fresh = reads.map_values(|r: (Seq<u8>, nat)| r.0);
    if reads.len() > 0 {
        let prev = reads.drop_last();
        lemma_stream_reaches_the_decoder_in_order(prev);
        let fed = waiting_after(prev) + reads.last().0;
        let cut = fed.len() - reads.last().1;
        assert(fresh.drop_last() =~= prev.map_values(|r: (Seq<u8>, nat)| r.0));
        assert(fed.take(cut) + fed.skip(cut) =~= fed);
        assert(taken_after(reads) + waiting_after(reads) =~= taken_after(prev) + fed);
    } else {
        assert(fresh =~= Seq::<Seq<u8>>::empty());
    }
}

} // verus!
