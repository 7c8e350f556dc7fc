use vstd::prelude::*;

verus! {

/// A fixed-capacity FIFO of bytes. `SIZE` is the capacity.
pub struct RingBuffer<const SIZE: usize> {
    buffer: Vec<u8>,
    head: usize,
    tal: usize,
    length: usize,
}

/// Index `i` positions after `start`, wrapping once around a buffer of `size` slots.
pub open spec fn wrap_index(start: int, i: int, size: int) -> int {
    if start + i < size {
        start + i
    } else {
        start + i - size
    }
}

/// What a push does to contents `s` of a buffer of capacity `cap`: the new
/// contents and whether the byte was taken.
pub open spec fn push_result(s: Seq<u8>, cap: nat, byte: u8) -> (Seq<u8>, bool) {
    if s.len() < cap {
        (s.push(byte), true)
    } else {
        (s, false)
    }
}

/// What a pop does to contents `s`: the new contents and the byte handed out.
pub open spec fn pop_result(s: Seq<u8>) -> (Seq<u8>, Option<u8>) {
    if s.len() > 0 {
        (s.drop_first(), Some(s[0]))
    } else {
        (s, None)
    }
}

/// Contents after pushing each byte of `xs` in turn.
pub open spec fn push_all(s: Seq<u8>, cap: nat, xs: Seq<u8>) -> Seq<u8>
    decreases xs.len(),
{
    if xs.len() == 0 {
        s
    } else {
        push_all(push_result(s, cap, xs[0]).0, cap, xs.drop_first())
    }
}

/// The bytes handed out by popping until the buffer is empty, in order.
pub open spec fn drain(s: Seq<u8>) -> Seq<u8>
    decreases s.len(),
{
    if s.len() == 0 {
        Seq::empty()
    } else {
        seq![pop_result(s).1->0] + drain(pop_result(s).0)
    }
}

impl<const SIZE: usize> RingBuffer<SIZE> {
    /// The stored bytes, oldest first.
    pub closed spec fn view(&self) -> Seq<u8> {
        Seq::new(self.length as nat, |i: int| self.buffer@[wrap_index(self.tal as int, i, SIZE as int)])
    }

    /// Internal consistency of the storage and cursors.
    pub closed spec fn wf(&self) -> bool {
        &&& self.buffer@.len() == SIZE
        &&& self.length <= SIZE
        &&& (SIZE > 0 ==> self.head < SIZE && self.tal < SIZE)
        &&& (SIZE == 0 ==> self.head == 0 && self.tal == 0)
        &&& self.head as int == wrap_index(self.tal as int, self.length as int, SIZE as int)
            || (self.length == SIZE && self.head == self.tal)
    }

    /// Creates an empty buffer.
    pub fn init() -> (rb: RingBuffer<SIZE>)
        ensures
            rb.wf(),
            rb.view() == Seq::<u8>::empty(),
    {
        let buffer: Vec<u8> = vec![0u8; SIZE];
        let rb = RingBuffer { buffer, head: 0, tal: 0, length: 0 };
        assert(rb.view() =~= Seq::<u8>::empty());
        rb
    }

    /// Appends `byte` at the back. Returns `false`, and changes nothing, when full.
    pub fn push(&mut self, byte: u8) -> (pushed: bool)
        requires
            old(self).wf(),
        ensures
            final(self).wf(),
            (final(self).view(), pushed) == push_result(old(self).view(), SIZE as nat, byte),
            ring_step(old(self).view(), SIZE as nat, RingOp::Push(byte)) == (
                final(self).view(),
                RingReply::Pushed(pushed),
            ),
    {
        if self.length < SIZE {
            let ghost old_view = self.view();
            let ghost h = self.head as int;
            self.buffer.set(self.head, byte);
            proof {
                if self.head + 1 < SIZE {
                    vstd::arithmetic::div_mod::lemma_small_mod((self.head + 1) as nat, SIZE as nat);
                } else {
                    vstd::arithmetic::div_mod::lemma_mod_self_0(SIZE as int);
                }
            }
            self.head = (self.head + 1) % SIZE;
            self.length += 1;
            assert(self.view() =~= old_view.push(byte)) by {
                assert forall|i: int| 0 <= i < self.length implies
                    #[trigger] self.view()[i] == old_view.push(byte)[i] by {
                    if i < self.length - 1 {
                        assert(wrap_index(self.tal as int, i, SIZE as int) != h);
                    }
                }
            }
            true
        } else {
            false
        }
    }

    /// Removes and returns the oldest byte, or `None` when empty.
    pub fn pop(&mut self) -> (popped: Option<u8>)
        requires
            old(self).wf(),
        ensures
            final(self).wf(),
            (final(self).view(), popped) == pop_result(old(self).view()),
            ring_step(old(self).view(), SIZE as nat, RingOp::Pop) == (
                final(self).view(),
                RingReply::Popped(popped),
            ),
    {
        if self.length > 0 {
            let ghost old_view = self.view();
            let byte = self.buffer[self.tal];
            proof {
                if self.tal + 1 < SIZE {
                    vstd::arithmetic::div_mod::lemma_small_mod((self.tal + 1) as nat, SIZE as nat);
                } else {
                    vstd::arithmetic::div_mod::lemma_mod_self_0(SIZE as int);
                }
            }
            self.tal = (self.tal + 1) % SIZE;
            self.length -= 1;
            assert(self.view() =~= old_view.drop_first());
            Some(byte)
        } else {
            None
        }
    }


    /// Whether no byte is stored.
    pub fn is_empty(&self) -> (empty: bool)
        requires
            self.wf(),
        ensures
            empty == (self.view().len() == 0),
    {
        self.length == 0
    }

    /// The number of stored bytes.
    pub fn current_len(&self) -> (len: usize)
        requires
            self.wf(),
        ensures
            len == self.view().len(),
    {
        self.length
    }

    /// The capacity.
    pub fn size(&self) -> (size: usize)
        ensures
            size == SIZE,
    {
        SIZE
    }

    /// Discards every stored byte.
    pub fn reset(&mut self)
        requires
            old(self).wf(),
        ensures
            final(self).wf(),
            final(self).view() == Seq::<u8>::empty(),
            ring_step(old(self).view(), SIZE as nat, RingOp::Reset).0 == final(self).view(),
    {
        self.head = 0;
        self.tal = 0;
        self.length = 0;
        assert(self.view() =~= Seq::<u8>::empty());
    }
}

/// Law (bounded): a push never makes the contents longer than the capacity.
pub proof fn lemma_push_bounded(s: Seq<u8>, cap: nat, byte: u8)
    requires
        s.len() <= cap,
    ensures
        push_result(s, cap, byte).0.len() <= cap,
        push_result(s, cap, byte).1 == (s.len() < cap),
{
}

/// Law (first in, first out): bytes pushed into a buffer that has room for
/// them all come back out, after the bytes already stored, in the order they
/// were pushed.
pub proof fn lemma_fifo_order(s: Seq<u8>, cap: nat, xs: Seq<u8>)
    requires
        s.len() + xs.len() <= cap,
    ensures
        push_all(s, cap, xs) == s + xs,
        drain(push_all(s, cap, xs)) == s + xs,
    decreases xs.len(),
{
    if xs.len() > 0 {
        lemma_fifo_order(s.push(xs[0]), cap, xs.drop_first());
        assert(s.push(xs[0]) + xs.drop_first() =~= s + xs);
    } else {
        assert(s + xs =~= s);
    }
    lemma_drain_is_identity(s + xs);
}

/// Popping until empty hands out every stored byte, oldest first.
pub proof fn lemma_drain_is_identity(s: Seq<u8>)
    ensures
        drain(s) == s,
    decreases s.len(),
{
    if s.len() > 0 {
        lemma_drain_is_identity(s.drop_first());
        assert(seq![s[0]] + s.drop_first() =~= s);
    }
}

/// Law (full buffer): a push into a full buffer is refused and keeps the contents.
pub proof fn lemma_push_full_refused(s: Seq<u8>, cap: nat, byte: u8)
    requires
        s.len() == cap,
    ensures
        push_result(s, cap, byte) == (s, false),
{
}


/// One call on a ring buffer.
pub enum RingOp {
    Push(u8),
    Pop,
    Reset,
}

/// What one call on a ring buffer answers.
pub enum RingReply {
    /// `push` returned whether the byte was taken.
    Pushed(bool),
    /// `pop` returned the oldest byte, if any.
    Popped(Option<u8>),
    /// `reset` returned nothing.
    Cleared,
}

/// What one call does to contents `s` of a buffer of capacity `cap`, and its
/// answer, as the contracts of `push`, `pop` and `reset` state it.
pub open spec fn ring_step(s: Seq<u8>, cap: nat, op: RingOp) -> (Seq<u8>, RingReply) {
    match op {
        RingOp::Push(b) => (push_result(s, cap, b).0, RingReply::Pushed(push_result(s, cap, b).1)),
        RingOp::Pop => (pop_result(s).0, RingReply::Popped(pop_result(s).1)),
        RingOp::Reset => (Seq::empty(), RingReply::Cleared),
    }
}

/// The contents after the calls `ops`, starting from contents `s`.
pub open spec fn ring_contents(s: Seq<u8>, cap: nat, ops: Seq<RingOp>) -> Seq<u8>
    decreases ops.len(),
{
    if ops.len() == 0 {
        s
    } else {
        ring_step(ring_contents(s, cap, ops.drop_last()), cap, ops.last()).0
    }
}

/// The answers to the calls `ops`, in order, starting from contents `s`.
pub open spec fn ring_replies(s: Seq<u8>, cap: nat, ops: Seq<RingOp>) -> Seq<RingReply>
    decreases ops.len(),
{
    if ops.len() == 0 {
        Seq::empty()
    } else {
        ring_replies(s, cap, ops.drop_last()).push(
            ring_step(ring_contents(s, cap, ops.drop_last()), cap, ops.last()).1,
        )
    }
}

/// A push of each byte of `xs`, in order.
pub open spec fn pushes(xs: Seq<u8>) -> Seq<RingOp> {
    Seq::new(xs.len(), |i: int| RingOp::Push(xs[i]))
}

/// Accepted pushes minus returned pops since the last reset, counted over the
/// answers `rs`.
pub open spec fn net_count(rs: Seq<RingReply>) -> int
    decreases rs.len(),
{
    if rs.len() == 0 {
        0
    } else {
        match rs.last() {
            RingReply::Cleared => 0,
            RingReply::Pushed(true) => net_count(rs.drop_last()) + 1,
            RingReply::Popped(Some(_)) => net_count(rs.drop_last()) - 1,
            _ => net_count(rs.drop_last()),
        }
    }
}

/// Law (reset forgets): after a reset, a buffer answers every later sequence of
/// calls exactly as a new, empty buffer does, whatever it held before. So no
/// byte pushed before the reset is ever popped after it.
pub proof fn lemma_reset_forgets(s: Seq<u8>, cap: nat, ops: Seq<RingOp>)
    ensures
        ring_contents(s, cap, seq![RingOp::Reset] + ops) == ring_contents(Seq::empty(), cap, ops),
        ring_replies(s, cap, seq![RingOp::Reset] + ops) == seq![RingReply::Cleared]
            + ring_replies(Seq::empty(), cap, ops),
    decreases ops.len(),
{
    let all = seq![RingOp::Reset] + ops;
    if ops.len() == 0 {
        assert(all.drop_last() =~= Seq::<RingOp>::empty());
        assert(all.last() == RingOp::Reset);
        assert(ring_replies(s, cap, all.drop_last()) == Seq::<RingReply>::empty());
        assert(ring_replies(Seq::empty(), cap, ops) == Seq::<RingReply>::empty());
        assert(ring_replies(s, cap, all) == Seq::<RingReply>::empty().push(RingReply::Cleared));
        assert(ring_replies(s, cap, all) =~= seq![RingReply::Cleared] + ring_replies(
            Seq::empty(),
            cap,
            ops,
        ));
    } else {
        lemma_reset_forgets(s, cap, ops.drop_last());
        assert(all.drop_last() =~= seq![RingOp::Reset] + ops.drop_last());
        assert(all.last() == ops.last());
        let r = ring_step(ring_contents(Seq::empty(), cap, ops.drop_last()), cap, ops.last()).1;
        assert(ring_replies(s, cap, all) == ring_replies(s, cap, all.drop_last()).push(r));
        assert(ring_replies(Seq::empty(), cap, ops) == ring_replies(
            Seq::empty(),
            cap,
            ops.drop_last(),
        ).push(r));
        assert(ring_replies(s, cap, all) =~= seq![RingReply::Cleared] + ring_replies(
            Seq::empty(),
            cap,
            ops,
        ));
    }
}

/// Law (room after a reset): into an empty buffer, `cap` pushes or fewer are
/// all accepted, and the buffer then holds exactly those bytes, oldest first.
pub proof fn lemma_fresh_pushes_accepted(cap: nat, xs: Seq<u8>)
    requires
        xs.len() <= cap,
    ensures
        ring_contents(Seq::empty(), cap, pushes(xs)) == xs,
        ring_replies(Seq::empty(), cap, pushes(xs)) == Seq::new(
            xs.len(),
            |i: int| RingReply::Pushed(true),
        ),
    decreases xs.len(),
{
    if xs.len() > 0 {
        lemma_fresh_pushes_accepted(cap, xs.drop_last());
        assert(pushes(xs).drop_last() =~= pushes(xs.drop_last()));
        assert(pushes(xs).last() == RingOp::Push(xs.last()));
        assert(xs.drop_last().push(xs.last()) =~= xs);
        assert(ring_replies(Seq::empty(), cap, pushes(xs)) =~= Seq::new(
            xs.len(),
            |i: int| RingReply::Pushed(true),
        ));
    } else {
        assert(pushes(xs) =~= Seq::<RingOp>::empty());
        assert(xs =~= Seq::<u8>::empty());
        assert(ring_replies(Seq::empty(), cap, pushes(xs)) =~= Seq::new(
            xs.len(),
            |i: int| RingReply::Pushed(true),
        ));
    }
}

/// Law (length counts calls): a buffer that starts empty holds, after any
/// calls, as many bytes as pushes were accepted minus pops returned a byte
/// since the last reset, and never more than its capacity.
pub proof fn lemma_len_is_net_count(cap: nat, ops: Seq<RingOp>)
    ensures
        ring_contents(Seq::empty(), cap, ops).len() == net_count(ring_replies(Seq::empty(), cap, ops)),
        ring_contents(Seq::empty(), cap, ops).len() <= cap,
    decreases ops.len(),
{
    if ops.len() > 0 {
        lemma_len_is_net_count(cap, ops.drop_last());
        let rs = ring_replies(Seq::empty(), cap, ops);
        assert(rs.drop_last() =~= ring_replies(Seq::empty(), cap, ops.drop_last()));
    }
}


/// Whether `b` is pushed by one of the first `n` calls of `ops`.
pub open spec fn pushed_before(ops: Seq<RingOp>, n: int, b: u8) -> bool {
    exists|j: int| 0 <= j < n && #[trigger] ops[j] == RingOp::Push(b)
}

/// Law (only pushed bytes come out): in a buffer that starts empty, every byte
/// that a pop returns was pushed by an earlier call, and so was every byte held.
pub proof fn lemma_popped_were_pushed(cap: nat, ops: Seq<RingOp>)
    ensures
        ring_replies(Seq::empty(), cap, ops).len() == ops.len(),
        forall|k: int|
            0 <= k < ring_contents(Seq::empty(), cap, ops).len() ==> pushed_before(
                ops,
                ops.len() as int,
                #[trigger] ring_contents(Seq::empty(), cap, ops)[k],
            ),
        forall|i: int|
            0 <= i < ring_replies(Seq::empty(), cap, ops).len() ==> (#[trigger] ring_replies(
                Seq::empty(),
                cap,
                ops,
            )[i] matches RingReply::Popped(Some(b)) ==> pushed_before(ops, i, b)),
    decreases ops.len(),
{
    if ops.len() > 0 {
        let pre = ops.drop_last();
        let n = ops.len() as int;
        lemma_popped_were_pushed(cap, pre);
        let c0 = ring_contents(Seq::empty(), cap, pre);
        let c1 = ring_contents(Seq::empty(), cap, ops);
        let r0 = ring_replies(Seq::empty(), cap, pre);
        let r1 = ring_replies(Seq::empty(), cap, ops);
        let st = ring_step(c0, cap, ops.last());
        assert(c1 == st.0);
        assert(r1 == r0.push(st.1));
        assert forall|j: int, b: u8| 0 <= j < n - 1 && pushed_before(pre, j, b) implies pushed_before(
            ops,
            j,
            b,
        ) by {
            let w = choose|w: int| 0 <= w < j && #[trigger] pre[w] == RingOp::Push(b);
            assert(ops[w] == pre[w]);
        }
        assert forall|k: int| 0 <= k < c0.len() implies pushed_before(ops, n, #[trigger] c0[k]) by {
            assert(pushed_before(pre, n - 1, c0[k]));
            let w = choose|w: int| 0 <= w < n - 1 && #[trigger] pre[w] == RingOp::Push(c0[k]);
            assert(ops[w] == pre[w]);
        }
        match ops.last() {
            RingOp::Push(b) => {
                assert(ops[n - 1] == RingOp::Push(b));
                assert forall|k: int| 0 <= k < c1.len() implies pushed_before(ops, n, #[trigger] c1[k]) by {
                    if k < c0.len() {
                        assert(c1[k] == c0[k]);
                    }
                }
            },
            RingOp::Pop => {
                assert forall|k: int| 0 <= k < c1.len() implies pushed_before(ops, n, #[trigger] c1[k]) by {
                    assert(c1[k] == c0[k + 1]);
                }
            },
            RingOp::Reset => {},
        }
        assert forall|i: int| 0 <= i < r1.len() implies (#[trigger] r1[i] matches RingReply::Popped(
            Some(b),
        ) ==> pushed_before(ops, i, b)) by {
            if i < n - 1 {
                assert(r1[i] == r0[i]);
                if let RingReply::Popped(Some(b)) = r1[i] {
                    assert(pushed_before(pre, i, b));
                }
            } else {
                if let RingReply::Popped(Some(b)) = r1[i] {
                    assert(c0.len() > 0 && b == c0[0]);
                    assert(pushed_before(pre, n - 1, c0[0]));
                }
            }
        }
    }
}

} // verus!
