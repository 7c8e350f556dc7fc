use vstd::prelude::*;

verus! {

/// Which part of an LD2450 report frame the parser is in.
#[derive(Debug, Clone, Copy, PartialEq, Eq, Structural)]
pub enum ParserState {
    Header,
    Data,
    Eof,
}

/// The four bytes that open every report frame.
pub open spec fn frame_header() -> Seq<u8> {
    seq![0xAAu8, 0xFFu8, 0x03u8, 0x00u8]
}

/// The two bytes that close every report frame.
pub open spec fn frame_footer() -> Seq<u8> {
    seq![0x55u8, 0xCCu8]
}

/// The number of bytes in a complete report frame.
pub open spec fn frame_len() -> nat {
    30
}

/// The state that goes with `n` accepted bytes.
pub open spec fn state_for(n: nat) -> ParserState {
    if n <= 4 {
        ParserState::Header
    } else if n <= 28 {
        ParserState::Data
    } else {
        ParserState::Eof
    }
}

/// Whether `acc` can be the start of a report frame: its header bytes and its
/// footer bytes (as far as it reaches) are the expected ones.
pub open spec fn valid_prefix(acc: Seq<u8>) -> bool {
    &&& acc.len() <= 30
    &&& forall|i: int| 0 <= i < 4 && i < acc.len() ==> acc[i] == frame_header()[i]
    &&& forall|i: int| 28 <= i < acc.len() ==> acc[i] == frame_footer()[i - 28]
}

/// One step of the parser on the accepted bytes `acc`: the new accepted bytes
/// and the state reported for `byte`. A byte that breaks the header or the
/// footer discards everything accepted so far.
pub open spec fn push_step(acc: Seq<u8>, byte: u8) -> (Seq<u8>, ParserState) {
    let n = acc.len();
    if n < 4 {
        if byte == frame_header()[n as int] {
            (acc.push(byte), ParserState::Header)
        } else {
            (Seq::empty(), ParserState::Header)
        }
    } else if n == 28 || n == 29 {
        if byte == frame_footer()[n - 28] {
            (acc.push(byte), ParserState::Eof)
        } else {
            (Seq::empty(), ParserState::Header)
        }
    } else {
        (acc.push(byte), ParserState::Data)
    }
}

/// The three 8-byte target records of a frame whose first 28 bytes are `acc`.
pub open spec fn target_records(acc: Seq<u8>) -> Seq<Seq<u8>> {
    seq![acc.subrange(4, 12), acc.subrange(12, 20), acc.subrange(20, 28)]
}

/// Reassembles LD2450 report frames one byte at a time.
pub struct Parser {
    buffer: [u8; 30],
    current_byte: usize,
    state: ParserState,
}

impl Parser {
    /// The bytes of the current frame accepted so far.
    pub closed spec fn accepted(&self) -> Seq<u8> {
        self.buffer@.take(self.current_byte as int)
    }

    /// The state of the parser.
    pub closed spec fn state_spec(&self) -> ParserState {
        self.state
    }

    pub closed spec fn wf(&self) -> bool {
        &&& self.current_byte <= 30
        &&& self.state == state_for(self.current_byte as nat)
        &&& valid_prefix(self.accepted())
    }

    /// A parser waiting for the first header byte.
    pub fn init() -> (p: Parser)
        ensures
            p.wf(),
            p.accepted() == Seq::<u8>::empty(),
            p.state_spec() == ParserState::Header,
    {
        let p = Parser { buffer: [0u8; 30], current_byte: 0, state: ParserState::Header };
        assert(p.accepted() =~= Seq::<u8>::empty());
        p
    }

    /// Forgets the current frame.
    pub fn reset(&mut self)
        ensures
            final(self).wf(),
            final(self).accepted() == Seq::<u8>::empty(),
            final(self).state_spec() == ParserState::Header,
    {
        self.state = ParserState::Header;
        self.buffer = [0u8; 30];
        self.current_byte = 0;
        assert(self.accepted() =~= Seq::<u8>::empty());
    }

    /// The three target records of a frame whose footer has begun, or `None`
    /// while the frame is still incomplete.
    pub fn get_data(&self) -> (data: Option<[[u8; 8]; 3]>)
        requires
            self.wf(),
        ensures
            self.state_spec() != ParserState::Eof <==> data is None,
            data is Some <==> frame_data(self.accepted()) is Some,
            data matches Some(d) ==> d@.map_values(|r: [u8; 8]| r@) == target_records(
                self.accepted(),
            ),
    {
        if self.state != ParserState::Eof {
            return None;
        }
        let b = &self.buffer;
        let r0: [u8; 8] = [b[4], b[5], b[6], b[7], b[8], b[9], b[10], b[11]];
        let r1: [u8; 8] = [b[12], b[13], b[14], b[15], b[16], b[17], b[18], b[19]];
        let r2: [u8; 8] = [b[20], b[21], b[22], b[23], b[24], b[25], b[26], b[27]];
        let out: [[u8; 8]; 3] = [r0, r1, r2];
        assert(r0@ =~= self.accepted().subrange(4, 12));
        assert(r1@ =~= self.accepted().subrange(12, 20));
        assert(r2@ =~= self.accepted().subrange(20, 28));
        assert(out@.map_values(|r: [u8; 8]| r@) =~= target_records(self.accepted()));
        Some(out)
    }

    /// Feeds one byte and reports the part of the frame it belongs to.
    pub fn push(&mut self, byte: u8) -> (st: ParserState)
        requires
            old(self).wf(),
            old(self).accepted().len() < frame_len(),
        ensures
            final(self).wf(),
            (final(self).accepted(), st) == push_step(old(self).accepted(), byte),
            final(self).state_spec() == st,
    {
        let ghost acc = self.accepted();
        if self.current_byte < 4 {
            self.state = ParserState::Header;
            let expected: u8 = if self.current_byte == 0 {
                0xAA
            } else if self.current_byte == 1 {
                0xFF
            } else if self.current_byte == 2 {
                0x03
            } else {
                0x00
            };
            if byte == expected {
                self.buffer[self.current_byte] = byte;
                self.current_byte += 1;
                assert(self.accepted() =~= acc.push(byte));
                return ParserState::Header;
            } else {
                self.reset();
                return ParserState::Header;
            }
        }
        if self.current_byte == 28 || self.current_byte == 29 {
            self.state = ParserState::Eof;
            let expected: u8 = if self.current_byte == 28 {
                0x55
            } else {
                0xCC
            };
            if byte == expected {
                self.buffer[self.current_byte] = byte;
                self.current_byte += 1;
                assert(self.accepted() =~= acc.push(byte));
                return ParserState::Eof;
            } else {
                self.reset();
                return ParserState::Header;
            }
        }
        self.state = ParserState::Data;
        self.buffer[self.current_byte] = byte;
        self.current_byte += 1;
        assert(self.accepted() =~= acc.push(byte));
        ParserState::Data
    }
}

/// The accepted bytes after feeding `bytes` one by one, starting from `acc`.
pub open spec fn feed(acc: Seq<u8>, bytes: Seq<u8>) -> Seq<u8>
    decreases bytes.len(),
{
    if bytes.len() == 0 {
        acc
    } else {
        push_step(feed(acc, bytes.drop_last()), bytes.last()).0
    }
}

/// Whether `f` is a well-formed report frame: thirty bytes opened by the
/// header and closed by the footer.
pub open spec fn is_frame(f: Seq<u8>) -> bool {
    f.len() == frame_len() && valid_prefix(f)
}

/// Law (frame recognition): feeding the first `k` bytes of a well-formed frame
/// to an empty parser keeps all of them, and the byte at position `k - 1` is
/// reported as header (positions 0 to 3), data (4 to 27) or end of frame
/// (28 and 29).
pub proof fn lemma_frame_recognized(f: Seq<u8>, k: nat)
    requires
        is_frame(f),
        k <= frame_len(),
    ensures
        feed(Seq::empty(), f.take(k as int)) == f.take(k as int),
        k > 0 ==> push_step(f.take(k - 1), f[k - 1]).1 == state_for(k),
    decreases k,
{
    if k > 0 {
        lemma_frame_recognized(f, (k - 1) as nat);
        assert(f.take(k as int).drop_last() =~= f.take(k - 1));
        assert(f.take(k - 1).push(f[k - 1]) =~= f.take(k as int));
    } else {
        assert(f.take(0) =~= Seq::<u8>::empty());
    }
}

/// Law (resynchronisation): while no frame is begun, every byte other than the
/// first header byte is dropped.
pub proof fn lemma_noise_dropped(byte: u8)
    requires
        byte != 0xAAu8,
    ensures
        push_step(Seq::empty(), byte) == (Seq::<u8>::empty(), ParserState::Header),
{
}

/// Law (targets come from the data section): the target records are read from
/// bytes 4 to 27 alone, so they are the same whether the frame is seen up to its
/// first footer byte or whole.
pub proof fn lemma_records_of_whole_frame(f: Seq<u8>)
    requires
        is_frame(f),
    ensures
        target_records(f.take(29)) == target_records(f),
{
    assert(f.take(29).subrange(4, 12) =~= f.subrange(4, 12));
    assert(f.take(29).subrange(12, 20) =~= f.subrange(12, 20));
    assert(f.take(29).subrange(20, 28) =~= f.subrange(20, 28));
    assert(target_records(f.take(29)) =~= target_records(f));
}

/// Law (invariant): every step keeps the accepted bytes a possible frame start,
/// and the reported state is the state that goes with the new length.
pub proof fn lemma_step_keeps_prefix(acc: Seq<u8>, byte: u8)
    requires
        valid_prefix(acc),
        acc.len() < frame_len(),
    ensures
        valid_prefix(push_step(acc, byte).0),
        push_step(acc, byte).0.len() > 0 ==> push_step(acc, byte).1 == state_for(
            push_step(acc, byte).0.len(),
        ),
{
}


/// One call on a parser.
pub enum ParserOp {
    Push(u8),
    Reset,
}

/// The accepted bytes of a new parser after the calls `ops`.
pub open spec fn parser_run(ops: Seq<ParserOp>) -> Seq<u8>
    decreases ops.len(),
{
    if ops.len() == 0 {
        Seq::empty()
    } else {
        match ops.last() {
            ParserOp::Push(b) => push_step(parser_run(ops.drop_last()), b).0,
            ParserOp::Reset => Seq::empty(),
        }
    }
}

/// Whether each push of `ops` comes while fewer than thirty bytes are
/// accepted, as `push` requires.
pub open spec fn parser_can_run(ops: Seq<ParserOp>) -> bool
    decreases ops.len(),
{
    if ops.len() == 0 {
        true
    } else {
        &&& parser_can_run(ops.drop_last())
        &&& (ops.last() is Push ==> parser_run(ops.drop_last()).len() < frame_len())
    }
}

/// What the last push since the last reset (or since the parser was made)
/// returned, if there was one.
pub open spec fn last_push_reply(ops: Seq<ParserOp>) -> Option<ParserState> {
    if ops.len() == 0 {
        None
    } else {
        match ops.last() {
            ParserOp::Push(b) => Some(push_step(parser_run(ops.drop_last()), b).1),
            ParserOp::Reset => None,
        }
    }
}

/// What `get_data` returns for the accepted bytes `acc`: the three target
/// records once the footer has begun, nothing before.
pub open spec fn frame_data(acc: Seq<u8>) -> Option<Seq<Seq<u8>>> {
    if state_for(acc.len()) == ParserState::Eof {
        Some(target_records(acc))
    } else {
        None
    }
}

impl Parser {
    /// The state of a well-formed parser is the state that goes with the
    /// number of accepted bytes.
    pub proof fn lemma_state_of_accepted(&self)
        requires
            self.wf(),
        ensures
            self.state_spec() == state_for(self.accepted().len()),
            self.accepted().len() <= frame_len(),
    {
    }
}

/// Law (data follows the last push): for a parser made new and then given any
/// pushes and resets that `push` admits, `get_data` has the target records
/// exactly when the last push since the last reset returned `Eof`, and those
/// records are bytes 4 to 27 of the accepted frame; the accepted bytes are
/// always a possible frame start.
pub proof fn lemma_data_follows_last_push(ops: Seq<ParserOp>)
    requires
        parser_can_run(ops),
    ensures
        valid_prefix(parser_run(ops)),
        state_for(parser_run(ops).len()) == ParserState::Eof <==> last_push_reply(ops) == Some(
            ParserState::Eof,
        ),
        frame_data(parser_run(ops)) is Some <==> last_push_reply(ops) == Some(ParserState::Eof),
        frame_data(parser_run(ops)) matches Some(d) ==> d == target_records(parser_run(ops)),
    decreases ops.len(),
{
    if ops.len() > 0 {
        lemma_data_follows_last_push(ops.drop_last());
        let acc = parser_run(ops.drop_last());
        match ops.last() {
            ParserOp::Push(b) => {
                lemma_step_keeps_prefix(acc, b);
            },
            ParserOp::Reset => {
                assert(valid_prefix(Seq::<u8>::empty()));
            },
        }
    } else {
        assert(valid_prefix(Seq::<u8>::empty()));
    }
}


/// Law (a broken header is dropped): while the header is being matched, a
/// byte other than the next expected one of AA FF 03 00 discards every
/// accepted byte, and the parser reports that it is looking for a header.
pub proof fn lemma_header_mismatch_discards(acc: Seq<u8>, byte: u8)
    requires
        acc.len() < 4,
        byte != seq![0xAAu8, 0xFFu8, 0x03u8, 0x00u8][acc.len() as int],
    ensures
        push_step(acc, byte).0.len() == 0,
        push_step(acc, byte).1 == ParserState::Header,
{
}

/// Law (a broken footer drops the frame): at the footer, a byte other than the
/// expected one of 55 CC discards the whole frame.
pub proof fn lemma_footer_mismatch_discards(acc: Seq<u8>, byte: u8)
    requires
        acc.len() == 28 || acc.len() == 29,
        byte != seq![0x55u8, 0xCCu8][acc.len() - 28],
    ensures
        push_step(acc, byte).0.len() == 0,
        push_step(acc, byte).1 == ParserState::Header,
{
}

/// The bytes pushed since the last reset (or since the parser was made).
pub open spec fn pushed_since_reset(ops: Seq<ParserOp>) -> Seq<u8>
    decreases ops.len(),
{
    if ops.len() == 0 {
        Seq::empty()
    } else {
        match ops.last() {
            ParserOp::Push(b) => pushed_since_reset(ops.drop_last()).push(b),
            ParserOp::Reset => Seq::empty(),
        }
    }
}

/// Law (the frame is the latest bytes): the accepted bytes are always the
/// last bytes pushed since the last reset, in the order they came, with
/// nothing skipped and nothing added.
pub proof fn lemma_accepted_is_suffix(ops: Seq<ParserOp>)
    ensures
        parser_run(ops).len() <= pushed_since_reset(ops).len(),
        parser_run(ops) == pushed_since_reset(ops).skip(
            pushed_since_reset(ops).len() - parser_run(ops).len(),
        ),
    decreases ops.len(),
{
    if ops.len() > 0 {
        lemma_accepted_is_suffix(ops.drop_last());
        let acc = parser_run(ops.drop_last());
        let p = pushed_since_reset(ops.drop_last());
        match ops.last() {
            ParserOp::Push(b) => {
                let acc2 = push_step(acc, b).0;
                let p2 = p.push(b);
                if acc2.len() == 0 {
                    assert(p2.skip(p2.len() as int) =~= acc2);
                } else {
                    assert(acc2 == acc.push(b));
                    assert(p2.skip(p2.len() - acc2.len()) =~= p.skip(p.len() - acc.len()).push(b));
                }
            },
            ParserOp::Reset => {
                assert(Seq::<u8>::empty().skip(0) =~= Seq::<u8>::empty());
            },
        }
    } else {
        assert(Seq::<u8>::empty().skip(0) =~= Seq::<u8>::empty());
    }
}
} // verus!
