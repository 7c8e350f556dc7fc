use vstd::prelude::*;

use crate::frame_parser::{
    is_frame, lemma_frame_recognized, push_step, state_for, target_records, Parser, ParserState,
};
use crate::ring_buffer::RingBuffer;
use crate::target::{decodes_to, process_data, TargetInfo};

verus! {

/// The outcome of one non-blocking read from the radar's serial port.
#[derive(Debug)]
pub enum UartRead<E> {
    /// A byte arrived.
    Byte(u8),
    /// No byte is waiting.
    WouldBlock,
    /// The port reported an error.
    Failed(E),
}

/// The three targets of one complete report frame.
#[derive(Debug)]
pub struct SensorInfo {
    pub targets_info: [TargetInfo; 3],
}

/// Why a poll gave up on the bytes buffered so far.
#[derive(Debug)]
pub enum SensorError<UartError> {
    BufferFull,
    Uart(UartError),
}

/// The capacity of the receive queue between the serial port and the parser.
pub open spec fn queue_capacity() -> nat {
    128
}

/// Whether `info` holds the decoded target records of the frame `acc`.
pub open spec fn reports_frame(acc: Seq<u8>, info: SensorInfo) -> bool {
    forall|k: int| 0 <= k < 3 ==> decodes_to(#[trigger] target_records(acc)[k], info.targets_info@[k])
}

/// Hands the oldest queued byte, if any, to the parser: the new queue, the new
/// frame, and the completed frame when that byte begins the footer.
pub open spec fn feed_one(q: Seq<u8>, acc: Seq<u8>) -> (Seq<u8>, Seq<u8>, Option<Seq<u8>>) {
    if q.len() == 0 {
        (q, acc, None)
    } else {
        let (acc2, st) = push_step(acc, q[0]);
        if st == ParserState::Eof {
            (q.drop_first(), Seq::empty(), Some(acc2))
        } else {
            (q.drop_first(), acc2, None)
        }
    }
}

/// The frame being assembled, and what each poll reported, when `bytes`
/// arrive one per poll at a receiver with an empty queue and the frame `acc`.
pub open spec fn deliver(acc: Seq<u8>, bytes: Seq<u8>) -> (Seq<u8>, Seq<Option<Seq<u8>>>)
    decreases bytes.len(),
{
    if bytes.len() == 0 {
        (acc, Seq::empty())
    } else {
        let (a, rs) = deliver(acc, bytes.drop_last());
        let (_, a2, r) = feed_one(seq![bytes.last()], a);
        (a2, rs.push(r))
    }
}

/// Law (one report per frame): when a well-formed frame arrives one byte per
/// poll at an idle receiver, exactly one poll reports, the one that takes the
/// first footer byte, and it reports the frame; the second footer byte is
/// dropped and the receiver is idle again.
pub proof fn lemma_frame_reported_once(f: Seq<u8>, k: nat)
    requires
        is_frame(f),
        k <= 30,
    ensures
        deliver(Seq::empty(), f.take(k as int)).0 == (if k < 29 {
            f.take(k as int)
        } else {
            Seq::<u8>::empty()
        }),
        deliver(Seq::empty(), f.take(k as int)).1 == Seq::new(
            k,
            |i: int| if i == 28 { Some(f.take(29)) } else { None::<Seq<u8>> },
        ),
    decreases k,
{
    if k > 0 {
        lemma_frame_recognized(f, (k - 1) as nat);
        lemma_frame_reported_once(f, (k - 1) as nat);
        assert(f.take(k as int).drop_last() =~= f.take(k - 1));
        assert(f.take(k as int).last() == f[k - 1]);
        if k <= 29 {
            lemma_frame_recognized(f, k);
        }
        assert(deliver(Seq::empty(), f.take(k as int)).1 =~= Seq::new(
            k,
            |i: int| if i == 28 { Some(f.take(29)) } else { None::<Seq<u8>> },
        ));
    } else {
        assert(f.take(0) =~= Seq::<u8>::empty());
        assert(deliver(Seq::empty(), f.take(0)).1 =~= Seq::new(
            0,
            |i: int| if i == 28 { Some(f.take(29)) } else { None::<Seq<u8>> },
        ));
    }
}

/// The LD2450 receive path: serial bytes are queued, then fed to the frame
/// parser one per poll.
pub struct Ld2450 {
    parser: Parser,
    ring_buffer: RingBuffer<128>,
}

impl Ld2450 {
    /// The bytes received but not yet handed to the parser.
    pub closed spec fn queued(&self) -> Seq<u8> {
        self.ring_buffer.view()
    }

    /// The bytes of the frame being assembled.
    pub closed spec fn frame(&self) -> Seq<u8> {
        self.parser.accepted()
    }

    pub closed spec fn wf(&self) -> bool {
        &&& self.parser.wf()
        &&& self.ring_buffer.wf()
        &&& self.parser.accepted().len() <= 28
    }

    /// A receiver with nothing queued and no frame begun.
    pub fn new() -> (s: Self)
        ensures
            s.wf(),
            s.queued() == Seq::<u8>::empty(),
            s.frame() == Seq::<u8>::empty(),
    {
        Self { parser: Parser::init(), ring_buffer: RingBuffer::<128>::init() }
    }

    /// Takes the outcome of one serial read, then feeds at most one queued
    /// byte to the parser. Returns the targets when that byte starts the
    /// frame's footer.
    pub fn poll<E>(&mut self, read: UartRead<E>) -> (result: Result<Option<SensorInfo>, SensorError<E>>)
        requires
            old(self).wf(),
        ensures
            final(self).wf(),
            ({
                let q0 = old(self).queued();
                let acc = old(self).frame();
                match read {
                    UartRead::Failed(e) => {
                        &&& result == Err::<Option<SensorInfo>, SensorError<E>>(SensorError::Uart(e))
                        &&& final(self).queued() == Seq::<u8>::empty()
                        &&& final(self).frame() == Seq::<u8>::empty()
                    },
                    UartRead::Byte(b) if q0.len() >= queue_capacity() => {
                        &&& result == Err::<Option<SensorInfo>, SensorError<E>>(SensorError::BufferFull)
                        &&& final(self).queued() == Seq::<u8>::empty()
                        &&& final(self).frame() == Seq::<u8>::empty()
                    },
                    _ => {
                        let q1 = match read {
                            UartRead::Byte(b) => q0.push(b),
                            _ => q0,
                        };
                        let (q2, acc2, report) = feed_one(q1, acc);
                        &&& final(self).queued() == q2
                        &&& final(self).frame() == acc2
                        &&& match report {
                            Some(fr) => result matches Ok(Some(info)) && reports_frame(fr, info),
                            None => result == Ok::<Option<SensorInfo>, SensorError<E>>(None),
                        }
                    },
                }
            }),
    {
        match read {
            UartRead::Byte(byte) => {
                if !self.ring_buffer.push(byte) {
                    self.ring_buffer.reset();
                    self.parser.reset();
                    return Err(SensorError::BufferFull);
                }
            },
            UartRead::WouldBlock => {},
            UartRead::Failed(error) => {
                self.ring_buffer.reset();
                self.parser.reset();
                return Err(SensorError::Uart(error));
            },
        }
        if let Some(process_byte) = self.ring_buffer.pop() {
            if self.parser.push(process_byte) == ParserState::Eof {
                if let Some(all_data) = self.parser.get_data() {
                    let t0 = process_data(all_data[0].as_slice());
                    let t1 = process_data(all_data[1].as_slice());
                    let t2 = process_data(all_data[2].as_slice());
                    let targets: [TargetInfo; 3] = [t0, t1, t2];
                    let ghost acc2 = self.parser.accepted();
                    self.parser.reset();
                    let info = SensorInfo { targets_info: targets };
                    assert(target_records(acc2)[0] == all_data@[0]@);
                    assert(target_records(acc2)[1] == all_data@[1]@);
                    assert(target_records(acc2)[2] == all_data@[2]@);
                    assert(reports_frame(acc2, info));
                    return Ok(Some(info));
                }
                self.parser.reset();
            }
        }
        Ok(None)
    }
}

} // verus!
