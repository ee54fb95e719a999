//! Reassembles frames from the byte stream that the reader hands over in
//! chunks of any size.

use crate::frame::Frame;
use crate::leb128::DecodeError;
use crate::leb128::decode;
use crate::leb128::decode_u32;
use crate::leb128::lemma_decode_extend;
use crate::leb128::lemma_decode_window;
use std::collections::VecDeque;
use vstd::prelude::*;

verus! {

/// The largest payload that a parser made by [`Parser::new`] accepts.
pub const DEFAULT_PAYLOAD_LIMIT: usize = 10 * 1024 * 1024;

/// One frame as the parser hands it out.
#[derive(Debug, PartialEq, Eq)]
pub struct Packet {
    /// Key of the format literal.
    pub string_loc: usize,
    /// Key of the type name.
    pub type_loc: usize,
    /// The payload.
    pub buffer: Vec<u8>,
}

impl View for Packet {
    type V = Frame;

    open spec fn view(&self) -> Frame {
        Frame {
            fmt_key: self.string_loc as nat,
            type_key: self.type_loc as nat,
            payload: self.buffer@,
        }
    }
}

/// Why a byte stream cannot be parsed any further.
#[derive(Debug, Clone, Copy, PartialEq, Eq, Structural)]
pub enum ParseError {
    /// A header word runs past its fifth byte.
    MalformedHeader,
    /// A frame announces a payload above the parser's limit.
    PayloadTooLarge,
}

/// The parser as a mathematical value: the bytes not yet consumed and the
/// header words of the frame under way.
pub struct ParserState {
    /// Bytes pushed and not yet consumed, oldest first.
    pub queue: Seq<u8>,
    /// Payload length of the frame under way, once decoded.
    pub data_size: Option<usize>,
    /// Format key of the frame under way, once decoded.
    pub sym: Option<u32>,
    /// Type key of the frame under way, once decoded.
    pub typ: Option<u32>,
    /// The largest payload accepted.
    pub limit: usize,
}

/// What one parsing step found.
pub enum Outcome {
    /// A complete frame.
    Complete(Frame),
    /// More bytes are needed.
    Pending,
    /// The stream is broken.
    Fault(ParseError),
}

impl ParserState {
    /// A parser that has seen nothing.
    pub open spec fn fresh(limit: usize) -> ParserState {
        ParserState { queue: Seq::empty(), data_size: None, sym: None, typ: None, limit }
    }

    /// The state after `bytes` were pushed.
    pub open spec fn push(self, bytes: Seq<u8>) -> ParserState {
        ParserState { queue: self.queue + bytes, ..self }
    }

    /// The number of header words still to be decoded.
    pub open spec fn missing(self) -> nat {
        (if self.data_size is None {
            1nat
        } else {
            0nat
        }) + (if self.sym is None {
            1nat
        } else {
            0nat
        }) + (if self.typ is None {
            1nat
        } else {
            0nat
        })
    }

    /// One parsing step: decodes the header words that are still missing, in
    /// their order, as far as the queue allows, and then takes the payload
    /// off the queue if all of it is there. A header word that is cut short
    /// consumes nothing.
    pub open spec fn step(self) -> (ParserState, Outcome)
        decreases self.missing(),
    {
        if self.data_size is None {
            match decode(self.queue) {
                Ok((v, n)) => ParserState {
                    queue: self.queue.skip(n as int),
                    data_size: Some(v as usize),
                    ..self
                }.step(),
                Err(DecodeError::Incomplete) => (self, Outcome::Pending),
                Err(DecodeError::Malformed) => (
                    self,
                    Outcome::Fault(ParseError::MalformedHeader),
                ),
            }
        } else if self.data_size->Some_0 > self.limit {
            (self, Outcome::Fault(ParseError::PayloadTooLarge))
        } else if self.sym is None {
            match decode(self.queue) {
                Ok((v, n)) => ParserState {
                    queue: self.queue.skip(n as int),
                    sym: Some(v),
                    ..self
                }.step(),
                Err(DecodeError::Incomplete) => (self, Outcome::Pending),
                Err(DecodeError::Malformed) => (
                    self,
                    Outcome::Fault(ParseError::MalformedHeader),
                ),
            }
        } else if self.typ is None {
            match decode(self.queue) {
                Ok((v, n)) => ParserState {
                    queue: self.queue.skip(n as int),
                    typ: Some(v),
                    ..self
                }.step(),
                Err(DecodeError::Incomplete) => (self, Outcome::Pending),
                Err(DecodeError::Malformed) => (
                    self,
                    Outcome::Fault(ParseError::MalformedHeader),
                ),
            }
        } else if self.queue.len() >= self.data_size->Some_0 {
            (
                ParserState {
                    queue: self.queue.skip(self.data_size->Some_0 as int),
                    data_size: None,
                    sym: None,
                    typ: None,
                    ..self
                },
                Outcome::Complete(
                    Frame {
                        fmt_key: self.sym->Some_0 as nat,
                        type_key: self.typ->Some_0 as nat,
                        payload: self.queue.take(self.data_size->Some_0 as int),
                    },
                ),
            )
        } else {
            (self, Outcome::Pending)
        }
    }
}

/// What a call of [`Parser::poll`] returned, as an outcome.
pub open spec fn outcome_of(r: Result<Option<Packet>, ParseError>) -> Outcome {
    match r {
        Ok(Some(p)) => Outcome::Complete(p@),
        Ok(None) => Outcome::Pending,
        Err(e) => Outcome::Fault(e),
    }
}

/// The streaming parser.
#[derive(Debug)]
pub struct Parser {
    buf: VecDeque<u8>,
    data_size: Option<usize>,
    sym: Option<u32>,
    typ: Option<u32>,
    limit: usize,
}

impl View for Parser {
    type V = ParserState;

    closed spec fn view(&self) -> ParserState {
        ParserState {
            queue: self.buf@,
            data_size: self.data_size,
            sym: self.sym,
            typ: self.typ,
            limit: self.limit,
        }
    }
}

impl Parser {
    /// Create a new parser
    pub fn new() -> (p: Self)
        ensures
            p@ == ParserState::fresh(DEFAULT_PAYLOAD_LIMIT),
    {
        Parser::with_limit(DEFAULT_PAYLOAD_LIMIT)
    }

    /// A parser that accepts payloads of up to `limit` bytes.
    pub fn with_limit(limit: usize) -> (p: Self)
        ensures
            p@ == ParserState::fresh(limit),
    {
        Parser { buf: VecDeque::new(), data_size: None, sym: None, typ: None, limit }
    }

    /// Push a slice of data into the parser
    pub fn push(&mut self, data: &[u8])
        ensures
            final(self)@ == old(self)@.push(data@),
    {
        let mut i: usize = 0;
        while i < data.len()
            invariant
                i <= data.len(),
                self@ == old(self)@.push(data@.take(i as int)),
            decreases data.len() - i,
        {
            self.buf.push_back(data[i]);
            assert(old(self)@.queue + data@.take(i + 1) =~= (old(self)@.queue + data@.take(
                i as int,
            )).push(data@[i as int]));
            i += 1;
        }
        assert(data@.take(data.len() as int) =~= data@);
    }

    /// Decodes the word at the front of the queue and takes its bytes off
    /// the queue; a word that is cut short or malformed leaves the queue as
    /// it is.
    fn try_leb128(&mut self) -> (r: Result<u32, DecodeError>)
        ensures
            match decode(old(self)@.queue) {
                Ok((v, n)) => r == Ok::<u32, DecodeError>(v) && final(self)@ == (ParserState {
                    queue: old(self)@.queue.skip(n as int),
                    ..old(self)@
                }),
                Err(e) => r == Err::<u32, DecodeError>(e) && final(self)@ == old(self)@,
            },
    {
        let ghost queue = self.buf@;
        let mut head: Vec<u8> = Vec::new();
        let mut i: usize = 0;
        while i < self.buf.len() && i < 5
            invariant
                i <= 5,
                i <= self.buf.len(),
                self.buf@ == queue,
                self@ == old(self)@,
                head@ == queue.take(i as int),
            decreases 5 - i,
        {
            head.push(self.buf[i]);
            assert(head@ =~= queue.take(i + 1));
            i += 1;
        }
        proof {
            if queue.len() >= 5 {
                lemma_decode_window(queue);
            } else {
                assert(queue.take(queue.len() as int) =~= queue);
            }
            lemma_decode_extend(queue, Seq::empty());
        }
        match decode_u32(head.as_slice()) {
            Ok((val, len_used)) => {
                let mut k: usize = 0;
                while k < len_used
                    invariant
                        k <= len_used <= queue.len(),
                        self.buf@ == queue.skip(k as int),
                        self@ == (ParserState { queue: self.buf@, ..old(self)@ }),
                    decreases len_used - k,
                {
                    self.buf.pop_front();
                    assert(queue.skip(k as int).subrange(1, queue.len() - k) =~= queue.skip(
                        k + 1,
                    ));
                    k += 1;
                }
                Ok(val)
            },
            Err(e) => Err(e),
        }
    }

    /// One parsing step: a complete frame, nothing yet, or the reason why
    /// the stream cannot be parsed any further.
    pub fn poll(&mut self) -> (r: Result<Option<Packet>, ParseError>)
        ensures
            (final(self)@, outcome_of(r)) == old(self)@.step(),
    {
        loop
            invariant
                self@.step() == old(self)@.step(),
            decreases self@.missing(),
        {
            match (self.data_size, self.sym, self.typ) {
                (None, _, _) => {
                    match self.try_leb128() {
                        Ok(v) => {
                            self.data_size = Some(v as usize);
                        },
                        Err(DecodeError::Incomplete) => {
                            return Ok(None);
                        },
                        Err(DecodeError::Malformed) => {
                            return Err(ParseError::MalformedHeader);
                        },
                    }
                },
                (Some(data_size), sym, typ) => {
                    if data_size > self.limit {
                        return Err(ParseError::PayloadTooLarge);
                    }
                    if sym.is_none() {
                        match self.try_leb128() {
                            Ok(v) => {
                                self.sym = Some(v);
                            },
                            Err(DecodeError::Incomplete) => {
                                return Ok(None);
                            },
                            Err(DecodeError::Malformed) => {
                                return Err(ParseError::MalformedHeader);
                            },
                        }
                    } else if typ.is_none() {
                        match self.try_leb128() {
                            Ok(v) => {
                                self.typ = Some(v);
                            },
                            Err(DecodeError::Incomplete) => {
                                return Ok(None);
                            },
                            Err(DecodeError::Malformed) => {
                                return Err(ParseError::MalformedHeader);
                            },
                        }
                    } else {
                        // Wait for the data payload
                        if self.buf.len() < data_size {
                            return Ok(None);
                        }
                        let ghost here = self@;
                        let ghost queue = self.buf@;
                        let mut buffer: Vec<u8> = Vec::new();
                        let mut k: usize = 0;
                        while k < data_size
                            invariant
                                k <= data_size <= queue.len(),
                                self.buf@ == queue.skip(k as int),
                                buffer@ == queue.take(k as int),
                                self@ == (ParserState { queue: self.buf@, ..here }),
                            decreases data_size - k,
                        {
                            let b = self.buf.pop_front();
                            buffer.push(b.unwrap());
                            assert(queue.skip(k as int).subrange(1, queue.len() - k)
                                =~= queue.skip(k + 1));
                            assert(buffer@ =~= queue.take(k + 1));
                            k += 1;
                        }
                        self.data_size = None;
                        self.sym = None;
                        self.typ = None;
                        return Ok(
                            Some(
                                Packet {
                                    string_loc: sym.unwrap() as usize,
                                    type_loc: typ.unwrap() as usize,
                                    buffer,
                                },
                            ),
                        );
                    }
                },
            }
        }
    }

    /// Try to parse the existing buffer
    pub fn try_parse(&mut self) -> (r: Option<Packet>)
        requires
            !(old(self)@.step().1 is Fault),
        ensures
            (final(self)@, outcome_of(Ok(r))) == old(self)@.step(),
    {
        match self.poll() {
            Ok(r) => r,
            Err(_) => None,
        }
    }
}

} // verus!
