//! The transport: one socket, one buffer, one record at a time.
//!
//! The transport decides; its owner does the socket work. The owner creates
//! the socket and reports the outcome with [`Transport::bind`]. For each
//! record it calls [`Transport::begin_send`], hands the datagram to the
//! socket if there is one, and reports the outcome with
//! [`Transport::finish_send`]. When the records end it calls
//! [`Transport::close`].

use crate::record::{write_record, Record};
use vstd::prelude::*;

verus! {

/// The default limit on the size of a datagram, in bytes.
pub const DEFAULT_MAX_RECORD_SIZE: usize = 0x40_0000;

/// How a failure of the socket bears on the transport.
#[derive(Clone, Copy, Debug, PartialEq, Eq, Structural)]
pub enum FailureKind {
    /// A datagram could not be sent. The record is lost, the transport goes
    /// on.
    Transient,
    /// The socket could not be created. The transport cannot start.
    Terminal,
}

/// Why a record was not delivered.
#[derive(Clone, Copy, Debug, PartialEq, Eq, Structural)]
pub enum TransportError {
    /// The record holds a list or a map.
    InvalidInternalValue,
    /// The datagram of the record is larger than the limit.
    RecordTooLarge,
    /// The socket failed.
    SendFailed(FailureKind),
}

/// Where a transport stands in its life.
#[derive(Clone, Copy, Debug, PartialEq, Eq, Structural)]
pub enum TransportState {
    /// No socket yet.
    Created,
    /// The socket is there, nothing was sent.
    Bound,
    /// Records are being sent.
    Running,
    /// The socket is released.
    Closed,
}

/// One more failure, counted up to the largest number that fits.
pub open spec fn one_more(count: u64) -> u64 {
    if count < u64::MAX {
        (count + 1) as u64
    } else {
        count
    }
}

/// Clears `output` and writes the datagram of `record` into it, unless the
/// record holds a list or a map, or the datagram would be larger than
/// `max_size`: then `output` is left empty.
pub fn encode_record(record: &Record, max_size: usize, output: &mut Vec<u8>) -> (result: Result<
    (),
    TransportError,
>)
    ensures
        !record.is_flat() ==> result == Err::<(), TransportError>(
            TransportError::InvalidInternalValue,
        ),
        record.is_flat() && record.encoding().len() > max_size ==> result == Err::<
            (),
            TransportError,
        >(TransportError::RecordTooLarge),
        record.is_flat() && record.encoding().len() <= max_size ==> result == Ok::<
            (),
            TransportError,
        >(()),
        result is Ok ==> final(output)@ == record.encoding(),
        result is Err ==> final(output)@ == Seq::<u8>::empty(),
{
    output.clear();
    if !record.flat() {
        return Err(TransportError::InvalidInternalValue);
    }
    write_record(record, output);
    assert(output@ =~= record.encoding());
    if output.len() > max_size {
        output.clear();
        return Err(TransportError::RecordTooLarge);
    }
    Ok(())
}

/// What a transport holds.
pub struct TransportView {
    pub state: TransportState,
    /// The datagram that waits to be sent, or nothing.
    pub datagram: Seq<u8>,
    /// Whether a datagram waits to be sent.
    pub in_flight: bool,
    /// The limit on the size of a datagram.
    pub max_size: usize,
    /// How many records were not delivered.
    pub failures: u64,
}

/// The state of one journal socket and the buffer that its datagrams are
/// assembled in.
pub struct Transport {
    state: TransportState,
    buffer: Vec<u8>,
    in_flight: bool,
    max_size: usize,
    failures: u64,
}

impl View for Transport {
    type V = TransportView;

    closed spec fn view(&self) -> TransportView {
        TransportView {
            state: self.state,
            datagram: self.buffer@,
            in_flight: self.in_flight,
            max_size: self.max_size,
            failures: self.failures,
        }
    }
}

impl TransportView {
    /// Whether records can be sent: the socket is there and not released.
    pub open spec fn is_open(&self) -> bool {
        self.state == TransportState::Bound || self.state == TransportState::Running
    }
}

impl Transport {
    /// A datagram waits only while the transport runs, and is within the
    /// limit; nothing is kept of a record once its datagram is dealt with.
    #[verifier::type_invariant]
    spec fn well_formed(self) -> bool {
        &&& self.in_flight ==> self.state == TransportState::Running && self.buffer@.len()
            <= self.max_size
        &&& !self.in_flight ==> self.buffer@.len() == 0
    }

    /// A transport without a socket, for datagrams of at most `max_size`
    /// bytes.
    pub fn new(max_size: usize) -> (transport: Transport)
        ensures
            transport@ == (TransportView {
                state: TransportState::Created,
                datagram: Seq::empty(),
                in_flight: false,
                max_size,
                failures: 0,
            }),
    {
        Transport {
            state: TransportState::Created,
            buffer: Vec::new(),
            in_flight: false,
            max_size,
            failures: 0,
        }
    }

    /// Where the transport stands.
    pub fn state(&self) -> (state: TransportState)
        ensures
            state == self@.state,
    {
        self.state
    }

    /// Whether records can be sent.
    pub fn is_open(&self) -> (open: bool)
        ensures
            open == self@.is_open(),
    {
        match self.state {
            TransportState::Bound => true,
            TransportState::Running => true,
            _ => false,
        }
    }

    /// Whether a datagram waits to be sent.
    pub fn in_flight(&self) -> (in_flight: bool)
        ensures
            in_flight == self@.in_flight,
    {
        self.in_flight
    }

    /// The limit on the size of a datagram.
    pub fn max_size(&self) -> (max_size: usize)
        ensures
            max_size == self@.max_size,
    {
        self.max_size
    }

    /// How many records were not delivered.
    pub fn failures(&self) -> (failures: u64)
        ensures
            failures == self@.failures,
    {
        self.failures
    }

    /// The datagram that waits to be sent; empty if none does.
    pub fn datagram(&self) -> (datagram: &[u8])
        ensures
            datagram@ == self@.datagram,
            datagram@.len() <= self@.max_size || !self@.in_flight,
            !self@.in_flight ==> datagram@.len() == 0,
    {
        proof {
            use_type_invariant(self);
        }
        self.buffer.as_slice()
    }

    /// Takes the buffer out, emptied, so that it can be filled and put back.
    fn take_buffer(&mut self) -> (buffer: Vec<u8>)
        ensures
            buffer@ == Seq::<u8>::empty(),
            final(self)@ == (TransportView { datagram: Seq::empty(), ..old(self)@ }),
    {
        proof {
            use_type_invariant(&*self);
        }
        let mut buffer: Vec<u8> = Vec::new();
        std::mem::swap(&mut buffer, &mut self.buffer);
        buffer.clear();
        buffer
    }

    fn count_failure(&mut self)
        ensures
            final(self)@ == (TransportView { failures: one_more(old(self)@.failures), ..old(self)@ }),
    {
        proof {
            use_type_invariant(&*self);
        }
        if self.failures < u64::MAX {
            self.failures = self.failures + 1;
        }
    }

    /// Takes note of whether the socket could be created. With a socket the
    /// transport is bound; without one it is closed for good.
    pub fn bind(&mut self, socket_created: bool) -> (result: Result<(), TransportError>)
        requires
            old(self)@.state == TransportState::Created,
        ensures
            socket_created ==> result == Ok::<(), TransportError>(()) && final(self)@ == (
            TransportView { state: TransportState::Bound, ..old(self)@ }),
            !socket_created ==> result == Err::<(), TransportError>(
                TransportError::SendFailed(FailureKind::Terminal),
            ) && final(self)@ == (TransportView { state: TransportState::Closed, ..old(self)@ }),
    {
        proof {
            use_type_invariant(&*self);
        }
        if socket_created {
            self.state = TransportState::Bound;
            Ok(())
        } else {
            self.state = TransportState::Closed;
            Err(TransportError::SendFailed(FailureKind::Terminal))
        }
    }

    /// Assembles the datagram of `record`. On `Ok` the datagram waits to be
    /// sent. On `Err` there is nothing to send: the record is dropped and
    /// counted, and the transport is ready for the next one.
    pub fn begin_send(&mut self, record: &Record) -> (result: Result<(), TransportError>)
        requires
            old(self)@.is_open(),
            !old(self)@.in_flight,
        ensures
            !record.is_flat() ==> result == Err::<(), TransportError>(
                TransportError::InvalidInternalValue,
            ),
            record.is_flat() && record.encoding().len() > old(self)@.max_size ==> result == Err::<
                (),
                TransportError,
            >(TransportError::RecordTooLarge),
            record.is_flat() && record.encoding().len() <= old(self)@.max_size ==> result == Ok::<
                (),
                TransportError,
            >(()),
            result is Ok ==> final(self)@ == (TransportView {
                state: TransportState::Running,
                datagram: record.encoding(),
                in_flight: true,
                ..old(self)@
            }),
            result is Err ==> final(self)@ == (TransportView {
                state: TransportState::Running,
                datagram: Seq::empty(),
                in_flight: false,
                failures: one_more(old(self)@.failures),
                ..old(self)@
            }),
            result is Err ==> final(self)@.is_open() && !final(self)@.in_flight,
    {
        proof {
            use_type_invariant(&*self);
        }
        self.state = TransportState::Running;
        let mut buffer = self.take_buffer();
        let result = encode_record(record, self.max_size, &mut buffer);
        match result {
            Ok(()) => {
                self.in_flight = true;
            },
            Err(_) => {
                self.count_failure();
            },
        }
        self.buffer = buffer;
        result
    }

    /// Takes note of what became of the datagram that waited, and forgets
    /// it. A datagram that the socket did not take is a lost record, counted
    /// and reported; the transport goes on.
    pub fn finish_send(&mut self, delivered: bool) -> (result: Result<(), TransportError>)
        requires
            old(self)@.in_flight,
        ensures
            delivered ==> result == Ok::<(), TransportError>(()) && final(self)@ == (TransportView {
                datagram: Seq::empty(),
                in_flight: false,
                ..old(self)@
            }),
            !delivered ==> result == Err::<(), TransportError>(
                TransportError::SendFailed(FailureKind::Transient),
            ) && final(self)@ == (TransportView {
                datagram: Seq::empty(),
                in_flight: false,
                failures: one_more(old(self)@.failures),
                ..old(self)@
            }),
            final(self)@.state == TransportState::Running,
            final(self)@.is_open() && !final(self)@.in_flight,
    {
        proof {
            use_type_invariant(&*self);
        }
        let buffer = self.take_buffer();
        self.in_flight = false;
        self.buffer = buffer;
        if delivered {
            Ok(())
        } else {
            self.count_failure();
            Err(TransportError::SendFailed(FailureKind::Transient))
        }
    }

    /// Releases the socket. A datagram that still waited is forgotten.
    pub fn close(&mut self)
        ensures
            final(self)@ == (TransportView {
                state: TransportState::Closed,
                datagram: Seq::empty(),
                in_flight: false,
                ..old(self)@
            }),
    {
        let buffer = self.take_buffer();
        self.in_flight = false;
        self.buffer = buffer;
        self.state = TransportState::Closed;
    }
}

} // verus!
