//! TURN over a stream: where one packet ends and the next begins, and the
//! state of one stream.

use vstd::prelude::*;

verus! {

/// Most time in nanoseconds that the first packet of a stream may take.
pub const FIRST_PACKET_NANOS: u128 = 10_000_000_000;

/// The address of a socket.
#[derive(Clone, Copy, Debug, PartialEq, Eq, Structural)]
pub struct Endpoint {
    /// It is an IPv4 address.
    pub v4: bool,
    /// The address as a number.
    pub ip: u128,
    pub port: u16,
    /// The flow of an IPv6 address, else zero.
    pub flowinfo: u32,
    /// The scope of an IPv6 address, else zero.
    pub scope_id: u32,
}

/// Why a stream gives nothing.
#[derive(Clone, Copy, Debug, PartialEq, Eq, Structural)]
pub enum StreamError {
    InvalidFrame,
    TooLarge,
    Closed,
    ReadTimedOut,
    WriteTimedOut,
    PeerChange,
    WrongPeer,
    /// Reading or writing failed.
    Broken,
}

/// Why a stream gives nothing, in words.
pub open spec fn stream_error_words(error: StreamError) -> Seq<char> {
    match error {
        StreamError::InvalidFrame => "invalid TURN stream frame"@,
        StreamError::TooLarge => "TURN packet exceeds buffer"@,
        StreamError::Closed => "TURN stream closed"@,
        StreamError::ReadTimedOut => "TURN stream read timed out"@,
        StreamError::WriteTimedOut => "TURN stream write timed out"@,
        StreamError::PeerChange => "stream peer cannot change"@,
        StreamError::WrongPeer => "wrong TURN stream peer"@,
        StreamError::Broken => "TURN stream failed"@,
    }
}

impl StreamError {
    /// The reason in words.
    pub fn message(&self) -> (text: &'static str)
        ensures
            text@ == stream_error_words(*self),
    {
        match self {
            StreamError::InvalidFrame => "invalid TURN stream frame",
            StreamError::TooLarge => "TURN packet exceeds buffer",
            StreamError::Closed => "TURN stream closed",
            StreamError::ReadTimedOut => "TURN stream read timed out",
            StreamError::WriteTimedOut => "TURN stream write timed out",
            StreamError::PeerChange => "stream peer cannot change",
            StreamError::WrongPeer => "wrong TURN stream peer",
            StreamError::Broken => "TURN stream failed",
        }
    }
}

/// The number in two bytes, the higher one first.
pub open spec fn number(high: u8, low: u8) -> int {
    high * 256 + low
}

/// A header that begins a STUN message: the two highest bits are 00.
pub open spec fn is_stun(first: u8) -> bool {
    first < 0x40
}

/// A header that begins channel data: the two highest bits are 01.
pub open spec fn is_channel(first: u8) -> bool {
    0x40 <= first < 0x80
}

/// Zeros that fill a length up to a multiple of four.
pub open spec fn filling(length: int) -> int {
    (4 - length % 4) % 4
}

/// The length of the packet that a header begins, and of the filling behind it.
/// A STUN message has 20 bytes before its content, which is a multiple of four;
/// channel data has 4, and is filled up.
pub open spec fn layout(header: Seq<u8>, capacity: int) -> Result<(int, int), StreamError> {
    let size = number(header[2], header[3]);
    if is_stun(header[0]) && size % 4 == 0 {
        if 20 + size > capacity {
            Err(StreamError::TooLarge)
        } else {
            Ok((20 + size, 0))
        }
    } else if is_channel(header[0]) {
        if 4 + size > capacity {
            Err(StreamError::TooLarge)
        } else {
            Ok((4 + size, filling(size)))
        }
    } else {
        Err(StreamError::InvalidFrame)
    }
}

/// How far a packet has come in.
#[derive(Clone, Copy, Debug, PartialEq, Eq, Structural)]
pub enum Progress {
    /// So many bytes are to be read next.
    More(usize),
    /// The packet is complete: it has this length, and whatever was received
    /// behind it is filling.
    Complete(usize),
}

/// How far a packet has come in, of which these bytes were received.
pub open spec fn progress(received: Seq<u8>, capacity: int) -> Result<Progress, StreamError> {
    if received.len() < 4 {
        Ok(Progress::More((4 - received.len()) as usize))
    } else {
        match layout(received, capacity) {
            Err(error) => Err(error),
            Ok((length, padding)) => if received.len() < length + padding {
                Ok(Progress::More((length + padding - received.len()) as usize))
            } else {
                Ok(Progress::Complete(length as usize))
            },
        }
    }
}

/// Finds how far a packet has come in, of which these bytes were received. A
/// packet that is longer than `capacity` is refused as soon as its header is there.
pub fn read_packet(received: &[u8], capacity: usize) -> (result: Result<Progress, StreamError>)
    ensures
        result == progress(received@, capacity as int),
{
    if received.len() < 4 {
        return Ok(Progress::More(4 - received.len()));
    }
    let first: u8 = received[0];
    let size: usize = received[2] as usize * 256 + received[3] as usize;
    assert(first & 0xc0 == 0x00 <==> first < 0x40) by (bit_vector);
    assert(first & 0xc0 == 0x40 <==> 0x40 <= first && first < 0x80) by (bit_vector);
    let (length, padding): (usize, usize) = if first & 0xc0 == 0x00 && size % 4 == 0 {
        (20 + size, 0)
    } else if first & 0xc0 == 0x40 {
        (4 + size, (4 - size % 4) % 4)
    } else {
        return Err(StreamError::InvalidFrame);
    };
    if length > capacity {
        return Err(StreamError::TooLarge);
    }
    if received.len() < length + padding {
        Ok(Progress::More(length + padding - received.len()))
    } else {
        Ok(Progress::Complete(length))
    }
}

/// Zeros that are written behind a buffer: channel data is filled up to a
/// multiple of four.
pub open spec fn trailing(buffer: Seq<u8>) -> int {
    if buffer.len() >= 4 && is_channel(buffer[0]) {
        let size = number(buffer[2], buffer[3]);
        let padded = 4 + size + filling(size);
        if padded > buffer.len() {
            padded - buffer.len()
        } else {
            0
        }
    } else {
        0
    }
}

/// A buffer that can be filled up: channel data is at most a filling short of
/// the length in its header.
pub open spec fn sendable(buffer: Seq<u8>) -> bool {
    trailing(buffer) <= 3
}

/// Counts the zeros that fill a buffer up.
fn count_trailing(buffer: &[u8]) -> (n: usize)
    ensures
        n == trailing(buffer@),
{
    if buffer.len() < 4 {
        return 0;
    }
    let first: u8 = buffer[0];
    assert(first & 0xc0 == 0x40 <==> 0x40 <= first && first < 0x80) by (bit_vector);
    if first & 0xc0 != 0x40 {
        return 0;
    }
    let size: usize = buffer[2] as usize * 256 + buffer[3] as usize;
    let padded: usize = 4 + size + (4 - size % 4) % 4;
    if padded > buffer.len() {
        padded - buffer.len()
    } else {
        0
    }
}

/// Whether a buffer can be filled up.
pub fn is_sendable(buffer: &[u8]) -> (valid: bool)
    ensures
        valid == sendable(buffer@),
{
    count_trailing(buffer) <= 3
}

/// The zeros that are written behind a buffer.
pub fn padding(buffer: &[u8]) -> (zeros: Vec<u8>)
    requires
        sendable(buffer@),
    ensures
        zeros@ == Seq::new(trailing(buffer@) as nat, |i: int| 0u8),
        buffer@ + zeros@ == written(buffer@),
{
    let n: usize = count_trailing(buffer);
    let mut zeros: Vec<u8> = Vec::new();
    for i in 0..n
        invariant
            zeros@ =~= Seq::new(i as nat, |k: int| 0u8),
    {
        zeros.push(0);
    }
    zeros
}

/// What is written for a buffer.
pub open spec fn written(buffer: Seq<u8>) -> Seq<u8> {
    buffer + Seq::new(trailing(buffer) as nat, |i: int| 0u8)
}

/// A packet whose header gives its length.
pub open spec fn whole_packet(packet: Seq<u8>) -> bool {
    &&& packet.len() >= 4
    &&& layout(packet, 0x1_0000_0000) matches Ok((length, _)) && length == packet.len()
}

/// A packet that is written to a stream is read from it: at every point before
/// its end more is asked for, never more than is left of it, and at its end it
/// is complete, with nothing but filling behind it.
pub proof fn lemma_written_packet_is_read(packet: Seq<u8>, capacity: int, n: int)
    requires
        whole_packet(packet),
        packet.len() <= capacity,
        0 <= n <= written(packet).len(),
    ensures
        sendable(packet),
        n == written(packet).len() ==> progress(written(packet), capacity) == Ok::<
            Progress,
            StreamError,
        >(Progress::Complete(packet.len() as usize)),
        n < written(packet).len() ==> (progress(written(packet).take(n), capacity) matches Ok(
            Progress::More(more),
        ) && 0 < more <= written(packet).len() - n),
        written(packet).take(packet.len() as int) == packet,
{
    let all = written(packet);
    let size = number(packet[2], packet[3]);
    assert(all[0] == packet[0] && all[2] == packet[2] && all[3] == packet[3]);
    assert(all.take(packet.len() as int) =~= packet);
    if n >= 4 {
        let part = all.take(n);
        assert(part[0] == packet[0] && part[2] == packet[2] && part[3] == packet[3]);
    }
}

/// What a wait for a packet ended with.
#[derive(Clone, Copy, Debug, PartialEq, Eq, Structural)]
pub enum RecvEvent {
    /// A packet of this length came.
    Packet(usize),
    /// The bytes that came are no packet.
    Refused(StreamError),
    Closed,
    TimedOut,
    /// Reading failed.
    Failed,
}

/// What an attempt to write ended with.
#[derive(Clone, Copy, Debug, PartialEq, Eq, Structural)]
pub enum SendEvent {
    Done,
    Closed,
    TimedOut,
    /// Writing failed.
    Failed,
}

/// The state of one stream that carries TURN.
#[derive(Clone, Copy, Debug, PartialEq, Eq, Structural)]
pub struct StreamConn {
    pub local: Endpoint,
    pub remote: Endpoint,
    /// Nanoseconds that may pass between two packets.
    pub idle_timeout: u128,
    pub received_packet: bool,
    pub closed: bool,
}

/// A stream that was just opened.
pub open spec fn opened(local: Endpoint, remote: Endpoint, idle_timeout: u128) -> StreamConn {
    StreamConn { local, remote, idle_timeout, received_packet: false, closed: false }
}

/// How long the next packet is waited for.
pub open spec fn wait_nanos(conn: StreamConn) -> u128 {
    if conn.received_packet || conn.idle_timeout < FIRST_PACKET_NANOS {
        conn.idle_timeout
    } else {
        FIRST_PACKET_NANOS
    }
}

/// What a wait for a packet gives.
pub open spec fn recv_result(event: RecvEvent) -> Result<usize, StreamError> {
    match event {
        RecvEvent::Packet(length) => Ok(length),
        RecvEvent::Refused(error) => Err(error),
        RecvEvent::Closed => Err(StreamError::Closed),
        RecvEvent::TimedOut => Err(StreamError::ReadTimedOut),
        RecvEvent::Failed => Err(StreamError::Broken),
    }
}

/// The stream once a wait for a packet ended.
pub open spec fn after_recv(conn: StreamConn, event: RecvEvent) -> StreamConn {
    StreamConn {
        closed: conn.closed || recv_result(event) is Err,
        received_packet: conn.received_packet || recv_result(event) is Ok,
        ..conn
    }
}

/// What an attempt to write a buffer of this length gives.
pub open spec fn send_result(event: SendEvent, length: usize) -> Result<usize, StreamError> {
    match event {
        SendEvent::Done => Ok(length),
        SendEvent::Closed => Err(StreamError::Closed),
        SendEvent::TimedOut => Err(StreamError::WriteTimedOut),
        SendEvent::Failed => Err(StreamError::Broken),
    }
}

/// The stream once an attempt to write ended.
pub open spec fn after_send(conn: StreamConn, event: SendEvent) -> StreamConn {
    StreamConn { closed: conn.closed || !(event is Done), ..conn }
}

/// A stream that was closed.
pub open spec fn shut(conn: StreamConn) -> StreamConn {
    StreamConn { closed: true, ..conn }
}

/// A stream may be used with its own peer, with another for this reason not.
pub open spec fn only_peer(conn: StreamConn, addr: Endpoint, error: StreamError) -> Result<
    (),
    StreamError,
> {
    if addr != conn.remote {
        Err(error)
    } else {
        Ok(())
    }
}

impl StreamConn {
    /// A stream that was just opened.
    pub fn new(local: Endpoint, remote: Endpoint, idle_timeout: u128) -> (conn: StreamConn)
        ensures
            conn == opened(local, remote, idle_timeout),
    {
        StreamConn { local, remote, idle_timeout, received_packet: false, closed: false }
    }

    /// A stream stays with its peer.
    pub fn connect(&self, addr: Endpoint) -> (result: Result<(), StreamError>)
        ensures
            result == only_peer(*self, addr, StreamError::PeerChange),
            result is Ok <==> addr == self.remote,
    {
        if addr != self.remote {
            Err(StreamError::PeerChange)
        } else {
            Ok(())
        }
    }

    /// How long the next packet is waited for, in nanoseconds: the first not
    /// longer than a few seconds.
    pub fn recv_wait(&self) -> (nanos: u128)
        ensures
            nanos == wait_nanos(*self),
    {
        if self.received_packet || self.idle_timeout < FIRST_PACKET_NANOS {
            self.idle_timeout
        } else {
            FIRST_PACKET_NANOS
        }
    }

    /// Notes what a wait for a packet ended with; anything but a packet closes
    /// the stream.
    pub fn on_recv(&mut self, event: RecvEvent) -> (result: Result<usize, StreamError>)
        ensures
            result == recv_result(event),
            *final(self) == after_recv(*old(self), event),
    {
        match event {
            RecvEvent::Packet(length) => {
                self.received_packet = true;
                Ok(length)
            },
            RecvEvent::Refused(error) => {
                self.closed = true;
                Err(error)
            },
            RecvEvent::Closed => {
                self.closed = true;
                Err(StreamError::Closed)
            },
            RecvEvent::TimedOut => {
                self.closed = true;
                Err(StreamError::ReadTimedOut)
            },
            RecvEvent::Failed => {
                self.closed = true;
                Err(StreamError::Broken)
            },
        }
    }

    /// Notes what an attempt to write a buffer of this length ended with;
    /// anything but success closes the stream.
    pub fn on_send(&mut self, event: SendEvent, length: usize) -> (result: Result<
        usize,
        StreamError,
    >)
        ensures
            result == send_result(event, length),
            *final(self) == after_send(*old(self), event),
    {
        match event {
            SendEvent::Done => Ok(length),
            SendEvent::Closed => {
                self.closed = true;
                Err(StreamError::Closed)
            },
            SendEvent::TimedOut => {
                self.closed = true;
                Err(StreamError::WriteTimedOut)
            },
            SendEvent::Failed => {
                self.closed = true;
                Err(StreamError::Broken)
            },
        }
    }

    /// Whether a packet may be sent to an address: only to the peer of the stream.
    pub fn check_target(&self, target: Endpoint) -> (result: Result<(), StreamError>)
        ensures
            result == only_peer(*self, target, StreamError::WrongPeer),
            result is Ok <==> target == self.remote,
    {
        if target != self.remote {
            Err(StreamError::WrongPeer)
        } else {
            Ok(())
        }
    }

    /// The address on this side.
    pub fn local_addr(&self) -> (addr: Endpoint)
        ensures
            addr == self.local,
    {
        self.local
    }

    /// The address on the other side.
    pub fn remote_addr(&self) -> (addr: Endpoint)
        ensures
            addr == self.remote,
    {
        self.remote
    }

    /// Closes the stream.
    pub fn close(&mut self)
        ensures
            *final(self) == shut(*old(self)),
    {
        self.closed = true;
    }
}

/// A stream of which the first byte was read already.
pub struct Prefixed<S> {
    pub first: Option<u8>,
    pub stream: S,
}

/// The byte that is given back and the one that is kept, with room for so many.
pub open spec fn first_taken(first: Option<u8>, remaining: usize) -> (Option<u8>, Option<u8>) {
    if remaining > 0 {
        (first, None)
    } else {
        (None, first)
    }
}

impl<S> Prefixed<S> {
    /// Gives the first byte back, once, where there is room for it.
    pub fn take_first(&mut self, remaining: usize) -> (byte: Option<u8>)
        ensures
            (byte, final(self).first) == first_taken(old(self).first, remaining),
            final(self).stream == old(self).stream,
    {
        if remaining > 0 {
            self.first.take()
        } else {
            None
        }
    }
}

/// The first byte of an HTTP request: that of `GET`, `HEAD`, `POST`, `PUT`,
/// `PATCH`, `DELETE`, `OPTIONS`, `TRACE` or `CONNECT`.
pub open spec fn begins_http(first: u8) -> bool {
    first == 'G' as u8 || first == 'H' as u8 || first == 'P' as u8 || first == 'D' as u8 || first
        == 'O' as u8 || first == 'T' as u8 || first == 'C' as u8
}

/// Whether a stream that begins with this byte carries HTTP, not TURN.
pub fn speaks_http(first: u8) -> (http: bool)
    ensures
        http == begins_http(first),
{
    first == 'G' as u8 || first == 'H' as u8 || first == 'P' as u8 || first == 'D' as u8 || first
        == 'O' as u8 || first == 'T' as u8 || first == 'C' as u8
}

/// What a header says. Its third and fourth byte are a number, the third in
/// 256ths. Behind a first byte below 64 stand 20 bytes and so many more, which
/// are a multiple of four; behind one from 64 to 127 stand 4 bytes and so many
/// more, filled up to the next multiple of four. Nothing else is a packet. Until
/// that much is there exactly the rest is asked for; then the packet is
/// complete, without its filling. One that does not fit is refused.
pub proof fn lemma_packet_length(received: Seq<u8>, capacity: int, total: int)
    requires
        received.len() >= 4,
        total % 4 == 0,
        received[2] * 256 + received[3] + 4 <= total < received[2] * 256 + received[3] + 8,
    ensures
        ({
            let size = received[2] * 256 + received[3];
            let result = progress(received, capacity);
            &&& received[0] >= 128 ==> result == Err::<Progress, StreamError>(
                StreamError::InvalidFrame,
            )
            &&& received[0] < 64 && size % 4 != 0 ==> result == Err::<Progress, StreamError>(
                StreamError::InvalidFrame,
            )
            &&& received[0] < 64 && size % 4 == 0 ==> {
                &&& 20 + size > capacity ==> result == Err::<Progress, StreamError>(
                    StreamError::TooLarge,
                )
                &&& 20 + size <= capacity && received.len() < 20 + size ==> (result matches Ok(
                    Progress::More(more),
                ) && received.len() + more == 20 + size)
                &&& 20 + size <= capacity && received.len() >= 20 + size ==> (result matches Ok(
                    Progress::Complete(length),
                ) && length == 20 + size)
            }
            &&& 64 <= received[0] < 128 ==> {
                &&& 4 + size > capacity ==> result == Err::<Progress, StreamError>(
                    StreamError::TooLarge,
                )
                &&& 4 + size <= capacity && received.len() < total ==> (result matches Ok(
                    Progress::More(more),
                ) && received.len() + more == total)
                &&& 4 + size <= capacity && received.len() >= total ==> (result matches Ok(
                    Progress::Complete(length),
                ) && length == 4 + size)
            }
        }),
{
}

/// Before a header is there the rest of its four bytes is asked for.
pub proof fn lemma_header_first(received: Seq<u8>, capacity: int)
    requires
        received.len() < 4,
    ensures
        progress(received, capacity) matches Ok(Progress::More(more)) && received.len() + more == 4,
{
}

/// Channel data that any sender frames is read whole: up to 65535 bytes behind a
/// channel number and their count, the count with its higher byte first.
pub proof fn lemma_channel_data_is_read(
    first: u8,
    second: u8,
    high: u8,
    low: u8,
    data: Seq<u8>,
    capacity: int,
)
    requires
        64 <= first < 128,
        data.len() == 256 * high + low,
        data.len() + 4 <= capacity,
    ensures
        ({
            let packet = seq![first, second, high, low] + data;
            &&& whole_packet(packet)
            &&& written(packet).len() % 4 == 0
            &&& progress(written(packet), capacity) matches Ok(Progress::Complete(length))
                && written(packet).take(length as int) == packet
        }),
{
    let packet = seq![first, second, high, low] + data;
    assert(packet[0] == first && packet[2] == high && packet[3] == low);
    lemma_written_packet_is_read(packet, capacity, written(packet).len() as int);
}

/// What is written begins with the buffer, and only zeros follow. Channel data is
/// filled up to the next multiple of four behind the length that its header
/// gives; anything else is written as it is.
pub proof fn lemma_written(buffer: Seq<u8>, total: int)
    requires
        buffer.len() >= 4 ==> total % 4 == 0 && buffer[2] * 256 + buffer[3] + 4 <= total
            < buffer[2] * 256 + buffer[3] + 8,
    ensures
        written(buffer).take(buffer.len() as int) == buffer,
        forall|i: int| buffer.len() <= i < written(buffer).len() ==> written(buffer)[i] == 0,
        buffer.len() < 4 || buffer[0] < 64 || buffer[0] >= 128 ==> written(buffer) == buffer
            && sendable(buffer),
        buffer.len() >= 4 && 64 <= buffer[0] < 128 ==> {
            &&& written(buffer).len() == if total > buffer.len() {
                total
            } else {
                buffer.len() as int
            }
            &&& sendable(buffer) <==> buffer.len() + 3 >= total
        },
{
    assert(written(buffer).take(buffer.len() as int) =~= buffer);
    if buffer.len() < 4 || buffer[0] < 64 || buffer[0] >= 128 {
        assert(written(buffer) =~= buffer);
    }
}

/// The first packet is waited for no longer than ten seconds and no longer than
/// between two packets; any later one as long as between two packets.
pub proof fn lemma_wait(conn: StreamConn)
    ensures
        conn.received_packet ==> wait_nanos(conn) == conn.idle_timeout,
        wait_nanos(conn) <= conn.idle_timeout,
        !conn.received_packet ==> wait_nanos(conn) <= 10_000_000_000,
        wait_nanos(conn) == conn.idle_timeout || wait_nanos(conn) == 10_000_000_000,
{
}

/// Only a packet and a write that is done leave a stream open; the peers and the
/// time between packets never change. A stream has received a packet from its
/// first packet on, whatever is written.
pub proof fn lemma_stream_events(
    conn: StreamConn,
    received: RecvEvent,
    sent: SendEvent,
    length: usize,
)
    ensures
        after_recv(conn, received).closed <==> conn.closed || !(received is Packet),
        after_send(conn, sent).closed <==> conn.closed || !(sent is Done),
        after_recv(conn, received).received_packet <==> conn.received_packet || received is Packet,
        after_send(conn, sent).received_packet == conn.received_packet,
        ({
            let later = after_send(after_recv(conn, received), sent);
            &&& later.local == conn.local && later.remote == conn.remote
            &&& later.idle_timeout == conn.idle_timeout
        }),
        recv_result(received) is Ok <==> received is Packet,
        received matches RecvEvent::Packet(n) ==> recv_result(received) == Ok::<
            usize,
            StreamError,
        >(n),
        received matches RecvEvent::Refused(error) ==> recv_result(received) == Err::<
            usize,
            StreamError,
        >(error),
        received is Closed ==> recv_result(received) == Err::<usize, StreamError>(
            StreamError::Closed,
        ),
        received is TimedOut ==> recv_result(received) == Err::<usize, StreamError>(
            StreamError::ReadTimedOut,
        ),
        received is Failed ==> recv_result(received) == Err::<usize, StreamError>(
            StreamError::Broken,
        ),
        send_result(sent, length) is Ok <==> sent is Done,
        sent is Done ==> send_result(sent, length) == Ok::<usize, StreamError>(length),
        sent is Closed ==> send_result(sent, length) == Err::<usize, StreamError>(
            StreamError::Closed,
        ),
        sent is TimedOut ==> send_result(sent, length) == Err::<usize, StreamError>(
            StreamError::WriteTimedOut,
        ),
        sent is Failed ==> send_result(sent, length) == Err::<usize, StreamError>(
            StreamError::Broken,
        ),
{
}

/// A stream that was just opened is open and has received nothing; it may be
/// used with its peer and with no other.
pub proof fn lemma_opened(
    local: Endpoint,
    remote: Endpoint,
    idle_timeout: u128,
    addr: Endpoint,
    error: StreamError,
)
    ensures
        ({
            let conn = opened(local, remote, idle_timeout);
            &&& !conn.closed && !conn.received_packet
            &&& conn.local == local && conn.remote == remote && conn.idle_timeout == idle_timeout
            &&& addr == remote ==> only_peer(conn, addr, error) is Ok
            &&& addr != remote ==> only_peer(conn, addr, error) == Err::<(), StreamError>(error)
            &&& shut(conn).closed && shut(conn).local == local && shut(conn).remote == remote
        }),
{
}

/// The byte that was read already is given back once: whatever is left over is
/// what was not given, and nothing is given where there is no room.
pub proof fn lemma_first_taken(first: Option<u8>, remaining: usize, again: usize)
    ensures
        remaining > 0 ==> first_taken(first, remaining).0 == first,
        remaining == 0 ==> first_taken(first, remaining) == (None::<u8>, first),
        first_taken(first, remaining).0 is Some ==> first_taken(
            first_taken(first, remaining).1,
            again,
        ).0 is None,
{
}

/// A stream that begins with the name of an HTTP method speaks HTTP: the first
/// letter is one of C, D, G, H, O, P and T. No other byte, and so no STUN message,
/// is taken for HTTP.
pub proof fn lemma_http(first: u8)
    ensures
        begins_http(first) <==> (first == 67 || first == 68 || first == 71 || first == 72 || first
            == 79 || first == 80 || first == 84),
        first < 64 ==> !begins_http(first),
{
}

/// What is said of each error.
pub proof fn lemma_stream_error_words()
    ensures
        stream_error_words(StreamError::InvalidFrame) == "invalid TURN stream frame"@,
        stream_error_words(StreamError::TooLarge) == "TURN packet exceeds buffer"@,
        stream_error_words(StreamError::Closed) == "TURN stream closed"@,
        stream_error_words(StreamError::ReadTimedOut) == "TURN stream read timed out"@,
        stream_error_words(StreamError::WriteTimedOut) == "TURN stream write timed out"@,
        stream_error_words(StreamError::PeerChange) == "stream peer cannot change"@,
        stream_error_words(StreamError::WrongPeer) == "wrong TURN stream peer"@,
        stream_error_words(StreamError::Broken) == "TURN stream failed"@,
{
}

} // verus!
