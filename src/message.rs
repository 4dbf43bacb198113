//! Messages and the wire framing that interleaves internal control messages
//! with application messages in one byte stream.
use vstd::prelude::*;
use vstd::bytes::{spec_u32_from_le_bytes, spec_u32_to_le_bytes, spec_u64_from_le_bytes, spec_u64_to_le_bytes};
use bincode::Infinite;

verus! {

/// Frame tag of an internal (ping/pong) message.
pub const INTERNAL_TAG: u8 = 0;

/// Frame tag of an application message.
pub const APPLICATION_TAG: u8 = 1;

/// A value that can travel in a frame: a self-describing binary encoding
/// from which the value and the number of bytes it took can be recovered.
pub trait Message: Sized {
    /// Whether `encoded` and `decoded` describe this type's codec.
    /// Implementations verified with the library say so and define both; an
    /// implementation outside verification keeps these defaults, and then the
    /// library's contracts claim nothing of its bytes.
    open spec fn specified() -> bool {
        false
    }

    /// The encoding of `self`, or `None` when it cannot be encoded.
    open spec fn encoded(&self) -> Option<Seq<u8>> {
        None
    }

    /// What decoding the front of `bytes` gives: the value and the number of
    /// bytes its encoding took, or `None` when the bytes do not start with one.
    open spec fn decoded(bytes: Seq<u8>) -> Option<(Self, nat)> {
        None
    }

    /// Encodes `self`. An encoding is self-delimiting: whatever follows it,
    /// decoding gives `self` back and takes exactly the encoding.
    fn encode(&self) -> (r: Option<Vec<u8>>)
        ensures
            Self::specified() ==> (r is Some <==> self.encoded() is Some),
            Self::specified() ==> (r matches Some(b) ==> b@ == self.encoded()->0),
            Self::specified() ==> (r matches Some(b) ==> forall|rest: Seq<u8>| #[trigger] Self::decoded(b@ + rest) == Some((*self, b@.len()))),
    ;

    /// Decodes a value from the front of `bytes`.
    fn decode(bytes: &[u8]) -> (r: Option<(Self, usize)>)
        ensures
            Self::specified() ==> match Self::decoded(bytes@) {
                Some((m, n)) => r matches Some((m2, n2)) && m2 == m && n2 == n,
                None => r is None,
            },
    ;
}

/// `bytes` is an encoding of `m`: whatever follows it, decoding gives `m`
/// and takes exactly `bytes`.
pub open spec fn encodes<T: Message>(bytes: Seq<u8>, m: T) -> bool {
    forall|rest: Seq<u8>| #[trigger] T::decoded(bytes + rest) == Some((m, bytes.len()))
}

/// Control messages of the clock-synchronisation protocol.
#[derive(Debug, Clone, Copy, PartialEq, Eq, Structural)]
pub enum InternalMessage {
    /// A ping sent at a tick, with the sender's time in milliseconds.
    Ping(u8, u64),
    /// The answer to a ping: its tick and time, and the responder's time.
    Pong(u8, u64, u64),
}

/// The encoding of an internal message: a little-endian `u32` variant index
/// followed by the fields, integers little-endian.
pub open spec fn internal_bytes(m: InternalMessage) -> Seq<u8> {
    match m {
        InternalMessage::Ping(tick, time) => spec_u32_to_le_bytes(0) + seq![tick]
            + spec_u64_to_le_bytes(time),
        InternalMessage::Pong(tick, sent, answered) => spec_u32_to_le_bytes(1) + seq![tick]
            + spec_u64_to_le_bytes(sent) + spec_u64_to_le_bytes(answered),
    }
}

/// Decoding an internal message from the front of `b`.
pub open spec fn internal_decoded(b: Seq<u8>) -> Option<(InternalMessage, nat)> {
    if b.len() < 4 {
        None
    } else {
        let variant = spec_u32_from_le_bytes(b.subrange(0, 4));
        if variant == 0 && b.len() >= 13 {
            Some((InternalMessage::Ping(b[4], spec_u64_from_le_bytes(b.subrange(5, 13))), 13))
        } else if variant == 1 && b.len() >= 21 {
            Some(
                (
                    InternalMessage::Pong(
                        b[4],
                        spec_u64_from_le_bytes(b.subrange(5, 13)),
                        spec_u64_from_le_bytes(b.subrange(13, 21)),
                    ),
                    21,
                ),
            )
        } else {
            None
        }
    }
}

/// Relies on bincode::serialize: a `u32` is written as its four
/// little-endian bytes, and serialising without a size limit into memory
/// does not fail.
#[verifier::external_body]
fn serialize_u32(x: u32) -> (r: Vec<u8>)
    ensures
        r@ == spec_u32_to_le_bytes(x),
{
    match bincode::serialize(&x, Infinite) {
        Ok(bytes) => bytes,
        Err(_) => Vec::new(),
    }
}

/// Relies on bincode::serialize: a `u64` is written as its eight
/// little-endian bytes, and serialising without a size limit into memory
/// does not fail.
#[verifier::external_body]
fn serialize_u64(x: u64) -> (r: Vec<u8>)
    ensures
        r@ == spec_u64_to_le_bytes(x),
{
    match bincode::serialize(&x, Infinite) {
        Ok(bytes) => bytes,
        Err(_) => Vec::new(),
    }
}

/// Relies on bincode::deserialize: a `u32` is read from the first four
/// bytes, little-endian, and fewer bytes are an error.
#[verifier::external_body]
fn deserialize_u32(bytes: &[u8]) -> (r: Option<u32>)
    ensures
        bytes@.len() >= 4 ==> r == Some(spec_u32_from_le_bytes(bytes@.subrange(0, 4))),
        bytes@.len() < 4 ==> r is None,
{
    bincode::deserialize::<u32>(bytes).ok()
}

/// Relies on bincode::deserialize: a `u64` is read from the first eight
/// bytes, little-endian, and fewer bytes are an error.
#[verifier::external_body]
fn deserialize_u64(bytes: &[u8]) -> (r: Option<u64>)
    ensures
        bytes@.len() >= 8 ==> r == Some(spec_u64_from_le_bytes(bytes@.subrange(0, 8))),
        bytes@.len() < 8 ==> r is None,
{
    bincode::deserialize::<u64>(bytes).ok()
}

fn append(out: &mut Vec<u8>, bytes: Vec<u8>)
    ensures
        final(out)@ == old(out)@ + bytes@,
{
    let mut bytes = bytes;
    out.append(&mut bytes);
}

impl Message for InternalMessage {
    open spec fn specified() -> bool {
        true
    }

    open spec fn encoded(&self) -> Option<Seq<u8>> {
        Some(internal_bytes(*self))
    }

    open spec fn decoded(bytes: Seq<u8>) -> Option<(Self, nat)> {
        internal_decoded(bytes)
    }

    fn encode(&self) -> (r: Option<Vec<u8>>) {
        let mut out: Vec<u8> = Vec::new();
        match *self {
            InternalMessage::Ping(tick, time) => {
                append(&mut out, serialize_u32(0));
                out.push(tick);
                append(&mut out, serialize_u64(time));
            },
            InternalMessage::Pong(tick, sent, answered) => {
                append(&mut out, serialize_u32(1));
                out.push(tick);
                append(&mut out, serialize_u64(sent));
                append(&mut out, serialize_u64(answered));
            },
        }
        proof {
            assert(out@ =~= internal_bytes(*self));
            lemma_internal_round_trip(*self);
        }
        Some(out)
    }

    fn decode(bytes: &[u8]) -> (r: Option<(Self, usize)>) {
        let variant = match deserialize_u32(bytes) {
            Some(v) => v,
            None => return None,
        };
        if variant == 0 && bytes.len() >= 13 {
            let time = deserialize_u64(vstd::slice::slice_subrange(bytes, 5, bytes.len()));
            match time {
                Some(t) => {
                    proof {
                        assert(bytes@.subrange(5, bytes@.len() as int).subrange(0, 8) =~= bytes@.subrange(5, 13));
                    }
                    Some((InternalMessage::Ping(bytes[4], t), 13))
                },
                None => None,
            }
        } else if variant == 1 && bytes.len() >= 21 {
            let sent = deserialize_u64(vstd::slice::slice_subrange(bytes, 5, bytes.len()));
            let answered = deserialize_u64(vstd::slice::slice_subrange(bytes, 13, bytes.len()));
            match (sent, answered) {
                (Some(s), Some(a)) => {
                    proof {
                        assert(bytes@.subrange(5, bytes@.len() as int).subrange(0, 8) =~= bytes@.subrange(5, 13));
                        assert(bytes@.subrange(13, bytes@.len() as int).subrange(0, 8) =~= bytes@.subrange(13, 21));
                    }
                    Some((InternalMessage::Pong(bytes[4], s, a), 21))
                },
                _ => None,
            }
        } else {
            None
        }
    }
}

/// Decoding the encoding of an internal message, whatever follows it, gives
/// that message back and takes exactly its encoding.
pub proof fn lemma_internal_round_trip(m: InternalMessage)
    ensures
        forall|rest: Seq<u8>|
            #[trigger] internal_decoded(internal_bytes(m) + rest) == Some((m, internal_bytes(m).len())),
{
    vstd::bytes::lemma_auto_spec_u32_to_from_le_bytes();
    vstd::bytes::lemma_auto_spec_u64_to_from_le_bytes();
    let e = internal_bytes(m);
    assert forall|rest: Seq<u8>| #[trigger] internal_decoded(e + rest) == Some((m, e.len())) by {
        let b = e + rest;
        match m {
            InternalMessage::Ping(tick, time) => {
                assert(b.subrange(0, 4) =~= spec_u32_to_le_bytes(0));
                assert(b.subrange(5, 13) =~= spec_u64_to_le_bytes(time));
                assert(b[4] == tick);
            },
            InternalMessage::Pong(tick, sent, answered) => {
                assert(b.subrange(0, 4) =~= spec_u32_to_le_bytes(1));
                assert(b.subrange(5, 13) =~= spec_u64_to_le_bytes(sent));
                assert(b.subrange(13, 21) =~= spec_u64_to_le_bytes(answered));
                assert(b[4] == tick);
            },
        }
    }
}

/// One step of scanning `buf` from offset `i`: the internal messages decoded
/// on the way, the application message that ended the scan, if any, and the
/// offset up to which bytes are consumed. A frame whose payload does not
/// decode loses only its tag byte; any other tag byte is skipped.
pub open spec fn scan<M: Message, I: Message>(buf: Seq<u8>, i: nat) -> (Seq<I>, Option<M>, nat)
    decreases buf.len() - i,
{
    if i >= buf.len() {
        (Seq::empty(), None, buf.len())
    } else {
        let rest = buf.subrange(i + 1 as int, buf.len() as int);
        if buf[i as int] == INTERNAL_TAG && I::decoded(rest) is Some && (I::decoded(rest)->0).1
            <= rest.len() {
            let t = scan::<M, I>(buf, i + 1 + (I::decoded(rest)->0).1);
            (seq![(I::decoded(rest)->0).0] + t.0, t.1, t.2)
        } else if buf[i as int] == APPLICATION_TAG && M::decoded(rest) is Some
            && (M::decoded(rest)->0).1 <= rest.len() {
            (Seq::empty(), Some((M::decoded(rest)->0).0), i + 1 + (M::decoded(rest)->0).1)
        } else {
            scan::<M, I>(buf, i + 1)
        }
    }
}

/// Takes the next application message out of `buffer`. Internal messages
/// met on the way are appended to `queue`; all scanned bytes are removed
/// from the front of `buffer`, whether or not a message was found.
pub fn next_message<M: Message, I: Message>(buffer: &mut Vec<u8>, queue: &mut Vec<I>) -> (r:
    Option<M>)
    ensures
        M::specified() && I::specified() ==> ({
            let t = scan::<M, I>(old(buffer)@, 0);
            &&& final(queue)@ == old(queue)@ + t.0
            &&& r == t.1
            &&& t.2 <= old(buffer)@.len()
            &&& final(buffer)@ == old(buffer)@.subrange(t.2 as int, old(buffer)@.len() as int)
        }),
{
    let ghost buf = buffer@;
    let ghost q0 = queue@;
    let mut index: usize = 0;
    let mut message: Option<M> = None;
    let mut found = false;
    while !found && index < buffer.len()
        invariant
            buffer@ == buf,
            index <= buf.len(),
            queue@.len() >= q0.len(),
            queue@.subrange(0, q0.len() as int) == q0,
            M::specified() && I::specified() && found ==> scan::<M, I>(buf, 0) == (
                queue@.subrange(q0.len() as int, queue@.len() as int),
                message,
                index as nat,
            ),
            !found ==> message is None,
            M::specified() && I::specified() && !found ==> scan::<M, I>(buf, 0) == (
                queue@.subrange(q0.len() as int, queue@.len() as int) + scan::<M, I>(
                    buf,
                    index as nat,
                ).0,
                scan::<M, I>(buf, index as nat).1,
                scan::<M, I>(buf, index as nat).2,
            ),
        decreases buf.len() - index,
    {
        let tag = buffer[index];
        let rest = vstd::slice::slice_subrange(buffer.as_slice(), index + 1, buffer.len());
        let ghost before = queue@;
        let mut step: usize = 1;
        if tag == INTERNAL_TAG {
            if let Some((m, n)) = I::decode(rest) {
                if n <= rest.len() {
                    queue.push(m);
                    step = n + 1;
                    proof {
                        assert(queue@.subrange(0, q0.len() as int) =~= q0);
                        assert(queue@.subrange(q0.len() as int, queue@.len() as int) =~= before.subrange(
                            q0.len() as int,
                            before.len() as int,
                        ).push(m));
                    }
                }
            }
        } else if tag == APPLICATION_TAG {
            if let Some((m, n)) = M::decode(rest) {
                if n <= rest.len() {
                    message = Some(m);
                    found = true;
                    step = n + 1;
                    proof {
                        assert(queue@.subrange(q0.len() as int, queue@.len() as int) + Seq::<I>::empty()
                            =~= queue@.subrange(q0.len() as int, queue@.len() as int));
                    }
                }
            }
        }
        index = index + step;
    }
    proof {
        if !found {
            assert(queue@.subrange(q0.len() as int, queue@.len() as int) + Seq::<I>::empty()
                =~= queue@.subrange(q0.len() as int, queue@.len() as int));
        }
        assert(queue@ =~= q0 + queue@.subrange(q0.len() as int, queue@.len() as int));
    }
    let tail = buffer.split_off(index);
    *buffer = tail;
    message
}

/// The frames of internal messages `ms`, in order.
pub open spec fn internal_frames(ms: Seq<InternalMessage>) -> Seq<u8>
    decreases ms.len(),
{
    if ms.len() == 0 {
        Seq::empty()
    } else {
        internal_frames(ms.drop_last()) + seq![INTERNAL_TAG] + internal_bytes(ms.last())
    }
}

/// Appends to `out` the frame of `tag` and `payload`.
pub fn append_frame(tag: u8, payload: Vec<u8>, out: &mut Vec<u8>)
    ensures
        final(out)@ == old(out)@ + seq![tag] + payload@,
{
    let ghost o = out@;
    out.push(tag);
    append(out, payload);
    proof {
        assert(out@ =~= o + seq![tag] + payload@);
    }
}

/// `new` is `old` with the frame of `tag` and `m` appended, or `old` itself
/// when `m` cannot be encoded.
pub open spec fn appended<T: Message>(old: Seq<u8>, new: Seq<u8>, tag: u8, m: T) -> bool {
    &&& new == old || (new.len() > old.len() && new.subrange(0, old.len() as int) == old && new[old.len() as int] == tag)
    &&& T::specified() ==> new == match m.encoded() {
        Some(b) => old + seq![tag] + b,
        None => old,
    }
}

/// Appends to `out` one frame: `tag` followed by the encoding of `message`.
/// Returns false, leaving `out` as it was, when the message cannot be encoded.
pub fn frame<T: Message>(tag: u8, message: &T, out: &mut Vec<u8>) -> (r: bool)
    ensures
        r ==> final(out)@.len() > old(out)@.len() && final(out)@.subrange(0, old(out)@.len() as int)
            == old(out)@ && final(out)@[old(out)@.len() as int] == tag,
        !r ==> final(out)@ == old(out)@,
        T::specified() ==> (r <==> message.encoded() is Some),
        T::specified() && r ==> final(out)@ == old(out)@ + seq![tag] + message.encoded()->0,
        T::specified() && r ==> encodes::<T>(message.encoded()->0, *message),
{
    match message.encode() {
        Some(bytes) => {
            let ghost o = out@;
            let ghost b = bytes@;
            append_frame(tag, bytes, out);
            proof {
                assert(out@.subrange(0, o.len() as int) =~= o);
            }
            true
        },
        None => false,
    }
}

/// A frame of a stream, with the message its payload encodes.
pub enum Frame<M, I> {
    Internal(I, Seq<u8>),
    Application(M, Seq<u8>),
}

/// The payload of each frame encodes its message.
pub open spec fn valid_frames<M: Message, I: Message>(frames: Seq<Frame<M, I>>) -> bool {
    forall|j: int|
        0 <= j < frames.len() ==> match #[trigger] frames[j] {
            Frame::Internal(m, b) => encodes::<I>(b, m),
            Frame::Application(m, b) => encodes::<M>(b, m),
        }
}

/// The bytes of a frame: its tag, then its payload.
pub open spec fn frame_bytes<M, I>(f: Frame<M, I>) -> Seq<u8> {
    match f {
        Frame::Internal(_, b) => seq![INTERNAL_TAG] + b,
        Frame::Application(_, b) => seq![APPLICATION_TAG] + b,
    }
}

/// The stream made of the frames in order.
pub open spec fn stream<M, I>(frames: Seq<Frame<M, I>>) -> Seq<u8>
    decreases frames.len(),
{
    if frames.len() == 0 {
        Seq::empty()
    } else {
        frame_bytes(frames[0]) + stream(frames.drop_first())
    }
}

/// What one scan of the stream is meant to give: the internal messages of
/// the frames before the first application frame, that frame's message, and
/// how many frames it consumes.
pub open spec fn expected<M, I>(frames: Seq<Frame<M, I>>) -> (Seq<I>, Option<M>, nat)
    decreases frames.len(),
{
    if frames.len() == 0 {
        (Seq::empty(), None, 0)
    } else {
        match frames[0] {
            Frame::Internal(m, _) => {
                let t = expected(frames.drop_first());
                (seq![m] + t.0, t.1, t.2 + 1)
            },
            Frame::Application(m, _) => (Seq::empty(), Some(m), 1),
        }
    }
}

proof fn lemma_scan_shift<M: Message, I: Message>(p: Seq<u8>, s: Seq<u8>, j: nat)
    requires
        j <= s.len(),
    ensures
        ({
            let a = scan::<M, I>(p + s, p.len() + j);
            let b = scan::<M, I>(s, j);
            a.0 == b.0 && a.1 == b.1 && a.2 == b.2 + p.len()
        }),
    decreases s.len() - j,
{
    if j < s.len() {
        let buf = p + s;
        assert(buf.subrange(p.len() + j + 1 as int, buf.len() as int) =~= s.subrange(j + 1 as int, s.len() as int));
        assert(buf[p.len() + j as int] == s[j as int]);
        let rest = s.subrange(j + 1 as int, s.len() as int);
        if s[j as int] == INTERNAL_TAG && I::decoded(rest) is Some && (I::decoded(rest)->0).1 <= rest.len() {
            lemma_scan_shift::<M, I>(p, s, j + 1 + (I::decoded(rest)->0).1);
        } else if s[j as int] == APPLICATION_TAG && M::decoded(rest) is Some && (M::decoded(rest)->0).1
            <= rest.len() {
        } else {
            lemma_scan_shift::<M, I>(p, s, j + 1);
        }
    }
}

/// Scanning a stream of well-formed frames gives back the messages that were
/// encoded: the internal messages before the first application frame, in
/// order, and that frame's message; what stays in the buffer is the stream of
/// the frames after it, so repeated scans give every application message in
/// order.
pub proof fn lemma_decode_stream<M: Message, I: Message>(frames: Seq<Frame<M, I>>)
    requires
        valid_frames(frames),
    ensures
        ({
            let t = scan::<M, I>(stream(frames), 0);
            let e = expected(frames);
            &&& t.0 == e.0
            &&& t.1 == e.1
            &&& e.2 <= frames.len()
            &&& t.2 <= stream(frames).len()
            &&& stream(frames).subrange(t.2 as int, stream(frames).len() as int) == stream(
                frames.skip(e.2 as int),
            )
        }),
    decreases frames.len(),
{
    let s = stream(frames);
    if frames.len() == 0 {
        assert(frames.skip(0) =~= frames);
        assert(s.subrange(0, 0) =~= s);
    } else {
        let tail = frames.drop_first();
        assert forall|j: int| 0 <= j < tail.len() implies match #[trigger] tail[j] {
            Frame::Internal(m, b) => encodes::<I>(b, m),
            Frame::Application(m, b) => encodes::<M>(b, m),
        } by {
            assert(tail[j] == frames[j + 1]);
        }
        let rs = stream(tail);
        match frames[0] {
            Frame::Internal(m, b) => {
                assert(encodes::<I>(b, m)) by {
                    assert(frames[0] == Frame::<M, I>::Internal(m, b));
                }
                assert(s =~= seq![INTERNAL_TAG] + b + rs);
                let rest = s.subrange(1, s.len() as int);
                assert(rest =~= b + rs);
                assert(I::decoded(b + rs) == Some((m, b.len())));
                lemma_decode_stream::<M, I>(tail);
                lemma_scan_shift::<M, I>(seq![INTERNAL_TAG] + b, rs, 0);
                let e = expected(tail);
                assert(frames.skip(e.2 as int + 1) =~= tail.skip(e.2 as int));
                let t = scan::<M, I>(rs, 0);
                assert(s.subrange(t.2 + 1 + b.len() as int, s.len() as int) =~= rs.subrange(
                    t.2 as int,
                    rs.len() as int,
                ));
            },
            Frame::Application(m, b) => {
                assert(encodes::<M>(b, m)) by {
                    assert(frames[0] == Frame::<M, I>::Application(m, b));
                }
                assert(s =~= seq![APPLICATION_TAG] + b + rs);
                let rest = s.subrange(1, s.len() as int);
                assert(rest =~= b + rs);
                assert(M::decoded(b + rs) == Some((m, b.len())));
                assert(frames.skip(1) =~= tail);
                assert(s.subrange(1 + b.len() as int, s.len() as int) =~= rs);
            },
        }
    }
}

/// Scanning `buf` again and again, at most `calls` times, and stopping after
/// the first scan that finds no application message: the internal messages
/// queued, the application messages found, in order, and the bytes left.
pub open spec fn drain<M: Message, I: Message>(buf: Seq<u8>, calls: nat) -> (Seq<I>, Seq<M>, Seq<u8>)
    decreases calls,
{
    if calls == 0 {
        (Seq::empty(), Seq::empty(), buf)
    } else {
        let t = scan::<M, I>(buf, 0);
        let rest = buf.subrange(t.2 as int, buf.len() as int);
        match t.1 {
            Some(m) => {
                let d = drain::<M, I>(rest, (calls - 1) as nat);
                (t.0 + d.0, seq![m] + d.1, d.2)
            },
            None => (t.0, Seq::empty(), rest),
        }
    }
}

/// The internal messages of the frames, in order.
pub open spec fn all_internal<M, I>(frames: Seq<Frame<M, I>>) -> Seq<I>
    decreases frames.len(),
{
    if frames.len() == 0 {
        Seq::empty()
    } else {
        match frames[0] {
            Frame::Internal(m, _) => seq![m] + all_internal(frames.drop_first()),
            Frame::Application(_, _) => all_internal(frames.drop_first()),
        }
    }
}

/// The application messages of the frames, in order.
pub open spec fn all_application<M, I>(frames: Seq<Frame<M, I>>) -> Seq<M>
    decreases frames.len(),
{
    if frames.len() == 0 {
        Seq::empty()
    } else {
        match frames[0] {
            Frame::Internal(_, _) => all_application(frames.drop_first()),
            Frame::Application(m, _) => seq![m] + all_application(frames.drop_first()),
        }
    }
}

proof fn lemma_expected_split<M, I>(frames: Seq<Frame<M, I>>)
    ensures
        ({
            let e = expected(frames);
            &&& e.2 <= frames.len()
            &&& e.1 is None ==> e.0 == all_internal(frames) && all_application(frames).len() == 0
                && e.2 == frames.len()
            &&& e.1 matches Some(m) ==> e.2 >= 1 && all_internal(frames) == e.0 + all_internal(
                frames.skip(e.2 as int),
            ) && all_application(frames) == seq![m] + all_application(frames.skip(e.2 as int))
        }),
    decreases frames.len(),
{
    if frames.len() > 0 {
        let tail = frames.drop_first();
        lemma_expected_split(tail);
        let t = expected(tail);
        match frames[0] {
            Frame::Internal(m, _) => {
                assert(frames.skip(t.2 as int + 1) =~= tail.skip(t.2 as int));
                assert(seq![m] + t.0 + all_internal(tail.skip(t.2 as int)) =~= seq![m] + (t.0
                    + all_internal(tail.skip(t.2 as int))));
            },
            Frame::Application(m, _) => {
                assert(frames.skip(1) =~= tail);
                assert(Seq::<I>::empty() + all_internal(tail) =~= all_internal(tail));
            },
        }
    } else {
        assert(Seq::<I>::empty() =~= all_internal(frames));
    }
}

/// Scanning a stream of well-formed frames once per application message and
/// once more gives back every application message, in order, and queues
/// every internal message, in order; the stream is then used up.
pub proof fn lemma_drain_stream<M: Message, I: Message>(frames: Seq<Frame<M, I>>)
    requires
        valid_frames(frames),
    ensures
        drain::<M, I>(stream(frames), all_application(frames).len() + 1) == (
            all_internal(frames),
            all_application(frames),
            Seq::<u8>::empty(),
        ),
    decreases frames.len(),
{
    let s = stream(frames);
    let calls = all_application(frames).len() + 1;
    lemma_decode_stream::<M, I>(frames);
    lemma_expected_split(frames);
    let e = expected(frames);
    let t = scan::<M, I>(s, 0);
    match e.1 {
        Some(m) => {
            let rest = frames.skip(e.2 as int);
            assert forall|j: int| 0 <= j < rest.len() implies match #[trigger] rest[j] {
                Frame::Internal(m, b) => encodes::<I>(b, m),
                Frame::Application(m, b) => encodes::<M>(b, m),
            } by {
                assert(rest[j] == frames[j + e.2]);
            }
            lemma_drain_stream::<M, I>(rest);
            assert((calls - 1) as nat == all_application(rest).len() + 1);
            let d = drain::<M, I>(stream(rest), (calls - 1) as nat);
            assert(t.0 + d.0 =~= all_internal(frames));
            assert(seq![m] + d.1 =~= all_application(frames));
        },
        None => {
            assert(frames.skip(frames.len() as int) =~= Seq::<Frame<M, I>>::empty());
            assert(stream(Seq::<Frame<M, I>>::empty()) =~= Seq::<u8>::empty());
            assert(all_application(frames) =~= Seq::<M>::empty());
        },
    }
}

} // verus!
