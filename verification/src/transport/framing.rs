//! The bytes of handshake messages, packets and blobs on a stream.

use crate::bytes::{be_append, be_bytes, be_read_u16, be_read_u32, be_value, lemma_be_bytes_len,
    lemma_be_limits, lemma_be_round_trip};
use crate::process::PACKET_SIZE;
use crate::transport::noise::{noise_open, noise_seal, opens, Link, NoiseLink, NOISE_MAX_MSG,
    NOISE_TAG_LEN};
use crate::transport::{TransportError, FRAME_LEN, MAX_HANDSHAKE_MSG, MAX_MAILBOX_FRAME,
    NOISE_CHUNK};
use vstd::prelude::*;

verus! {

/// A handshake message on the wire: its length as two bytes, then itself.
pub open spec fn handshake_wire(message: Seq<u8>) -> Seq<u8> {
    be_bytes(message.len(), 2) + message
}

/// Frames a handshake message. One that is too long is refused.
pub fn write_handshake_msg(message: &[u8]) -> (r: Result<Vec<u8>, TransportError>)
    ensures
        r is Ok <==> message@.len() <= MAX_HANDSHAKE_MSG,
        r matches Ok(wire) ==> wire@ == handshake_wire(message@),
        r matches Err(e) ==> e is BadHandshake,
{
    if message.len() > MAX_HANDSHAKE_MSG {
        return Err(TransportError::BadHandshake);
    }
    let mut wire: Vec<u8> = Vec::with_capacity(message.len() + 2);
    be_append(&mut wire, message.len() as u128, 2);
    wire.extend_from_slice(message);
    assert(wire@ =~= handshake_wire(message@));
    Ok(wire)
}

/// The length of the handshake message that two bytes announce. One that is
/// too long is refused before any of it is read.
pub fn read_handshake_len(prefix: &[u8; 2]) -> (r: Result<usize, TransportError>)
    ensures
        r is Ok <==> be_value(prefix@) <= MAX_HANDSHAKE_MSG,
        r matches Ok(n) ==> n == be_value(prefix@),
        r matches Err(e) ==> e is BadHandshake,
{
    let n: usize = be_read_u16(prefix.as_slice()) as usize;
    if n > MAX_HANDSHAKE_MSG {
        return Err(TransportError::BadHandshake);
    }
    Ok(n)
}

/// Encrypts one packet into one frame. Anything but a whole packet is refused.
pub fn write_noise_frame(link: &mut NoiseLink, packet: &[u8]) -> (r: Result<
    Vec<u8>,
    TransportError,
>)
    requires
        old(link).wf(),
    ensures
        final(link).wf(),
        r is Ok <==> packet@.len() == PACKET_SIZE && old(link)@.sent < u64::MAX,
        r matches Ok(frame) ==> {
            &&& frame@ == noise_seal(old(link)@.out_key, old(link)@.sent, packet@)
            &&& frame@.len() == FRAME_LEN
            &&& opens(old(link)@.out_key, old(link)@.sent, packet@)
            &&& final(link)@ == (Link { sent: old(link)@.sent + 1, ..old(link)@ })
        },
        r matches Err(e) ==> final(link)@ == old(link)@ && if packet@.len() != PACKET_SIZE {
            e is BadHandshake
        } else {
            e is Noise
        },
{
    if packet.len() != PACKET_SIZE {
        return Err(TransportError::BadHandshake);
    }
    link.seal(packet)
}

/// Decrypts one frame into one packet.
pub fn read_noise_frame(link: &mut NoiseLink, frame: &[u8]) -> (r: Result<Vec<u8>, TransportError>)
    requires
        old(link).wf(),
        frame@.len() == FRAME_LEN,
    ensures
        final(link).wf(),
        r is Ok <==> old(link)@.received < u64::MAX && noise_open(
            old(link)@.in_key,
            old(link)@.received,
            frame@,
        ) is Some,
        r matches Ok(packet) ==> {
            &&& noise_open(old(link)@.in_key, old(link)@.received, frame@) == Some(packet@)
            &&& packet@.len() == PACKET_SIZE
            &&& final(link)@ == (Link { received: old(link)@.received + 1, ..old(link)@ })
        },
        r matches Err(e) ==> e is Noise && final(link)@ == old(link)@,
{
    link.open(frame)
}

/// One encrypted message on the wire: its length as two bytes, then itself.
pub open spec fn message_wire(key: int, count: nat, plain: Seq<u8>) -> Seq<u8> {
    be_bytes(noise_seal(key, count, plain).len(), 2) + noise_seal(key, count, plain)
}

/// Encrypted messages on the wire, one after the other.
pub open spec fn messages_wire(key: int, count: nat, plains: Seq<Seq<u8>>) -> Seq<u8>
    decreases plains.len(),
{
    if plains.len() == 0 {
        Seq::empty()
    } else {
        message_wire(key, count, plains[0]) + messages_wire(key, count + 1, plains.drop_first())
    }
}

/// Whether each of the messages gives its plaintext back.
pub open spec fn all_open(key: int, count: nat, plains: Seq<Seq<u8>>) -> bool {
    forall|i: int| 0 <= i < plains.len() ==> opens(key, (count + i) as nat, #[trigger] plains[i])
}

/// A blob cut into chunks.
pub open spec fn chunks(blob: Seq<u8>) -> Seq<Seq<u8>>
    decreases blob.len(),
{
    if blob.len() == 0 {
        Seq::empty()
    } else if blob.len() <= NOISE_CHUNK {
        seq![blob]
    } else {
        seq![blob.take(NOISE_CHUNK as int)] + chunks(blob.skip(NOISE_CHUNK as int))
    }
}

/// The messages that carry a blob: its length as four bytes, then its chunks.
pub open spec fn blob_messages(blob: Seq<u8>) -> Seq<Seq<u8>> {
    seq![be_bytes(blob.len(), 4)] + chunks(blob)
}

/// A blob on the wire.
pub open spec fn blob_wire(key: int, count: nat, blob: Seq<u8>) -> Seq<u8> {
    messages_wire(key, count, blob_messages(blob))
}

/// Appending a message to the messages appends it to the wire.
proof fn lemma_messages_wire_push(key: int, count: nat, plains: Seq<Seq<u8>>, plain: Seq<u8>)
    ensures
        messages_wire(key, count, plains.push(plain)) == messages_wire(key, count, plains)
            + message_wire(key, (count + plains.len()) as nat, plain),
    decreases plains.len(),
{
    let longer = plains.push(plain);
    if plains.len() == 0 {
        assert(longer.drop_first() =~= Seq::<Seq<u8>>::empty());
        assert(messages_wire(key, count + 1, longer.drop_first()) =~= Seq::<u8>::empty());
        assert(messages_wire(key, count, longer) =~= messages_wire(key, count, plains)
            + message_wire(key, count, plain));
    } else {
        assert(longer.drop_first() =~= plains.drop_first().push(plain));
        lemma_messages_wire_push(key, count + 1, plains.drop_first(), plain);
        assert(messages_wire(key, count, longer) =~= messages_wire(key, count, plains)
            + message_wire(key, (count + plains.len()) as nat, plain));
    }
}

/// Appends one encrypted message to `wire`.
pub fn write_one_noise_msg(link: &mut NoiseLink, plain: &[u8], wire: &mut Vec<u8>) -> (r: Result<
    (),
    TransportError,
>)
    requires
        old(link).wf(),
    ensures
        final(link).wf(),
        r is Ok <==> plain@.len() + NOISE_TAG_LEN <= NOISE_MAX_MSG && old(link)@.sent < u64::MAX,
        r is Ok ==> {
            &&& final(wire)@ == old(wire)@ + message_wire(
                old(link)@.out_key,
                old(link)@.sent,
                plain@,
            )
            &&& opens(old(link)@.out_key, old(link)@.sent, plain@)
            &&& final(link)@ == (Link { sent: old(link)@.sent + 1, ..old(link)@ })
        },
        r matches Err(e) ==> e is Noise && final(link)@ == old(link)@ && final(wire)@ == old(
            wire,
        )@,
{
    let message: Vec<u8> = match link.seal(plain) {
        Ok(message) => message,
        Err(e) => {
            return Err(e);
        },
    };
    let ghost before = wire@;
    be_append(wire, message.len() as u128, 2);
    wire.extend_from_slice(message.as_slice());
    assert(wire@ =~= before + message_wire(old(link)@.out_key, old(link)@.sent, plain@));
    Ok(())
}

/// Encrypts a blob of any length up to the limit into the bytes that carry it.
pub fn write_noise_blob(link: &mut NoiseLink, blob: &[u8]) -> (r: Result<Vec<u8>, TransportError>)
    requires
        old(link).wf(),
    ensures
        final(link).wf(),
        r is Ok <==> blob@.len() <= MAX_MAILBOX_FRAME && old(link)@.sent + blob_messages(
            blob@,
        ).len() <= u64::MAX,
        r matches Ok(wire) ==> {
            let count = blob_messages(blob@).len();
            &&& wire@ == blob_wire(old(link)@.out_key, old(link)@.sent, blob@)
            &&& all_open(old(link)@.out_key, old(link)@.sent, blob_messages(blob@))
            &&& final(link)@ == (Link { sent: old(link)@.sent + count, ..old(link)@ })
        },
        r matches Err(e) ==> if blob@.len() > MAX_MAILBOX_FRAME {
            e is BadHandshake && final(link)@ == old(link)@
        } else {
            &&& e is Noise
            &&& final(link)@ == (Link { sent: final(link)@.sent, ..old(link)@ })
            &&& final(link)@.sent >= u64::MAX
        },
{
    if blob.len() > MAX_MAILBOX_FRAME {
        return Err(TransportError::BadHandshake);
    }
    let ghost key = link@.out_key;
    let ghost count = link@.sent;
    let ghost all = blob_messages(blob@);
    let mut header: Vec<u8> = Vec::with_capacity(4);
    be_append(&mut header, blob.len() as u128, 4);
    let mut wire: Vec<u8> = Vec::new();
    proof {
        lemma_be_bytes_len(blob@.len(), 4);
        assert(header@ =~= be_bytes(blob@.len(), 4));
        assert(all[0] == header@);
    }
    match write_one_noise_msg(link, header.as_slice(), &mut wire) {
        Ok(()) => {},
        Err(e) => {
            return Err(e);
        },
    }
    let ghost mut done = seq![header@];
    let mut at: usize = 0;
    proof {
        lemma_messages_wire_push(key, count, Seq::empty(), header@);
        assert(Seq::<Seq<u8>>::empty().push(header@) =~= done);
        assert(wire@ =~= messages_wire(key, count, done));
        assert(blob@.skip(0) =~= blob@);
        assert(done + chunks(blob@.skip(0)) =~= all);
    }
    while at < blob.len()
        invariant
            at <= blob@.len(),
            blob@.len() <= MAX_MAILBOX_FRAME,
            link.wf(),
            all == blob_messages(blob@),
            done + chunks(blob@.skip(at as int)) == all,
            wire@ == messages_wire(key, count, done),
            all_open(key, count, done),
            key == old(link)@.out_key,
            count == old(link)@.sent,
            count + done.len() <= u64::MAX,
            link@ == (Link { sent: (count + done.len()) as nat, ..old(link)@ }),
        decreases blob@.len() - at,
    {
        let rest: usize = blob.len() - at;
        let n: usize = if rest <= NOISE_CHUNK {
            rest
        } else {
            NOISE_CHUNK
        };
        let chunk: &[u8] = vstd::slice::slice_subrange(blob, at, at + n);
        proof {
            let left = blob@.skip(at as int);
            assert(left.skip(n as int) =~= blob@.skip(at + n));
            if rest <= NOISE_CHUNK {
                assert(chunk@ =~= left);
                assert(blob@.skip(at + n) =~= Seq::<u8>::empty());
                assert(chunks(left) =~= seq![chunk@] + chunks(blob@.skip(at + n)));
            } else {
                assert(chunk@ =~= left.take(NOISE_CHUNK as int));
                assert(chunks(left) =~= seq![chunk@] + chunks(blob@.skip(at + n)));
            }
            assert(done.push(chunk@) + chunks(blob@.skip(at + n)) =~= done + chunks(left));
            assert(done.len() < all.len());
        }
        match write_one_noise_msg(link, chunk, &mut wire) {
            Ok(()) => {},
            Err(e) => {
                return Err(e);
            },
        }
        proof {
            lemma_messages_wire_push(key, count, done, chunk@);
            let longer = done.push(chunk@);
            assert forall|i: int| 0 <= i < longer.len() implies opens(
                key,
                (count + i) as nat,
                #[trigger] longer[i],
            ) by {
                if i < done.len() {
                    assert(longer[i] == done[i]);
                }
            }
            done = longer;
        }
        at = at + n;
    }
    proof {
        assert(blob@.skip(at as int) =~= Seq::<u8>::empty());
        assert(done =~= all);
    }
    Ok(wire)
}

/// The length of the message that two bytes announce in a blob. A message
/// carries at least one byte besides its tag and at most one chunk. One
/// without any would never bring a reader to its end.
pub fn read_chunk_len(prefix: &[u8]) -> (r: Result<usize, TransportError>)
    requires
        prefix@.len() == 2,
    ensures
        r is Ok <==> chunk_len_allowed(be_value(prefix@)),
        r matches Ok(n) ==> n == be_value(prefix@),
        r matches Err(e) ==> e is BadHandshake,
{
    let n: usize = be_read_u16(prefix) as usize;
    if n < NOISE_TAG_LEN + 1 || n > NOISE_CHUNK + NOISE_TAG_LEN {
        return Err(TransportError::BadHandshake);
    }
    Ok(n)
}

/// Whether a message of a blob may have this length.
pub open spec fn chunk_len_allowed(n: nat) -> bool {
    NOISE_TAG_LEN + 1 <= n <= NOISE_CHUNK + NOISE_TAG_LEN
}

/// Decrypts one message whose length was announced, and appends what it holds
/// to `out`. Returns how many bytes that were.
pub fn read_one_noise_msg(link: &mut NoiseLink, message: &[u8], out: &mut Vec<u8>) -> (r: Result<
    usize,
    TransportError,
>)
    requires
        old(link).wf(),
        chunk_len_allowed(message@.len()),
    ensures
        final(link).wf(),
        r is Ok <==> old(link)@.received < u64::MAX && noise_open(
            old(link)@.in_key,
            old(link)@.received,
            message@,
        ) is Some,
        r matches Ok(n) ==> {
            let plain = noise_open(old(link)@.in_key, old(link)@.received, message@)->0;
            &&& final(out)@ == old(out)@ + plain
            &&& n == plain.len()
            &&& n + NOISE_TAG_LEN == message@.len()
            &&& final(link)@ == (Link { received: old(link)@.received + 1, ..old(link)@ })
        },
        r matches Err(e) ==> e is Noise && final(out)@ == old(out)@ && final(link)@ == old(link)@,
{
    match link.open(message) {
        Ok(plain) => {
            let ghost before = out@;
            out.extend_from_slice(plain.as_slice());
            assert(out@ =~= before + plain@);
            Ok(plain.len())
        },
        Err(e) => Err(e),
    }
}

/// How far the reading of a blob has come.
pub ghost struct BlobProgress {
    /// The longest blob that is accepted.
    pub max_frame: nat,
    /// The announced length, once read.
    pub total: Option<nat>,
    /// What has been read.
    pub out: Seq<u8>,
    /// The length of the message that is due, once announced.
    pub pending: Option<nat>,
}

/// A blob of which nothing has been read.
pub open spec fn blob_start(max_frame: nat) -> BlobProgress {
    BlobProgress { max_frame, total: None, out: Seq::empty(), pending: None }
}

/// How many bytes are due next: two that announce a message, or the message.
pub open spec fn blob_due(p: BlobProgress) -> nat {
    match p.pending {
        None => 2,
        Some(n) => n,
    }
}

/// Whether the whole blob has been read.
pub open spec fn blob_whole(p: BlobProgress) -> bool {
    p.pending is None && p.total == Some(p.out.len())
}

/// Whether the bytes that were due are refused, and by which layer.
pub ghost enum Refusal {
    /// They break a rule of the framing.
    Rule,
    /// They do not decrypt.
    Noise,
}

/// What the bytes that were due make of a blob and of the link they came over.
pub open spec fn blob_step(p: BlobProgress, l: Link, bytes: Seq<u8>) -> Result<
    (BlobProgress, Link),
    Refusal,
> {
    if p.pending is None {
        if chunk_len_allowed(be_value(bytes)) {
            Ok((BlobProgress { pending: Some(be_value(bytes)), ..p }, l))
        } else {
            Err(Refusal::Rule)
        }
    } else {
        match noise_open(l.in_key, l.received, bytes) {
            None => Err(Refusal::Noise),
            Some(plain) => if l.received >= u64::MAX {
                Err(Refusal::Noise)
            } else {
                let after = Link { received: l.received + 1, ..l };
                match p.total {
                    None => if plain.len() != 4 || be_value(plain) > p.max_frame {
                        Err(Refusal::Rule)
                    } else {
                        Ok((BlobProgress { total: Some(be_value(plain)), pending: None, ..p }, after))
                    },
                    Some(total) => if p.out.len() + plain.len() > total {
                        Err(Refusal::Rule)
                    } else {
                        Ok((BlobProgress { out: p.out + plain, pending: None, ..p }, after))
                    },
                }
            },
        }
    }
}

/// Reads a blob from a stream, piece by piece: [`BlobReader::due`] says how
/// many bytes to read next, and [`BlobReader::feed`] takes them.
pub struct BlobReader {
    max_frame: usize,
    total: Option<usize>,
    out: Vec<u8>,
    pending: Option<usize>,
}

impl View for BlobReader {
    type V = BlobProgress;

    closed spec fn view(&self) -> BlobProgress {
        BlobProgress {
            max_frame: self.max_frame as nat,
            total: match self.total {
                Some(n) => Some(n as nat),
                None => None,
            },
            out: self.out@,
            pending: match self.pending {
                Some(n) => Some(n as nat),
                None => None,
            },
        }
    }
}

/// A reader of one blob of the mailbox protocol.
pub fn read_noise_blob() -> (reader: BlobReader)
    ensures
        reader.wf(),
        reader@ == blob_start(MAX_MAILBOX_FRAME as nat),
{
    read_noise_blob_capped(MAX_MAILBOX_FRAME)
}

/// A reader of one blob that refuses a blob longer than `max_frame` before it
/// takes any of it.
pub fn read_noise_blob_capped(max_frame: usize) -> (reader: BlobReader)
    ensures
        reader.wf(),
        reader@ == blob_start(max_frame as nat),
{
    let reader = BlobReader { max_frame, total: None, out: Vec::new(), pending: None };
    assert(reader@ =~= blob_start(max_frame as nat));
    reader
}

impl BlobReader {
    /// A message that is due has an allowed length, and no more than was
    /// announced has been read.
    pub open spec fn wf(self) -> bool {
        &&& self@.pending is Some ==> chunk_len_allowed(self@.pending->0)
        &&& match self@.total {
            Some(total) => self@.out.len() <= total <= self@.max_frame,
            None => self@.out.len() == 0,
        }
    }

    /// How many bytes to read next.
    pub fn due(&self) -> (n: usize)
        requires
            self.wf(),
        ensures
            n == blob_due(self@),
            n > 0,
    {
        match self.pending {
            None => 2,
            Some(n) => n,
        }
    }

    /// Whether the whole blob has been read.
    pub fn is_whole(&self) -> (whole: bool)
        requires
            self.wf(),
        ensures
            whole == blob_whole(self@),
    {
        match (self.pending, self.total) {
            (None, Some(total)) => self.out.len() == total,
            _ => false,
        }
    }

    /// Takes the bytes that were due. Every message after the first brings at
    /// least one byte of the blob, so that no peer keeps a reader busy without
    /// end.
    pub fn feed(&mut self, link: &mut NoiseLink, bytes: &[u8]) -> (r: Result<(), TransportError>)
        requires
            old(self).wf(),
            old(link).wf(),
            bytes@.len() == blob_due(old(self)@),
        ensures
            final(link).wf(),
            match blob_step(old(self)@, old(link)@, bytes@) {
                Ok((after, carried)) => {
                    &&& r is Ok
                    &&& final(self).wf()
                    &&& final(self)@ == after
                    &&& final(link)@ == carried
                },
                Err(Refusal::Rule) => {
                    &&& r is Err
                    &&& r->Err_0 is BadHandshake
                    &&& final(link)@ == if old(self)@.pending is None {
                        old(link)@
                    } else {
                        Link { received: old(link)@.received + 1, ..old(link)@ }
                    }
                },
                Err(Refusal::Noise) => {
                    &&& r is Err
                    &&& r->Err_0 is Noise
                    &&& final(link)@ == old(link)@
                },
            },
            r is Err ==> final(self).wf() && final(self)@ == old(self)@,
            r is Ok && old(self)@.pending is Some && old(self)@.total is Some ==> old(
                self,
            )@.out.len() < final(self)@.out.len(),
    {
        let ghost start = self@;
        if self.pending.is_none() {
            match read_chunk_len(bytes) {
                Ok(n) => {
                    self.pending = Some(n);
                    return Ok(());
                },
                Err(e) => {
                    return Err(e);
                },
            }
        }
        let plain: Vec<u8> = match link.open(bytes) {
            Ok(plain) => plain,
            Err(e) => {
                return Err(e);
            },
        };
        match self.total {
            None => {
                if plain.len() != 4 {
                    return Err(TransportError::BadHandshake);
                }
                let total: usize = be_read_u32(plain.as_slice()) as usize;
                if total > self.max_frame {
                    return Err(TransportError::BadHandshake);
                }
                self.total = Some(total);
                self.pending = None;
            },
            Some(total) => {
                if plain.len() > total - self.out.len() {
                    return Err(TransportError::BadHandshake);
                }
                self.out.extend_from_slice(plain.as_slice());
                self.pending = None;
                assert(self@.out =~= start.out + plain@);
            },
        }
        Ok(())
    }

    /// What has been read.
    pub fn into_blob(self) -> (blob: Vec<u8>)
        ensures
            blob@ == self@.out,
    {
        self.out
    }
}

/// Reads a blob from the front of a stream that holds all of it, as far as the
/// bytes are accepted: the blob, the link after it, and the rest of the
/// stream.
pub open spec fn read_stream(p: BlobProgress, l: Link, stream: Seq<u8>) -> Option<
    (Seq<u8>, Link, Seq<u8>),
>
    decreases stream.len(),
{
    let due = blob_due(p);
    if blob_whole(p) {
        Some((p.out, l, stream))
    } else if due == 0 || stream.len() < due {
        None
    } else {
        match blob_step(p, l, stream.take(due as int)) {
            Ok((after, carried)) => read_stream(after, carried, stream.skip(due as int)),
            Err(_) => None,
        }
    }
}

/// Reading one message from a stream: its announcement, then itself.
proof fn lemma_read_message(p: BlobProgress, l: Link, plain: Seq<u8>, rest: Seq<u8>)
    requires
        p.pending is None,
        !blob_whole(p),
        1 <= plain.len() <= NOISE_CHUNK,
        opens(l.in_key, l.received, plain),
    ensures
        ({
            let stream = message_wire(l.in_key, l.received, plain) + rest;
            let sealed = noise_seal(l.in_key, l.received, plain);
            let waiting = BlobProgress { pending: Some(sealed.len()), ..p };
            read_stream(p, l, stream) == match blob_step(waiting, l, sealed) {
                Ok((after, carried)) => read_stream(after, carried, rest),
                Err(_) => None,
            }
        }),
{
    let sealed = noise_seal(l.in_key, l.received, plain);
    let prefix = be_bytes(sealed.len(), 2);
    let stream = message_wire(l.in_key, l.received, plain) + rest;
    let waiting = BlobProgress { pending: Some(sealed.len()), ..p };
    lemma_be_bytes_len(sealed.len(), 2);
    lemma_be_limits();
    lemma_be_round_trip(sealed.len(), 2);
    assert(stream.take(2) =~= prefix);
    assert(stream.skip(2) =~= sealed + rest);
    assert(blob_step(p, l, prefix) == Ok::<_, Refusal>((waiting, l)));
    assert(read_stream(p, l, stream) == read_stream(waiting, l, sealed + rest));
    assert((sealed + rest).take(sealed.len() as int) =~= sealed);
    assert((sealed + rest).skip(sealed.len() as int) =~= rest);
    assert(!blob_whole(waiting));
}

/// Reading the chunks of what is left of a blob.
proof fn lemma_read_chunks(p: BlobProgress, l: Link, left: Seq<u8>, rest: Seq<u8>)
    requires
        p.pending is None,
        p.total == Some((p.out.len() + left.len()) as nat),
        l.received + chunks(left).len() <= u64::MAX,
        all_open(l.in_key, l.received, chunks(left)),
    ensures
        read_stream(p, l, messages_wire(l.in_key, l.received, chunks(left)) + rest) == Some(
            (
                p.out + left,
                (Link { received: (l.received + chunks(left).len()) as nat, ..l }),
                rest,
            ),
        ),
    decreases left.len(),
{
    let all = chunks(left);
    if left.len() == 0 {
        assert(messages_wire(l.in_key, l.received, all) + rest =~= rest);
        assert(p.out + left =~= p.out);
    } else {
        let n = if left.len() <= NOISE_CHUNK {
            left.len() as int
        } else {
            NOISE_CHUNK as int
        };
        let plain = left.take(n);
        let after = left.skip(n);
        if left.len() <= NOISE_CHUNK {
            assert(plain =~= left);
            assert(after =~= Seq::<u8>::empty());
            assert(all =~= seq![plain] + chunks(after));
        }
        assert(all[0] == plain);
        assert(all.drop_first() =~= chunks(after));
        let wire = messages_wire(l.in_key, l.received, all);
        let tail = messages_wire(l.in_key, l.received + 1, chunks(after));
        assert(wire + rest =~= message_wire(l.in_key, l.received, plain) + (tail + rest));
        assert(opens(l.in_key, (l.received + 0) as nat, all[0]));
        lemma_read_message(p, l, plain, tail + rest);
        let carried = Link { received: l.received + 1, ..l };
        let grown = BlobProgress { out: p.out + plain, ..p };
        assert forall|i: int| 0 <= i < chunks(after).len() implies opens(
            carried.in_key,
            (carried.received + i) as nat,
            #[trigger] chunks(after)[i],
        ) by {
            assert(chunks(after)[i] == all[i + 1]);
            assert((l.received + (i + 1)) as nat == (carried.received + i) as nat);
        }
        lemma_read_chunks(grown, carried, after, rest);
        assert(grown.out + after =~= p.out + left);
    }
}

/// What a blob writer wrote, a blob reader reads: over a link whose receiving
/// side has the sender's key and count, the bytes of a blob that the reader
/// does not refuse for its length give that blob, and what follows them on the
/// stream is left.
pub proof fn blob_reads_back(l: Link, blob: Seq<u8>, max_frame: nat, rest: Seq<u8>)
    requires
        blob.len() <= max_frame,
        blob.len() <= MAX_MAILBOX_FRAME,
        l.received + blob_messages(blob).len() <= u64::MAX,
        all_open(l.in_key, l.received, blob_messages(blob)),
    ensures
        read_stream(blob_start(max_frame), l, blob_wire(l.in_key, l.received, blob) + rest) == Some(
            (
                blob,
                (Link { received: (l.received + blob_messages(blob).len()) as nat, ..l }),
                rest,
            ),
        ),
{
    let all = blob_messages(blob);
    let header = be_bytes(blob.len(), 4);
    lemma_be_bytes_len(blob.len(), 4);
    lemma_be_limits();
    lemma_be_round_trip(blob.len(), 4);
    assert(all[0] == header);
    assert(all.drop_first() =~= chunks(blob));
    let tail = messages_wire(l.in_key, l.received + 1, chunks(blob));
    assert(blob_wire(l.in_key, l.received, blob) + rest =~= message_wire(
        l.in_key,
        l.received,
        header,
    ) + (tail + rest));
    assert(opens(l.in_key, (l.received + 0) as nat, all[0]));
    let start = blob_start(max_frame);
    lemma_read_message(start, l, header, tail + rest);
    let carried = Link { received: l.received + 1, ..l };
    let announced = BlobProgress { total: Some(blob.len()), ..start };
    assert forall|i: int| 0 <= i < chunks(blob).len() implies opens(
        carried.in_key,
        (carried.received + i) as nat,
        #[trigger] chunks(blob)[i],
    ) by {
        assert(chunks(blob)[i] == all[i + 1]);
        assert((l.received + (i + 1)) as nat == (carried.received + i) as nat);
    }
    lemma_read_chunks(announced, carried, blob, rest);
    assert(announced.out + blob =~= blob);
}

/// What a packet writer wrote, a packet reader reads: the frame of a packet is
/// as long as the reader takes, and over a link with the sender's key and
/// count it gives the packet.
pub proof fn frame_reads_back(l: Link, packet: Seq<u8>)
    requires
        packet.len() == PACKET_SIZE,
        opens(l.in_key, l.received, packet),
    ensures
        noise_seal(l.in_key, l.received, packet).len() == FRAME_LEN,
        noise_open(l.in_key, l.received, noise_seal(l.in_key, l.received, packet)) == Some(packet),
{
}

/// What a handshake writer wrote, a handshake reader reads: the first two
/// bytes announce the length of the rest, which is the message.
pub proof fn handshake_message_reads_back(message: Seq<u8>)
    requires
        message.len() <= MAX_HANDSHAKE_MSG,
    ensures
        be_value(handshake_wire(message).take(2)) == message.len(),
        handshake_wire(message).skip(2) == message,
{
    lemma_be_bytes_len(message.len(), 2);
    lemma_be_limits();
    lemma_be_round_trip(message.len(), 2);
    assert(handshake_wire(message).take(2) =~= be_bytes(message.len(), 2));
    assert(handshake_wire(message).skip(2) =~= message);
}

/// A handshake message of up to 1024 bytes goes behind its length in two bytes,
/// most significant first, and is read as long as they say. A longer one is
/// neither sent nor read.
pub proof fn a_handshake_message_goes_behind_its_length(
    message: &[u8],
    sent: Result<Vec<u8>, TransportError>,
    prefix: &[u8; 2],
    announced: Result<usize, TransportError>,
)
    requires
        call_ensures(write_handshake_msg, (message,), sent),
        call_ensures(read_handshake_len, (prefix,), announced),
    ensures
        sent is Ok <==> message@.len() <= 1024,
        sent is Err ==> sent->Err_0 is BadHandshake,
        sent matches Ok(wire) ==> {
            &&& wire@.len() == 2 + message@.len()
            &&& wire@.skip(2) == message@
            &&& 256 * wire@[0] + wire@[1] == message@.len()
            &&& prefix@ == wire@.take(2) ==> announced is Ok && announced->Ok_0 == message@.len()
        },
        announced is Ok <==> 256 * prefix@[0] + prefix@[1] <= 1024,
        announced is Ok ==> announced->Ok_0 == 256 * prefix@[0] + prefix@[1],
        announced is Err ==> announced->Err_0 is BadHandshake,
{
    lemma_two_bytes(prefix@);
    if let Ok(wire) = sent {
        handshake_message_reads_back(message@);
        lemma_be_bytes_len(message@.len(), 2);
        lemma_two_bytes(wire@.take(2));
    }
}

/// The number that two bytes spell.
proof fn lemma_two_bytes(s: Seq<u8>)
    requires
        s.len() == 2,
    ensures
        be_value(s) == 256 * s[0] + s[1],
{
    let front = s.drop_last();
    assert(front.drop_last() =~= Seq::<u8>::empty());
    assert(be_value(front.drop_last()) == 0);
    assert(be_value(front) == s[0] as nat);
}

/// A packet of 2048 bytes becomes a frame of 2064, from which the other end of
/// the link reads the packet, as long as both have carried as many messages.
/// Nothing but a whole packet is sent, and each frame counts as one message.
pub proof fn a_packet_crosses_a_link(
    here: &mut NoiseLink,
    packet: &[u8],
    sent: Result<Vec<u8>, TransportError>,
    there: &mut NoiseLink,
    frame: &[u8],
    read: Result<Vec<u8>, TransportError>,
)
    requires
        call_ensures(write_noise_frame, (here, packet), sent),
        call_ensures(read_noise_frame, (there, frame), read),
    ensures
        sent is Ok <==> packet@.len() == 2048 && old(here)@.sent < u64::MAX,
        sent is Ok ==> sent->Ok_0@.len() == 2064 && final(here)@ == (Link {
            sent: old(here)@.sent + 1,
            ..old(here)@
        }),
        sent is Err ==> final(here)@ == old(here)@,
        sent is Err && packet@.len() != 2048 ==> sent->Err_0 is BadHandshake,
        sent is Err && packet@.len() == 2048 ==> sent->Err_0 is Noise,
        read is Ok ==> read->Ok_0@.len() == 2048 && final(there)@ == (Link {
            received: old(there)@.received + 1,
            ..old(there)@
        }),
        read is Err ==> read->Err_0 is Noise && final(there)@ == old(there)@,
        sent is Ok && frame@ == sent->Ok_0@ && old(there)@.in_key == old(here)@.out_key && old(
            there,
        )@.received == old(here)@.sent ==> read is Ok && read->Ok_0@ == packet@,
{
}

/// One message is announced by its length in two bytes, tag included, and stands
/// behind what was written before.
pub proof fn a_message_goes_behind_its_length(
    link: &mut NoiseLink,
    plain: &[u8],
    wire: &mut Vec<u8>,
    r: Result<(), TransportError>,
)
    requires
        call_ensures(write_one_noise_msg, (link, plain, wire), r),
    ensures
        r is Ok <==> plain@.len() <= 65519 && old(link)@.sent < u64::MAX,
        r is Err ==> r->Err_0 is Noise && final(wire)@ == old(wire)@ && final(link)@ == old(link)@,
        r is Ok ==> {
            let had = old(wire)@.len() as int;
            let message = final(wire)@.skip(had + 2);
            &&& final(wire)@.take(had) == old(wire)@
            &&& 256 * final(wire)@[had] + final(wire)@[had + 1] == plain@.len() + 16
            &&& message.len() == plain@.len() + 16
            &&& noise_open(old(link)@.out_key, old(link)@.sent, message) == Some(plain@)
            &&& final(link)@ == (Link { sent: old(link)@.sent + 1, ..old(link)@ })
        },
{
    if r is Ok {
        let had = old(wire)@.len() as int;
        let sealed = noise_seal(old(link)@.out_key, old(link)@.sent, plain@);
        lemma_be_bytes_len(sealed.len(), 2);
        lemma_be_limits();
        lemma_be_round_trip(sealed.len(), 2);
        let prefix = be_bytes(sealed.len(), 2);
        lemma_two_bytes(prefix);
        assert(final(wire)@.take(had) =~= old(wire)@);
        assert(final(wire)@.skip(had + 2) =~= sealed);
        assert(final(wire)@[had] == prefix[0]);
        assert(final(wire)@[had + 1] == prefix[1]);
    }
}

/// A message of a blob carries from 1 to 32768 bytes, and what it carries is
/// appended to what was read.
pub proof fn a_message_brings_its_bytes(
    prefix: &[u8],
    announced: Result<usize, TransportError>,
    link: &mut NoiseLink,
    message: &[u8],
    out: &mut Vec<u8>,
    r: Result<usize, TransportError>,
)
    requires
        prefix@.len() == 2,
        call_ensures(read_chunk_len, (prefix,), announced),
        call_ensures(read_one_noise_msg, (link, message, out), r),
    ensures
        announced is Ok <==> 17 <= 256 * prefix@[0] + prefix@[1] <= 32784,
        announced is Ok ==> announced->Ok_0 == 256 * prefix@[0] + prefix@[1],
        announced is Err ==> announced->Err_0 is BadHandshake,
        r is Ok ==> {
            let plain = noise_open(old(link)@.in_key, old(link)@.received, message@);
            &&& plain is Some
            &&& final(out)@ == old(out)@ + plain->0
            &&& r->Ok_0 == plain->0.len()
            &&& message@.len() == plain->0.len() + 16
            &&& final(link)@ == (Link { received: old(link)@.received + 1, ..old(link)@ })
        },
        r is Err ==> r->Err_0 is Noise && final(out)@ == old(out)@ && final(link)@ == old(link)@,
        noise_open(old(link)@.in_key, old(link)@.received, message@) is Some && old(
            link,
        )@.received < u64::MAX ==> r is Ok,
{
    lemma_two_bytes(prefix@);
}

/// How many chunks a blob is cut into: of 32768 bytes each, but for the last.
proof fn lemma_chunk_count(blob: Seq<u8>)
    ensures
        32768 * chunks(blob).len() >= blob.len(),
        chunks(blob).len() > 0 ==> 32768 * (chunks(blob).len() - 1) < blob.len(),
        forall|i: int|
            0 <= i < chunks(blob).len() ==> 1 <= (#[trigger] chunks(blob)[i]).len() <= 32768,
    decreases blob.len(),
{
    if blob.len() > NOISE_CHUNK {
        let rest = blob.skip(NOISE_CHUNK as int);
        lemma_chunk_count(rest);
        let all = chunks(blob);
        assert forall|i: int| 0 <= i < all.len() implies 1 <= (#[trigger] all[i]).len()
            <= 32768 by {
            if i > 0 {
                assert(all[i] == chunks(rest)[i - 1]);
            }
        }
    }
}

/// The messages of a blob take up what they carry, their tags and their lengths.
proof fn lemma_wire_length(key: int, count: nat, plains: Seq<Seq<u8>>)
    requires
        all_open(key, count, plains),
    ensures
        messages_wire(key, count, plains).len() == total_length(plains) + 18 * plains.len(),
    decreases plains.len(),
{
    if plains.len() > 0 {
        let rest = plains.drop_first();
        assert forall|i: int| 0 <= i < rest.len() implies opens(
            key,
            (count + 1 + i) as nat,
            #[trigger] rest[i],
        ) by {
            assert(rest[i] == plains[i + 1]);
            assert((count + (i + 1)) as nat == (count + 1 + i) as nat);
        }
        lemma_wire_length(key, count + 1, rest);
        assert(opens(key, (count + 0) as nat, plains[0]));
        lemma_be_bytes_len(noise_seal(key, count, plains[0]).len(), 2);
    }
}

/// The bytes of several texts together.
pub open spec fn total_length(plains: Seq<Seq<u8>>) -> nat
    decreases plains.len(),
{
    if plains.len() == 0 {
        0
    } else {
        plains[0].len() + total_length(plains.drop_first())
    }
}

/// The chunks of a blob are as long together as the blob.
proof fn lemma_total_length(blob: Seq<u8>)
    ensures
        total_length(chunks(blob)) == blob.len(),
    decreases blob.len(),
{
    if blob.len() > NOISE_CHUNK {
        let rest = blob.skip(NOISE_CHUNK as int);
        lemma_total_length(rest);
        assert(chunks(blob).drop_first() =~= chunks(rest));
    } else if blob.len() > 0 {
        assert(chunks(blob).drop_first() =~= Seq::<Seq<u8>>::empty());
        assert(total_length(chunks(blob).drop_first()) == 0);
    }
}

/// A blob of up to 16 MiB crosses a link: the other end, with the sender's key
/// and count, reads it back from the bytes on the wire and leaves what follows
/// them. It goes in one message for its length and one for every 32768 bytes
/// begun, each with its tag of sixteen bytes behind a length of two.
pub proof fn a_blob_crosses_a_link(
    here: &mut NoiseLink,
    blob: &[u8],
    sent: Result<Vec<u8>, TransportError>,
    there: Link,
    rest: Seq<u8>,
)
    requires
        call_ensures(write_noise_blob, (here, blob), sent),
        old(here)@.sent + 514 <= u64::MAX,
        there.in_key == old(here)@.out_key,
        there.received == old(here)@.sent,
    ensures
        sent is Ok <==> blob@.len() <= 16_777_216,
        sent is Err ==> sent->Err_0 is BadHandshake && final(here)@ == old(here)@,
        sent matches Ok(wire) ==> exists|chunked: nat|
            {
                &&& #[trigger] covers(chunked, blob@.len())
                &&& final(here)@ == (Link { sent: old(here)@.sent + 1 + chunked, ..old(here)@ })
                &&& wire@.len() == blob@.len() + 4 + 18 * (1 + chunked)
                &&& wire@[0] == 0 && wire@[1] == 20
                &&& read_stream(blob_start(16_777_216), there, wire@ + rest) == Some(
                    (
                        blob@,
                        (Link { received: there.received + 1 + chunked, ..there }),
                        rest,
                    ),
                )
            },
{
    lemma_chunk_count(blob@);
    let all = blob_messages(blob@);
    let chunked = chunks(blob@).len();
    assert(all.len() == 1 + chunked);
    if blob@.len() <= 16_777_216 {
        assert(chunked <= 513);
    }
    if let Ok(wire) = sent {
        blob_reads_back(there, blob@, 16_777_216, rest);
        lemma_be_bytes_len(blob@.len(), 4);
        lemma_wire_length(old(here)@.out_key, old(here)@.sent, all);
        lemma_total_length(blob@);
        assert(all.drop_first() =~= chunks(blob@));
        assert(covers(chunked, blob@.len()));
        assert(opens(old(here)@.out_key, (old(here)@.sent + 0) as nat, all[0]));
        lemma_be_bytes_len(20, 2);
        lemma_be_limits();
        lemma_be_round_trip(20, 2);
        lemma_two_bytes(be_bytes(20, 2));
        assert(wire@[0] == be_bytes(20, 2)[0]);
        assert(wire@[1] == be_bytes(20, 2)[1]);
    }
}

/// Whether so many chunks of 32768 bytes cover a length, and none is idle.
pub open spec fn covers(chunked: nat, len: nat) -> bool {
    32768 * (chunked - 1) < len <= 32768 * chunked || chunked == 0 && len == 0
}

/// A blob that is small enough fails only where the link has no messages left to
/// send it in, and then by the link's own error, with nothing else of the link
/// changed.
pub proof fn a_blob_fails_where_a_link_is_used_up(
    link: &mut NoiseLink,
    blob: &[u8],
    sent: Result<Vec<u8>, TransportError>,
)
    requires
        call_ensures(write_noise_blob, (link, blob), sent),
        sent is Err,
        blob@.len() <= 16_777_216,
    ensures
        sent->Err_0 is Noise,
        final(link)@.sent >= u64::MAX,
        final(link)@ == (Link { sent: final(link)@.sent, ..old(link)@ }),
{
}

/// A blob is read in turns: two bytes announce a message, of 17 to 32784 bytes,
/// and the message follows. The first brings the length of the blob, in four
/// bytes, which must not exceed what is accepted; every other brings bytes of
/// the blob, at least one and no more than are missing.
pub proof fn a_blob_is_read_in_turns(
    reader: &mut BlobReader,
    link: &mut NoiseLink,
    bytes: &[u8],
    due: usize,
    whole: bool,
    r: Result<(), TransportError>,
)
    requires
        call_ensures(BlobReader::due, (&*old(reader),), due),
        call_ensures(BlobReader::is_whole, (&*old(reader),), whole),
        bytes@.len() == due,
        call_ensures(BlobReader::feed, (reader, link, bytes), r),
    ensures
        ({
            let p = old(reader)@;
            let q = final(reader)@;
            let plain = noise_open(old(link)@.in_key, old(link)@.received, bytes@);
            &&& p.pending is None ==> due == 2
            &&& p.pending is Some ==> due == p.pending->0
            &&& whole <==> p.pending is None && p.total == Some(p.out.len())
            &&& r is Err ==> q == p
            &&& q.max_frame == p.max_frame
            &&& p.pending is None ==> {
                &&& r is Ok <==> 17 <= 256 * bytes@[0] + bytes@[1] <= 32784
                &&& r is Ok ==> q.pending == Some((256 * bytes@[0] + bytes@[1]) as nat) && q.total
                    == p.total && q.out == p.out
                &&& r is Err ==> r->Err_0 is BadHandshake
                &&& final(link)@ == old(link)@
            }
            &&& p.pending is Some && (plain is None || old(link)@.received >= u64::MAX) ==> r is Err
                && r->Err_0 is Noise && final(link)@ == old(link)@
            &&& p.pending is Some && plain is Some && old(link)@.received < u64::MAX ==> {
                &&& final(link)@ == (Link { received: old(link)@.received + 1, ..old(link)@ })
                &&& p.total is None ==> {
                    &&& r is Ok <==> plain->0.len() == 4 && be_value(plain->0) <= p.max_frame
                    &&& r is Ok ==> q.total == Some(be_value(plain->0)) && q.out == p.out
                        && q.pending is None
                }
                &&& p.total is Some ==> {
                    &&& r is Ok <==> p.out.len() + plain->0.len() <= p.total->0
                    &&& r is Ok ==> q.out == p.out + plain->0 && q.total == p.total
                        && q.pending is None
                    &&& r is Ok ==> q.out.len() > p.out.len()
                }
                &&& r is Err ==> r->Err_0 is BadHandshake
            }
        }),
{
    if old(reader)@.pending is None {
        lemma_two_bytes(bytes@);
    }
}

/// A reader starts with nothing read, and gives what it read. It accepts 16 MiB
/// unless it is told otherwise.
pub proof fn a_reader_starts_with_nothing(
    plain: BlobReader,
    max_frame: usize,
    capped: BlobReader,
    reader: BlobReader,
    blob: Vec<u8>,
)
    requires
        call_ensures(read_noise_blob, (), plain),
        call_ensures(read_noise_blob_capped, (max_frame,), capped),
        call_ensures(BlobReader::into_blob, (reader,), blob),
    ensures
        plain@.max_frame == 16_777_216,
        plain@.total is None,
        plain@.out.len() == 0,
        plain@.pending is None,
        capped@.max_frame == max_frame,
        capped@.total is None,
        capped@.out.len() == 0,
        capped@.pending is None,
        blob@ == reader@.out,
{
}

} // verus!
