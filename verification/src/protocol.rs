//! WebSocket protocol message types and encoding/decoding.
//!
//! Two subprotocols share this binary format:
//! - `y-websocket`: the standard Yjs sync protocol (message types 0-1)
//! - `commonplace`: an extended protocol with commit metadata (types 0, 3-5)

use vstd::prelude::*;

verus! {

/// Top-level message type (first byte of a binary message).
#[derive(Debug, Clone, Copy, PartialEq, Eq, Structural)]
pub enum MessageType {
    /// Sync protocol (sync step 1/2, updates)
    Sync,
    /// Awareness protocol (cursors, presence); forwarded verbatim
    Awareness,
    /// Commit metadata (commonplace mode only)
    CommitMeta,
    /// Blue port event (commonplace mode only)
    BlueEvent,
    /// Red port event (commonplace mode only)
    RedEvent,
}

/// Sync message subtypes (second byte when the type is `Sync`).
#[derive(Debug, Clone, Copy, PartialEq, Eq, Structural)]
pub enum SyncMessageType {
    /// Client sends its state vector to request missing updates
    SyncStep1,
    /// Server/peer responds with document state/updates
    SyncStep2,
    /// Incremental update
    Update,
}

/// Protocol errors.
#[derive(Debug, Clone, Copy, PartialEq, Eq, Structural)]
pub enum ProtocolError {
    /// First byte does not name a known message type
    UnknownMessageType(u8),
    /// Second byte of a sync message does not name a known subtype
    UnknownSyncType(u8),
    /// Message ended before a field was complete
    UnexpectedEof,
    /// A varstring payload was not valid UTF-8
    InvalidUtf8,
}

impl MessageType {
    /// The byte that stands for this message type on the wire.
    pub open spec fn spec_code(self) -> u8 {
        match self {
            MessageType::Sync => 0,
            MessageType::Awareness => 1,
            MessageType::CommitMeta => 3,
            MessageType::BlueEvent => 4,
            MessageType::RedEvent => 5,
        }
    }

    /// Read a message type from its wire byte.
    pub open spec fn spec_try_from(value: u8) -> Result<MessageType, ProtocolError> {
        if value == 0 {
            Ok(MessageType::Sync)
        } else if value == 1 {
            Ok(MessageType::Awareness)
        } else if value == 3 {
            Ok(MessageType::CommitMeta)
        } else if value == 4 {
            Ok(MessageType::BlueEvent)
        } else if value == 5 {
            Ok(MessageType::RedEvent)
        } else {
            Err(ProtocolError::UnknownMessageType(value))
        }
    }

    pub fn code(&self) -> (r: u8)
        ensures
            r == self.spec_code(),
    {
        match self {
            MessageType::Sync => 0,
            MessageType::Awareness => 1,
            MessageType::CommitMeta => 3,
            MessageType::BlueEvent => 4,
            MessageType::RedEvent => 5,
        }
    }

    pub fn try_from(value: u8) -> (r: Result<MessageType, ProtocolError>)
        ensures
            r == MessageType::spec_try_from(value),
    {
        match value {
            0 => Ok(MessageType::Sync),
            1 => Ok(MessageType::Awareness),
            3 => Ok(MessageType::CommitMeta),
            4 => Ok(MessageType::BlueEvent),
            5 => Ok(MessageType::RedEvent),
            _ => Err(ProtocolError::UnknownMessageType(value)),
        }
    }
}

impl SyncMessageType {
    /// The byte that stands for this sync subtype on the wire.
    pub open spec fn spec_code(self) -> u8 {
        match self {
            SyncMessageType::SyncStep1 => 0,
            SyncMessageType::SyncStep2 => 1,
            SyncMessageType::Update => 2,
        }
    }

    /// Read a sync subtype from its wire byte.
    pub open spec fn spec_try_from(value: u8) -> Result<SyncMessageType, ProtocolError> {
        if value == 0 {
            Ok(SyncMessageType::SyncStep1)
        } else if value == 1 {
            Ok(SyncMessageType::SyncStep2)
        } else if value == 2 {
            Ok(SyncMessageType::Update)
        } else {
            Err(ProtocolError::UnknownSyncType(value))
        }
    }

    pub fn code(&self) -> (r: u8)
        ensures
            r == self.spec_code(),
    {
        match self {
            SyncMessageType::SyncStep1 => 0,
            SyncMessageType::SyncStep2 => 1,
            SyncMessageType::Update => 2,
        }
    }

    pub fn try_from(value: u8) -> (r: Result<SyncMessageType, ProtocolError>)
        ensures
            r == SyncMessageType::spec_try_from(value),
    {
        match value {
            0 => Ok(SyncMessageType::SyncStep1),
            1 => Ok(SyncMessageType::SyncStep2),
            2 => Ok(SyncMessageType::Update),
            _ => Err(ProtocolError::UnknownSyncType(value)),
        }
    }
}

/// The bytes of a variable-length unsigned integer: little-endian groups of
/// seven bits, a set high bit meaning that more groups follow.
pub open spec fn var_uint_enc(v: nat) -> Seq<u8>
    decreases v,
{
    if v < 128 {
        seq![v as u8]
    } else {
        seq![(v % 128 + 128) as u8] + var_uint_enc(v / 128)
    }
}

/// Encode a variable-length unsigned integer (y-protocols format).
pub fn encode_var_uint(value: u64, out: &mut Vec<u8>)
    ensures
        final(out)@ == old(out)@ + var_uint_enc(value as nat),
{
    let mut v: u64 = value;
    loop
        invariant_except_break
            out@ + var_uint_enc(v as nat) == old(out)@ + var_uint_enc(value as nat),
        ensures
            out@ == old(out)@ + var_uint_enc(value as nat),
        decreases v,
    {
        let low: u8 = (v % 128) as u8;
        let next: u64 = v / 128;
        let byte: u8 = if next != 0 { low + 128 } else { low };
        proof {
            if next == 0 {
                assert(var_uint_enc(v as nat) =~= seq![byte]);
            } else {
                assert(var_uint_enc(v as nat) =~= seq![byte] + var_uint_enc(next as nat));
                assert(out@ + var_uint_enc(v as nat) =~= out@.push(byte) + var_uint_enc(next as nat));
            }
        }
        out.push(byte);
        v = next;
        if v == 0 {
            break;
        }
    }
}

/// One step of varuint decoding: reading groups at `i` with `shift` bits
/// already consumed into `acc`, exactly as the decoder accumulates them.
pub open spec fn var_uint_dec_at(s: Seq<u8>, i: int, shift: nat, acc: u64) -> Option<(u64, int)>
    decreases s.len() - i,
{
    if i < 0 || i >= s.len() {
        None
    } else {
        let byte = s[i];
        let acc2 = (acc | (((byte % 128) as u64) << shift)) as u64;
        if byte < 128 {
            Some((acc2, i + 1))
        } else if shift + 7 > 63 {
            Some((acc2, i + 1))
        } else {
            var_uint_dec_at(s, i + 1, shift + 7, acc2)
        }
    }
}

/// The value and end position of the varuint starting at `i`, or `None`
/// when the message ends first.
pub open spec fn var_uint_dec(s: Seq<u8>, i: int) -> Option<(u64, int)> {
    var_uint_dec_at(s, i, 0, 0)
}

/// Decode a variable-length unsigned integer starting at `pos`.
/// Returns the value and the position just past it.
pub fn decode_var_uint(data: &[u8], pos: usize) -> (r: Result<(u64, usize), ProtocolError>)
    ensures
        match var_uint_dec(data@, pos as int) {
            Some((v, j)) => r matches Ok(p) && p.0 == v && p.1 == j,
            None => r == Err::<(u64, usize), ProtocolError>(ProtocolError::UnexpectedEof),
        },
{
    let mut i: usize = pos;
    let mut result: u64 = 0;
    let mut shift: u32 = 0;
    loop
        invariant
            pos <= i,
            shift <= 63,
            var_uint_dec(data@, pos as int) == var_uint_dec_at(data@, i as int, shift as nat, result),
        decreases data@.len() - i,
    {
        if i >= data.len() {
            return Err(ProtocolError::UnexpectedEof);
        }
        let byte: u8 = *vstd::slice::slice_index_get(data, i);
        i = i + 1;
        result = result | (((byte % 128) as u64) << shift);
        if byte < 128 {
            return Ok((result, i));
        }
        if shift + 7 > 63 {
            return Ok((result, i));
        }
        shift = shift + 7;
    }
}

/// A decoded varuint ends after its start and within the message.
pub proof fn lemma_var_uint_dec_bounds(s: Seq<u8>, i: int, shift: nat, acc: u64)
    ensures
        match var_uint_dec_at(s, i, shift, acc) {
            Some((v, j)) => i < j <= s.len(),
            None => true,
        },
    decreases s.len() - i,
{
    if 0 <= i && i < s.len() {
        let byte = s[i];
        let acc2 = (acc | (((byte % 128) as u64) << shift)) as u64;
        if byte >= 128 && shift + 7 <= 63 {
            lemma_var_uint_dec_bounds(s, i + 1, shift + 7, acc2);
        }
    }
}

proof fn lemma_var_uint_dec_enc_at(s: Seq<u8>, i: int, shift: nat, acc: u64, v: u64)
    requires
        0 <= i,
        i + var_uint_enc(v as nat).len() <= s.len(),
        s.subrange(i, i + var_uint_enc(v as nat).len() as int) == var_uint_enc(v as nat),
        shift <= 63,
        acc < (1u64 << (shift as u64)),
        v <= (u64::MAX >> (shift as u64)),
    ensures
        var_uint_dec_at(s, i, shift, acc) == Some(
            ((acc | (v << (shift as u64))) as u64, i + var_uint_enc(v as nat).len()),
        ),
    decreases v,
{
    let sh = shift as u64;
    let enc = var_uint_enc(v as nat);
    assert(s.subrange(i, i + enc.len() as int)[0] == s[i]);
    if v < 128 {
        assert(enc =~= seq![v as u8]);
        assert(s[i] == v as u8);
        let b = v as u8;
        assert((((b % 128) as u64) << sh) == (v << sh)) by (bit_vector)
            requires b == v as u8 && v < 128;
    } else {
        assert(enc =~= seq![(v % 128 + 128) as u8] + var_uint_enc((v / 128) as nat));
        let b = (v % 128 + 128) as u8;
        assert(s[i] == b);
        assert(b >= 128) by (bit_vector)
            requires b == ((v % 128 + 128) as u8);
        // v >= 128 forces shift <= 56, else v would exceed u64::MAX >> shift
        assert(sh <= 56) by (bit_vector)
            requires v >= 128 && v <= (u64::MAX >> sh) && sh <= 63;
        let acc2 = (acc | (((b % 128) as u64) << sh)) as u64;
        let v2 = v / 128;
        let enc2 = var_uint_enc(v2 as nat);
        assert(s.subrange(i + 1, i + 1 + enc2.len()) =~= enc.subrange(1, enc.len() as int));
        assert(enc.subrange(1, enc.len() as int) =~= enc2);
        assert(acc2 < (1u64 << ((sh + 7) as u64))) by (bit_vector)
            requires sh <= 56 && acc < (1u64 << sh) && b == ((v % 128 + 128) as u8)
                && acc2 == ((acc | (((b % 128) as u64) << sh)) as u64);
        assert(v2 <= (u64::MAX >> ((sh + 7) as u64))) by (bit_vector)
            requires sh <= 56 && v <= (u64::MAX >> sh) && v2 == v / 128;
        lemma_var_uint_dec_enc_at(s, i + 1, shift + 7, acc2, v2);
        assert((acc2 | (v2 << ((sh + 7) as u64))) == (acc | (v << sh))) by (bit_vector)
            requires sh <= 56 && acc < (1u64 << sh) && v2 == v / 128
                && b == ((v % 128 + 128) as u8)
                && acc2 == ((acc | (((b % 128) as u64) << sh)) as u64);
    }
}

/// Round trip: decoding an encoded varuint yields the value back and stops
/// exactly at its last byte.
pub proof fn lemma_var_uint_round_trip(v: u64, s: Seq<u8>, i: int)
    requires
        0 <= i,
        i + var_uint_enc(v as nat).len() <= s.len(),
        s.subrange(i, i + var_uint_enc(v as nat).len() as int) == var_uint_enc(v as nat),
    ensures
        var_uint_dec(s, i) == Some((v, i + var_uint_enc(v as nat).len())),
{
    assert(0u64 < (1u64 << 0u64)) by (bit_vector);
    assert(v <= (u64::MAX >> 0u64)) by (bit_vector);
    lemma_var_uint_dec_enc_at(s, i, 0, 0, v);
    assert((0u64 | (v << 0u64)) == v) by (bit_vector);
}

/// The bytes of a length-prefixed byte array.
pub open spec fn var_bytes_enc(b: Seq<u8>) -> Seq<u8> {
    var_uint_enc(b.len()) + b
}

/// The byte array starting at `i` and its end position, or `None` when the
/// message ends before the announced length.
pub open spec fn var_bytes_dec(s: Seq<u8>, i: int) -> Option<(Seq<u8>, int)> {
    match var_uint_dec(s, i) {
        Some((n, j)) => if s.len() - j < n {
            None
        } else {
            Some((s.subrange(j, j + n), j + n))
        },
        None => None,
    }
}

/// Encode a variable-length byte array (length-prefixed).
pub fn encode_var_bytes(bytes: &[u8], out: &mut Vec<u8>)
    ensures
        final(out)@ == old(out)@ + var_bytes_enc(bytes@),
{
    encode_var_uint(bytes.len() as u64, out);
    out.extend_from_slice(bytes);
    proof {
        assert(final(out)@ =~= old(out)@ + var_bytes_enc(bytes@));
    }
}

/// Decode a variable-length byte array starting at `pos`.
pub fn decode_var_bytes(data: &[u8], pos: usize) -> (r: Result<(Vec<u8>, usize), ProtocolError>)
    ensures
        match var_bytes_dec(data@, pos as int) {
            Some((bs, j)) => r matches Ok(p) && p.0@ == bs && p.1 == j,
            None => r == Err::<(Vec<u8>, usize), ProtocolError>(ProtocolError::UnexpectedEof),
        },
{
    let (n, j) = match decode_var_uint(data, pos) {
        Ok(p) => p,
        Err(e) => {
            return Err(e);
        },
    };
    proof {
        lemma_var_uint_dec_bounds(data@, pos as int, 0, 0);
    }
    if n > (data.len() - j) as u64 {
        return Err(ProtocolError::UnexpectedEof);
    }
    let end: usize = j + (n as usize);
    let part = vstd::slice::slice_subrange(data, j, end);
    Ok((vstd::slice::slice_to_vec(part), end))
}

/// Round trip: decoding an encoded byte array yields the bytes back.
pub proof fn lemma_var_bytes_round_trip(b: Seq<u8>, s: Seq<u8>, i: int)
    requires
        0 <= i,
        b.len() <= u64::MAX,
        i + var_bytes_enc(b).len() <= s.len(),
        s.subrange(i, i + var_bytes_enc(b).len() as int) == var_bytes_enc(b),
    ensures
        var_bytes_dec(s, i) == Some((b, i + var_bytes_enc(b).len())),
{
    let n = b.len() as u64;
    let lenc = var_uint_enc(n as nat);
    assert(s.subrange(i, i + lenc.len() as int) =~= var_bytes_enc(b).subrange(
        0,
        lenc.len() as int,
    ));
    assert(var_bytes_enc(b).subrange(0, lenc.len() as int) =~= lenc);
    lemma_var_uint_round_trip(n, s, i);
    let j = i + lenc.len();
    assert(s.subrange(j, j + n) =~= var_bytes_enc(b).subrange(
        lenc.len() as int,
        var_bytes_enc(b).len() as int,
    ));
    assert(var_bytes_enc(b).subrange(lenc.len() as int, var_bytes_enc(b).len() as int) =~= b);
}

/// The bytes of a length-prefixed UTF-8 string.
pub open spec fn var_string_enc(s: Seq<char>) -> Seq<u8> {
    var_bytes_enc(vstd::utf8::encode_utf8(s))
}

/// The string starting at `i` and its end position: `UnexpectedEof` when the
/// message ends first, `InvalidUtf8` when the bytes are not well-formed UTF-8.
pub open spec fn var_string_dec(s: Seq<u8>, i: int) -> Result<(Seq<char>, int), ProtocolError> {
    match var_bytes_dec(s, i) {
        Some((bs, j)) => if vstd::utf8::valid_utf8(bs) {
            Ok((vstd::utf8::decode_utf8(bs), j))
        } else {
            Err(ProtocolError::InvalidUtf8)
        },
        None => Err(ProtocolError::UnexpectedEof),
    }
}

/// Relies on String::from_utf8: `Ok` exactly on valid UTF-8, decoding the
/// bytes into their character sequence.
#[verifier::external_body]
fn string_from_utf8(bytes: Vec<u8>) -> (r: Option<String>)
    ensures
        r is Some <==> vstd::utf8::valid_utf8(bytes@),
        r is Some ==> r.unwrap()@ == vstd::utf8::decode_utf8(bytes@),
{
    String::from_utf8(bytes).ok()
}

/// Encode a variable-length string.
pub fn encode_var_string(s: &str, out: &mut Vec<u8>)
    ensures
        final(out)@ == old(out)@ + var_string_enc(s@),
{
    encode_var_bytes(s.as_bytes(), out);
}

/// Decode a variable-length string starting at `pos`.
pub fn decode_var_string(data: &[u8], pos: usize) -> (r: Result<(String, usize), ProtocolError>)
    ensures
        match var_string_dec(data@, pos as int) {
            Ok((cs, j)) => r matches Ok(p) && p.0@ == cs && p.1 == j,
            Err(e) => r matches Err(e2) && e2 == e,
        },
{
    let (bytes, j) = match decode_var_bytes(data, pos) {
        Ok(p) => p,
        Err(e) => {
            return Err(e);
        },
    };
    match string_from_utf8(bytes) {
        Some(s) => Ok((s, j)),
        None => Err(ProtocolError::InvalidUtf8),
    }
}

/// Round trip: decoding an encoded string yields the characters back.
pub proof fn lemma_var_string_round_trip(cs: Seq<char>, s: Seq<u8>, i: int)
    requires
        0 <= i,
        vstd::utf8::encode_utf8(cs).len() <= u64::MAX,
        i + var_string_enc(cs).len() <= s.len(),
        s.subrange(i, i + var_string_enc(cs).len() as int) == var_string_enc(cs),
    ensures
        var_string_dec(s, i) == Ok::<_, ProtocolError>((cs, i + var_string_enc(cs).len())),
{
    broadcast use vstd::utf8::encode_utf8_valid_utf8, vstd::utf8::encode_utf8_decode_utf8;

    lemma_var_bytes_round_trip(vstd::utf8::encode_utf8(cs), s, i);
}

/// Decoded WebSocket message.
#[derive(Debug, Clone)]
pub enum WsMessage {
    /// Sync step 1: client's state vector
    SyncStep1 { state_vector: Vec<u8> },
    /// Sync step 2: document state/updates for client
    SyncStep2 { update: Vec<u8> },
    /// Incremental update
    Update { update: Vec<u8> },
    /// Awareness update (not interpreted, forwarded verbatim)
    Awareness { data: Vec<u8> },
    /// Commit metadata (commonplace mode)
    CommitMeta { parent_cid: String, timestamp: u64, author: String, message: Option<String> },
    /// Blue port event (commonplace mode)
    BlueEvent { doc_id: String, commit_id: String, timestamp: u64 },
    /// Red port event (commonplace mode)
    RedEvent { event_type: String, payload: String },
}

/// Mathematical model of a decoded message: the same variants over
/// sequences instead of vectors and strings.
pub enum WsMessageModel {
    SyncStep1 { state_vector: Seq<u8> },
    SyncStep2 { update: Seq<u8> },
    Update { update: Seq<u8> },
    Awareness { data: Seq<u8> },
    CommitMeta {
        parent_cid: Seq<char>,
        timestamp: u64,
        author: Seq<char>,
        message: Option<Seq<char>>,
    },
    BlueEvent { doc_id: Seq<char>, commit_id: Seq<char>, timestamp: u64 },
    RedEvent { event_type: Seq<char>, payload: Seq<char> },
}

impl View for WsMessage {
    type V = WsMessageModel;

    open spec fn view(&self) -> WsMessageModel {
        match self {
            WsMessage::SyncStep1 { state_vector } => WsMessageModel::SyncStep1 {
                state_vector: state_vector@,
            },
            WsMessage::SyncStep2 { update } => WsMessageModel::SyncStep2 { update: update@ },
            WsMessage::Update { update } => WsMessageModel::Update { update: update@ },
            WsMessage::Awareness { data } => WsMessageModel::Awareness { data: data@ },
            WsMessage::CommitMeta { parent_cid, timestamp, author, message } => {
                WsMessageModel::CommitMeta {
                    parent_cid: parent_cid@,
                    timestamp: *timestamp,
                    author: author@,
                    message: match message {
                        Some(m) => Some(m@),
                        None => None,
                    },
                }
            },
            WsMessage::BlueEvent { doc_id, commit_id, timestamp } => WsMessageModel::BlueEvent {
                doc_id: doc_id@,
                commit_id: commit_id@,
                timestamp: *timestamp,
            },
            WsMessage::RedEvent { event_type, payload } => WsMessageModel::RedEvent {
                event_type: event_type@,
                payload: payload@,
            },
        }
    }
}

/// The exact wire bytes of a message.
pub open spec fn message_enc(m: WsMessageModel) -> Seq<u8> {
    match m {
        WsMessageModel::SyncStep1 { state_vector } => seq![0u8, 0u8] + var_bytes_enc(state_vector),
        WsMessageModel::SyncStep2 { update } => seq![0u8, 1u8] + var_bytes_enc(update),
        WsMessageModel::Update { update } => seq![0u8, 2u8] + var_bytes_enc(update),
        WsMessageModel::Awareness { data } => seq![1u8] + data,
        WsMessageModel::CommitMeta { parent_cid, timestamp, author, message } => seq![3u8]
            + var_string_enc(parent_cid) + var_uint_enc(timestamp as nat) + var_string_enc(author)
            + (match message {
            Some(msg) => var_string_enc(msg),
            None => Seq::<u8>::empty(),
        }),
        WsMessageModel::BlueEvent { doc_id, commit_id, timestamp } => seq![4u8] + var_string_enc(
            doc_id,
        ) + var_string_enc(commit_id) + var_uint_enc(timestamp as nat),
        WsMessageModel::RedEvent { event_type, payload } => seq![5u8] + var_string_enc(event_type)
            + var_string_enc(payload),
    }
}

/// Field lengths small enough that their length prefixes fit in a varuint.
pub open spec fn message_wf(m: WsMessageModel) -> bool {
    match m {
        WsMessageModel::SyncStep1 { state_vector } => state_vector.len() <= u64::MAX,
        WsMessageModel::SyncStep2 { update } => update.len() <= u64::MAX,
        WsMessageModel::Update { update } => update.len() <= u64::MAX,
        WsMessageModel::Awareness { data } => true,
        WsMessageModel::CommitMeta { parent_cid, timestamp, author, message } => {
            &&& vstd::utf8::encode_utf8(parent_cid).len() <= u64::MAX
            &&& vstd::utf8::encode_utf8(author).len() <= u64::MAX
            &&& (match message {
                Some(msg) => vstd::utf8::encode_utf8(msg).len() <= u64::MAX,
                None => true,
            })
        },
        WsMessageModel::BlueEvent { doc_id, commit_id, timestamp } => {
            &&& vstd::utf8::encode_utf8(doc_id).len() <= u64::MAX
            &&& vstd::utf8::encode_utf8(commit_id).len() <= u64::MAX
        },
        WsMessageModel::RedEvent { event_type, payload } => {
            &&& vstd::utf8::encode_utf8(event_type).len() <= u64::MAX
            &&& vstd::utf8::encode_utf8(payload).len() <= u64::MAX
        },
    }
}

/// The decoded commit-metadata message, reading fields after the type byte.
pub open spec fn commit_meta_dec(s: Seq<u8>) -> Result<WsMessageModel, ProtocolError> {
    match var_string_dec(s, 1) {
        Err(e) => Err(e),
        Ok((parent_cid, j1)) => match var_uint_dec(s, j1) {
            None => Err(ProtocolError::UnexpectedEof),
            Some((timestamp, j2)) => match var_string_dec(s, j2) {
                Err(e) => Err(e),
                Ok((author, j3)) => if j3 == s.len() {
                    Ok(
                        WsMessageModel::CommitMeta {
                            parent_cid,
                            timestamp,
                            author,
                            message: None,
                        },
                    )
                } else {
                    match var_string_dec(s, j3) {
                        Err(e) => Err(e),
                        Ok((msg, _)) => Ok(
                            WsMessageModel::CommitMeta {
                                parent_cid,
                                timestamp,
                                author,
                                message: Some(msg),
                            },
                        ),
                    }
                },
            },
        },
    }
}

/// The decoded blue-event message, reading fields after the type byte.
pub open spec fn blue_event_dec(s: Seq<u8>) -> Result<WsMessageModel, ProtocolError> {
    match var_string_dec(s, 1) {
        Err(e) => Err(e),
        Ok((doc_id, j1)) => match var_string_dec(s, j1) {
            Err(e) => Err(e),
            Ok((commit_id, j2)) => match var_uint_dec(s, j2) {
                None => Err(ProtocolError::UnexpectedEof),
                Some((timestamp, _)) => Ok(
                    WsMessageModel::BlueEvent { doc_id, commit_id, timestamp },
                ),
            },
        },
    }
}

/// The decoded red-event message, reading fields after the type byte.
pub open spec fn red_event_dec(s: Seq<u8>) -> Result<WsMessageModel, ProtocolError> {
    match var_string_dec(s, 1) {
        Err(e) => Err(e),
        Ok((event_type, j1)) => match var_string_dec(s, j1) {
            Err(e) => Err(e),
            Ok((payload, _)) => Ok(WsMessageModel::RedEvent { event_type, payload }),
        },
    }
}

/// The message a byte sequence decodes to, or the error that rejects it.
pub open spec fn message_dec(s: Seq<u8>) -> Result<WsMessageModel, ProtocolError> {
    if s.len() == 0 {
        Err(ProtocolError::UnexpectedEof)
    } else {
        match MessageType::spec_try_from(s[0]) {
            Err(e) => Err(e),
            Ok(MessageType::Sync) => if s.len() == 1 {
                Err(ProtocolError::UnexpectedEof)
            } else {
                match SyncMessageType::spec_try_from(s[1]) {
                    Err(e) => Err(e),
                    Ok(st) => match var_bytes_dec(s, 2) {
                        None => Err(ProtocolError::UnexpectedEof),
                        Some((payload, _)) => Ok(
                            match st {
                                SyncMessageType::SyncStep1 => WsMessageModel::SyncStep1 {
                                    state_vector: payload,
                                },
                                SyncMessageType::SyncStep2 => WsMessageModel::SyncStep2 {
                                    update: payload,
                                },
                                SyncMessageType::Update => WsMessageModel::Update {
                                    update: payload,
                                },
                            },
                        ),
                    },
                }
            },
            Ok(MessageType::Awareness) => Ok(
                WsMessageModel::Awareness { data: s.subrange(1, s.len() as int) },
            ),
            Ok(MessageType::CommitMeta) => commit_meta_dec(s),
            Ok(MessageType::BlueEvent) => blue_event_dec(s),
            Ok(MessageType::RedEvent) => red_event_dec(s),
        }
    }
}

/// Round trip: every well-formed message decodes from its own encoding,
/// for every variant and all field values.
#[verifier::rlimit(60)]
pub proof fn lemma_message_round_trip(m: WsMessageModel)
    requires
        message_wf(m),
    ensures
        message_dec(message_enc(m)) == Ok::<WsMessageModel, ProtocolError>(m),
{
    let s = message_enc(m);
    match m {
        WsMessageModel::SyncStep1 { state_vector } => {
            let e = var_bytes_enc(state_vector);
            assert(s =~= seq![0u8, 0u8] + e);
            assert(s.subrange(2, 2 + e.len() as int) =~= e);
            lemma_var_bytes_round_trip(state_vector, s, 2);
        },
        WsMessageModel::SyncStep2 { update } => {
            let e = var_bytes_enc(update);
            assert(s =~= seq![0u8, 1u8] + e);
            assert(s.subrange(2, 2 + e.len() as int) =~= e);
            lemma_var_bytes_round_trip(update, s, 2);
        },
        WsMessageModel::Update { update } => {
            let e = var_bytes_enc(update);
            assert(s =~= seq![0u8, 2u8] + e);
            assert(s.subrange(2, 2 + e.len() as int) =~= e);
            lemma_var_bytes_round_trip(update, s, 2);
        },
        WsMessageModel::Awareness { data } => {
            assert(s.subrange(1, s.len() as int) =~= data);
        },
        WsMessageModel::CommitMeta { parent_cid, timestamp, author, message } => {
            let e1 = var_string_enc(parent_cid);
            let e2 = var_uint_enc(timestamp as nat);
            let e3 = var_string_enc(author);
            let e4 = match message {
                Some(msg) => var_string_enc(msg),
                None => Seq::<u8>::empty(),
            };
            assert(s =~= seq![3u8] + e1 + e2 + e3 + e4);
            let i2 = 1 + e1.len() as int;
            let i3 = i2 + e2.len() as int;
            let i4 = i3 + e3.len() as int;
            assert(s.subrange(1, 1 + e1.len() as int) =~= e1);
            lemma_var_string_round_trip(parent_cid, s, 1);
            assert(s.subrange(i2, i2 + e2.len() as int) =~= e2);
            lemma_var_uint_round_trip(timestamp, s, i2);
            assert(s.subrange(i3, i3 + e3.len() as int) =~= e3);
            lemma_var_string_round_trip(author, s, i3);
            match message {
                None => {
                    assert(i4 == s.len());
                },
                Some(msg) => {
                    assert(e4.len() >= 1);
                    assert(i4 != s.len());
                    assert(s.subrange(i4, i4 + e4.len() as int) =~= e4);
                    lemma_var_string_round_trip(msg, s, i4);
                },
            }
        },
        WsMessageModel::BlueEvent { doc_id, commit_id, timestamp } => {
            let e1 = var_string_enc(doc_id);
            let e2 = var_string_enc(commit_id);
            let e3 = var_uint_enc(timestamp as nat);
            assert(s =~= seq![4u8] + e1 + e2 + e3);
            let i2 = 1 + e1.len() as int;
            let i3 = i2 + e2.len() as int;
            assert(s.subrange(1, 1 + e1.len() as int) =~= e1);
            lemma_var_string_round_trip(doc_id, s, 1);
            assert(s.subrange(i2, i2 + e2.len() as int) =~= e2);
            lemma_var_string_round_trip(commit_id, s, i2);
            assert(s.subrange(i3, i3 + e3.len() as int) =~= e3);
            lemma_var_uint_round_trip(timestamp, s, i3);
        },
        WsMessageModel::RedEvent { event_type, payload } => {
            let e1 = var_string_enc(event_type);
            let e2 = var_string_enc(payload);
            assert(s =~= seq![5u8] + e1 + e2);
            let i2 = 1 + e1.len() as int;
            assert(s.subrange(1, 1 + e1.len() as int) =~= e1);
            lemma_var_string_round_trip(event_type, s, 1);
            assert(s.subrange(i2, i2 + e2.len() as int) =~= e2);
            lemma_var_string_round_trip(payload, s, i2);
        },
    }
}

/// Encode a SyncStep1 message.
pub fn encode_sync_step1(state_vector: &[u8]) -> (r: Vec<u8>)
    ensures
        r@ == message_enc(WsMessageModel::SyncStep1 { state_vector: state_vector@ }),
{
    let mut out: Vec<u8> = Vec::new();
    out.push(0);
    out.push(0);
    encode_var_bytes(state_vector, &mut out);
    proof {
        assert(out@ =~= seq![0u8, 0u8] + var_bytes_enc(state_vector@));
    }
    out
}

/// Encode a SyncStep2 message.
pub fn encode_sync_step2(update: &[u8]) -> (r: Vec<u8>)
    ensures
        r@ == message_enc(WsMessageModel::SyncStep2 { update: update@ }),
{
    let mut out: Vec<u8> = Vec::new();
    out.push(0);
    out.push(1);
    encode_var_bytes(update, &mut out);
    proof {
        assert(out@ =~= seq![0u8, 1u8] + var_bytes_enc(update@));
    }
    out
}

/// Encode an Update message.
pub fn encode_update(update: &[u8]) -> (r: Vec<u8>)
    ensures
        r@ == message_enc(WsMessageModel::Update { update: update@ }),
{
    let mut out: Vec<u8> = Vec::new();
    out.push(0);
    out.push(2);
    encode_var_bytes(update, &mut out);
    proof {
        assert(out@ =~= seq![0u8, 2u8] + var_bytes_enc(update@));
    }
    out
}

/// Encode awareness data (for forwarding; the server does not generate these).
pub fn encode_awareness(data: &[u8]) -> (r: Vec<u8>)
    ensures
        r@ == message_enc(WsMessageModel::Awareness { data: data@ }),
{
    let mut out: Vec<u8> = Vec::new();
    out.push(1);
    out.extend_from_slice(data);
    proof {
        assert(out@ =~= seq![1u8] + data@);
    }
    out
}

/// Encode a BlueEvent message (commonplace mode).
pub fn encode_blue_event(doc_id: &str, commit_id: &str, timestamp: u64) -> (r: Vec<u8>)
    ensures
        r@ == message_enc(
            WsMessageModel::BlueEvent { doc_id: doc_id@, commit_id: commit_id@, timestamp },
        ),
{
    let mut out: Vec<u8> = Vec::new();
    out.push(4);
    encode_var_string(doc_id, &mut out);
    encode_var_string(commit_id, &mut out);
    encode_var_uint(timestamp, &mut out);
    proof {
        assert(out@ =~= seq![4u8] + var_string_enc(doc_id@) + var_string_enc(commit_id@)
            + var_uint_enc(timestamp as nat));
    }
    out
}

/// Encode a RedEvent message (commonplace mode).
pub fn encode_red_event(event_type: &str, payload: &str) -> (r: Vec<u8>)
    ensures
        r@ == message_enc(
            WsMessageModel::RedEvent { event_type: event_type@, payload: payload@ },
        ),
{
    let mut out: Vec<u8> = Vec::new();
    out.push(5);
    encode_var_string(event_type, &mut out);
    encode_var_string(payload, &mut out);
    proof {
        assert(out@ =~= seq![5u8] + var_string_enc(event_type@) + var_string_enc(payload@));
    }
    out
}

/// WebSocket subprotocol name for the standard Yjs sync protocol.
pub const SUBPROTOCOL_Y_WEBSOCKET: &'static str = "y-websocket";

/// WebSocket subprotocol name for the extended commonplace protocol.
pub const SUBPROTOCOL_COMMONPLACE: &'static str = "commonplace";

/// Negotiated protocol mode.
#[derive(Debug, Clone, Copy, PartialEq, Eq, Structural)]
pub enum ProtocolMode {
    /// Standard y-websocket (types 0-1 only)
    YWebSocket,
    /// Extended commonplace protocol (types 0, 3-5)
    Commonplace,
}

impl ProtocolMode {
    /// The subprotocol string each mode answers the handshake with.
    pub open spec fn spec_str(self) -> Seq<char> {
        match self {
            ProtocolMode::YWebSocket => "y-websocket"@,
            ProtocolMode::Commonplace => "commonplace"@,
        }
    }

    /// Get the subprotocol string for this mode.
    pub fn as_str(&self) -> (r: &'static str)
        ensures
            r@ == self.spec_str(),
    {
        match self {
            ProtocolMode::YWebSocket => SUBPROTOCOL_Y_WEBSOCKET,
            ProtocolMode::Commonplace => SUBPROTOCOL_COMMONPLACE,
        }
    }

    /// The mode a single offered subprotocol name selects, if it is supported.
    pub open spec fn spec_of_name(name: Seq<char>) -> Option<ProtocolMode> {
        if name == "y-websocket"@ {
            Some(ProtocolMode::YWebSocket)
        } else if name == "commonplace"@ {
            Some(ProtocolMode::Commonplace)
        } else {
            None
        }
    }

    /// The first supported name in an offered list, if any.
    pub open spec fn spec_select(offered: Seq<Seq<char>>) -> Option<ProtocolMode>
        decreases offered.len(),
    {
        if offered.len() == 0 {
            None
        } else {
            match ProtocolMode::spec_of_name(offered[0]) {
                Some(mode) => Some(mode),
                None => ProtocolMode::spec_select(offered.drop_first()),
            }
        }
    }

    /// Select the first supported subprotocol from the client's offer;
    /// an offer with no supported name is rejected with `None`.
    pub fn select_subprotocol(offered: &Vec<String>) -> (r: Option<ProtocolMode>)
        ensures
            r == ProtocolMode::spec_select(offered.deep_view()),
    {
        let ghost offer = offered.deep_view();
        proof {
            assert(offer.subrange(0, offer.len() as int) =~= offer);
        }
        let mut k: usize = 0;
        loop
            invariant
                offer == offered.deep_view(),
                k <= offered@.len(),
                ProtocolMode::spec_select(offer) == ProtocolMode::spec_select(
                    offer.subrange(k as int, offer.len() as int),
                ),
            decreases offered@.len() - k,
        {
            if k >= offered.len() {
                return None;
            }
            let name = &offered[k];
            let ghost rest = offer.subrange(k as int, offer.len() as int);
            proof {
                assert(rest[0] == offer[k as int]);
                assert(rest.drop_first() =~= offer.subrange(k as int + 1, offer.len() as int));
            }
            if crate::text::str_eq(name.as_str(), SUBPROTOCOL_Y_WEBSOCKET) {
                return Some(ProtocolMode::YWebSocket);
            }
            if crate::text::str_eq(name.as_str(), SUBPROTOCOL_COMMONPLACE) {
                return Some(ProtocolMode::Commonplace);
            }
            k = k + 1;
        }
    }
}

/// Decode a binary WebSocket message.
pub fn decode_message(data: &[u8]) -> (r: Result<WsMessage, ProtocolError>)
    ensures
        match message_dec(data@) {
            Ok(m) => r matches Ok(msg) && msg@ == m,
            Err(e) => r matches Err(e2) && e2 == e,
        },
{
    if data.len() == 0 {
        return Err(ProtocolError::UnexpectedEof);
    }
    let msg_type = match MessageType::try_from(*vstd::slice::slice_index_get(data, 0)) {
        Ok(t) => t,
        Err(e) => {
            return Err(e);
        },
    };
    match msg_type {
        MessageType::Sync => {
            if data.len() == 1 {
                return Err(ProtocolError::UnexpectedEof);
            }
            let sync_type = match SyncMessageType::try_from(
                *vstd::slice::slice_index_get(data, 1),
            ) {
                Ok(t) => t,
                Err(e) => {
                    return Err(e);
                },
            };
            let (payload, _) = match decode_var_bytes(data, 2) {
                Ok(p) => p,
                Err(e) => {
                    return Err(e);
                },
            };
            match sync_type {
                SyncMessageType::SyncStep1 => Ok(WsMessage::SyncStep1 { state_vector: payload }),
                SyncMessageType::SyncStep2 => Ok(WsMessage::SyncStep2 { update: payload }),
                SyncMessageType::Update => Ok(WsMessage::Update { update: payload }),
            }
        },
        MessageType::Awareness => {
            let rest = vstd::slice::slice_subrange(data, 1, data.len());
            Ok(WsMessage::Awareness { data: vstd::slice::slice_to_vec(rest) })
        },
        MessageType::CommitMeta => {
            let (parent_cid, j1) = match decode_var_string(data, 1) {
                Ok(p) => p,
                Err(e) => {
                    return Err(e);
                },
            };
            let (timestamp, j2) = match decode_var_uint(data, j1) {
                Ok(p) => p,
                Err(e) => {
                    return Err(e);
                },
            };
            let (author, j3) = match decode_var_string(data, j2) {
                Ok(p) => p,
                Err(e) => {
                    return Err(e);
                },
            };
            let message = if j3 == data.len() {
                None
            } else {
                match decode_var_string(data, j3) {
                    Ok(p) => Some(p.0),
                    Err(e) => {
                        return Err(e);
                    },
                }
            };
            Ok(WsMessage::CommitMeta { parent_cid, timestamp, author, message })
        },
        MessageType::BlueEvent => {
            let (doc_id, j1) = match decode_var_string(data, 1) {
                Ok(p) => p,
                Err(e) => {
                    return Err(e);
                },
            };
            let (commit_id, j2) = match decode_var_string(data, j1) {
                Ok(p) => p,
                Err(e) => {
                    return Err(e);
                },
            };
            let (timestamp, _) = match decode_var_uint(data, j2) {
                Ok(p) => p,
                Err(e) => {
                    return Err(e);
                },
            };
            Ok(WsMessage::BlueEvent { doc_id, commit_id, timestamp })
        },
        MessageType::RedEvent => {
            let (event_type, j1) = match decode_var_string(data, 1) {
                Ok(p) => p,
                Err(e) => {
                    return Err(e);
                },
            };
            let (payload, _) = match decode_var_string(data, j1) {
                Ok(p) => p,
                Err(e) => {
                    return Err(e);
                },
            };
            Ok(WsMessage::RedEvent { event_type, payload })
        },
    }
}

}
