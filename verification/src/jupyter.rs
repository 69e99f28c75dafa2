//! The Jupyter wire protocol: message headers, HMAC-SHA256 signatures, and
//! the multipart frames `ids.. <IDS|MSG> signature header parent metadata
//! content buffers..`.
//!
//! Frames are handled as raw bytes; the JSON documents inside the header,
//! parent, metadata and content frames are produced and read by the caller.
use vstd::prelude::*;

use hmac::{Hmac, KeyInit, Mac};
use sha2::Sha256;

use crate::chars::{owned, string_from};

verus! {

broadcast use vstd::string::group_string_axioms;

/// A Jupyter message header.
#[derive(Debug, Clone)]
pub struct Header {
    pub msg_id: String,
    pub username: String,
    pub session: String,
    pub date: String,
    pub msg_type: String,
    pub version: String,
}

/// Builds headers and signs, frames and checks messages of one session.
#[derive(Debug, Clone)]
pub struct MessageCodec {
    /// The HMAC key; an empty key disables signing.
    pub key: Vec<u8>,
    pub username: String,
    pub session_id: String,
}

/// The frames of a message as they travel, with the JSON documents still
/// encoded.
#[derive(Debug, Clone)]
pub struct MessageFrames {
    pub ids: Vec<Vec<u8>>,
    pub header: Vec<u8>,
    pub parent_header: Vec<u8>,
    pub metadata: Vec<u8>,
    pub content: Vec<u8>,
    pub buffers: Vec<Vec<u8>>,
}

/// Why a received message was refused.
#[derive(Debug, Clone, Copy, PartialEq, Eq, Structural)]
pub enum CodecError {
    /// No frame is the `<IDS|MSG>` delimiter.
    MissingDelimiter,
    /// Fewer than four frames follow the delimiter.
    MissingHeaderFrames,
    /// The signature frame is not UTF-8.
    SignatureNotUtf8,
    /// The signature does not match the message.
    InvalidSignature,
}

/// HMAC-SHA256 of `message` under `key`.
pub uninterp spec fn hmac_sha256(key: Seq<u8>, message: Seq<u8>) -> Seq<u8>;

/// `Hmac::<Sha256>::new_from_slice`, one `update` with `message`, then
/// `finalize().into_bytes()`: the HMAC-SHA256 tag, 32 bytes long.
/// `new_from_slice` accepts a key of any length for this type (the crate's
/// `KeyInit` implementation always returns `Ok`).
#[verifier::external_body]
fn hmac_tag(key: &[u8], message: &[u8]) -> (r: Vec<u8>)
    ensures
        r@ == hmac_sha256(key@, message@),
        r@.len() == 32,
{
    let mut mac = Hmac::<Sha256>::new_from_slice(key).expect("HMAC accepts keys of any length");
    mac.update(message);
    mac.finalize().into_bytes().to_vec()
}

/// `std::str::from_utf8(bytes).is_ok()`: whether the bytes are well-formed
/// UTF-8, as vstd defines it.
#[verifier::external_body]
fn utf8_ok(bytes: &[u8]) -> (r: bool)
    ensures
        r == vstd::utf8::valid_utf8(bytes@),
{
    std::str::from_utf8(bytes).is_ok()
}

/// A new random version-4 UUID in its hyphenated lowercase form.
pub open spec fn uuid_shaped(s: Seq<char>) -> bool {
    &&& s.len() == 36
    &&& forall|i: int|
        0 <= i < 36 ==> if i == 8 || i == 13 || i == 18 || i == 23 {
            s[i] == '-'
        } else {
            ('0' <= s[i] <= '9') || ('a' <= s[i] <= 'f')
        }
    &&& s[14] == '4'
    &&& (s[19] == '8' || s[19] == '9' || s[19] == 'a' || s[19] == 'b')
}

/// `Uuid::new_v4().to_string()`: random, so only its shape is stated (36
/// characters, hyphens after the 8th, 12th, 16th and 20th hex digit,
/// lowercase hex digits elsewhere, the version digit `4` and the variant
/// digit `8`, `9`, `a` or `b`, which `new_v4` sets by masking).
#[verifier::external_body]
fn new_uuid_string() -> (r: String)
    ensures
        uuid_shaped(r@),
{
    uuid::Uuid::new_v4().to_string()
}

/// An RFC 3339 time in UTC as chrono writes it: at least a four-digit year,
/// `-MM-DDTHH:MM:SS`, and the offset `+00:00` at the end.
pub open spec fn utc_rfc3339_shaped(s: Seq<char>) -> bool {
    &&& s.len() >= 25
    &&& s.subrange(s.len() - 6, s.len() as int) == "+00:00"@
}

/// `chrono::Utc::now().to_rfc3339()`: the current time. Which time is not
/// stated; every outcome ends in the zero offset `+00:00` (`write_rfc3339`
/// with `use_z` false writes the offset as `+HH:MM`) after at least a
/// four-digit year and `-MM-DDTHH:MM:SS`.
#[verifier::external_body]
fn now_rfc3339() -> (r: String)
    ensures
        utc_rfc3339_shaped(r@),
{
    chrono::Utc::now().to_rfc3339()
}

/// The Jupyter protocol version this frontend speaks.
pub open spec fn protocol_version() -> Seq<char> {
    "5.3"@
}

/// The delimiter frame `<IDS|MSG>` between routing ids and the message.
pub open spec fn delimiter() -> Seq<u8> {
    seq![60u8, 73u8, 68u8, 83u8, 124u8, 77u8, 83u8, 71u8, 62u8]
}

/// The delimiter frame.
pub fn delimiter_frame() -> (r: Vec<u8>)
    ensures
        r@ == delimiter(),
{
    let r: Vec<u8> = vec![60u8, 73u8, 68u8, 83u8, 124u8, 77u8, 83u8, 71u8, 62u8];
    assert(r@ =~= delimiter());
    r
}

/// The ASCII code of a lowercase hex digit `n < 16`.
pub open spec fn hex_digit(n: nat) -> u8 {
    if n < 10 { (48 + n) as u8 } else { (87 + n) as u8 }
}

/// Each byte as two lowercase hex digits (ASCII codes).
pub open spec fn hex_encode(b: Seq<u8>) -> Seq<u8>
    decreases b.len(),
{
    if b.len() == 0 {
        Seq::empty()
    } else {
        hex_encode(b.drop_last()) + seq![
            hex_digit((b.last() / 16) as nat),
            hex_digit((b.last() % 16) as nat),
        ]
    }
}

/// The frames joined into one byte sequence.
pub open spec fn concat(parts: Seq<Seq<u8>>) -> Seq<u8>
    decreases parts.len(),
{
    if parts.len() == 0 {
        Seq::empty()
    } else {
        concat(parts.drop_last()) + parts.last()
    }
}

/// The byte contents of a list of frames.
pub open spec fn frames_of(v: Seq<Vec<u8>>) -> Seq<Seq<u8>> {
    v.map_values(|f: Vec<u8>| f@)
}

/// The signature of the given frames under `key`: empty for an empty key,
/// else the hex HMAC-SHA256 of the frames joined.
pub open spec fn signature(key: Seq<u8>, parts: Seq<Seq<u8>>) -> Seq<u8> {
    if key.len() == 0 {
        Seq::empty()
    } else {
        hex_encode(hmac_sha256(key, concat(parts)))
    }
}

/// The position of the first delimiter frame, or -1.
pub open spec fn delimiter_index(frames: Seq<Seq<u8>>) -> int
    decreases frames.len(),
{
    if frames.len() == 0 {
        -1
    } else {
        let p = delimiter_index(frames.drop_last());
        if p >= 0 {
            p
        } else if frames.last() == delimiter() {
            frames.len() - 1
        } else {
            -1
        }
    }
}

pub proof fn lemma_delimiter_index(frames: Seq<Seq<u8>>)
    ensures
        -1 <= delimiter_index(frames) < frames.len(),
        delimiter_index(frames) >= 0 ==> frames[delimiter_index(frames)] == delimiter(),
        forall|j: int|
            0 <= j < frames.len() && (delimiter_index(frames) < 0 || j < delimiter_index(frames))
                ==> frames[j] != delimiter(),
    decreases frames.len(),
{
    if frames.len() > 0 {
        let init = frames.drop_last();
        lemma_delimiter_index(init);
        assert forall|j: int| 0 <= j < init.len() implies frames[j] == init[j] by {}
    }
}

/// The header, parent, metadata and content frames after delimiter `d`.
pub open spec fn signed_parts(frames: Seq<Seq<u8>>, d: int) -> Seq<Seq<u8>> {
    seq![frames[d + 2], frames[d + 3], frames[d + 4], frames[d + 5]]
}

/// Whether a frame list is one that decoding would index past its end:
/// a delimiter followed by exactly four frames.
pub open spec fn decode_overruns(frames: Seq<Seq<u8>>) -> bool {
    delimiter_index(frames) >= 0 && frames.len() == delimiter_index(frames) + 5
}

/// What decoding a frame list gives: the error, or the parts of the message.
pub open spec fn decode_spec(key: Seq<u8>, frames: Seq<Seq<u8>>) -> Result<
    (Seq<Seq<u8>>, Seq<Seq<u8>>, Seq<Seq<u8>>),
    CodecError,
> {
    let d = delimiter_index(frames);
    if d < 0 {
        Err(CodecError::MissingDelimiter)
    } else if frames.len() < d + 5 {
        Err(CodecError::MissingHeaderFrames)
    } else if key.len() != 0 && !vstd::utf8::valid_utf8(frames[d + 1]) {
        Err(CodecError::SignatureNotUtf8)
    } else if key.len() != 0 && frames[d + 1] != signature(key, signed_parts(frames, d)) {
        Err(CodecError::InvalidSignature)
    } else {
        Ok((frames.take(d), signed_parts(frames, d), frames.skip(d + 6)))
    }
}

fn copy_bytes(v: &[u8]) -> (r: Vec<u8>)
    ensures
        r@ == v@,
{
    let mut r: Vec<u8> = Vec::new();
    let mut i: usize = 0;
    while i < v.len()
        invariant
            i <= v.len(),
            r@ == v@.take(i as int),
        decreases v.len() - i,
    {
        r.push(v[i]);
        i += 1;
        assert(v@.take(i as int) == v@.take(i - 1).push(v@[i - 1]));
    }
    assert(v@.take(v.len() as int) =~= v@);
    r
}

fn push_frames(dst: &mut Vec<Vec<u8>>, src: &[Vec<u8>], from: usize, to: usize)
    requires
        from <= to <= src.len(),
    ensures
        frames_of(final(dst)@) == frames_of(old(dst)@) + frames_of(src@).subrange(from as int, to as int),
{
    let mut i = from;
    while i < to
        invariant
            from <= i <= to <= src.len(),
            frames_of(dst@) == frames_of(old(dst)@) + frames_of(src@).subrange(from as int, i as int),
        decreases to - i,
    {
        let ghost before = frames_of(dst@);
        dst.push(copy_bytes(src[i].as_slice()));
        assert(frames_of(dst@) =~= before.push(src@[i as int]@));
        assert(frames_of(src@).subrange(from as int, i + 1) =~= frames_of(src@).subrange(
            from as int,
            i as int,
        ).push(src@[i as int]@));
        i += 1;
    }
}

fn hex_of(b: &[u8]) -> (r: Vec<u8>)
    ensures
        r@ == hex_encode(b@),
{
    let mut r: Vec<u8> = Vec::new();
    let mut i: usize = 0;
    while i < b.len()
        invariant
            i <= b.len(),
            r@ == hex_encode(b@.take(i as int)),
        decreases b.len() - i,
    {
        let hi = b[i] / 16;
        let lo = b[i] % 16;
        let h: u8 = if hi < 10 { 48 + hi } else { 87 + hi };
        let l: u8 = if lo < 10 { 48 + lo } else { 87 + lo };
        r.push(h);
        r.push(l);
        assert(b@.take(i + 1).drop_last() =~= b@.take(i as int));
        i += 1;
    }
    assert(b@.take(b.len() as int) =~= b@);
    r
}

fn concat_frames(parts: &[Vec<u8>]) -> (r: Vec<u8>)
    ensures
        r@ == concat(frames_of(parts@)),
{
    let mut r: Vec<u8> = Vec::new();
    let mut i: usize = 0;
    while i < parts.len()
        invariant
            i <= parts.len(),
            r@ == concat(frames_of(parts@).take(i as int)),
        decreases parts.len() - i,
    {
        let mut j: usize = 0;
        let ghost start = r@;
        let p = &parts[i];
        while j < p.len()
            invariant
                j <= p.len(),
                r@ == start + p@.take(j as int),
            decreases p.len() - j,
        {
            r.push(p[j]);
            j += 1;
            assert(p@.take(j as int) =~= p@.take(j - 1).push(p@[j - 1]));
        }
        assert(p@.take(p.len() as int) =~= p@);
        assert(frames_of(parts@).take(i + 1).drop_last() =~= frames_of(parts@).take(i as int));
        i += 1;
    }
    assert(frames_of(parts@).take(parts.len() as int) =~= frames_of(parts@));
    r
}

fn bytes_eq(a: &[u8], b: &[u8]) -> (r: bool)
    ensures
        r == (a@ == b@),
{
    if a.len() != b.len() {
        return false;
    }
    let mut i: usize = 0;
    while i < a.len()
        invariant
            a.len() == b.len(),
            i <= a.len(),
            forall|j: int| 0 <= j < i ==> a@[j] == b@[j],
        decreases a.len() - i,
    {
        if a[i] != b[i] {
            return false;
        }
        i += 1;
    }
    assert(a@ =~= b@);
    true
}

impl MessageCodec {
    /// A codec for a new session; `username` is the user's login name where
    /// known (else `fpy`), and the session id is a fresh UUID.
    pub fn new(key: String, username: Option<String>) -> (r: Self)
        ensures
            r.key@ == vstd::utf8::encode_utf8(key@),
            r.username@ == match username { Some(u) => u@, None => "fpy"@ },
            uuid_shaped(r.session_id@),
    {
        let key_bytes = copy_bytes(key.as_str().as_bytes());
        let username = match username {
            Some(u) => u,
            None => owned("fpy"),
        };
        MessageCodec { key: key_bytes, username, session_id: new_uuid_string() }
    }

    /// The signature of the four signed frames: empty where the key is
    /// empty, else the HMAC-SHA256 of the frames joined, as lowercase hex.
    pub fn sign(&self, parts: &[Vec<u8>]) -> (r: Vec<u8>)
        ensures
            r@ == signature(self.key@, frames_of(parts@)),
    {
        if self.key.len() == 0 {
            return Vec::new();
        }
        let message = concat_frames(parts);
        let tag = hmac_tag(self.key.as_slice(), message.as_slice());
        hex_of(tag.as_slice())
    }

    /// A header for a new message of this session: a fresh id, the current
    /// time, and protocol version 5.3.
    pub fn header(&self, msg_type: &str) -> (r: Header)
        ensures
            uuid_shaped(r.msg_id@),
            r.username@ == self.username@,
            r.session@ == self.session_id@,
            r.msg_type@ == msg_type@,
            r.version@ == protocol_version(),
            utc_rfc3339_shaped(r.date@),
    {
        Header {
            msg_id: new_uuid_string(),
            username: self.username.clone(),
            session: self.session_id.clone(),
            date: now_rfc3339(),
            msg_type: owned(msg_type),
            version: owned("5.3"),
        }
    }

    /// The frames of a message: routing ids, the delimiter, the signature of
    /// the four encoded documents, the documents, then the buffers.
    pub fn encode_frames(&self, message: &MessageFrames) -> (r: Vec<Vec<u8>>)
        ensures
            frames_of(r@) == frames_of(message.ids@) + seq![
                delimiter(),
                signature(
                    self.key@,
                    seq![message.header@, message.parent_header@, message.metadata@, message.content@],
                ),
                message.header@,
                message.parent_header@,
                message.metadata@,
                message.content@,
            ] + frames_of(message.buffers@),
    {
        let mut parts: Vec<Vec<u8>> = Vec::new();
        parts.push(copy_bytes(message.header.as_slice()));
        parts.push(copy_bytes(message.parent_header.as_slice()));
        parts.push(copy_bytes(message.metadata.as_slice()));
        parts.push(copy_bytes(message.content.as_slice()));
        let ghost docs = seq![message.header@, message.parent_header@, message.metadata@, message.content@];
        assert(frames_of(parts@) =~= docs);
        let sig = self.sign(parts.as_slice());
        let mut frames: Vec<Vec<u8>> = Vec::new();
        push_frames(&mut frames, message.ids.as_slice(), 0, message.ids.len());
        assert(frames_of(message.ids@).subrange(0, message.ids.len() as int) =~= frames_of(message.ids@));
        let ghost ids = frames_of(frames@);
        frames.push(delimiter_frame());
        frames.push(sig);
        frames.push(copy_bytes(message.header.as_slice()));
        frames.push(copy_bytes(message.parent_header.as_slice()));
        frames.push(copy_bytes(message.metadata.as_slice()));
        frames.push(copy_bytes(message.content.as_slice()));
        let ghost mid = frames_of(frames@);
        assert(mid =~= ids + seq![
            delimiter(),
            signature(self.key@, docs),
            message.header@,
            message.parent_header@,
            message.metadata@,
            message.content@,
        ]);
        push_frames(&mut frames, message.buffers.as_slice(), 0, message.buffers.len());
        assert(frames_of(message.buffers@).subrange(0, message.buffers.len() as int) =~= frames_of(
            message.buffers@,
        ));
        frames
    }

    /// Splits and checks a received frame list: finds the delimiter, checks
    /// that the four documents follow it, and (with a non-empty key) that
    /// the signature frame is the signature of those documents.
    pub fn decode_frames(&self, frames: &Vec<Vec<u8>>) -> (r: Result<MessageFrames, CodecError>)
        requires
            !decode_overruns(frames_of(frames@)),
        ensures
            match (r, decode_spec(self.key@, frames_of(frames@))) {
                (Ok(m), Ok((ids, docs, buffers))) => {
                    &&& frames_of(m.ids@) == ids
                    &&& seq![m.header@, m.parent_header@, m.metadata@, m.content@] == docs
                    &&& frames_of(m.buffers@) == buffers
                },
                (Err(e), Err(f)) => e == f,
                _ => false,
            },
    {
        let ghost fs = frames_of(frames@);
        let d = match find_delimiter(frames) {
            Some(d) => d,
            None => {
                return Err(CodecError::MissingDelimiter);
            },
        };
        if frames.len() - d < 5 {
            return Err(CodecError::MissingHeaderFrames);
        }
        let mut parts: Vec<Vec<u8>> = Vec::new();
        push_frames(&mut parts, frames.as_slice(), d + 2, d + 6);
        assert(frames_of(parts@) =~= signed_parts(fs, d as int));
        if self.key.len() != 0 {
            let sig = &frames[d + 1];
            if !utf8_ok(sig.as_slice()) {
                return Err(CodecError::SignatureNotUtf8);
            }
            let expected = self.sign(parts.as_slice());
            if !bytes_eq(sig.as_slice(), expected.as_slice()) {
                return Err(CodecError::InvalidSignature);
            }
        }
        let mut ids: Vec<Vec<u8>> = Vec::new();
        push_frames(&mut ids, frames.as_slice(), 0, d);
        assert(fs.subrange(0, d as int) =~= fs.take(d as int));
        let mut buffers: Vec<Vec<u8>> = Vec::new();
        push_frames(&mut buffers, frames.as_slice(), d + 6, frames.len());
        assert(fs.subrange(d + 6, frames.len() as int) =~= fs.skip(d + 6));
        Ok(MessageFrames {
            ids,
            header: copy_bytes(frames[d + 2].as_slice()),
            parent_header: copy_bytes(frames[d + 3].as_slice()),
            metadata: copy_bytes(frames[d + 4].as_slice()),
            content: copy_bytes(frames[d + 5].as_slice()),
            buffers,
        })
    }
}

/// Whether `decode_frames` would index past the end of `frames` (a
/// delimiter followed by exactly four frames): such input is refused
/// before decoding.
pub fn decode_would_overrun(frames: &Vec<Vec<u8>>) -> (r: bool)
    ensures
        r == decode_overruns(frames_of(frames@)),
{
    match find_delimiter(frames) {
        Some(d) => frames.len() - d == 5,
        None => false,
    }
}

fn find_delimiter(frames: &Vec<Vec<u8>>) -> (r: Option<usize>)
    ensures
        match r {
            Some(d) => d < frames.len() && delimiter_index(frames_of(frames@)) == d,
            None => delimiter_index(frames_of(frames@)) == -1,
        },
{
    let ghost fs = frames_of(frames@);
    let delim = delimiter_frame();
    let mut d: usize = 0;
    while d < frames.len()
        invariant
            d <= frames.len(),
            fs == frames_of(frames@),
            delim@ == delimiter(),
            delimiter_index(fs.take(d as int)) == -1,
        decreases frames.len() - d,
    {
        assert(fs.take(d + 1).drop_last() =~= fs.take(d as int));
        if bytes_eq(frames[d].as_slice(), delim.as_slice()) {
            proof {
                lemma_prefix_delimiter(fs, d as int);
            }
            return Some(d);
        }
        d += 1;
    }
    assert(fs.take(frames.len() as int) =~= fs);
    None
}

proof fn lemma_prefix_delimiter(fs: Seq<Seq<u8>>, d: int)
    requires
        0 <= d < fs.len(),
        delimiter_index(fs.take(d)) == -1,
        fs[d] == delimiter(),
    ensures
        delimiter_index(fs) == d,
    decreases fs.len(),
{
    assert(fs.take(d + 1).drop_last() =~= fs.take(d));
    if fs.len() > d + 1 {
        assert(fs.drop_last().take(d) =~= fs.take(d));
        lemma_prefix_delimiter(fs.drop_last(), d);
    } else {
        assert(fs.take(d + 1) =~= fs);
    }
}

proof fn lemma_no_delimiter(fs: Seq<Seq<u8>>)
    requires
        forall|j: int| 0 <= j < fs.len() ==> fs[j] != delimiter(),
    ensures
        delimiter_index(fs) == -1,
    decreases fs.len(),
{
    if fs.len() > 0 {
        let init = fs.drop_last();
        assert forall|j: int| 0 <= j < init.len() implies init[j] != delimiter() by {
            assert(init[j] == fs[j]);
        }
        lemma_no_delimiter(init);
        assert(fs.last() == fs[fs.len() - 1]);
    }
}

proof fn lemma_hex_ascii(b: Seq<u8>)
    ensures
        hex_encode(b).len() == 2 * b.len(),
        forall|i: int| 0 <= i < hex_encode(b).len() ==> hex_encode(b)[i] < 128,
    decreases b.len(),
{
    if b.len() > 0 {
        lemma_hex_ascii(b.drop_last());
        let prev = hex_encode(b.drop_last());
        let tail = seq![hex_digit((b.last() / 16) as nat), hex_digit((b.last() % 16) as nat)];
        assert forall|i: int| 0 <= i < hex_encode(b).len() implies hex_encode(b)[i] < 128 by {
            if i < prev.len() {
                assert(hex_encode(b)[i] == prev[i]);
            } else {
                assert(hex_encode(b)[i] == tail[i - prev.len()]);
            }
        }
    }
}

proof fn lemma_ascii_valid_utf8(bytes: Seq<u8>)
    requires
        forall|i: int| 0 <= i < bytes.len() ==> bytes[i] < 128,
    ensures
        vstd::utf8::valid_utf8(bytes),
{
    let chars = Seq::new(bytes.len(), |i: int| bytes[i] as char);
    assert(vstd::utf8::is_ascii_chars(chars));
    vstd::utf8::is_ascii_chars_encode_utf8(chars);
    assert(vstd::utf8::encode_utf8(chars) =~= bytes);
    vstd::utf8::encode_utf8_valid_utf8(chars);
}

/// Decoding the frames that encoding produced gives back the routing ids,
/// the four documents and the buffers, whatever the key, provided no routing
/// id is itself the delimiter frame.
pub proof fn law_frames_round_trip(
    key: Seq<u8>,
    ids: Seq<Seq<u8>>,
    header: Seq<u8>,
    parent: Seq<u8>,
    metadata: Seq<u8>,
    content: Seq<u8>,
    buffers: Seq<Seq<u8>>,
)
    requires
        forall|i: int| 0 <= i < ids.len() ==> ids[i] != delimiter(),
    ensures
        ({
            let frames = ids + seq![
                delimiter(),
                signature(key, seq![header, parent, metadata, content]),
                header,
                parent,
                metadata,
                content,
            ] + buffers;
            &&& !decode_overruns(frames)
            &&& decode_spec(key, frames) == Ok::<_, CodecError>(
                (ids, seq![header, parent, metadata, content], buffers),
            )
        }),
{
    let docs = seq![header, parent, metadata, content];
    let sig = signature(key, docs);
    let frames = ids + seq![delimiter(), sig, header, parent, metadata, content] + buffers;
    let d = ids.len() as int;
    assert(frames.take(d) =~= ids);
    lemma_no_delimiter(ids);
    assert(frames[d] == delimiter());
    lemma_prefix_delimiter(frames, d);
    assert(signed_parts(frames, d) =~= docs);
    assert(frames[d + 1] == sig);
    if key.len() != 0 {
        lemma_hex_ascii(hmac_sha256(key, concat(docs)));
        lemma_ascii_valid_utf8(sig);
    }
    assert(frames.skip(d + 6) =~= buffers);
}

/// With a key, a message whose signature frame is not the signature of its
/// four documents (a forged signature, or documents changed after signing)
/// is refused as wrongly signed; without a key the signature frame is not
/// looked at and the message is taken as it is.
pub proof fn law_forged_signature_is_refused(
    key: Seq<u8>,
    ids: Seq<Seq<u8>>,
    header: Seq<u8>,
    parent: Seq<u8>,
    metadata: Seq<u8>,
    content: Seq<u8>,
    buffers: Seq<Seq<u8>>,
    sig: Seq<u8>,
)
    requires
        forall|i: int| 0 <= i < ids.len() ==> ids[i] != delimiter(),
    ensures
        ({
            let docs = seq![header, parent, metadata, content];
            let frames = ids + seq![delimiter(), sig, header, parent, metadata, content] + buffers;
            &&& key.len() != 0 && vstd::utf8::valid_utf8(sig) && sig != signature(key, docs)
                ==> decode_spec(key, frames) == Err::<(Seq<Seq<u8>>, Seq<Seq<u8>>, Seq<Seq<u8>>), CodecError>(
                CodecError::InvalidSignature,
            )
            &&& key.len() != 0 && !vstd::utf8::valid_utf8(sig) ==> decode_spec(key, frames) == Err::<
                (Seq<Seq<u8>>, Seq<Seq<u8>>, Seq<Seq<u8>>),
                CodecError,
            >(CodecError::SignatureNotUtf8)
            &&& key.len() == 0 ==> decode_spec(key, frames) == Ok::<_, CodecError>((ids, docs, buffers))
        }),
{
    let docs = seq![header, parent, metadata, content];
    let frames = ids + seq![delimiter(), sig, header, parent, metadata, content] + buffers;
    let d = ids.len() as int;
    assert(frames.take(d) =~= ids);
    lemma_no_delimiter(ids);
    assert(frames[d] == delimiter());
    lemma_prefix_delimiter(frames, d);
    assert(signed_parts(frames, d) =~= docs);
    assert(frames[d + 1] == sig);
    assert(frames.skip(d + 6) =~= buffers);
}

/// A frame list without the delimiter frame is refused as such, and one
/// with fewer than four frames after the delimiter's signature is refused
/// as missing its documents.
pub proof fn law_malformed_frames_are_refused(key: Seq<u8>, frames: Seq<Seq<u8>>)
    ensures
        (forall|i: int| 0 <= i < frames.len() ==> frames[i] != delimiter()) ==> decode_spec(key, frames)
            == Err::<(Seq<Seq<u8>>, Seq<Seq<u8>>, Seq<Seq<u8>>), CodecError>(CodecError::MissingDelimiter),
        delimiter_index(frames) >= 0 && frames.len() < delimiter_index(frames) + 5 ==> decode_spec(key, frames)
            == Err::<(Seq<Seq<u8>>, Seq<Seq<u8>>, Seq<Seq<u8>>), CodecError>(CodecError::MissingHeaderFrames),
{
    if forall|i: int| 0 <= i < frames.len() ==> frames[i] != delimiter() {
        lemma_no_delimiter(frames);
    }
}

} // verus!
