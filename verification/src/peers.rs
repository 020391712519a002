//! Talking to another copy of Vapor on the same network: what a request may
//! ask, what it is answered, and how an answer is shown to have come from the
//! device that was paired with.
//!
//! The sockets live in the shell; everything that decides lives here.
//!
//! An unpaired peer may ask to pair and nothing else: every other request is
//! refused by one check, [`authorise`], before anything is looked up. What is
//! served is only a track the library holds, found by its href, never a path
//! taken from the request.
//!
//! A served chunk carries an HMAC-SHA256 over the chunk and the exact question
//! it answers, under the key that pairing derived, and [`accept_bytes`] is the
//! only way such a reply is read.

use vstd::prelude::*;

use base64::Engine;
use hkdf::Hkdf;
use hmac::{Hmac, Mac};
use sha2::Sha256;
use x25519_dalek::{PublicKey, StaticSecret};

use vstd::string::{StrSliceExecFns, StringExecFns, StringSliceAdditionalSpecFns};

use vstd::utf8::encode_utf8;

use crate::clock::{part_second_nanos, since_epoch, wall_clock};
use crate::text::{chars_eq, chars_of, dec, dec_chars, string_of};

verus! {

broadcast use vstd::string::group_string_axioms;

/// The UDP port adverts go out on.
pub const DISCOVERY_PORT: u16 = 7676;

/// The TCP port the sync server listens on.
pub const SYNC_PORT: u16 = 7677;

/// The largest request line accepted: a request names one track.
pub const MAX_REQUEST: u64 = 65536;

/// The largest reply line accepted: a reply can be a whole manifest.
pub const MAX_REPLY: u64 = 33554432;

/// The largest chunk body believed: eight times what a fetch asks for.
pub const MAX_BODY: u64 = 8388608;

/// Salt for the pairing key derivation, and the version of the exchange.
pub const PAIR_SALT: &'static str = "vapor-sync/pair/v1";

/// Domain separator for the transfer MAC.
pub const TRANSFER_LABEL: &'static str = "vapor-sync/bytes/v1";

// ---------------------------------------------------------------------------
// The outside primitives
// ---------------------------------------------------------------------------

/// The standard base64 alphabet, padded, that `base64`'s `STANDARD` engine
/// writes for `bytes`.
pub uninterp spec fn base64_text(bytes: Seq<u8>) -> Seq<char>;

/// What `base64`'s `STANDARD` engine reads `text` as; `None` when it is not
/// base64.
pub uninterp spec fn base64_decoded(text: Seq<char>) -> Option<Seq<u8>>;

/// HMAC-SHA256 of `message` under `key`.
pub uninterp spec fn hmac_tag(key: Seq<u8>, message: Seq<u8>) -> Seq<u8>;

/// The X25519 public key of the secret scalar `secret`.
pub uninterp spec fn x25519_public(secret: Seq<u8>) -> Seq<u8>;

/// The X25519 shared point of the secret `secret` and the peer's public key.
pub uninterp spec fn x25519_shared(secret: Seq<u8>, public: Seq<u8>) -> Seq<u8>;

/// Whether that exchange was contributory, as `SharedSecret::was_contributory`
/// judges it.
pub uninterp spec fn x25519_contributory(secret: Seq<u8>, public: Seq<u8>) -> bool;

/// The 32 bytes HKDF-SHA256 derives from `ikm` under `salt` and `info`.
pub uninterp spec fn hkdf_sha256(salt: Seq<u8>, ikm: Seq<u8>, info: Seq<u8>) -> Seq<u8>;

/// `base64::engine::general_purpose::STANDARD.encode`.
///
/// Claims the text is the encoding of `bytes`, and that the same engine reads
/// it back as `bytes`, which is what an encoding is for.
#[verifier::external_body]
fn base64_encode(bytes: &[u8]) -> (r: String)
    ensures
        r@ == base64_text(bytes@),
        base64_decoded(r@) == Some(bytes@),
{
    base64::engine::general_purpose::STANDARD.encode(bytes)
}

/// `base64::engine::general_purpose::STANDARD.decode`, `None` on its error.
///
/// Also claims that an empty text decodes to no bytes.
#[verifier::external_body]
fn base64_decode(text: &str) -> (r: Option<Vec<u8>>)
    ensures
        match r {
            Some(b) => base64_decoded(text@) == Some(b@),
            None => base64_decoded(text@) is None,
        },
        text@.len() == 0 ==> r is Some && r.unwrap()@.len() == 0,
{
    base64::engine::general_purpose::STANDARD.decode(text.as_bytes()).ok()
}

/// `Hmac::<Sha256>::new_from_slice`, `update` and `finalize`.
///
/// HMAC takes a key of any length, so `new_from_slice` does not fail here.
#[verifier::external_body]
fn hmac_sha256(key: &[u8; 32], message: &[u8]) -> (r: [u8; 32])
    ensures
        r@ == hmac_tag(key@, message@),
{
    let mut mac = <Hmac<Sha256> as Mac>::new_from_slice(key).expect("HMAC takes a key of any length");
    mac.update(message);
    mac.finalize().into_bytes().into()
}

/// `Mac::verify_slice` on HMAC-SHA256 of `message` under `key`.
///
/// The crate compares in constant time and refuses a tag of any other
/// length, so the answer is whether `tag` is exactly the MAC.
#[verifier::external_body]
fn hmac_verify(key: &[u8; 32], message: &[u8], tag: &[u8]) -> (r: bool)
    ensures
        r == (tag@ == hmac_tag(key@, message@)),
        tag@.len() != 32 ==> !r,
{
    let mut mac = <Hmac<Sha256> as Mac>::new_from_slice(key).expect("HMAC takes a key of any length");
    mac.update(message);
    mac.verify_slice(tag).is_ok()
}

/// `PublicKey::from(&StaticSecret::from(secret))`.
#[verifier::external_body]
fn x25519_public_of(secret: &[u8; 32]) -> (r: [u8; 32])
    ensures
        r@ == x25519_public(secret@),
{
    PublicKey::from(&StaticSecret::from(*secret)).to_bytes()
}

/// `StaticSecret::diffie_hellman` with the peer's public key: the shared
/// point, and `SharedSecret::was_contributory` of it.
///
/// Also claims the agreement X25519 is for: when `theirs` is the public key
/// of some 32-byte secret `other`, the point (and whether it was
/// contributory) is what `other` gets with this side's public key, and it was
/// contributory, a public key being a multiple of the prime-order basepoint
/// by a clamped scalar that the group order does not divide; and that the
/// zero point, being of low order, is never contributory.
#[verifier::external_body]
fn x25519_agree(secret: &[u8; 32], theirs: &[u8; 32]) -> (r: ([u8; 32], bool))
    ensures
        r.0@ == x25519_shared(secret@, theirs@),
        r.1 == x25519_contributory(secret@, theirs@),
        forall|other: Seq<u8>|
            other.len() == 32 && theirs@ == #[trigger] x25519_public(other) ==> r.0@
                == x25519_shared(other, x25519_public(secret@)) && r.1 == x25519_contributory(
                other,
                x25519_public(secret@),
            ) && r.1,
        theirs@ == Seq::new(32, |i: int| 0u8) ==> !r.1,
{
    let shared = StaticSecret::from(*secret).diffie_hellman(&PublicKey::from(*theirs));
    (shared.to_bytes(), shared.was_contributory())
}

/// `Hkdf::<Sha256>::new(Some(salt), ikm)` expanded into 32 bytes.
///
/// `expand` fails only for an output longer than 255 hash lengths, which 32
/// bytes is not, so the result is always there.
#[verifier::external_body]
fn hkdf_expand(salt: &[u8], ikm: &[u8; 32], info: &[u8]) -> (r: Option<[u8; 32]>)
    ensures
        r is Some,
        r.unwrap()@ == hkdf_sha256(salt@, ikm@, info@),
{
    let mut key = [0u8; 32];
    Hkdf::<Sha256>::new(Some(salt), ikm).expand(info, &mut key).ok()?;
    Some(key)
}

/// `getrandom::fill`: `false` when the OS has no randomness to give.
///
/// What the bytes are is chance; only that the buffer keeps its length is
/// stated.
#[verifier::external_body]
fn os_random(out: &mut [u8]) -> (r: bool)
    ensures
        final(out)@.len() == old(out)@.len(),
{
    getrandom::fill(out).is_ok()
}

/// The bytes as an array when there are exactly 32 of them.
fn array_of(bytes: Vec<u8>) -> (r: Option<[u8; 32]>)
    ensures
        match r {
            Some(a) => bytes@.len() == 32 && a@ == bytes@,
            None => bytes@.len() != 32,
        },
{
    if bytes.len() != 32 {
        return None;
    }
    let mut a = [0u8; 32];
    let mut i: usize = 0;
    while i < 32
        invariant
            i <= 32,
            bytes@.len() == 32,
            a@.len() == 32,
            forall|k: int| 0 <= k < i ==> a@[k] == bytes@[k],
        decreases 32 - i,
    {
        a[i] = bytes[i];
        i += 1;
    }
    assert(a@ =~= bytes@);
    Some(a)
}

/// `bytes` in base64.
pub fn encode(bytes: &[u8]) -> (r: String)
    ensures
        r@ == base64_text(bytes@),
        base64_decoded(r@) == Some(bytes@),
{
    base64_encode(bytes)
}

/// What `text` decodes to when it is exactly 32 bytes of base64.
pub open spec fn decoded_key(text: Seq<char>) -> Option<Seq<u8>> {
    match base64_decoded(text) {
        Some(b) => if b.len() == 32 {
            Some(b)
        } else {
            None
        },
        None => None,
    }
}

fn decode32(text: &str) -> (r: Option<[u8; 32]>)
    ensures
        match r {
            Some(k) => decoded_key(text@) == Some(k@),
            None => decoded_key(text@) is None,
        },
        text@.len() == 0 ==> decoded_key(text@) is None,
{
    match base64_decode(text) {
        Some(bytes) => array_of(bytes),
        None => None,
    }
}

// ---------------------------------------------------------------------------
// The transfer MAC
// ---------------------------------------------------------------------------

/// The `k` low bytes of `n`, least significant first.
pub open spec fn le_bytes(n: nat, k: nat) -> Seq<u8>
    decreases k,
{
    if k == 0 {
        Seq::empty()
    } else {
        seq![(n % 256) as u8] + le_bytes(n / 256, (k - 1) as nat)
    }
}

/// A field of the transcript: its length as eight little-endian bytes, then
/// the bytes.
pub open spec fn field(bytes: Seq<u8>) -> Seq<u8> {
    le_bytes(bytes.len(), 8) + bytes
}

/// Everything a chunk's MAC commits to: the label, the href and offset of the
/// question, the chunk's length, the file's length and digest, and the chunk.
/// Each field is length-prefixed, so no two different questions share a
/// transcript.
pub open spec fn transcript(
    href: Seq<char>,
    offset: u64,
    len: u64,
    total: u64,
    digest: Seq<char>,
    body: Seq<u8>,
) -> Seq<u8> {
    field(TRANSFER_LABEL.spec_bytes()) + field(encode_utf8(href)) + field(
        le_bytes(offset as nat, 8),
    ) + field(le_bytes(len as nat, 8)) + field(le_bytes(total as nat, 8)) + field(
        encode_utf8(digest),
    ) + field(body)
}

/// 256 to the `k`.
pub open spec fn pow256(k: nat) -> nat
    decreases k,
{
    if k == 0 {
        1
    } else {
        256 * pow256((k - 1) as nat)
    }
}

proof fn lemma_le_bytes_injective(n: nat, m: nat, k: nat)
    requires
        n < pow256(k),
        m < pow256(k),
        le_bytes(n, k) == le_bytes(m, k),
    ensures
        n == m,
    decreases k,
{
    if k > 0 {
        let (a, b) = (le_bytes(n, k), le_bytes(m, k));
        assert(a[0] == (n % 256) as u8);
        assert(b[0] == (m % 256) as u8);
        assert(le_bytes(n / 256, (k - 1) as nat) =~= a.drop_first());
        assert(le_bytes(m / 256, (k - 1) as nat) =~= b.drop_first());
        lemma_le_bytes_injective(n / 256, m / 256, (k - 1) as nat);
    }
}

proof fn lemma_le_bytes_len(n: nat, k: nat)
    ensures
        le_bytes(n, k).len() == k,
    decreases k,
{
    if k > 0 {
        lemma_le_bytes_len(n / 256, (k - 1) as nat);
    }
}

/// Reading a field back: two fields, each followed by anything, are the same
/// field followed by the same thing.
proof fn lemma_field_split(a: Seq<u8>, x: Seq<u8>, b: Seq<u8>, y: Seq<u8>)
    requires
        field(a) + x == field(b) + y,
        a.len() < pow256(8),
        b.len() < pow256(8),
    ensures
        a == b,
        x == y,
{
    lemma_le_bytes_len(a.len(), 8);
    lemma_le_bytes_len(b.len(), 8);
    let whole = field(a) + x;
    assert(whole.take(8) =~= le_bytes(a.len(), 8));
    assert((field(b) + y).take(8) =~= le_bytes(b.len(), 8));
    lemma_le_bytes_injective(a.len(), b.len(), 8);
    assert(whole.subrange(8, 8 + a.len() as int) =~= a);
    assert((field(b) + y).subrange(8, 8 + b.len() as int) =~= b);
    assert(whole.skip(8 + a.len() as int) =~= x);
    assert((field(b) + y).skip(8 + b.len() as int) =~= y);
}

proof fn lemma_utf8_injective(a: Seq<char>, b: Seq<char>)
    requires
        encode_utf8(a) == encode_utf8(b),
    ensures
        a == b,
{
    vstd::utf8::encode_utf8_decode_utf8(a);
    vstd::utf8::encode_utf8_decode_utf8(b);
}

proof fn lemma_utf8_len_bound(chars: Seq<char>)
    ensures
        encode_utf8(chars).len() <= 4 * chars.len(),
    decreases chars.len(),
{
    if chars.len() > 0 {
        lemma_utf8_len_bound(chars.drop_first());
    }
}

/// Every field of a transcript fits its length prefix.
pub open spec fn fits(href: Seq<char>, digest: Seq<char>, body: Seq<u8>) -> bool {
    &&& encode_utf8(href).len() < pow256(8)
    &&& encode_utf8(digest).len() < pow256(8)
    &&& body.len() < pow256(8)
}

/// No two different questions share a transcript: the href, the offset, the
/// lengths, the digest and the chunk can all be read back out of it, so a
/// MAC over one is a MAC over exactly one question and its answer.
pub proof fn transcript_is_injective(
    href: Seq<char>,
    offset: u64,
    len: u64,
    total: u64,
    digest: Seq<char>,
    body: Seq<u8>,
    href2: Seq<char>,
    offset2: u64,
    len2: u64,
    total2: u64,
    digest2: Seq<char>,
    body2: Seq<u8>,
)
    requires
        fits(href, digest, body),
        fits(href2, digest2, body2),
        transcript(href, offset, len, total, digest, body) == transcript(
            href2,
            offset2,
            len2,
            total2,
            digest2,
            body2,
        ),
    ensures
        href == href2,
        offset == offset2,
        len == len2,
        total == total2,
        digest == digest2,
        body == body2,
{
    reveal_with_fuel(pow256, 9);
    let label = TRANSFER_LABEL.spec_bytes();
    let (h1, h2) = (encode_utf8(href), encode_utf8(href2));
    let (o1, o2) = (le_bytes(offset as nat, 8), le_bytes(offset2 as nat, 8));
    let (l1, l2) = (le_bytes(len as nat, 8), le_bytes(len2 as nat, 8));
    let (t1, t2) = (le_bytes(total as nat, 8), le_bytes(total2 as nat, 8));
    let (d1, d2) = (encode_utf8(digest), encode_utf8(digest2));
    lemma_le_bytes_len(offset as nat, 8);
    lemma_le_bytes_len(offset2 as nat, 8);
    lemma_le_bytes_len(len as nat, 8);
    lemma_le_bytes_len(len2 as nat, 8);
    lemma_le_bytes_len(total as nat, 8);
    lemma_le_bytes_len(total2 as nat, 8);
    assert(label.len() < pow256(8)) by {
        reveal_strlit("vapor-sync/bytes/v1");
        lemma_utf8_len_bound(TRANSFER_LABEL@);
    }
    let r1 = field(h1) + (field(o1) + (field(l1) + (field(t1) + (field(d1) + field(body)))));
    let r2 = field(h2) + (field(o2) + (field(l2) + (field(t2) + (field(d2) + field(body2)))));
    assert(transcript(href, offset, len, total, digest, body) =~= field(label) + r1);
    assert(transcript(href2, offset2, len2, total2, digest2, body2) =~= field(label) + r2);
    lemma_field_split(label, r1, label, r2);
    lemma_field_split(h1, field(o1) + (field(l1) + (field(t1) + (field(d1) + field(body)))), h2,
        field(o2) + (field(l2) + (field(t2) + (field(d2) + field(body2)))));
    lemma_utf8_injective(href, href2);
    lemma_field_split(o1, field(l1) + (field(t1) + (field(d1) + field(body))), o2,
        field(l2) + (field(t2) + (field(d2) + field(body2))));
    lemma_le_bytes_injective(offset as nat, offset2 as nat, 8);
    lemma_field_split(l1, field(t1) + (field(d1) + field(body)), l2,
        field(t2) + (field(d2) + field(body2)));
    lemma_le_bytes_injective(len as nat, len2 as nat, 8);
    lemma_field_split(t1, field(d1) + field(body), t2, field(d2) + field(body2));
    lemma_le_bytes_injective(total as nat, total2 as nat, 8);
    lemma_field_split(d1, field(body), d2, field(body2));
    lemma_utf8_injective(digest, digest2);
    assert(field(body) + Seq::<u8>::empty() =~= field(body));
    assert(field(body2) + Seq::<u8>::empty() =~= field(body2));
    lemma_field_split(body, Seq::empty(), body2, Seq::empty());
}

/// The MAC text a chunk is sent with.
pub open spec fn signature(
    key: Seq<u8>,
    href: Seq<char>,
    offset: u64,
    len: u64,
    total: u64,
    digest: Seq<char>,
    body: Seq<u8>,
) -> Seq<char> {
    base64_text(hmac_tag(key, transcript(href, offset, len, total, digest, body)))
}

fn append(out: &mut Vec<u8>, bytes: &[u8])
    ensures
        final(out)@ == old(out)@ + bytes@,
{
    let mut i: usize = 0;
    while i < bytes.len()
        invariant
            i <= bytes@.len(),
            out@ == old(out)@ + bytes@.take(i as int),
        decreases bytes@.len() - i,
    {
        out.push(bytes[i]);
        i += 1;
        assert(old(out)@ + bytes@.take(i as int) =~= old(out)@ + bytes@.take(i - 1) + seq![
            bytes@[i - 1],
        ]);
    }
    assert(bytes@.take(i as int) =~= bytes@);
}

fn le_eight(n: u64) -> (r: Vec<u8>)
    ensures
        r@ == le_bytes(n as nat, 8),
{
    let mut out: Vec<u8> = Vec::new();
    let mut x: u64 = n;
    let mut k: u64 = 0;
    while k < 8
        invariant
            k <= 8,
            out@ + le_bytes(x as nat, (8 - k) as nat) == le_bytes(n as nat, 8),
        decreases 8 - k,
    {
        let ghost before = out@;
        let ghost rest = le_bytes(x as nat, (8 - k) as nat);
        assert(rest == seq![(x % 256) as u8] + le_bytes((x / 256) as nat, (8 - k - 1) as nat));
        out.push((x % 256) as u8);
        x = x / 256;
        k += 1;
        assert(out@ + le_bytes(x as nat, (8 - k) as nat) =~= before + rest);
    }
    assert(le_bytes(x as nat, 0) =~= Seq::<u8>::empty());
    assert(out@ + le_bytes(x as nat, 0) =~= out@);
    out
}

fn push_field(out: &mut Vec<u8>, bytes: &[u8])
    ensures
        final(out)@ == old(out)@ + field(bytes@),
{
    let len = le_eight(bytes.len() as u64);
    append(out, len.as_slice());
    append(out, bytes);
    assert(old(out)@ + len@ + bytes@ =~= old(out)@ + field(bytes@));
}

/// Everything a `Reply::Bytes` MAC commits to, as bytes.
///
/// `href` and `offset` are in it so that a signed chunk answers only the
/// question it was sent for: the peer's own bytes for one track, replayed as
/// the answer for another, do not verify.
pub fn transfer_transcript(
    href: &str,
    offset: u64,
    len: u64,
    total: u64,
    digest: &str,
    body: &[u8],
) -> (r: Vec<u8>)
    ensures
        r@ == transcript(href@, offset, len, total, digest@, body@),
{
    let mut out: Vec<u8> = Vec::new();
    let o = le_eight(offset);
    let l = le_eight(len);
    let t = le_eight(total);
    push_field(&mut out, TRANSFER_LABEL.as_bytes());
    push_field(&mut out, href.as_bytes());
    push_field(&mut out, o.as_slice());
    push_field(&mut out, l.as_slice());
    push_field(&mut out, t.as_slice());
    push_field(&mut out, digest.as_bytes());
    push_field(&mut out, body);
    assert(out@ =~= transcript(href@, offset, len, total, digest@, body@));
    out
}

/// Sign a chunk with the key the pairing derived.
pub fn transfer_mac(
    key: &[u8; 32],
    href: &str,
    offset: u64,
    len: u64,
    total: u64,
    digest: &str,
    body: &[u8],
) -> (r: String)
    ensures
        r@ == signature(key@, href@, offset, len, total, digest@, body@),
        base64_decoded(r@) == Some(
            hmac_tag(
                key@,
                transcript(href@, offset, len, total, digest@, body@),
            ),
        ),
{
    let message = transfer_transcript(href, offset, len, total, digest, body);
    let tag = hmac_sha256(key, message.as_slice());
    base64_encode(&tag)
}


// ---------------------------------------------------------------------------
// The protocol
// ---------------------------------------------------------------------------

/// One request, as a line of JSON. `K` is the kind of device asking.
#[derive(Debug)]
pub enum Request<K> {
    /// The only thing an unpaired device may send.
    Pair {
        device_id: String,
        name: String,
        device_kind: K,
        pin: String,
        /// The asking device's half of the key exchange, base64.
        public_key: String,
    },
    /// What the other device knows.
    Manifest { device_id: String },
    /// Bytes of one track, from `offset`, at most `len`.
    Fetch { device_id: String, href: String, offset: u64, len: u64 },
}

/// The header of a reply; a `Bytes` reply is followed by `len` raw bytes.
/// `M` is what a manifest is.
#[derive(Debug)]
pub enum Reply<M> {
    Paired {
        device_id: String,
        name: String,
        /// The answering device's half of the key exchange, base64.
        public_key: String,
    },
    Refused { reason: String },
    Manifest(Box<M>),
    /// `digest` covers the whole file, not this chunk; `mac` is what shows
    /// the reply came from the paired device.
    Bytes { len: u64, total: u64, digest: String, mac: String },
    Error { reason: String },
}

/// Who is asking, as a text.
pub open spec fn asker<K>(request: Request<K>) -> Seq<char> {
    match request {
        Request::Pair { device_id, .. } => device_id@,
        Request::Manifest { device_id } => device_id@,
        Request::Fetch { device_id, .. } => device_id@,
    }
}

impl<K> Request<K> {
    /// Who is asking. Every request carries it, because every request is
    /// authorised.
    pub fn device_id(&self) -> (r: &str)
        ensures
            r@ == asker(*self),
    {
        match self {
            Request::Pair { device_id, .. } => device_id.as_str(),
            Request::Manifest { device_id } => device_id.as_str(),
            Request::Fetch { device_id, .. } => device_id.as_str(),
        }
    }

    /// Whether this may be sent by a device that has not paired.
    pub fn is_pairing(&self) -> (r: bool)
        ensures
            r == (*self is Pair),
    {
        match self {
            Request::Pair { .. } => true,
            _ => false,
        }
    }
}

/// The words every refusal of an unpaired device is given.
pub open spec fn not_paired_text() -> Seq<char> {
    "not paired with this device"@
}

/// `reply` is a refusal in exactly these words.
pub open spec fn refuses<M>(reply: Reply<M>, reason: Seq<char>) -> bool {
    reply matches Reply::Refused { reason: r } && r@ == reason
}

fn refusal<M>(reason: &str) -> (r: Reply<M>)
    ensures
        refuses(r, reason@),
{
    Reply::Refused { reason: String::from_str(reason) }
}

/// Decide whether a request may proceed, `allowed` being whether this
/// device trusts the asker. `None` means yes.
///
/// The only place the rule lives: a pairing request always proceeds, and
/// anything else from a device that is not trusted is refused, in words that
/// say nothing about what was wrong.
pub fn authorise<K, M>(allowed: bool, request: &Request<K>) -> (r: Option<Reply<M>>)
    ensures
        r is None <==> (*request is Pair || allowed),
        r matches Some(reply) ==> refuses(reply, not_paired_text()),
{
    if request.is_pairing() || allowed {
        return None;
    }
    proof {
        reveal_strlit("not paired with this device");
    }
    Some(refusal("not paired with this device"))
}

/// How a pairing attempt went, as the side that was asked judged it.
#[derive(Clone, Copy, Debug, PartialEq, Eq)]
pub enum PairOutcome {
    Paired,
    WrongPin { attempts_left: u32 },
    Refused,
}

/// A pairing request, as the app sees it.
pub struct PairRequest<'a, K> {
    pub device_id: &'a str,
    pub name: &'a str,
    pub kind: K,
    pub pin: &'a str,
    /// The asking device's half of the key exchange, base64.
    pub public_key: &'a str,
}

/// The key a device shares with this one, as a value.
pub open spec fn key_view(key: Option<[u8; 32]>) -> Option<Seq<u8>> {
    match key {
        Some(k) => Some(k@),
        None => None,
    }
}

/// The key `devices` holds for `id`: the one recorded last for it, `None`
/// when it was never recorded or was recorded without one.
pub open spec fn key_in(devices: Seq<(Seq<char>, Option<Seq<u8>>)>, id: Seq<char>) -> Option<Seq<u8>>
    decreases devices.len(),
{
    if devices.len() == 0 {
        None
    } else if devices.last().0 == id {
        devices.last().1
    } else {
        key_in(devices.drop_last(), id)
    }
}

/// What this device trusts, as one request finds it: each device paired
/// with it, by id, with the key the pairing derived, or none for one recorded
/// before pairings derived keys. A device is trusted when it has a key, so a
/// stale record is trusted with nothing.
#[derive(Clone, Debug, Default)]
pub struct Trust {
    devices: Vec<(String, Option<[u8; 32]>)>,
}

impl View for Trust {
    type V = Seq<(Seq<char>, Option<Seq<u8>>)>;

    closed spec fn view(&self) -> Self::V {
        self.devices@.map_values(|d: (String, Option<[u8; 32]>)| (d.0@, key_view(d.1)))
    }
}

impl Trust {
    /// Trust in nobody.
    pub fn new() -> (r: Trust)
        ensures
            r@ == Seq::<(Seq<char>, Option<Seq<u8>>)>::empty(),
    {
        let r = Trust { devices: Vec::new() };
        assert(r@ =~= Seq::<(Seq<char>, Option<Seq<u8>>)>::empty());
        r
    }

    /// Record `device_id` with the key it shares; a later record of the same
    /// device is the one that counts.
    pub fn add(&mut self, device_id: &str, key: Option<[u8; 32]>)
        ensures
            final(self)@ == old(self)@.push((device_id@, key_view(key))),
    {
        let ghost before = self@;
        self.devices.push((String::from_str(device_id), key));
        assert(self@ =~= before.push((device_id@, key_view(key))));
    }

    /// The key shared with `device_id`, when it is paired and has one.
    pub fn key(&self, device_id: &str) -> (r: Option<[u8; 32]>)
        ensures
            key_view(r) == key_in(self@, device_id@),
    {
        let id = chars_of(device_id);
        let mut i: usize = self.devices.len();
        assert(self@.take(i as int) =~= self@);
        while i > 0
            invariant
                i <= self.devices@.len(),
                id@ == device_id@,
                key_in(self@, device_id@) == key_in(self@.take(i as int), device_id@),
            decreases i,
        {
            let ghost upto = self@.take(i as int);
            assert(upto.last() == self@[i - 1]);
            assert(upto.drop_last() =~= self@.take(i - 1));
            let name = chars_of(self.devices[i - 1].0.as_str());
            if chars_eq(name.as_slice(), id.as_slice()) {
                return self.devices[i - 1].1;
            }
            i -= 1;
        }
        None
    }

    /// Whether `device_id` is trusted: paired, with a key.
    pub fn allows(&self, device_id: &str) -> (r: bool)
        ensures
            r == key_in(self@, device_id@) is Some,
    {
        self.key(device_id).is_some()
    }
}

/// The app's side of a sync, as the server sees it.
///
/// A trait so the server can be driven by anything that answers these
/// questions. Nothing here is promised of an implementation: what `handle`
/// does with each answer is stated by the functions that take the answers.
pub trait Library {
    /// What this app calls a kind of device.
    type Kind;

    /// What this app sends as its manifest.
    type Manifest;

    /// The devices this one trusts, as they stand now: one request is
    /// answered from one such snapshot.
    fn trust(&self) -> Trust;

    /// Judge a pairing request and, when it pairs, hand back this device's
    /// half of the key exchange.
    fn pair(&self, request: PairRequest<'_, Self::Kind>) -> (PairOutcome, String);

    /// What this device knows.
    fn manifest(&self) -> Self::Manifest;

    /// The bytes of a track this device holds, found by its href; `None`
    /// when it holds none.
    fn read_track(&self, href: &str) -> Option<Vec<u8>>;

    /// This device's own id, name and kind.
    fn identity(&self) -> (String, String, Self::Kind);

    /// The digest of a whole file, as manifests carry it.
    fn digest(&self, bytes: &[u8]) -> String;
}

/// The text `wrong code — n left`.
pub open spec fn wrong_pin_text(attempts_left: nat) -> Seq<char> {
    "wrong code — "@ + dec(attempts_left) + " left"@
}

/// What a pairing is answered when it did not pair: `None` when it did,
/// which takes a key of ours as well as the other side's word for it.
pub open spec fn pair_refusal(outcome: PairOutcome, ours_empty: bool) -> Option<Seq<char>> {
    match outcome {
        PairOutcome::Paired => if ours_empty {
            Some("that device could not complete the pairing exchange"@)
        } else {
            None
        },
        PairOutcome::WrongPin { attempts_left } => Some(wrong_pin_text(attempts_left as nat)),
        PairOutcome::Refused => Some("pairing is not open on that device"@),
    }
}

/// A pairing that does not pair is never told it is not paired: its
/// refusal has words of its own.
proof fn lemma_pair_refusal_is_not_the_gate(outcome: PairOutcome, ours_empty: bool)
    ensures
        pair_refusal(outcome, ours_empty) != Some(not_paired_text()),
{
    reveal_strlit("not paired with this device");
    reveal_strlit("that device could not complete the pairing exchange");
    reveal_strlit("pairing is not open on that device");
    reveal_strlit("wrong code — ");
    assert(not_paired_text()[0] == 'n');
    match outcome {
        PairOutcome::WrongPin { attempts_left } => {
            let t = wrong_pin_text(attempts_left as nat);
            assert(t[0] == "wrong code — "@[0]);
        },
        PairOutcome::Paired => {
            assert("that device could not complete the pairing exchange"@[0] == 't');
        },
        PairOutcome::Refused => {
            assert("pairing is not open on that device"@[0] == 'p');
        },
    }
}

/// The refusal a pairing gets, or `None` when it pairs.
///
/// A pairing that produced no key of ours is one the peer could not
/// authenticate afterwards, so it is not a pairing.
pub fn pair_answer<M>(outcome: PairOutcome, ours: &str) -> (r: Option<Reply<M>>)
    ensures
        match pair_refusal(outcome, ours@.len() == 0) {
            Some(reason) => r matches Some(reply) && refuses(reply, reason),
            None => r is None,
        },
{
    match outcome {
        PairOutcome::Paired => {
            if ours.unicode_len() == 0 {
                proof {
                    reveal_strlit("that device could not complete the pairing exchange");
                }
                Some(refusal("that device could not complete the pairing exchange"))
            } else {
                None
            }
        },
        PairOutcome::WrongPin { attempts_left } => {
            let mut text = String::from_str("wrong code — ");
            let digits = string_of(&dec_chars(attempts_left as u64));
            text.append(digits.as_str());
            text.append(" left");
            proof {
                reveal_strlit("wrong code — ");
                reveal_strlit(" left");
                assert(text@ =~= wrong_pin_text(attempts_left as nat));
            }
            Some(Reply::Refused { reason: text })
        },
        PairOutcome::Refused => {
            proof {
                reveal_strlit("pairing is not open on that device");
            }
            Some(refusal("pairing is not open on that device"))
        },
    }
}

/// The part of a file a fetch is answered with: from `offset`, at most
/// `len` bytes, cut at the end of the file. A range past the end is empty.
pub open spec fn range_of(bytes: Seq<u8>, offset: u64, len: u64) -> Seq<u8> {
    let total = bytes.len() as int;
    let start = if offset < total {
        offset as int
    } else {
        total
    };
    let end = if offset + len < total {
        offset + len
    } else {
        total
    };
    bytes.subrange(start, end)
}

/// `reply` is the signed answer to a fetch of `href` from `offset` that was
/// served `chunk` of a `total`-byte file with this `digest`.
pub open spec fn serves<M>(
    reply: Reply<M>,
    key: Seq<u8>,
    href: Seq<char>,
    offset: u64,
    total: nat,
    digest: Seq<char>,
    chunk: Seq<u8>,
) -> bool {
    reply matches Reply::Bytes { len, total: t, digest: d, mac } && len == chunk.len() && t
        == total && d@ == digest && mac@ == signature(key, href, offset, len, t, digest, chunk)
        && base64_decoded(mac@) == Some(hmac_tag(key, transcript(href, offset, len, t, digest, chunk)))
}

/// A reply served to a fetch is accepted by the device that holds the same
/// key, read as the answer to that same fetch, with the chunk that followed
/// it: the length, total and digest it carried come back as they were sent.
pub proof fn served_reply_is_accepted<M>(
    reply: Reply<M>,
    key: Seq<u8>,
    href: Seq<char>,
    offset: u64,
    total: nat,
    digest: Seq<char>,
    chunk: Seq<u8>,
)
    requires
        serves(reply, key, href, offset, total, digest, chunk),
    ensures
        accepted(key, href, offset, reply, chunk) == Ok::<(u64, u64, Seq<char>), Seq<char>>(
            (chunk.len() as u64, total as u64, digest),
        ),
{
    genuine_reply_is_accepted(key, href, offset, reply, chunk);
}

/// The words a fetch of a track this device does not hold is answered with.
pub open spec fn not_held_text() -> Seq<char> {
    "not in this library"@
}

/// Answer a fetch of `href` from `offset`, at most `len` bytes, signed with
/// the asker's `key`, given what the library found under that href: the
/// file and its digest, or nothing.
pub fn answer_fetch<M>(
    key: &[u8; 32],
    href: &str,
    offset: u64,
    len: u64,
    track: Option<(Vec<u8>, String)>,
) -> (r: (Reply<M>, Option<Vec<u8>>))
    ensures
        match track {
            None => r.1 is None && (r.0 matches Reply::Error { reason } && reason@
                == not_held_text()),
            Some((bytes, digest)) => (r.1 matches Some(body) && body@ == range_of(
                bytes@,
                offset,
                len,
            ) && serves(r.0, key@, href@, offset, bytes@.len(), digest@, body@)),
        },
{
    match track {
        Some((bytes, digest)) => serve_range(key, href, offset, len, bytes.as_slice(), digest),
        None => {
            proof {
                reveal_strlit("not in this library");
            }
            (Reply::Error { reason: String::from_str("not in this library") }, None)
        },
    }
}

/// Answer a fetch of `href` from `offset`, at most `len` bytes, out of the
/// file `bytes` whose digest is `digest`, signed with `key`.
///
/// A range past the end is answered with nothing rather than refused: it is
/// what a peer asks when it already has the file.
pub fn serve_range<M>(
    key: &[u8; 32],
    href: &str,
    offset: u64,
    len: u64,
    bytes: &[u8],
    digest: String,
) -> (r: (Reply<M>, Option<Vec<u8>>))
    ensures
        r.1 matches Some(body) && body@ == range_of(bytes@, offset, len),
        serves(r.0, key@, href@, offset, bytes@.len(), digest@, range_of(bytes@, offset, len)),
{
    let total = bytes.len() as u64;
    let start: usize = if offset < total {
        offset as usize
    } else {
        bytes.len()
    };
    let reach: u64 = match offset.checked_add(len) {
        Some(e) => e,
        None => u64::MAX,
    };
    let end: usize = if reach < total {
        reach as usize
    } else {
        bytes.len()
    };
    let mut slice: Vec<u8> = Vec::new();
    if start < end {
        append(&mut slice, &bytes[start..end]);
    }
    proof {
        if start < end {
            assert(slice@ =~= range_of(bytes@, offset, len));
        } else {
            assert(range_of(bytes@, offset, len) =~= Seq::<u8>::empty());
            assert(slice@ =~= range_of(bytes@, offset, len));
        }
    }
    let sent = slice.len() as u64;
    let mac = transfer_mac(key, href, offset, sent, total, digest.as_str(), slice.as_slice());
    (Reply::Bytes { len: sent, total, digest, mac }, Some(slice))
}

/// What every answer to `request` is, whatever the library said.
pub open spec fn answers<K, M>(request: Request<K>, reply: (Reply<M>, Option<Vec<u8>>)) -> bool {
    &&& reply.1 is Some ==> reply.0 is Bytes
    &&& reply.0 is Bytes ==> reply.1 is Some
    &&& reply.0 is Paired ==> request is Pair
    &&& reply.0 is Manifest ==> request is Manifest
    &&& reply.0 matches Reply::Paired { public_key, .. } ==> public_key@.len() > 0
    &&& request !is Pair ==> (reply.0 matches Reply::Refused { reason } ==> reason@
        == not_paired_text())
    &&& reply.0 matches Reply::Error { reason } ==> request is Fetch && reason@ == not_held_text()
    &&& reply.1 matches Some(body) ==> request matches Request::Fetch { href, offset, len, .. }
        && exists|key: Seq<u8>, file: Seq<u8>, digest: Seq<char>|
        body@ == range_of(file, offset, len) && #[trigger] serves(
            reply.0,
            key,
            href@,
            offset,
            file.len(),
            digest,
            body@,
        )
}

/// What a fetch of `href` from `offset`, at most `len` bytes, by the device
/// `id` is answered under `trust`, once it is let in: refused when there is
/// no key for it, and otherwise either not held, or a range of some file
/// signed with that very key over that very question.
pub open spec fn fetched<M>(
    trust: Seq<(Seq<char>, Option<Seq<u8>>)>,
    id: Seq<char>,
    href: Seq<char>,
    offset: u64,
    len: u64,
    r: (Reply<M>, Option<Vec<u8>>),
) -> bool {
    match key_in(trust, id) {
        None => r.1 is None && refuses(r.0, not_paired_text()),
        Some(key) => {
            ||| r.1 is None && (r.0 matches Reply::Error { reason } && reason@ == not_held_text())
            ||| signed_range(key, href, offset, len, r)
        },
    }
}

/// `r` is a range of some file, from `offset` and at most `len` bytes,
/// signed with `key` as the answer to a fetch of `href` from `offset`.
pub open spec fn signed_range<M>(
    key: Seq<u8>,
    href: Seq<char>,
    offset: u64,
    len: u64,
    r: (Reply<M>, Option<Vec<u8>>),
) -> bool {
    r.1 matches Some(body) && exists|file: Seq<u8>, digest: Seq<char>|
        body@ == range_of(file, offset, len) && #[trigger] serves(
            r.0,
            key,
            href,
            offset,
            file.len(),
            digest,
            body@,
        )
}

/// What the answer to `request` is under `trust`.
pub open spec fn responds<K, M>(
    trust: Seq<(Seq<char>, Option<Seq<u8>>)>,
    request: Request<K>,
    r: (Reply<M>, Option<Vec<u8>>),
) -> bool {
    let allowed = key_in(trust, asker(request)) is Some;
    &&& answers(request, r)
    &&& !allowed && request !is Pair ==> r.1 is None && refuses(r.0, not_paired_text())
    &&& allowed && request is Manifest ==> r.0 is Manifest && r.1 is None
    &&& request is Pair ==> r.1 is None && !refuses(r.0, not_paired_text())
    &&& allowed ==> (request matches Request::Fetch { device_id, href, offset, len } ==> fetched(
        trust,
        device_id@,
        href@,
        offset,
        len,
        r,
    ))
}

/// Answer one request under `trust`, what this device trusts as the request
/// finds it.
///
/// A device that is not trusted is refused before anything is looked up,
/// unless it is asking to pair; a fetch is answered from the library by
/// href, never by path, with the range asked for, signed with the key of
/// the device that asked over that same question.
pub fn respond<L: Library>(library: &L, request: &Request<L::Kind>, trust: &Trust) -> (r: (
    Reply<L::Manifest>,
    Option<Vec<u8>>,
)) where L::Kind: Copy
    ensures
        responds(trust@, *request, r),
{
    let allowed = trust.allows(request.device_id());
    if let Some(refused) = authorise(allowed, request) {
        return (refused, None);
    }
    match request {
        Request::Pair { device_id, name, device_kind, pin, public_key } => {
            let (outcome, ours) = library.pair(
                PairRequest {
                    device_id: device_id.as_str(),
                    name: name.as_str(),
                    kind: *device_kind,
                    pin: pin.as_str(),
                    public_key: public_key.as_str(),
                },
            );
            match pair_answer(outcome, ours.as_str()) {
                Some(refused) => {
                    proof {
                        lemma_pair_refusal_is_not_the_gate(outcome, ours@.len() == 0);
                    }
                    (refused, None)
                },
                None => {
                    let (id, name, _) = library.identity();
                    (Reply::Paired { device_id: id, name, public_key: ours }, None)
                },
            }
        },
        Request::Manifest { .. } => (Reply::Manifest(Box::new(library.manifest())), None),
        Request::Fetch { device_id, href, offset, len } => {
            // Trust was already asked for; asking for the key again keeps the
            // two from drifting apart, so a loosened gate refuses rather than
            // signing with nothing.
            let key = match trust.key(device_id.as_str()) {
                Some(k) => k,
                None => {
                    proof {
                        reveal_strlit("not paired with this device");
                    }
                    return (refusal("not paired with this device"), None);
                },
            };
            let track = match library.read_track(href.as_str()) {
                Some(bytes) => {
                    let digest = library.digest(bytes.as_slice());
                    Some((bytes, digest))
                },
                None => None,
            };
            let ghost found = track;
            let r = answer_fetch(&key, href.as_str(), *offset, *len, track);
            proof {
                assert(r.1 is Some ==> serves(
                    r.0,
                    key@,
                    href@,
                    *offset,
                    found.unwrap().0@.len(),
                    found.unwrap().1@,
                    r.1.unwrap()@,
                ));
                if r.1 is Some {
                    let file = found.unwrap().0@;
                    let digest = found.unwrap().1@;
                    assert(r.1.unwrap()@ == range_of(file, *offset, *len));
                    assert(key_in(trust@, device_id@) == Some(key@));
                    assert(serves(r.0, key@, href@, *offset, file.len(), digest, r.1.unwrap()@));
                    assert(signed_range(key@, href@, *offset, *len, r));
                }
                assert(fetched(trust@, device_id@, href@, *offset, *len, r));
            }
            r
        },
    }
}

/// Answer one request from what the library trusts now.
pub fn handle<L: Library>(library: &L, request: &Request<L::Kind>) -> (r: (
    Reply<L::Manifest>,
    Option<Vec<u8>>,
)) where L::Kind: Copy
    ensures
        exists|trust: Seq<(Seq<char>, Option<Seq<u8>>)>| #[trigger] responds(trust, *request, r),
{
    let trust = library.trust();
    respond(library, request, &trust)
}

/// The words a reply that fails its MAC is thrown away with.
pub open spec fn not_signed_text() -> Seq<char> {
    "that reply was not signed by the device this one paired with, so it was thrown away"@
}

/// The words a reply of the wrong kind is refused with.
pub open spec fn wrong_kind_text() -> Seq<char> {
    "that device answered with something else"@
}

/// The tag a MAC text offers: what it decodes to, or nothing.
pub open spec fn offered(mac: Seq<char>) -> Seq<u8> {
    match base64_decoded(mac) {
        Some(t) => t,
        None => Seq::empty(),
    }
}

/// What reading `reply` to a fetch of `href` from `offset`, with `body`
/// following it, comes to under `key`.
pub open spec fn accepted<M>(
    key: Seq<u8>,
    href: Seq<char>,
    offset: u64,
    reply: Reply<M>,
    body: Seq<u8>,
) -> Result<(u64, u64, Seq<char>), Seq<char>> {
    match reply {
        Reply::Bytes { len, total, digest, mac } => if offered(mac@) == hmac_tag(
            key,
            transcript(href, offset, len, total, digest@, body),
        ) {
            Ok((len, total, digest@))
        } else {
            Err(not_signed_text())
        },
        Reply::Error { reason } => Err(reason@),
        Reply::Refused { reason } => Err(reason@),
        _ => Err(wrong_kind_text()),
    }
}

/// Read a `Reply::Bytes`, or refuse to.
///
/// The only way that variant is unpacked, and it takes the reply by value so
/// nothing reads the unverified copy afterwards. A MAC that does not match
/// (a wrong one, or none) is a reply from something that is not the paired
/// device, and nothing comes back.
pub fn accept_bytes<M>(key: &[u8; 32], href: &str, offset: u64, reply: Reply<M>, body: &[u8]) -> (r:
    Result<(u64, u64, String), String>)
    ensures
        match accepted(key@, href@, offset, reply, body@) {
            Ok((len, total, digest)) => r matches Ok((l, t, d)) && l == len && t == total && d@
                == digest,
            Err(reason) => r matches Err(e) && e@ == reason,
        },
        reply matches Reply::Bytes { mac, .. } && offered(mac@).len() != 32 ==> (r matches Err(e)
            && e@ == not_signed_text()),
{
    let (len, total, digest, mac) = match reply {
        Reply::Bytes { len, total, digest, mac } => (len, total, digest, mac),
        Reply::Error { reason } => return Err(reason),
        Reply::Refused { reason } => return Err(reason),
        _ => {
            proof {
                reveal_strlit("that device answered with something else");
            }
            return Err(String::from_str("that device answered with something else"));
        },
    };
    let message = transfer_transcript(href, offset, len, total, digest.as_str(), body);
    let tag: Vec<u8> = match base64_decode(mac.as_str()) {
        Some(t) => t,
        None => Vec::new(),
    };
    if !hmac_verify(key, message.as_slice(), tag.as_slice()) {
        proof {
            reveal_strlit(
                "that reply was not signed by the device this one paired with, so it was thrown away",
            );
        }
        return Err(
            String::from_str(
                "that reply was not signed by the device this one paired with, so it was thrown away",
            ),
        );
    }
    Ok((len, total, digest))
}

/// A chunk is accepted, as it was sent, by whoever holds the key it was
/// signed with, when it is read as the answer to the question it was signed
/// for.
pub proof fn genuine_reply_is_accepted<M>(
    key: Seq<u8>,
    href: Seq<char>,
    offset: u64,
    reply: Reply<M>,
    body: Seq<u8>,
)
    requires
        reply matches Reply::Bytes { len, total, digest, mac } && base64_decoded(mac@) == Some(
            hmac_tag(key, transcript(href, offset, len, total, digest@, body)),
        ),
    ensures
        accepted(key, href, offset, reply, body) matches Ok((l, t, d)) && reply matches Reply::Bytes {
            len,
            total,
            digest,
            ..
        } && l == len && t == total && d == digest@,
{
}

// ---------------------------------------------------------------------------
// Pairing
// ---------------------------------------------------------------------------

/// `a` sorts before `b` byte by byte, a prefix first: the order of `str`.
pub open spec fn bytes_lt(a: Seq<u8>, b: Seq<u8>) -> bool
    decreases a.len(),
{
    if b.len() == 0 {
        false
    } else if a.len() == 0 {
        true
    } else if a[0] != b[0] {
        a[0] < b[0]
    } else {
        bytes_lt(a.drop_first(), b.drop_first())
    }
}

proof fn lemma_bytes_lt_irreflexive(a: Seq<u8>)
    ensures
        !bytes_lt(a, a),
    decreases a.len(),
{
    if a.len() > 0 {
        lemma_bytes_lt_irreflexive(a.drop_first());
    }
}

proof fn lemma_bytes_lt_asymmetric(a: Seq<u8>, b: Seq<u8>)
    ensures
        !(bytes_lt(a, b) && bytes_lt(b, a)),
    decreases a.len(),
{
    if a.len() > 0 && b.len() > 0 && a[0] == b[0] {
        lemma_bytes_lt_asymmetric(a.drop_first(), b.drop_first());
    }
}

proof fn lemma_bytes_lt_total(a: Seq<u8>, b: Seq<u8>)
    ensures
        a == b || bytes_lt(a, b) || bytes_lt(b, a),
    decreases a.len(),
{
    if a.len() > 0 && b.len() > 0 && a[0] == b[0] {
        lemma_bytes_lt_total(a.drop_first(), b.drop_first());
        if a.drop_first() == b.drop_first() {
            assert(a =~= seq![a[0]] + a.drop_first());
            assert(b =~= seq![b[0]] + b.drop_first());
        }
    } else if a.len() == 0 && b.len() == 0 {
        assert(a =~= b);
    }
}

fn bytes_less(a: &[u8], b: &[u8]) -> (r: bool)
    ensures
        r == bytes_lt(a@, b@),
{
    let mut i: usize = 0;
    assert(a@.skip(0) =~= a@);
    assert(b@.skip(0) =~= b@);
    while i < a.len() && i < b.len()
        invariant
            i <= a@.len(),
            i <= b@.len(),
            bytes_lt(a@, b@) == bytes_lt(a@.skip(i as int), b@.skip(i as int)),
        decreases a@.len() - i,
    {
        assert(a@.skip(i as int)[0] == a@[i as int]);
        assert(b@.skip(i as int)[0] == b@[i as int]);
        if a[i] != b[i] {
            return a[i] < b[i];
        }
        assert(a@.skip(i as int).drop_first() =~= a@.skip(i + 1));
        assert(b@.skip(i as int).drop_first() =~= b@.skip(i + 1));
        i += 1;
    }
    i < b.len()
}

/// What the key derivation is told about who paired: the two ids in sorted
/// order with a zero byte between them.
pub open spec fn pairing_info(mine: Seq<u8>, theirs: Seq<u8>) -> Seq<u8> {
    if bytes_lt(theirs, mine) {
        theirs + seq![0u8] + mine
    } else {
        mine + seq![0u8] + theirs
    }
}

/// Both sides of a pairing give the derivation the same input, whichever of
/// them asked: the ids go in sorted.
pub proof fn pairing_info_is_symmetric(a: Seq<u8>, b: Seq<u8>)
    ensures
        pairing_info(a, b) == pairing_info(b, a),
{
    lemma_bytes_lt_total(a, b);
    lemma_bytes_lt_asymmetric(a, b);
    lemma_bytes_lt_irreflexive(a);
}

fn info_of(my_id: &str, their_id: &str) -> (r: Vec<u8>)
    ensures
        r@ == pairing_info(my_id.spec_bytes(), their_id.spec_bytes()),
{
    let mine = my_id.as_bytes();
    let theirs = their_id.as_bytes();
    let mut out: Vec<u8> = Vec::new();
    if bytes_less(theirs, mine) {
        append(&mut out, theirs);
        out.push(0u8);
        append(&mut out, mine);
    } else {
        append(&mut out, mine);
        out.push(0u8);
        append(&mut out, theirs);
    }
    assert(out@ =~= pairing_info(my_id.spec_bytes(), their_id.spec_bytes()));
    out
}

/// The key a pairing derives from this side's secret and the peer's public
/// point: `None` when the point forces a known result.
pub open spec fn point_key(secret: Seq<u8>, point: Seq<u8>, mine: Seq<u8>, theirs: Seq<u8>) -> Option<
    Seq<u8>,
> {
    if x25519_contributory(secret, point) {
        Some(
            hkdf_sha256(
                PAIR_SALT.spec_bytes(),
                x25519_shared(secret, point),
                pairing_info(mine, theirs),
            ),
        )
    } else {
        None
    }
}

/// The key a pairing derives from this side's secret and the peer's public
/// half: `None` when the half is not a key, or forces a known result.
pub open spec fn derived_key(secret: Seq<u8>, their_public: Seq<char>, mine: Seq<u8>, theirs: Seq<
    u8,
>) -> Option<Seq<u8>> {
    match decoded_key(their_public) {
        Some(point) => point_key(secret, point, mine, theirs),
        None => None,
    }
}

/// One side of the pairing key exchange: the public half goes out, the
/// peer's comes back, and [`Handshake::finish`] turns the two into the key
/// every later reply is signed with.
pub struct Handshake {
    secret: [u8; 32],
}

impl Handshake {
    /// This side's secret, as bytes.
    pub closed spec fn secret(&self) -> Seq<u8> {
        self.secret@
    }

    /// A fresh key pair from the OS's randomness, or `None` when there is
    /// none. `None` refuses the pairing: a guessable key would be guessable
    /// for as long as the two devices stay paired.
    pub fn begin() -> (r: Option<Handshake>)
        ensures
            r matches Some(h) ==> h.secret().len() == 32,
    {
        let mut seed = [0u8; 32];
        if !os_random(&mut seed) {
            return None;
        }
        Some(Handshake { secret: seed })
    }

    /// What the other device needs, base64.
    pub fn public_key(&self) -> (r: String)
        ensures
            r@ == base64_text(x25519_public(self.secret())),
            decoded_key(r@) == Some(x25519_public(self.secret())),
    {
        let public = x25519_public_of(&self.secret);
        base64_encode(&public)
    }

    /// The shared key, from the peer's public half.
    ///
    /// The two device ids go into the derivation sorted, so both sides
    /// compute the same value without either knowing which one asked.
    /// `None` when the peer sent something that is not a public key, or one
    /// that forces a known result.
    ///
    /// Whatever the peer's secret `other`, when the half it sent is its public
    /// key, the key derived here is the one the peer derives from this side's
    /// public key with the ids the other way round: both ends of a pairing
    /// hold one key, and an honest peer's half always pairs. An empty text, or
    /// the zero point, pairs with nothing.
    pub fn finish(&self, their_public: &str, my_id: &str, their_id: &str) -> (r: Option<[u8; 32]>)
        ensures
            match derived_key(
                self.secret(),
                their_public@,
                my_id.spec_bytes(),
                their_id.spec_bytes(),
            ) {
                Some(k) => r matches Some(key) && key@ == k,
                None => r is None,
            },
            forall|other: Seq<u8>|
                other.len() == 32 && decoded_key(their_public@) == Some(
                    #[trigger] x25519_public(other),
                ) ==> point_key(
                    self.secret(),
                    x25519_public(other),
                    my_id.spec_bytes(),
                    their_id.spec_bytes(),
                ) == point_key(
                    other,
                    x25519_public(self.secret()),
                    their_id.spec_bytes(),
                    my_id.spec_bytes(),
                ),
            forall|other: Seq<u8>|
                other.len() == 32 && decoded_key(their_public@) == Some(
                    #[trigger] x25519_public(other),
                ) ==> r is Some,
            their_public@.len() == 0 ==> r is None,
            decoded_key(their_public@) == Some(Seq::new(32, |i: int| 0u8)) ==> r is None,
    {
        let theirs = match decode32(their_public) {
            Some(t) => t,
            None => return None,
        };
        let (shared, contributory) = x25519_agree(&self.secret, &theirs);
        proof {
            pairing_info_is_symmetric(my_id.spec_bytes(), their_id.spec_bytes());
        }
        if !contributory {
            return None;
        }
        let info = info_of(my_id, their_id);
        hkdf_expand(PAIR_SALT.as_bytes(), &shared, info.as_slice())
    }
}

// ---------------------------------------------------------------------------
// Pairing codes
// ---------------------------------------------------------------------------

/// `n` as six decimal digits, zero-padded.
pub open spec fn six_digits(n: nat) -> Seq<char> {
    seq![
        digit_of(n / 100000 % 10),
        digit_of(n / 10000 % 10),
        digit_of(n / 1000 % 10),
        digit_of(n / 100 % 10),
        digit_of(n / 10 % 10),
        digit_of(n % 10),
    ]
}

/// The decimal digit `d`.
pub open spec fn digit_of(d: nat) -> char {
    ((d % 10) + 48) as char
}

/// The number four bytes make read little-endian, as `u32::from_le_bytes`.
pub open spec fn le_u32(b: Seq<u8>) -> nat {
    (b[0] + 256 * b[1] + 65536 * b[2] + 16777216 * b[3]) as nat
}

fn digit_char(d: u32) -> (r: char)
    requires
        d < 10,
    ensures
        r == digit_of(d as nat),
{
    ((d + 48) as u8) as char
}

/// The six-digit code `n` makes: its value below a million, zero-padded.
pub fn pin_from(n: u32) -> (r: String)
    ensures
        r@ == six_digits(n as nat % 1000000),
{
    let v = n % 1000000;
    let mut out: Vec<char> = Vec::new();
    out.push(digit_char(v / 100000 % 10));
    out.push(digit_char(v / 10000 % 10));
    out.push(digit_char(v / 1000 % 10));
    out.push(digit_char(v / 100 % 10));
    out.push(digit_char(v / 10 % 10));
    out.push(digit_char(v % 10));
    assert(out@ =~= six_digits(n as nat % 1000000));
    string_of(&out)
}

/// The code four random bytes make.
pub fn pin_of_bytes(bytes: [u8; 4]) -> (r: String)
    ensures
        r@ == six_digits(le_u32(bytes@) % 1000000),
{
    let n: u32 = bytes[0] as u32 + 256 * (bytes[1] as u32) + 65536 * (bytes[2] as u32) + 16777216 * (
    bytes[3] as u32);
    pin_from(n)
}

/// A six-digit pairing code, from the OS's randomness, and whether it came
/// from there.
///
/// Where the OS has none the code comes from the clock's nanoseconds, which
/// is weak but keeps pairing possible: the code is one of a million, good for
/// two minutes, and dies after three wrong guesses. A weak code must not be a
/// silent one, so the second half says so and the caller tells the person.
pub fn draw_pin() -> (r: (String, bool))
    ensures
        exists|n: nat| n < 1000000 && r.0@ == six_digits(n),
{
    let mut bytes = [0u8; 4];
    if os_random(&mut bytes) {
        return (pin_of_bytes(bytes), true);
    }
    let nanos: u32 = match since_epoch(&wall_clock()) {
        Some(d) => part_second_nanos(&d),
        None => 0,
    };
    (pin_from(nanos), false)
}

/// A six-digit pairing code, as [`draw_pin`] draws it.
pub fn new_pin() -> (r: String)
    ensures
        exists|n: nat| n < 1000000 && r@ == six_digits(n),
{
    draw_pin().0
}

} // verus!
