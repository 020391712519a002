use std::sync::Mutex;

use hmac::{Hmac, Mac};
use sha2::{Digest, Sha256};
use vapor_app::peers::{
    accept_bytes, answer_fetch, authorise, draw_pin, encode, handle, respond, new_pin, pair_answer, pin_from, pin_of_bytes,
    serve_range, transfer_mac, transfer_transcript, Handshake, Library, PairOutcome, PairRequest,
    Trust,
    Reply, Request, MAX_BODY, MAX_REPLY, MAX_REQUEST,
};

#[derive(Clone, Copy, Debug, PartialEq)]
enum Kind {
    Phone,
    Desktop,
}

#[derive(Clone, Debug, PartialEq)]
struct Manifest {
    device_id: String,
}

/// An open pairing: the code, the device it is for, and the guesses left.
struct Pairing {
    pin: String,
    peer: String,
    attempts_left: u32,
}

/// A library that answers the questions, so every branch of the handler is
/// reachable without a socket.
struct Fixture {
    trust: Mutex<Trust>,
    pairing: Mutex<Option<Pairing>>,
    tracks: Vec<(String, Vec<u8>)>,
}

/// The key a `trusting` fixture shares with its peer.
const SHARED: [u8; 32] = [0x5a; 32];

fn sha_hex(bytes: &[u8]) -> String {
    Sha256::digest(bytes).iter().map(|b| format!("{b:02x}")).collect()
}

impl Fixture {
    fn new() -> Self {
        Fixture {
            trust: Mutex::new(Trust::new()),
            pairing: Mutex::new(None),
            tracks: vec![("/music/a.m4a".to_string(), b"the audio".to_vec())],
        }
    }

    fn trusting(id: &str) -> Self {
        let f = Fixture::new();
        f.trust.lock().unwrap().add(id, Some(SHARED));
        f
    }

    fn opening(pin: &str, peer: &str) -> Self {
        let f = Fixture::new();
        *f.pairing.lock().unwrap() = Some(Pairing {
            pin: pin.to_string(),
            peer: peer.to_string(),
            attempts_left: 3,
        });
        f
    }

    /// A device recorded before pairing derived keys: listed, with none.
    fn stale(id: &str) -> Self {
        let f = Fixture::new();
        f.trust.lock().unwrap().add(id, None);
        f
    }
}

impl Library for Fixture {
    type Kind = Kind;
    type Manifest = Manifest;

    fn trust(&self) -> Trust {
        self.trust.lock().unwrap().clone()
    }

    fn pair(&self, request: PairRequest<'_, Kind>) -> (PairOutcome, String) {
        let mut pairing = self.pairing.lock().unwrap();
        let Some(open) = pairing.as_mut() else {
            return (PairOutcome::Refused, String::new());
        };
        if open.peer != request.device_id || open.attempts_left == 0 {
            return (PairOutcome::Refused, String::new());
        }
        if open.pin != request.pin {
            open.attempts_left -= 1;
            return (PairOutcome::WrongPin { attempts_left: open.attempts_left }, String::new());
        }
        let Some(handshake) = Handshake::begin() else {
            return (PairOutcome::Refused, String::new());
        };
        let Some(key) = handshake.finish(request.public_key, "us", request.device_id) else {
            return (PairOutcome::Refused, String::new());
        };
        self.trust.lock().unwrap().add(request.device_id, Some(key));
        (PairOutcome::Paired, handshake.public_key())
    }

    fn manifest(&self) -> Manifest {
        Manifest { device_id: "us".into() }
    }

    fn read_track(&self, href: &str) -> Option<Vec<u8>> {
        self.tracks.iter().find(|(h, _)| h == href).map(|(_, b)| b.clone())
    }

    fn identity(&self) -> (String, String, Kind) {
        ("us".into(), "This Mac".into(), Kind::Desktop)
    }

    fn digest(&self, bytes: &[u8]) -> String {
        sha_hex(bytes)
    }
}

fn fetch(href: &str) -> Request<Kind> {
    Request::Fetch { device_id: "them".into(), href: href.into(), offset: 0, len: 1024 }
}

fn pair_request(peer: &str, pin: &str, handshake: &Handshake) -> Request<Kind> {
    Request::Pair {
        device_id: peer.into(),
        name: "Phone".into(),
        device_kind: Kind::Phone,
        pin: pin.into(),
        public_key: handshake.public_key(),
    }
}

#[test]
fn an_unpaired_device_cannot_read_the_library() {
    let library = Fixture::new();

    let (reply, body) = handle(&library, &fetch("/music/a.m4a"));

    assert!(matches!(reply, Reply::Refused { .. }));
    assert!(body.is_none());
}

#[test]
fn an_unpaired_device_cannot_read_the_manifest_either() {
    let library = Fixture::new();

    let (reply, _) = handle(&library, &Request::Manifest { device_id: "them".into() });

    assert!(matches!(reply, Reply::Refused { .. }));
}

#[test]
fn the_refusal_does_not_say_which_part_was_wrong() {
    let library = Fixture::new();

    let (known, _) = handle(&library, &fetch("/music/a.m4a"));
    let (unknown, _) = handle(&library, &fetch("/not/here.m4a"));

    let text = |r: Reply<Manifest>| match r {
        Reply::Refused { reason } => reason,
        other => panic!("expected a refusal, got {other:?}"),
    };
    assert_eq!(text(known), text(unknown));
}

#[test]
fn a_paired_device_is_served() {
    let library = Fixture::trusting("them");

    let (reply, body) = handle(&library, &fetch("/music/a.m4a"));

    match reply {
        Reply::Bytes { len, total, digest, .. } => {
            assert_eq!(len, 9);
            assert_eq!(total, 9);
            assert_eq!(digest, sha_hex(b"the audio"));
        }
        other => panic!("expected bytes, got {other:?}"),
    }
    assert_eq!(body.as_deref(), Some(&b"the audio"[..]));
}

#[test]
fn a_paired_device_reads_the_manifest() {
    let library = Fixture::trusting("them");
    let (reply, body) = handle(&library, &Request::Manifest { device_id: "them".into() });
    match reply {
        Reply::Manifest(m) => assert_eq!(m.device_id, "us"),
        other => panic!("expected a manifest, got {other:?}"),
    }
    assert!(body.is_none());
}

#[test]
fn a_path_that_is_not_a_track_in_the_library_is_simply_not_there() {
    let library = Fixture::trusting("them");

    for attempt in ["../../../../etc/passwd", "/etc/passwd", "/music/../../../secrets"] {
        let (reply, body) = handle(&library, &fetch(attempt));
        assert!(matches!(reply, Reply::Error { .. }), "{attempt} was not refused");
        assert!(body.is_none());
    }
}

#[test]
fn a_range_past_the_end_returns_nothing_rather_than_an_error() {
    let library = Fixture::trusting("them");

    let (reply, body) = handle(
        &library,
        &Request::Fetch { device_id: "them".into(), href: "/music/a.m4a".into(), offset: 9, len: 1024 },
    );

    assert!(matches!(reply, Reply::Bytes { len: 0, .. }));
    assert_eq!(body.as_deref(), Some(&b""[..]));
}

#[test]
fn a_partial_range_is_served_from_the_offset() {
    let library = Fixture::trusting("them");

    let (_, body) = handle(
        &library,
        &Request::Fetch { device_id: "them".into(), href: "/music/a.m4a".into(), offset: 4, len: 3 },
    );

    assert_eq!(body.as_deref(), Some(&b"aud"[..]));
}

#[test]
fn a_range_that_would_overflow_is_cut_at_the_end() {
    let (reply, body) = serve_range::<Manifest>(&SHARED, "/x", 2, u64::MAX, b"abcdef", "d".into());
    assert_eq!(body.as_deref(), Some(&b"cdef"[..]));
    assert!(matches!(reply, Reply::Bytes { len: 4, total: 6, .. }));
}

#[test]
fn the_right_pin_pairs_and_the_wrong_one_does_not() {
    let library = Fixture::opening("482913", "them");
    let handshake = Handshake::begin().expect("the test machine has randomness");

    let wrong = pair_request("them", "000000", &handshake);
    assert!(matches!(handle(&library, &wrong).0, Reply::Refused { .. }));

    let right = pair_request("them", "482913", &handshake);
    assert!(matches!(handle(&library, &right).0, Reply::Paired { .. }));
    assert!(matches!(handle(&library, &fetch("/music/a.m4a")).0, Reply::Bytes { .. }));
}

#[test]
fn pairing_with_a_device_that_is_not_asking_fails() {
    let library = Fixture::new();

    let handshake = Handshake::begin().expect("the test machine has randomness");
    let (reply, _) = handle(&library, &pair_request("them", "482913", &handshake));

    assert!(matches!(reply, Reply::Refused { .. }));
}

#[test]
fn a_wrong_code_says_how_many_guesses_are_left() {
    let library = Fixture::opening("482913", "them");
    let handshake = Handshake::begin().expect("randomness");
    match handle(&library, &pair_request("them", "111111", &handshake)).0 {
        Reply::Refused { reason } => assert_eq!(reason, "wrong code \u{2014} 2 left"),
        other => panic!("expected a refusal, got {other:?}"),
    }
}

#[test]
fn each_pairing_outcome_has_its_answer() {
    let refused: Option<Reply<Manifest>> = pair_answer(PairOutcome::Refused, "");
    match refused {
        Some(Reply::Refused { reason }) => assert_eq!(reason, "pairing is not open on that device"),
        other => panic!("got {other:?}"),
    }
    let keyless: Option<Reply<Manifest>> = pair_answer(PairOutcome::Paired, "");
    match keyless {
        Some(Reply::Refused { reason }) => {
            assert_eq!(reason, "that device could not complete the pairing exchange")
        }
        other => panic!("got {other:?}"),
    }
    let paired: Option<Reply<Manifest>> = pair_answer(PairOutcome::Paired, "a key");
    assert!(paired.is_none());
    let wrong: Option<Reply<Manifest>> = pair_answer(PairOutcome::WrongPin { attempts_left: 0 }, "");
    match wrong {
        Some(Reply::Refused { reason }) => assert_eq!(reason, "wrong code \u{2014} 0 left"),
        other => panic!("got {other:?}"),
    }
}

#[test]
fn only_a_pairing_request_passes_the_gate_unpaired() {
    let pair = Request::Pair {
        device_id: "x".into(),
        name: "n".into(),
        device_kind: Kind::Phone,
        pin: "1".into(),
        public_key: String::new(),
    };
    assert!(authorise::<Kind, Manifest>(false, &pair).is_none());
    assert!(authorise::<Kind, Manifest>(true, &fetch("/a")).is_none());
    match authorise::<Kind, Manifest>(false, &fetch("/a")) {
        Some(Reply::Refused { reason }) => assert_eq!(reason, "not paired with this device"),
        other => panic!("got {other:?}"),
    }
    assert_eq!(fetch("/a").device_id(), "them");
    assert!(pair.is_pairing());
    assert!(!fetch("/a").is_pairing());
}

#[test]
fn a_pin_is_six_digits() {
    for _ in 0..50 {
        let pin = new_pin();
        assert_eq!(pin.len(), 6, "{pin}");
        assert!(pin.chars().all(|c| c.is_ascii_digit()), "{pin}");
    }
}

#[test]
fn a_code_is_the_number_below_a_million_zero_padded() {
    assert_eq!(pin_from(42), "000042");
    assert_eq!(pin_from(1_234_567), "234567");
    assert_eq!(pin_from(u32::MAX), "967295");
    assert_eq!(pin_of_bytes([0x2a, 0, 0, 0]), "000042");
    assert_eq!(pin_of_bytes([0xff, 0xff, 0xff, 0xff]), "967295");
}

#[test]
fn the_bounds_are_the_ones_the_protocol_names() {
    assert_eq!(MAX_REQUEST, 64 * 1024);
    assert_eq!(MAX_REPLY, 32 * 1024 * 1024);
    assert_eq!(MAX_BODY, 8 * 1024 * 1024);
}

#[test]
fn the_transcript_prefixes_every_field_with_its_length() {
    let t = transfer_transcript("/a", 1, 2, 3, "d", b"xy");
    let mut expected = Vec::new();
    for field in [
        b"vapor-sync/bytes/v1".to_vec(),
        b"/a".to_vec(),
        1u64.to_le_bytes().to_vec(),
        2u64.to_le_bytes().to_vec(),
        3u64.to_le_bytes().to_vec(),
        b"d".to_vec(),
        b"xy".to_vec(),
    ] {
        expected.extend_from_slice(&(field.len() as u64).to_le_bytes());
        expected.extend_from_slice(&field);
    }
    assert_eq!(t, expected);
    // Moving a separator between two fields is a different transcript.
    assert_ne!(transfer_transcript("/a/b", 0, 0, 0, "c", b""), transfer_transcript("/a", 0, 0, 0, "b/c", b""));
}

fn served(href: &str) -> (Reply<Manifest>, Vec<u8>) {
    let library = Fixture::trusting("them");
    let (reply, body) = handle(&library, &fetch(href));
    (reply, body.expect("a served track has a body"))
}

#[test]
fn a_genuine_reply_from_a_paired_device_is_accepted() {
    let (reply, body) = served("/music/a.m4a");

    let (len, total, digest) =
        accept_bytes(&SHARED, "/music/a.m4a", 0, reply, &body).expect("this one is real");

    assert_eq!((len, total), (9, 9));
    assert_eq!(digest, sha_hex(b"the audio"));
}

#[test]
fn a_reply_whose_bytes_were_changed_on_the_way_is_refused() {
    let (reply, _) = served("/music/a.m4a");
    let Reply::Bytes { mac, .. } = reply else {
        panic!("expected bytes");
    };

    let substituted = b"not the audio".to_vec();
    let rewritten: Reply<Manifest> = Reply::Bytes {
        len: substituted.len() as u64,
        total: substituted.len() as u64,
        digest: sha_hex(&substituted),
        mac,
    };

    let err = accept_bytes(&SHARED, "/music/a.m4a", 0, rewritten, &substituted)
        .expect_err("substituted audio must not be accepted");

    assert!(err.contains("not signed"), "got {err:?}");
}

#[test]
fn a_reply_with_a_correct_digest_and_no_mac_is_refused() {
    let unsigned: Reply<Manifest> = Reply::Bytes {
        len: 9,
        total: 9,
        digest: sha_hex(b"the audio"),
        mac: String::new(),
    };

    let err = accept_bytes(&SHARED, "/music/a.m4a", 0, unsigned, b"the audio")
        .expect_err("an unsigned reply must not be accepted");

    assert!(err.contains("not signed"), "got {err:?}");
}

#[test]
fn a_reply_signed_with_the_wrong_key_is_refused() {
    let body = b"the audio";
    let digest = sha_hex(body);
    let theirs: Reply<Manifest> = Reply::Bytes {
        len: 9,
        total: 9,
        digest: digest.clone(),
        mac: transfer_mac(&[0x11; 32], "/music/a.m4a", 0, 9, 9, &digest, body),
    };

    let err = accept_bytes(&SHARED, "/music/a.m4a", 0, theirs, body)
        .expect_err("someone else's signature must not be accepted");

    assert!(err.contains("not signed"), "got {err:?}");
}

#[test]
fn a_signed_chunk_is_not_a_valid_answer_to_a_different_question() {
    let (reply, body) = served("/music/a.m4a");

    let err = accept_bytes(&SHARED, "/music/b.m4a", 0, reply, &body)
        .expect_err("a reply for one track must not answer for another");

    assert!(err.contains("not signed"), "got {err:?}");
}

#[test]
fn a_signed_chunk_is_not_a_valid_answer_at_a_different_offset() {
    let (reply, body) = served("/music/a.m4a");

    let err = accept_bytes(&SHARED, "/music/a.m4a", 4, reply, &body)
        .expect_err("a reply for one offset must not answer for another");

    assert!(err.contains("not signed"), "got {err:?}");
}

#[test]
fn a_refusal_or_another_kind_of_reply_is_not_bytes() {
    let refused: Reply<Manifest> = Reply::Refused { reason: "no".into() };
    assert_eq!(accept_bytes(&SHARED, "/a", 0, refused, b""), Err("no".to_string()));
    let error: Reply<Manifest> = Reply::Error { reason: "gone".into() };
    assert_eq!(accept_bytes(&SHARED, "/a", 0, error, b""), Err("gone".to_string()));
    let manifest: Reply<Manifest> = Reply::Manifest(Box::new(Manifest { device_id: "x".into() }));
    assert_eq!(
        accept_bytes(&SHARED, "/a", 0, manifest, b""),
        Err("that device answered with something else".to_string())
    );
}

#[test]
fn a_mac_is_the_base64_of_the_hmac_of_the_transcript() {
    let transcript = transfer_transcript("/a", 0, 2, 2, "d", b"hi");
    let mut mac = <Hmac<Sha256> as Mac>::new_from_slice(&SHARED).expect("any key");
    mac.update(&transcript);
    let tag = mac.finalize().into_bytes();
    assert_eq!(transfer_mac(&SHARED, "/a", 0, 2, 2, "d", b"hi"), encode(&tag));
    assert_eq!(encode(b"hi"), "aGk=");
}

#[test]
fn both_sides_of_a_pairing_derive_the_same_key() {
    let a = Handshake::begin().expect("the test machine has randomness");
    let b = Handshake::begin().expect("the test machine has randomness");

    let theirs = a.finish(&b.public_key(), "device-a", "device-b");
    let ours = b.finish(&a.public_key(), "device-b", "device-a");

    assert!(theirs.is_some());
    assert_eq!(theirs, ours, "the ids are sorted so the roles do not matter");
}

#[test]
fn a_third_device_derives_a_different_key() {
    let a = Handshake::begin().expect("randomness");
    let b = Handshake::begin().expect("randomness");
    let c = Handshake::begin().expect("randomness");

    let with_b = a.finish(&b.public_key(), "device-a", "device-b");
    let with_c = a.finish(&c.public_key(), "device-a", "device-c");

    assert!(with_b.is_some() && with_c.is_some());
    assert_ne!(with_b, with_c);
}

#[test]
fn the_key_is_bound_to_the_two_device_ids() {
    let a = Handshake::begin().expect("randomness");
    let b = Handshake::begin().expect("randomness");

    let honest = a.finish(&b.public_key(), "device-a", "device-b");
    let renamed = a.finish(&b.public_key(), "device-a", "device-z");

    assert_ne!(honest, renamed);
}

#[test]
fn a_public_key_that_forces_a_known_secret_is_refused() {
    let mine = Handshake::begin().expect("randomness");
    let all_zero = encode(&[0u8; 32]);

    assert_eq!(mine.finish(&all_zero, "device-a", "device-b"), None);
}

#[test]
fn a_public_key_that_is_not_a_key_is_refused() {
    let mine = Handshake::begin().expect("randomness");

    assert_eq!(mine.finish("", "device-a", "device-b"), None);
    assert_eq!(mine.finish("not base64 at all!", "device-a", "device-b"), None);
    assert_eq!(mine.finish(&encode(b"too short"), "device-a", "device-b"), None);
}

#[test]
fn a_pairing_request_that_carries_no_public_key_is_refused() {
    let library = Fixture::opening("482913", "them");

    let (reply, _) = handle(
        &library,
        &Request::Pair {
            device_id: "them".into(),
            name: "Phone".into(),
            device_kind: Kind::Phone,
            pin: "482913".into(),
            public_key: String::new(),
        },
    );

    assert!(matches!(reply, Reply::Refused { .. }), "got {reply:?}");
    assert!(!library.trust().allows("them"), "and nothing was written down");
}

#[test]
fn a_device_paired_before_there_were_keys_is_served_nothing() {
    let library = Fixture::stale("them");

    let (reply, body) = handle(&library, &fetch("/music/a.m4a"));

    assert!(matches!(reply, Reply::Refused { .. }), "got {reply:?}");
    assert!(body.is_none());
}

#[test]
fn a_stale_pairing_is_refused_in_the_same_words_as_a_stranger() {
    let stale = Fixture::stale("them");

    let text = |library: &Fixture| match handle(library, &fetch("/music/a.m4a")).0 {
        Reply::Refused { reason } => reason,
        other => panic!("expected a refusal, got {other:?}"),
    };

    assert_eq!(text(&stale), text(&Fixture::new()));
}

#[test]
fn a_fetch_is_answered_with_the_range_asked_for_or_not_held() {
    let missing: (Reply<Manifest>, _) = answer_fetch(&SHARED, "/x", 0, 4, None);
    assert!(matches!(missing, (Reply::Error { ref reason }, None) if reason == "not in this library"));

    let (reply, body): (Reply<Manifest>, _) =
        answer_fetch(&SHARED, "/x", 2, 3, Some((b"abcdefg".to_vec(), "d".to_string())));
    let body = body.expect("a body");
    assert_eq!(body, b"cde".to_vec());
    assert_eq!(accept_bytes(&SHARED, "/x", 2, reply, &body), Ok((3, 7, "d".to_string())));
}

#[test]
fn a_device_that_is_not_trusted_is_refused_whatever_the_library_holds() {
    let library = Fixture::trusting("them");
    let (reply, body) = respond(&library, &fetch("/music/a.m4a"), &Trust::new());
    assert!(body.is_none());
    assert!(matches!(reply, Reply::Refused { ref reason } if reason == "not paired with this device"));
    let (reply, body) = respond(&library, &fetch("/music/a.m4a"), &library.trust());
    assert!(matches!(reply, Reply::Bytes { len: 9, .. }));
    assert_eq!(body, Some(b"the audio".to_vec()));
}

#[test]
fn a_served_range_is_accepted_as_the_answer_to_its_own_question() {
    let library = Fixture::trusting("them");
    let request = Request::Fetch {
        device_id: "them".into(),
        href: "/music/a.m4a".into(),
        offset: 4,
        len: 3,
    };
    let (reply, body) = handle(&library, &request);
    let body = body.expect("a body");
    assert_eq!(body, b"aud".to_vec());
    let (len, total, _) = accept_bytes(&SHARED, "/music/a.m4a", 4, reply, &body).expect("accepted");
    assert_eq!((len, total), (3, 9));
}

#[test]
fn a_trusted_device_gets_the_manifest_and_a_pairing_is_never_told_it_is_unpaired() {
    let library = Fixture::trusting("them");
    let (reply, body) =
        respond(&library, &Request::Manifest { device_id: "them".into() }, &library.trust());
    assert!(matches!(reply, Reply::Manifest(ref m) if m.device_id == "us"));
    assert!(body.is_none());

    let closed = Fixture::new();
    let handshake = Handshake::begin().expect("randomness");
    let mut trusting = Trust::new();
    trusting.add("them", Some(SHARED));
    for trust in [Trust::new(), trusting] {
        let (reply, body) = respond(&closed, &pair_request("them", "123456", &handshake), &trust);
        assert!(body.is_none());
        assert!(matches!(reply, Reply::Refused { ref reason } if reason != "not paired with this device"));
    }
}

#[test]
fn a_mac_that_is_not_base64_is_not_signed() {
    let (reply, body) = served("/music/a.m4a");
    let Reply::Bytes { len, total, digest, .. } = reply else {
        panic!("expected bytes");
    };
    let forged: Reply<Manifest> = Reply::Bytes { len, total, digest, mac: "!!not base64!!".into() };
    let err = accept_bytes(&SHARED, "/music/a.m4a", 0, forged, &body).expect_err("refused");
    assert!(err.contains("not signed"));
}

#[test]
fn both_ends_of_a_handshake_hold_one_key_and_nothing_pairs_with_nothing() {
    let a = Handshake::begin().expect("randomness");
    let b = Handshake::begin().expect("randomness");
    let ka = a.finish(&b.public_key(), "x", "y").expect("a pairs");
    let kb = b.finish(&a.public_key(), "y", "x").expect("b pairs");
    assert_eq!(ka, kb);
    assert_eq!(a.finish(&encode(&[0u8; 32]), "x", "y"), None);
    assert_eq!(a.finish("", "x", "y"), None);
}

#[test]
fn a_drawn_code_says_where_it_came_from() {
    let (pin, from_os) = draw_pin();
    assert_eq!(pin.len(), 6);
    assert!(pin.chars().all(|c| c.is_ascii_digit()));
    assert!(from_os, "this machine has OS randomness");
}

#[test]
fn trust_is_in_the_last_key_recorded_for_a_device() {
    let mut trust = Trust::new();
    assert!(!trust.allows("them"));
    trust.add("them", None);
    assert!(!trust.allows("them"));
    assert_eq!(trust.key("them"), None);
    trust.add("them", Some(SHARED));
    trust.add("other", Some([1; 32]));
    assert!(trust.allows("them"));
    assert_eq!(trust.key("them"), Some(SHARED));
    assert_eq!(trust.key("other"), Some([1; 32]));
    assert!(!trust.allows("nobody"));
}
