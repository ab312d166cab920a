use merlin::Transcript;
use nova_traits::{AppendToTranscriptTrait, ChallengeTrait, FieldRepr};

fn fresh() -> Transcript {
    Transcript::new(b"transcript tests")
}

fn wide(transcript: &mut Transcript, label: &'static [u8]) -> [u8; 64] {
    <[u8; 64] as ChallengeTrait>::challenge(label, transcript)
}

fn direct(transcript: &mut Transcript, label: &'static [u8]) -> [u8; 64] {
    let mut bytes = [0u8; 64];
    transcript.challenge_bytes(label, &mut bytes);
    bytes
}

fn repr(bytes: &[u8]) -> FieldRepr {
    FieldRepr(bytes.to_vec())
}

#[test]
fn field_repr_appends_its_bytes_as_one_message() {
    let element = repr(&[3u8; 32]);
    let mut by_adapter = fresh();
    element.append_to_transcript(b"element", &mut by_adapter);

    let mut by_hand = fresh();
    by_hand.append_message(b"element", &[3u8; 32]);

    assert_eq!(direct(&mut by_adapter, b"c"), direct(&mut by_hand, b"c"));
}

#[test]
fn field_repr_append_is_not_a_no_op() {
    let mut appended = fresh();
    repr(&[1, 2, 3]).append_to_transcript(b"element", &mut appended);
    let mut untouched = fresh();
    assert_ne!(direct(&mut appended, b"c"), direct(&mut untouched, b"c"));
}

#[test]
fn empty_repr_is_still_a_message() {
    let mut appended = fresh();
    repr(&[]).append_to_transcript(b"element", &mut appended);

    let mut by_hand = fresh();
    by_hand.append_message(b"element", &[]);
    assert_eq!(direct(&mut appended.clone(), b"c"), direct(&mut by_hand, b"c"));

    let mut untouched = fresh();
    assert_ne!(direct(&mut appended, b"c"), direct(&mut untouched, b"c"));
}

#[test]
fn slice_appends_each_element_in_order() {
    let elements = vec![repr(&[1u8; 32]), repr(&[2u8; 32]), repr(&[3u8; 32])];
    let mut by_adapter = fresh();
    elements[..].append_to_transcript(b"v", &mut by_adapter);

    let mut by_hand = fresh();
    by_hand.append_message(b"v", &[1u8; 32]);
    by_hand.append_message(b"v", &[2u8; 32]);
    by_hand.append_message(b"v", &[3u8; 32]);

    assert_eq!(direct(&mut by_adapter, b"c"), direct(&mut by_hand, b"c"));
}

#[test]
fn slice_is_the_elements_one_by_one() {
    let elements = vec![repr(&[9u8; 4]), repr(&[8u8; 5])];
    let mut whole = fresh();
    elements[..].append_to_transcript(b"v", &mut whole);

    let mut one_by_one = fresh();
    elements[0].append_to_transcript(b"v", &mut one_by_one);
    elements[1].append_to_transcript(b"v", &mut one_by_one);

    assert_eq!(wide(&mut whole, b"c"), wide(&mut one_by_one, b"c"));
}

#[test]
fn slice_order_matters() {
    let forward = vec![repr(&[1u8; 32]), repr(&[2u8; 32])];
    let backward = vec![repr(&[2u8; 32]), repr(&[1u8; 32])];
    let mut first = fresh();
    forward[..].append_to_transcript(b"v", &mut first);
    let mut second = fresh();
    backward[..].append_to_transcript(b"v", &mut second);
    assert_ne!(wide(&mut first, b"c"), wide(&mut second, b"c"));
}

#[test]
fn message_boundaries_matter() {
    let joined = vec![repr(&[1, 2, 3, 4])];
    let split = vec![repr(&[1, 2]), repr(&[3, 4])];
    let mut first = fresh();
    joined[..].append_to_transcript(b"v", &mut first);
    let mut second = fresh();
    split[..].append_to_transcript(b"v", &mut second);
    assert_ne!(wide(&mut first, b"c"), wide(&mut second, b"c"));
}

#[test]
fn empty_slice_appends_nothing() {
    let none: Vec<FieldRepr> = Vec::new();
    let mut appended = fresh();
    none[..].append_to_transcript(b"v", &mut appended);
    let mut untouched = fresh();
    assert_eq!(direct(&mut appended, b"c"), direct(&mut untouched, b"c"));
}

#[test]
fn challenge_is_what_the_transcript_yields() {
    let mut first = fresh();
    first.append_message(b"m", b"some data");
    let mut second = first.clone();

    let by_trait = wide(&mut first, b"challenge");
    let by_hand = direct(&mut second, b"challenge");
    assert_eq!(by_trait, by_hand);
    assert_ne!(by_trait, [0u8; 64]);

    // Both transcripts have recorded the request alike.
    assert_eq!(direct(&mut first, b"next"), direct(&mut second, b"next"));
}

#[test]
fn replayed_transcript_yields_the_same_challenge() {
    let elements = vec![repr(&[7u8; 32]), repr(&[0u8; 32]), repr(&[255u8; 32])];
    let mut first = fresh();
    let mut second = fresh();
    for transcript in [&mut first, &mut second] {
        repr(b"statement").append_to_transcript(b"x", transcript);
        elements[..].append_to_transcript(b"w", transcript);
    }
    let a = wide(&mut first, b"r");
    let b = wide(&mut second, b"r");
    assert_eq!(a, b);
    // And again: the second challenge of each is the same too.
    assert_eq!(wide(&mut first, b"r"), wide(&mut second, b"r"));
}

#[test]
fn deriving_a_challenge_is_recorded() {
    let mut transcript = fresh();
    repr(&[1u8; 32]).append_to_transcript(b"x", &mut transcript);
    let first = wide(&mut transcript, b"r");
    let second = wide(&mut transcript, b"r");
    assert_ne!(first, second);
}

#[test]
fn appending_after_a_challenge_changes_the_next_one() {
    let mut with_more = fresh();
    let mut without = fresh();
    assert_eq!(wide(&mut with_more, b"r"), wide(&mut without, b"r"));
    repr(&[5u8; 32]).append_to_transcript(b"x", &mut with_more);
    assert_ne!(wide(&mut with_more, b"r"), wide(&mut without, b"r"));
}

#[test]
fn challenge_label_matters() {
    let mut first = fresh();
    let mut second = fresh();
    assert_ne!(wide(&mut first, b"alpha"), wide(&mut second, b"beta"));
}

#[test]
fn message_label_matters() {
    let mut first = fresh();
    let mut second = fresh();
    repr(&[1u8; 32]).append_to_transcript(b"left", &mut first);
    repr(&[1u8; 32]).append_to_transcript(b"right", &mut second);
    assert_ne!(wide(&mut first, b"r"), wide(&mut second, b"r"));
}

#[test]
fn any_flipped_bit_of_a_message_changes_the_challenge() {
    let message: Vec<u8> = (0u8..32).collect();
    let mut unchanged = fresh();
    repr(&message).append_to_transcript(b"x", &mut unchanged);
    let expected = wide(&mut unchanged, b"r");

    let mut seen = vec![expected];
    for byte in 0..message.len() {
        for bit in 0..8 {
            let mut changed = message.clone();
            changed[byte] ^= 1 << bit;
            let mut transcript = fresh();
            repr(&changed).append_to_transcript(b"x", &mut transcript);
            let challenge = wide(&mut transcript, b"r");
            assert!(!seen.contains(&challenge));
            seen.push(challenge);
        }
    }
    assert_eq!(seen.len(), 1 + 32 * 8);
}

#[test]
fn any_changed_element_of_a_slice_changes_the_challenge() {
    let elements: Vec<FieldRepr> = (0u8..16).map(|i| repr(&[i; 32])).collect();
    let mut unchanged = fresh();
    elements[..].append_to_transcript(b"v", &mut unchanged);
    let expected = wide(&mut unchanged, b"r");

    for position in 0..elements.len() {
        let changed: Vec<FieldRepr> = (0u8..16)
            .map(|i| {
                if i as usize == position {
                    repr(&[i ^ 0x80; 32])
                } else {
                    repr(&[i; 32])
                }
            })
            .collect();
        let mut transcript = fresh();
        changed[..].append_to_transcript(b"v", &mut transcript);
        assert_ne!(wide(&mut transcript, b"r"), expected);
    }
}
