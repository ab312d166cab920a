//! The Fiat-Shamir transcript: labelled messages appended one behind the
//! other, the challenges derived from what was appended, and the adapters that
//! append field elements.
//!
//! A transcript keeps no list of what it was given: each operation folds its
//! arguments into the state. The model therefore names the steps. What a
//! transcript is after a run of appends is the state it started from with each
//! message folded in, in order; a challenge is a function of that state and
//! of the label.

use merlin::Transcript;
use vstd::prelude::*;

verus! {

#[verifier::external_type_specification]
#[verifier::external_body]
pub struct ExTranscript(Transcript);

/// The transcript that `merlin::Transcript::append_message` leaves when it
/// appends `message` under `label` to `transcript`.
pub uninterp spec fn appended(transcript: Transcript, label: Seq<u8>, message: Seq<u8>) -> Transcript;

/// `merlin::Transcript::append_message` absorbs the label, the length of the
/// message as four bytes, and the message into the state. What it leaves is a
/// function of the transcript, the label and the message. The call panics on a
/// message longer than `u32::MAX` bytes, which `requires` leaves out.
pub assume_specification[ Transcript::append_message ](
    transcript: &mut Transcript,
    label: &'static [u8],
    message: &[u8],
)
    requires
        message@.len() <= u32::MAX,
    ensures
        *final(transcript) == appended(*old(transcript), label@, message@),
;

/// The bytes that `merlin::Transcript::challenge_bytes` writes for a request
/// of `len` bytes under `label` to `transcript`.
pub uninterp spec fn challenge_output(transcript: Transcript, label: Seq<u8>, len: nat) -> Seq<u8>;

/// The transcript that `merlin::Transcript::challenge_bytes` leaves after a
/// request of `len` bytes under `label` to `transcript`.
pub uninterp spec fn challenged(transcript: Transcript, label: Seq<u8>, len: nat) -> Transcript;

/// Calls `merlin::Transcript::challenge_bytes` on a buffer of sixty-four
/// bytes. The call absorbs the label and the length of the buffer into the
/// state and fills the buffer from it: the bytes, and the transcript that is
/// left, are functions of the transcript, the label and the length.
#[verifier::external_body]
fn challenge_bytes_64(transcript: &mut Transcript, label: &'static [u8]) -> (bytes: [u8; 64])
    ensures
        bytes@ == challenge_output(*old(transcript), label@, 64),
        *final(transcript) == challenged(*old(transcript), label@, 64),
{
    let mut bytes = [0u8; 64];
    transcript.challenge_bytes(label, &mut bytes);
    bytes
}

/// The transcript that is left when `messages` are appended to `transcript`
/// one behind the other, each under `label`.
pub open spec fn appended_all(
    transcript: Transcript,
    label: Seq<u8>,
    messages: Seq<Seq<u8>>,
) -> Transcript
    decreases messages.len(),
{
    if messages.len() == 0 {
        transcript
    } else {
        appended(appended_all(transcript, label, messages.drop_last()), label, messages.last())
    }
}

/// Whether a transcript can take each of `messages`: none is longer than
/// `u32::MAX` bytes, the longest that a transcript can frame.
pub open spec fn appendable(messages: Seq<Seq<u8>>) -> bool {
    forall|i: int| 0 <= i < messages.len() ==> (#[trigger] messages[i]).len() <= u32::MAX
}

/// The canonical byte representation of a field element.
pub struct FieldRepr(pub Vec<u8>);

impl View for FieldRepr {
    type V = Seq<u8>;

    open spec fn view(&self) -> Seq<u8> {
        self.0@
    }
}

/// A value that can append itself to a transcript under a label.
pub trait AppendToTranscriptTrait {
    /// The messages that the value appends, in the order in which it appends them.
    open spec fn transcript_messages(&self) -> Seq<Seq<u8>> {
        arbitrary()
    }

    /// Appends the value to the transcript under `label`: what is left is the
    /// transcript with the value's messages appended in order, each under that
    /// label, and nothing else.
    fn append_to_transcript(&self, label: &'static [u8], transcript: &mut Transcript)
        requires
            appendable(self.transcript_messages()),
        ensures
            *final(transcript) == appended_all(
                *old(transcript),
                label@,
                self.transcript_messages(),
            ),
    ;
}

impl AppendToTranscriptTrait for FieldRepr {
    /// A field element is one message: its canonical bytes.
    open spec fn transcript_messages(&self) -> Seq<Seq<u8>> {
        seq![self@]
    }

    fn append_to_transcript(&self, label: &'static [u8], transcript: &mut Transcript)
        ensures
            *final(transcript) == appended(*old(transcript), label@, self@),
    {
        let ghost messages = self.transcript_messages();
        assert(messages[0].len() <= u32::MAX);
        transcript.append_message(label, self.0.as_slice());
        assert(messages.drop_last() =~= Seq::<Seq<u8>>::empty());
        assert(appended_all(*old(transcript), label@, messages.drop_last()) == *old(transcript));
    }
}

impl AppendToTranscriptTrait for [FieldRepr] {
    /// A sequence of field elements is one message for each element, in order.
    open spec fn transcript_messages(&self) -> Seq<Seq<u8>> {
        self@.map_values(|r: FieldRepr| r@)
    }

    fn append_to_transcript(&self, label: &'static [u8], transcript: &mut Transcript) {
        let ghost messages = self.transcript_messages();
        let mut i: usize = 0;
        while i < self.len()
            invariant
                i <= self.len(),
                messages == self.transcript_messages(),
                appendable(messages),
                *transcript == appended_all(*old(transcript), label@, messages.take(i as int)),
            decreases self.len() - i,
        {
            assert(self[i as int]@ == messages[i as int]);
            assert(self[i as int].transcript_messages()[0].len() <= u32::MAX);
            self[i].append_to_transcript(label, transcript);
            proof {
                let next = messages.take(i + 1);
                assert(next.drop_last() =~= messages.take(i as int));
                assert(next.last() == messages[i as int]);
            }
            i += 1;
        }
        assert(messages.take(i as int) =~= messages);
    }
}

/// A scalar that can be derived as a challenge from a transcript.
pub trait ChallengeTrait: Sized {
    /// The challenge that the given transcript yields under `label`.
    open spec fn challenge_of(label: Seq<u8>, transcript: Transcript) -> Self {
        arbitrary()
    }

    /// The transcript that deriving a challenge under `label` leaves of the
    /// given transcript.
    open spec fn after_challenge(label: Seq<u8>, transcript: Transcript) -> Transcript {
        arbitrary()
    }

    /// Derives a challenge under `label`. The challenge, and the transcript
    /// that is left, are functions of the label and of the transcript as it
    /// was, and of nothing else.
    fn challenge(label: &'static [u8], transcript: &mut Transcript) -> (c: Self)
        ensures
            c == Self::challenge_of(label@, *old(transcript)),
            *final(transcript) == Self::after_challenge(label@, *old(transcript)),
    ;
}

/// Sixty-four challenge bytes: what a field element is reduced from where the
/// challenge is to be uniform in the field.
impl ChallengeTrait for [u8; 64] {
    /// The array of the bytes that the transcript yields.
    open spec fn challenge_of(label: Seq<u8>, transcript: Transcript) -> Self {
        choose|bytes: [u8; 64]| bytes@ == challenge_output(transcript, label, 64)
    }

    /// The transcript after one request for sixty-four bytes.
    open spec fn after_challenge(label: Seq<u8>, transcript: Transcript) -> Transcript {
        challenged(transcript, label, 64)
    }

    fn challenge(label: &'static [u8], transcript: &mut Transcript) -> (c: Self)
        ensures
            c@ == challenge_output(*old(transcript), label@, 64),
    {
        let c = challenge_bytes_64(transcript, label);
        proof {
            let chosen = Self::challenge_of(label@, *old(transcript));
            assert(chosen@ == c@);
            assert(chosen =~= c);
        }
        c
    }
}

/// Appending a run of messages at once is appending its parts one behind the
/// other: the order of the messages is all that matters, not how they are
/// grouped into calls.
pub proof fn lemma_appended_all_concat(
    transcript: Transcript,
    label: Seq<u8>,
    first: Seq<Seq<u8>>,
    second: Seq<Seq<u8>>,
)
    ensures
        appended_all(transcript, label, first + second) == appended_all(
            appended_all(transcript, label, first),
            label,
            second,
        ),
    decreases second.len(),
{
    if second.len() == 0 {
        assert(first + second =~= first);
    } else {
        lemma_appended_all_concat(transcript, label, first, second.drop_last());
        assert((first + second).drop_last() =~= first + second.drop_last());
        assert((first + second).last() == second.last());
    }
}

/// Replaying a transcript yields the same challenge. Two transcripts that
/// started alike and were given the same messages under the same label are
/// alike, yield one challenge under one label, and are alike after it.
pub proof fn lemma_challenge_replay<S: ChallengeTrait>(
    start: Transcript,
    message_label: Seq<u8>,
    messages: Seq<Seq<u8>>,
    challenge_label: Seq<u8>,
    first: Transcript,
    second: Transcript,
)
    requires
        first == appended_all(start, message_label, messages),
        second == appended_all(start, message_label, messages),
    ensures
        first == second,
        S::challenge_of(challenge_label, first) == S::challenge_of(challenge_label, second),
        S::after_challenge(challenge_label, first) == S::after_challenge(challenge_label, second),
{
}

} // verus!
