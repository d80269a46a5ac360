//! Recording from the microphone: the samples that wait to be transcribed, the transcript that
//! grows, and when a recording may start and stop.

use vstd::prelude::*;
use crate::http::concat;
use crate::text::{
    begins_with, decimal, decimal_of, finishes_with, joined, law_decimal_reads_back,
    lemma_decimal_is_injective, lemma_joined_push, number_in,
};
use crate::wav::{
    can_encode, data_start, encodable, encode_wav_bytes, law_wav_header_reads_back,
    law_wav_reads_back, read16, read32, read_sample, wav_file,
};

verus! {

// ---------------------------------------------------------------------------------------------
// The transcript
// ---------------------------------------------------------------------------------------------

/// The transcript after one more piece of text: a blank stands between two pieces, and an empty
/// piece adds nothing.
pub open spec fn extended(transcript: Seq<char>, piece: Seq<char>) -> Seq<char> {
    if piece.len() == 0 {
        transcript
    } else if transcript.len() == 0 {
        piece
    } else {
        transcript + " "@ + piece
    }
}

// ---------------------------------------------------------------------------------------------
// A recording
// ---------------------------------------------------------------------------------------------

/// A recording that is going on.
pub struct Recording {
    queue: Vec<i16>,
    transcript: String,
    sample_rate: u32,
    channels: u16,
}

/// The model of a recording.
#[verifier::ext_equal]
pub struct RecordingState {
    /// The samples that wait to be transcribed.
    pub queue: Seq<i16>,
    /// What has been transcribed.
    pub transcript: Seq<char>,
    pub sample_rate: int,
    pub channels: int,
}

impl RecordingState {
    /// How many samples a second of sound has.
    pub open spec fn samples_per_second(self) -> int {
        self.sample_rate * self.channels
    }

    /// The recording after more sound came in.
    pub open spec fn with_sound(self, samples: Seq<i16>) -> RecordingState {
        RecordingState { queue: self.queue + samples, ..self }
    }

    /// The recording with nothing left to transcribe.
    pub open spec fn drained(self) -> RecordingState {
        RecordingState { queue: Seq::empty(), ..self }
    }

    /// The recording after a piece of it was transcribed.
    pub open spec fn with_text(self, piece: Seq<char>) -> RecordingState {
        RecordingState { transcript: extended(self.transcript, piece), ..self }
    }

    /// Whether the waiting samples are worth transcribing while the recording goes on: two seconds.
    pub open spec fn has_chunk(self) -> bool {
        self.queue.len() >= self.samples_per_second() * 2
    }

    /// The recording after a look at whether there is something to transcribe: samples leave only
    /// to be transcribed.
    pub open spec fn ticked(self, has_key: bool) -> RecordingState {
        if has_key && self.has_chunk() {
            self.drained()
        } else {
            self
        }
    }

    /// Whether the waiting samples are worth transcribing when the recording ends: half a second.
    pub open spec fn has_tail(self) -> bool {
        self.queue.len() >= self.samples_per_second() / 2
    }

    /// Whether a WAV file can hold the waiting samples.
    pub open spec fn fits_wav(self) -> bool {
        encodable(self.queue.len(), self.sample_rate, self.channels)
    }

    /// The waiting samples as a WAV file.
    pub open spec fn wav(self) -> Seq<u8> {
        wav_file(self.queue, self.sample_rate, self.channels)
    }
}

impl View for Recording {
    type V = RecordingState;

    closed spec fn view(&self) -> RecordingState {
        RecordingState {
            queue: self.queue@,
            transcript: self.transcript@,
            sample_rate: self.sample_rate as int,
            channels: self.channels as int,
        }
    }
}

impl Recording {
    /// A recording that just started.
    pub fn new(sample_rate: u32, channels: u16) -> (r: Recording)
        ensures
            r@ == (RecordingState {
                queue: Seq::empty(),
                transcript: Seq::empty(),
                sample_rate: sample_rate as int,
                channels: channels as int,
            }),
    {
        Recording { queue: Vec::new(), transcript: String::new(), sample_rate, channels }
    }

    /// Takes the samples that the microphone delivers.
    pub fn add_sound(&mut self, samples: &[i16])
        ensures
            final(self)@ == old(self)@.with_sound(samples@),
    {
        self.queue.extend_from_slice(samples);
        assert(self.queue@ == old(self)@.queue + samples@);
    }

    /// How many samples a second of sound has.
    fn samples_per_second(&self) -> (n: u64)
        ensures
            n == self@.samples_per_second(),
            n <= 0xffff_ffff * 0xffff,
    {
        proof {
            let (a, b) = (self.sample_rate, self.channels);
            assert(a * b <= 0xffff_ffff * 0xffff) by (nonlinear_arith)
                requires
                    0 <= a <= 0xffff_ffff,
                    0 <= b <= 0xffff,
            ;
        }
        (self.sample_rate as u64) * (self.channels as u64)
    }

    /// Whether `take_chunk` can be called: a WAV file can hold the waiting samples, or they are not
    /// to be transcribed.
    pub fn may_take_chunk(&self, has_key: bool) -> (b: bool)
        ensures
            b == (has_key && self@.has_chunk() ==> self@.fits_wav()),
    {
        let least = self.samples_per_second() * 2;
        !has_key || (self.queue.len() as u64) < least || can_encode(
            self.queue.len(),
            self.sample_rate,
            self.channels,
        )
    }

    /// Whether `take_tail` can be called: a WAV file can hold the waiting samples, or they are not
    /// to be transcribed.
    pub fn may_take_tail(&self, has_key: bool) -> (b: bool)
        ensures
            b == (has_key && self@.has_tail() ==> self@.fits_wav()),
    {
        let least = self.samples_per_second() / 2;
        !has_key || (self.queue.len() as u64) < least || can_encode(
            self.queue.len(),
            self.sample_rate,
            self.channels,
        )
    }

    /// While the recording goes on: takes the waiting samples out and gives them as a WAV file to
    /// transcribe, if there are enough of them. Too few go on waiting, and without a key for the
    /// service nothing is taken.
    pub fn take_chunk(&mut self, has_key: bool) -> (wav: Option<Vec<u8>>)
        requires
            has_key && old(self)@.has_chunk() ==> old(self)@.fits_wav(),
        ensures
            final(self)@ == old(self)@.ticked(has_key),
            match wav {
                Some(bytes) => has_key && old(self)@.has_chunk() && bytes@ == old(self)@.wav(),
                None => !(has_key && old(self)@.has_chunk()),
            },
    {
        let least = self.samples_per_second() * 2;
        if !has_key || (self.queue.len() as u64) < least {
            return None;
        }
        let samples = self.take_queue();
        Some(encode_wav_bytes(samples.as_slice(), self.sample_rate, self.channels))
    }

    /// When the recording has ended: takes the waiting samples out and gives them as a WAV file to
    /// transcribe, if there are enough of them and there is a key for the service.
    pub fn take_tail(&mut self, has_key: bool) -> (wav: Option<Vec<u8>>)
        requires
            has_key && old(self)@.has_tail() ==> old(self)@.fits_wav(),
        ensures
            final(self)@ == old(self)@.drained(),
            match wav {
                Some(bytes) => has_key && old(self)@.has_tail() && bytes@ == old(self)@.wav(),
                None => !(has_key && old(self)@.has_tail()),
            },
    {
        let least = self.samples_per_second() / 2;
        let samples = self.take_queue();
        if (samples.len() as u64) >= least && has_key {
            Some(encode_wav_bytes(samples.as_slice(), self.sample_rate, self.channels))
        } else {
            None
        }
    }

    fn take_queue(&mut self) -> (samples: Vec<i16>)
        ensures
            samples@ == old(self)@.queue,
            final(self)@ == old(self)@.drained(),
            final(self).sample_rate == old(self).sample_rate,
            final(self).channels == old(self).channels,
    {
        let mut samples: Vec<i16> = Vec::new();
        std::mem::swap(&mut samples, &mut self.queue);
        samples
    }

    /// Takes what came of transcribing a piece: the text joins the transcript and is to be shown.
    /// A failure and an empty text change nothing.
    pub fn add_text(&mut self, heard: Result<String, String>) -> (shown: Option<String>)
        ensures
            match heard {
                Ok(text) => final(self)@ == old(self)@.with_text(text@) && if text@.len() > 0 {
                    shown matches Some(s) && s@ == text@
                } else {
                    shown is None
                },
                Err(_) => final(self)@ == old(self)@ && shown is None,
            },
    {
        match heard {
            Ok(text) => {
                if text.as_str().is_empty() {
                    return None;
                }
                if !self.transcript.as_str().is_empty() {
                    self.transcript.append(" ");
                }
                self.transcript.append(text.as_str());
                assert(self@.transcript == old(self)@.with_text(text@).transcript);
                Some(text)
            },
            Err(_) => None,
        }
    }

    /// What has been transcribed.
    pub fn transcript(&self) -> (s: String)
        ensures
            s@ == self@.transcript,
    {
        self.transcript.clone()
    }
}

// ---------------------------------------------------------------------------------------------
// Starting and stopping
// ---------------------------------------------------------------------------------------------

/// The place for the one recording that can go on at a time; `H` is what it takes to stop it.
pub struct Recorder<H> {
    current: Option<H>,
}

impl<H> View for Recorder<H> {
    type V = Option<H>;

    closed spec fn view(&self) -> Option<H> {
        self.current
    }
}

/// What is answered to a request to start a recording: not while one goes on.
pub open spec fn start_answer<H>(current: Option<H>) -> Result<(), Seq<char>> {
    match current {
        Some(_) => Err("Already recording"@),
        None => Ok(()),
    }
}

/// What is answered to a request to stop the recording: what it takes to stop it, if one goes on.
pub open spec fn stop_answer<H>(current: Option<H>) -> Result<H, Seq<char>> {
    match current {
        Some(handle) => Ok(handle),
        None => Err("Not currently recording"@),
    }
}

impl<H> Recorder<H> {
    /// No recording.
    pub fn new() -> (r: Recorder<H>)
        ensures
            r@ is None,
    {
        Recorder { current: None }
    }

    /// Whether a recording may start: not while one goes on.
    pub fn may_start(&self) -> (r: Result<(), String>)
        ensures
            match r {
                Ok(_) => start_answer(self@) is Ok,
                Err(e) => start_answer(self@) == Err::<(), Seq<char>>(e@),
            },
    {
        if self.current.is_some() {
            Err("Already recording".to_owned())
        } else {
            Ok(())
        }
    }

    /// A recording has started.
    pub fn started(&mut self, handle: H)
        requires
            old(self)@ is None,
        ensures
            final(self)@ == Some(handle),
    {
        self.current = Some(handle);
    }

    /// Ends the recording that goes on and hands out what it takes to stop it.
    pub fn stop(&mut self) -> (r: Result<H, String>)
        ensures
            final(self)@ is None,
            match r {
                Ok(handle) => stop_answer(old(self)@) == Ok::<H, Seq<char>>(handle),
                Err(e) => stop_answer(old(self)@) == Err::<H, Seq<char>>(e@),
            },
    {
        match self.current.take() {
            Some(handle) => Ok(handle),
            None => Err("Not currently recording".to_owned()),
        }
    }
}

/// How the thread ended that writes the recording to its file.
#[derive(Debug, PartialEq)]
pub enum ThreadEnd {
    Panicked,
    Failed(String),
    Finished,
}

/// What the end of the recording thread means to who stops the recording.
pub fn thread_result(end: ThreadEnd) -> (r: Result<(), String>)
    ensures
        match end {
            ThreadEnd::Panicked => r matches Err(e) && e@ == "Recording thread panicked"@,
            ThreadEnd::Failed(m) => r == Err::<(), String>(m),
            ThreadEnd::Finished => r is Ok,
        },
{
    match end {
        ThreadEnd::Panicked => Err("Recording thread panicked".to_owned()),
        ThreadEnd::Failed(m) => Err(m),
        ThreadEnd::Finished => Ok(()),
    }
}

/// The name of the file for a recording started at a time, in seconds since 1970.
pub open spec fn recording_name(timestamp: nat) -> Seq<char> {
    "glidewin_recording_"@ + decimal(timestamp) + ".wav"@
}

/// The name of the file for a recording started at a time, in seconds since 1970.
pub fn recording_file_name(timestamp: u64) -> (name: String)
    ensures
        name@ == recording_name(timestamp as nat),
{
    let mut name = concat("glidewin_recording_", decimal_of(timestamp).as_str());
    name.append(".wav");
    name
}

// ---------------------------------------------------------------------------------------------
// Laws
// ---------------------------------------------------------------------------------------------

/// The transcript after the pieces of text came in one after the other.
pub open spec fn transcript_after(pieces: Seq<Seq<char>>) -> Seq<char>
    decreases pieces.len(),
{
    if pieces.len() == 0 {
        seq![]
    } else {
        extended(transcript_after(pieces.drop_last()), pieces.last())
    }
}

/// The pieces that hold something.
pub open spec fn non_empty(pieces: Seq<Seq<char>>) -> Seq<Seq<char>>
    decreases pieces.len(),
{
    if pieces.len() == 0 {
        seq![]
    } else if pieces.last().len() == 0 {
        non_empty(pieces.drop_last())
    } else {
        non_empty(pieces.drop_last()).push(pieces.last())
    }
}

/// The transcript is the pieces that hold something, in order, with one blank between two of them.
pub proof fn law_transcript_joins_the_pieces(pieces: Seq<Seq<char>>)
    ensures
        transcript_after(pieces) == joined(non_empty(pieces), " "@),
        non_empty(pieces).len() == 0 <==> transcript_after(pieces).len() == 0,
    decreases pieces.len(),
{
    if pieces.len() > 0 {
        let before = pieces.drop_last();
        law_transcript_joins_the_pieces(before);
        if pieces.last().len() > 0 {
            lemma_joined_push(non_empty(before), pieces.last(), " "@);
        }
    }
}

/// One recording goes on at a time, and it is stopped once: while it goes on no other starts, who
/// stops it gets what was started, and after that there is nothing to stop until one is started
/// anew.
pub proof fn law_one_recording_at_a_time<H>(handle: H)
    ensures
        start_answer::<H>(None) is Ok,
        start_answer(Some(handle)) is Err,
        stop_answer(Some(handle)) == Ok::<H, Seq<char>>(handle),
        stop_answer::<H>(None) is Err,
{
}

/// Recordings started in different seconds have different file names.
pub proof fn law_recordings_do_not_share_files(a: nat, b: nat)
    requires
        recording_name(a) == recording_name(b),
    ensures
        a == b,
{
    let start = "glidewin_recording_"@.len() as int;
    let end = recording_name(a).len() - ".wav"@.len();
    assert(recording_name(a).subrange(start, end) == decimal(a));
    assert(recording_name(b).subrange(start, end) == decimal(b));
    lemma_decimal_is_injective(a, b);
}

/// It does not matter in which portions the sound comes in.
pub proof fn law_sound_adds_up(state: RecordingState, a: Seq<i16>, b: Seq<i16>)
    ensures
        state.with_sound(a).with_sound(b) == state.with_sound(a + b),
{
    assert(state.queue + a + b == state.queue + (a + b));
}

/// No sound is lost while the recording goes on: what made no chunk waits, and is transcribed
/// together with what comes in later.
pub proof fn law_sound_waits_for_its_chunk(state: RecordingState, has_key: bool, later: Seq<i16>)
    requires
        !(has_key && state.has_chunk()),
    ensures
        state.ticked(has_key) == state,
        state.ticked(has_key).with_sound(later).wav() == wav_file(
            state.queue + later,
            state.sample_rate,
            state.channels,
        ),
{
}

/// Sound is transcribed at most once: after it was taken out, what is transcribed next is only
/// what came in since.
pub proof fn law_sound_is_transcribed_once(state: RecordingState, later: Seq<i16>)
    ensures
        state.drained().with_sound(later).wav() == wav_file(
            later,
            state.sample_rate,
            state.channels,
        ),
        state.has_chunk() ==> state.ticked(true).with_sound(later).wav() == wav_file(
            later,
            state.sample_rate,
            state.channels,
        ),
{
    assert(Seq::<i16>::empty() + later == later);
}

/// A look at the queue: the sound that came in before it, and whether there was a key for the
/// service at the time.
pub struct Look {
    pub sound: Seq<i16>,
    pub has_key: bool,
}

/// All the sound that came in.
pub open spec fn all_sound(looks: Seq<Look>) -> Seq<i16>
    decreases looks.len(),
{
    if looks.len() == 0 {
        seq![]
    } else {
        all_sound(looks.drop_last()) + looks.last().sound
    }
}

/// The recording after the looks.
pub open spec fn after_looks(start: RecordingState, looks: Seq<Look>) -> RecordingState
    decreases looks.len(),
{
    if looks.len() == 0 {
        start
    } else {
        after_looks(start, looks.drop_last()).with_sound(looks.last().sound).ticked(
            looks.last().has_key,
        )
    }
}

/// The sound of all the chunks that the looks gave out, one after the other.
pub open spec fn sent_sound(start: RecordingState, looks: Seq<Look>) -> Seq<i16>
    decreases looks.len(),
{
    if looks.len() == 0 {
        seq![]
    } else {
        let before = after_looks(start, looks.drop_last()).with_sound(looks.last().sound);
        let chunk = if looks.last().has_key && before.has_chunk() {
            before.queue
        } else {
            seq![]
        };
        sent_sound(start, looks.drop_last()) + chunk
    }
}

/// Every sample is sent once: the chunks that were given out and what waits for the tail, put
/// together, are the sound that came in. Listening changes nothing else.
pub proof fn law_every_sample_is_sent_once(start: RecordingState, looks: Seq<Look>)
    ensures
        sent_sound(start, looks) + after_looks(start, looks).queue == start.queue + all_sound(looks),
        after_looks(start, looks).transcript == start.transcript,
        after_looks(start, looks).sample_rate == start.sample_rate,
        after_looks(start, looks).channels == start.channels,
    decreases looks.len(),
{
    if looks.len() > 0 {
        let earlier = looks.drop_last();
        let sound = looks.last().sound;
        law_every_sample_is_sent_once(start, earlier);
        let sent = sent_sound(start, earlier);
        let queue = after_looks(start, earlier).queue;
        assert(sent + (queue + sound) == start.queue + (all_sound(earlier) + sound)) by {
            assert(sent + (queue + sound) == sent + queue + sound);
            assert(start.queue + (all_sound(earlier) + sound) == start.queue + all_sound(earlier)
                + sound);
        }
        assert(sent_sound(start, looks) + after_looks(start, looks).queue == sent + (queue
            + sound));
    } else {
        assert(Seq::<i16>::empty() + start.queue == start.queue + Seq::<i16>::empty());
    }
}

/// A chunk that is given out leaves nothing behind, nor does the tail; nothing else changes.
pub proof fn law_a_chunk_empties_the_queue(state: RecordingState)
    ensures
        state.has_chunk() ==> state.ticked(true).queue.len() == 0,
        state.drained().queue.len() == 0,
        state.drained().transcript == state.transcript,
        state.drained().sample_rate == state.sample_rate,
        state.drained().channels == state.channels,
{
}

/// Two seconds of sound make a chunk, and half a second, cut down to whole samples, a tail: a
/// second has as many samples as the rate says for each channel.
pub proof fn law_how_much_sound_is_worth_transcribing(state: RecordingState)
    requires
        state.sample_rate >= 0,
        state.channels >= 0,
    ensures
        state.has_chunk() <==> state.queue.len() >= 2 * (state.sample_rate * state.channels),
        state.has_tail() <==> 2 * state.queue.len() + 1 >= state.sample_rate * state.channels,
{
    let n = state.sample_rate * state.channels;
    assert(n >= 0) by (nonlinear_arith)
        requires
            n == state.sample_rate * state.channels,
            state.sample_rate >= 0,
            state.channels >= 0,
    ;
}

/// What is sent holds all the sound that waited: the file has as many samples as wait, and the
/// `k`-th of them is the `k`-th that waits.
pub proof fn law_what_is_sent_holds_the_waiting_sound(state: RecordingState, k: int)
    requires
        state.fits_wav(),
        state.channels <= u16::MAX,
        0 <= k < state.queue.len(),
    ensures
        ({
            let start = data_start(state.channels);
            &&& state.wav().len() == start + 2 * state.queue.len()
            &&& read_sample(state.wav(), start + 2 * k) == state.queue[k]
            &&& read16(state.wav(), 22) == state.channels
            &&& read32(state.wav(), 24) == state.sample_rate
        }),
{
    law_wav_header_reads_back(state.queue, state.sample_rate, state.channels);
    law_wav_reads_back(state.queue, state.sample_rate, state.channels, k);
}

/// The name of a recording gives the second in which it was started.
pub proof fn law_recordings_name_their_second(timestamp: nat)
    ensures
        begins_with(recording_name(timestamp), "glidewin_recording_"@),
        finishes_with(recording_name(timestamp), ".wav"@),
        number_in(
            recording_name(timestamp).subrange(
                "glidewin_recording_"@.len() as int,
                recording_name(timestamp).len() - ".wav"@.len(),
            ),
        ) == timestamp,
{
    let name = recording_name(timestamp);
    let start = "glidewin_recording_"@.len() as int;
    let end = name.len() - ".wav"@.len();
    assert(name.take(start) == "glidewin_recording_"@);
    assert(name.skip(end) == ".wav"@);
    assert(name.subrange(start, end) == decimal(timestamp));
    law_decimal_reads_back(timestamp);
}

/// A piece of text joins the transcript whole, after a blank where something was said before; an
/// empty one changes nothing, and nothing else changes.
pub proof fn law_a_piece_joins_the_transcript(state: RecordingState, piece: Seq<char>)
    ensures
        piece.len() == 0 ==> state.with_text(piece) == state,
        piece.len() > 0 && state.transcript.len() == 0 ==> state.with_text(piece).transcript
            == piece,
        piece.len() > 0 && state.transcript.len() > 0 ==> state.with_text(piece).transcript
            == state.transcript + (seq![' '] + piece),
        state.with_text(piece).queue == state.queue,
        state.with_text(piece).sample_rate == state.sample_rate,
        state.with_text(piece).channels == state.channels,
{
    reveal_strlit(" ");
    assert(state.transcript + " "@ + piece == state.transcript + (seq![' '] + piece));
}

} // verus!
