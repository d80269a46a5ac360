//! Text-to-speech: cutting an answer into sentences and having each of them spoken.

use vstd::prelude::*;
use crate::http::{concat, law_a_refusal_says_why, refusal, refusal_message, Reply};
use crate::json::{law_members_are_found, member, text, Json, JsonTree, Members};
use crate::text::{
    chars_of, finishes_with, is_white, joined, lemma_joined_front, lemma_trimmed, string_of, trim,
    trim_range, trim_start, trimmed, views,
};

verus! {

/// Whether `c` can close a sentence.
pub open spec fn is_terminator(c: char) -> bool {
    c == '.' || c == '!' || c == '?'
}

/// Whether a sentence of `s` ends with the character at `i`: a terminator that stands at the end
/// of the text or before a blank.
pub open spec fn ends_at(s: Seq<char>, i: int) -> bool {
    &&& 0 <= i < s.len()
    &&& is_terminator(s[i])
    &&& i + 1 == s.len() || s[i + 1] == ' '
}

/// The length of the first sentence of `s`, up to and with its terminator, when looking from `i`
/// on; the length of `s` when no sentence ends there.
pub open spec fn cut_from(s: Seq<char>, i: int) -> int
    decreases s.len() - i,
{
    if i >= s.len() {
        s.len() as int
    } else if ends_at(s, i) {
        i + 1
    } else {
        cut_from(s, i + 1)
    }
}

pub proof fn lemma_cut_from(s: Seq<char>, i: int)
    requires
        0 <= i <= s.len(),
    ensures
        i <= cut_from(s, i) <= s.len(),
        i < s.len() ==> i < cut_from(s, i),
    decreases s.len() - i,
{
    if i < s.len() && !ends_at(s, i) {
        lemma_cut_from(s, i + 1);
    }
}

/// The sentence that `s` holds, if it holds more than white space.
pub open spec fn sentence(s: Seq<char>) -> Seq<Seq<char>> {
    if trimmed(s).len() > 0 {
        seq![trimmed(s)]
    } else {
        seq![]
    }
}

/// The sentences of `s` in order, each without the white space around it. What follows the last
/// terminator is a sentence too.
pub open spec fn sentences(s: Seq<char>) -> Seq<Seq<char>>
    decreases s.len(),
{
    if s.len() == 0 {
        seq![]
    } else {
        proof {
            lemma_cut_from(s, 0);
        }
        let n = cut_from(s, 0);
        sentence(s.take(n)) + sentences(s.skip(n))
    }
}

fn ends_sentence(cs: &Vec<char>, i: usize) -> (b: bool)
    requires
        i < cs@.len(),
    ensures
        b == ends_at(cs@, i as int),
{
    (cs[i] == '.' || cs[i] == '!' || cs[i] == '?') && (i == cs.len() - 1 || cs[i + 1] == ' ')
}

proof fn lemma_ends_at_skip(s: Seq<char>, a: int, i: int)
    requires
        0 <= a <= i < s.len(),
    ensures
        ends_at(s.skip(a), i - a) == ends_at(s, i),
{
}

/// Splits a text into sentences on `.`, `!` and `?` that stand before a blank or at the end.
pub fn split_sentences(text: &str) -> (found: Vec<String>)
    ensures
        views(found@) == sentences(text@),
{
    let cs = chars_of(text);
    let n = cs.len();
    let mut found: Vec<String> = Vec::new();
    let mut start: usize = 0;
    let mut i: usize = 0;
    proof {
        assert(cs@.skip(0) == cs@);
        assert(views(found@) + sentences(cs@) == sentences(cs@));
    }
    while i < n
        invariant
            n == cs@.len(),
            cs@ == text@,
            start <= i <= n,
            views(found@) + sentences(cs@.skip(start as int)) == sentences(cs@),
            cut_from(cs@.skip(start as int), 0) == cut_from(cs@.skip(start as int), i - start),
        decreases n - i,
    {
        let ghost rest = cs@.skip(start as int);
        proof {
            lemma_ends_at_skip(cs@, start as int, i as int);
        }
        if ends_sentence(&cs, i) {
            let (a, b) = trim_range(&cs, start, i + 1);
            let ghost before = found@;
            proof {
                assert(rest.take(i + 1 - start) == cs@.subrange(start as int, i + 1));
                assert(rest.skip(i + 1 - start) == cs@.skip(i + 1));
            }
            if a < b {
                found.push(string_of(&cs, a, b));
                assert(views(found@) == views(before) + seq![trimmed(rest.take(i + 1 - start))]);
            }
            proof {
                assert(views(before) + (sentence(rest.take(i + 1 - start)) + sentences(
                    cs@.skip(i + 1),
                )) == views(found@) + sentences(cs@.skip(i + 1)));
            }
            start = i + 1;
        }
        i = i + 1;
    }
    let ghost rest = cs@.skip(start as int);
    let (a, b) = trim_range(&cs, start, n);
    proof {
        assert(rest == cs@.subrange(start as int, n as int));
        assert(rest.take(rest.len() as int) == rest);
        assert(rest.skip(rest.len() as int) == Seq::<char>::empty());
        assert(start == n ==> trimmed(rest).len() == 0);
        assert(sentence(rest) + sentences(Seq::<char>::empty()) == sentence(rest));
        assert(sentences(rest) == sentence(rest));
    }
    if a < b {
        let ghost before = found@;
        found.push(string_of(&cs, a, b));
        assert(views(found@) == views(before) + seq![trimmed(rest)]);
    } else {
        assert(views(found@) + Seq::<Seq<char>>::empty() == views(found@));
    }
    found
}

// ---------------------------------------------------------------------------------------------
// Speaking
// ---------------------------------------------------------------------------------------------

/// What is spoken of a text, piece by piece: its sentences, in order.
pub fn spoken_pieces(text: &str) -> (pieces: Vec<String>)
    ensures
        views(pieces@) == sentences(text@),
{
    let found = split_sentences(text);
    let mut pieces: Vec<String> = Vec::new();
    let mut i: usize = 0;
    while i < found.len()
        invariant
            i <= found@.len(),
            views(found@) == sentences(text@),
            views(pieces@) == sentences(text@).take(i as int),
        decreases found@.len() - i,
    {
        let piece = trim(found[i].as_str());
        proof {
            law_sentences_are_trimmed(text@, i as int);
            assert(views(found@)[i as int] == found@[i as int]@);
        }
        if !piece.as_str().is_empty() {
            pieces.push(piece);
        }
        assert(sentences(text@).take(i + 1) == sentences(text@).take(i as int).push(
            sentences(text@)[i as int],
        ));
        i = i + 1;
    }
    assert(sentences(text@).take(i as int) == sentences(text@));
    pieces
}

/// The body of the request to speak a text.
pub open spec fn speech(input: Seq<char>) -> JsonTree {
    JsonTree::Object(
        seq![
            member("model"@, JsonTree::Text("tts-1"@)),
            member("input"@, JsonTree::Text(input)),
            member("voice"@, JsonTree::Text("alloy"@)),
            member("response_format"@, JsonTree::Text("mp3"@)),
        ],
    )
}

/// The body of the request to speak a text.
pub fn speech_request(input: &str) -> (j: Json)
    ensures
        j@ == speech(input@),
{
    let all = Members::new().with("model", text("tts-1")).with("input", text(input)).with(
        "voice",
        text("alloy"),
    ).with("response_format", text("mp3"));
    assert(all@ == speech(input@)->Object_0);
    all.object()
}

/// The audio of a spoken text, from the reply to the request for it.
pub open spec fn audio_in(reply: Reply<Vec<u8>>) -> Result<Seq<u8>, Seq<char>> {
    match reply {
        Reply::NotSent(e) => Err("TTS request failed: "@ + e@),
        Reply::Refused { status, body } => Err(refusal("TTS"@, status@, body@)),
        Reply::Unread(e) => Err("Failed to read TTS audio: "@ + e@),
        Reply::Received(audio) => Ok(audio@),
    }
}

/// The audio of a spoken text, from the reply to the request for it.
pub fn speech_audio(reply: Reply<Vec<u8>>) -> (r: Result<Vec<u8>, String>)
    ensures
        match r {
            Ok(audio) => audio_in(reply) == Ok::<Seq<u8>, Seq<char>>(audio@),
            Err(e) => audio_in(reply) == Err::<Seq<u8>, Seq<char>>(e@),
        },
{
    match reply {
        Reply::NotSent(e) => Err(concat("TTS request failed: ", e.as_str())),
        Reply::Refused { status, body } => Err(
            refusal_message("TTS", status.as_str(), body.as_str()),
        ),
        Reply::Unread(e) => Err(concat("Failed to read TTS audio: ", e.as_str())),
        Reply::Received(audio) => Ok(audio),
    }
}

/// What is said where the playback does not take the audio any more.
pub open spec fn closed_early() -> Seq<char> {
    "Playback thread closed early"@
}

/// What comes of speaking a text, one thing after the other.
#[derive(Debug, PartialEq)]
pub enum SpeakEvent {
    /// Speaking begins.
    Begun,
    /// The reply to the request for a sentence.
    Fetched(Reply<Vec<u8>>),
    /// The playback has taken the audio of a sentence.
    Queued,
    /// The playback takes no audio any more.
    Closed,
}

/// What is to be done next to speak a text.
#[derive(Debug, PartialEq)]
pub enum SpeakAction {
    /// A sentence is to be asked for.
    Fetch(String),
    /// Audio is to be handed to the playback.
    Queue(Vec<u8>),
    /// Everything was handed over; the playback is to be waited for.
    Await,
    /// Speaking has failed.
    Fail(String),
}

/// The model of what is to be done next.
#[verifier::ext_equal]
pub enum SpeakActionView {
    Fetch(Seq<char>),
    Queue(Seq<u8>),
    Await,
    Fail(Seq<char>),
}

impl View for SpeakAction {
    type V = SpeakActionView;

    open spec fn view(&self) -> SpeakActionView {
        match self {
            SpeakAction::Fetch(s) => SpeakActionView::Fetch(s@),
            SpeakAction::Queue(audio) => SpeakActionView::Queue(audio@),
            SpeakAction::Await => SpeakActionView::Await,
            SpeakAction::Fail(e) => SpeakActionView::Fail(e@),
        }
    }
}

/// What is done next where `left` are the sentences that were not asked for yet: the audio that
/// came is handed over, then the next sentence is asked for.
pub open spec fn next_action(left: Seq<Seq<char>>, event: SpeakEvent) -> SpeakActionView {
    match event {
        SpeakEvent::Begun | SpeakEvent::Queued => if left.len() > 0 {
            SpeakActionView::Fetch(left.first())
        } else {
            SpeakActionView::Await
        },
        SpeakEvent::Fetched(reply) => match audio_in(reply) {
            Ok(audio) => SpeakActionView::Queue(audio),
            Err(e) => SpeakActionView::Fail(e),
        },
        SpeakEvent::Closed => SpeakActionView::Fail(closed_early()),
    }
}

/// The sentences that were not asked for yet after an action. After a failure none is asked for any
/// more.
pub open spec fn left_after(left: Seq<Seq<char>>, action: SpeakActionView) -> Seq<Seq<char>> {
    match action {
        SpeakActionView::Fetch(_) => left.drop_first(),
        SpeakActionView::Fail(_) => seq![],
        _ => left,
    }
}

/// A text that is being spoken.
pub struct Speaking {
    pieces: Vec<String>,
    next: usize,
}

impl View for Speaking {
    type V = Seq<Seq<char>>;

    /// The sentences that were not asked for yet.
    closed spec fn view(&self) -> Seq<Seq<char>> {
        views(self.pieces@).skip(self.next as int)
    }
}

impl Speaking {
    #[verifier::type_invariant]
    spec fn wf(self) -> bool {
        self.next <= self.pieces@.len()
    }

    /// A text of which nothing was asked for yet.
    pub fn new(text: &str) -> (s: Speaking)
        ensures
            s@ == sentences(text@),
    {
        let pieces = spoken_pieces(text);
        assert(views(pieces@).skip(0) == views(pieces@));
        Speaking { pieces, next: 0 }
    }

    /// Whether every sentence was asked for.
    pub fn is_finished(&self) -> (b: bool)
        ensures
            b == (self@.len() == 0),
    {
        proof {
            use_type_invariant(self);
        }
        self.next == self.pieces.len()
    }

    /// What is to be done after an event.
    pub fn step(&mut self, event: SpeakEvent) -> (action: SpeakAction)
        ensures
            action@ == next_action(old(self)@, event),
            final(self)@ == left_after(old(self)@, action@),
    {
        proof {
            use_type_invariant(&*self);
        }
        match event {
            SpeakEvent::Begun | SpeakEvent::Queued => {
                if self.next == self.pieces.len() {
                    return SpeakAction::Await;
                }
                let piece = self.pieces[self.next].clone();
                let ghost left = self@;
                self.next = self.next + 1;
                assert(left.first() == piece@);
                assert(self@ == left.drop_first());
                SpeakAction::Fetch(piece)
            },
            SpeakEvent::Fetched(reply) => match speech_audio(reply) {
                Ok(audio) => SpeakAction::Queue(audio),
                Err(e) => {
                    self.next = self.pieces.len();
                    SpeakAction::Fail(e)
                },
            },
            SpeakEvent::Closed => {
                self.next = self.pieces.len();
                SpeakAction::Fail("Playback thread closed early".to_owned())
            },
        }
    }
}

/// How the playback of an answer ended.
#[derive(Debug, PartialEq)]
pub enum PlaybackEnd {
    /// There is no device to play it on; the system's message.
    NoOutput(String),
    /// The device takes no sound; the system's message.
    NoSink(String),
    /// A piece is not audio that can be played; the decoder's message.
    Undecodable(String),
    Panicked,
    /// It could not be waited for; the system's message.
    NotJoined(String),
    Finished,
}

/// What the end of the playback means to who asked for it.
pub fn playback_result(end: PlaybackEnd) -> (r: Result<(), String>)
    ensures
        match end {
            PlaybackEnd::NoOutput(e) => r matches Err(m) && m@ == "Audio output error: "@ + e@,
            PlaybackEnd::NoSink(e) => r matches Err(m) && m@ == "Sink error: "@ + e@,
            PlaybackEnd::Undecodable(e) => r matches Err(m) && m@ == "Decode error: "@ + e@,
            PlaybackEnd::Panicked => r matches Err(m) && m@ == "Playback thread panicked"@,
            PlaybackEnd::NotJoined(e) => r matches Err(m) && m@ == "Playback join error: "@ + e@,
            PlaybackEnd::Finished => r is Ok,
        },
{
    match end {
        PlaybackEnd::NoOutput(e) => Err(concat("Audio output error: ", e.as_str())),
        PlaybackEnd::NoSink(e) => Err(concat("Sink error: ", e.as_str())),
        PlaybackEnd::Undecodable(e) => Err(concat("Decode error: ", e.as_str())),
        PlaybackEnd::Panicked => Err("Playback thread panicked".to_owned()),
        PlaybackEnd::NotJoined(e) => Err(concat("Playback join error: ", e.as_str())),
        PlaybackEnd::Finished => Ok(()),
    }
}

// ---------------------------------------------------------------------------------------------
// Laws
// ---------------------------------------------------------------------------------------------

/// The characters of `s` other than white space.
pub open spec fn inked(s: Seq<char>) -> Seq<char>
    decreases s.len(),
{
    if s.len() == 0 {
        seq![]
    } else if is_white(s.first()) {
        inked(s.drop_first())
    } else {
        seq![s.first()] + inked(s.drop_first())
    }
}

/// The characters of all parts other than white space, in order.
pub open spec fn all_inked(parts: Seq<Seq<char>>) -> Seq<char>
    decreases parts.len(),
{
    if parts.len() == 0 {
        seq![]
    } else {
        inked(parts.first()) + all_inked(parts.drop_first())
    }
}

proof fn lemma_inked_concat(a: Seq<char>, b: Seq<char>)
    ensures
        inked(a + b) == inked(a) + inked(b),
    decreases a.len(),
{
    if a.len() == 0 {
        assert(a + b == b);
    } else {
        assert((a + b).drop_first() == a.drop_first() + b);
        lemma_inked_concat(a.drop_first(), b);
    }
}

proof fn lemma_inked_white(s: Seq<char>)
    requires
        forall|i: int| 0 <= i < s.len() ==> is_white(s[i]),
    ensures
        inked(s) == Seq::<char>::empty(),
    decreases s.len(),
{
    if s.len() > 0 {
        lemma_inked_white(s.drop_first());
    }
}

proof fn lemma_inked_trimmed(s: Seq<char>)
    ensures
        inked(trimmed(s)) == inked(s),
{
    let a = lemma_trimmed(s);
    let b = a + trimmed(s).len();
    lemma_inked_white(s.take(a));
    lemma_inked_white(s.skip(b));
    lemma_inked_concat(s.take(a), trimmed(s));
    lemma_inked_concat(s.take(a) + trimmed(s), s.skip(b));
    assert(s.take(a) + trimmed(s) + s.skip(b) == s);
}

/// No word is lost and none is added: the sentences of a text hold the characters of the text
/// other than white space, in the same order.
pub proof fn law_sentences_keep_every_word(s: Seq<char>)
    ensures
        all_inked(sentences(s)) == inked(s),
    decreases s.len(),
{
    if s.len() > 0 {
        lemma_cut_from(s, 0);
        let n = cut_from(s, 0);
        law_sentences_keep_every_word(s.skip(n));
        lemma_inked_concat(s.take(n), s.skip(n));
        assert(s.take(n) + s.skip(n) == s);
        lemma_inked_trimmed(s.take(n));
        if trimmed(s.take(n)).len() > 0 {
            assert(sentences(s).drop_first() == sentences(s.skip(n)));
        } else {
            assert(sentences(s) == sentences(s.skip(n)));
        }
    }
}

/// Every sentence holds something, and no white space stands at its two ends.
pub proof fn law_sentences_are_trimmed(s: Seq<char>, k: int)
    requires
        0 <= k < sentences(s).len(),
    ensures
        sentences(s)[k].len() > 0,
        trimmed(sentences(s)[k]) == sentences(s)[k],
        !is_white(sentences(s)[k].first()),
        !is_white(sentences(s)[k].last()),
    decreases s.len(),
{
    lemma_cut_from(s, 0);
    let n = cut_from(s, 0);
    let head = sentence(s.take(n));
    if k < head.len() {
        lemma_trimmed(s.take(n));
    } else {
        law_sentences_are_trimmed(s.skip(n), k - head.len());
    }
}

proof fn lemma_cut_ends(s: Seq<char>, i: int)
    requires
        0 <= i <= s.len(),
        cut_from(s, i) < s.len(),
    ensures
        ends_at(s, cut_from(s, i) - 1),
    decreases s.len() - i,
{
    if !ends_at(s, i) {
        lemma_cut_ends(s, i + 1);
    }
}

/// Every sentence but the last ends with a terminator.
pub proof fn law_sentences_end_with_a_terminator(s: Seq<char>, k: int)
    requires
        0 <= k < sentences(s).len() - 1,
    ensures
        is_terminator(sentences(s)[k].last()),
    decreases s.len(),
{
    lemma_cut_from(s, 0);
    let n = cut_from(s, 0);
    let head = sentence(s.take(n));
    if n < s.len() {
        lemma_cut_ends(s, 0);
        let a = lemma_trimmed(s.take(n));
        assert(!is_white(s.take(n)[n - 1]));
        if k < head.len() {
            assert(trimmed(s.take(n)).last() == s[n - 1]);
        } else {
            law_sentences_end_with_a_terminator(s.skip(n), k - head.len());
        }
    } else {
        assert(s.skip(n).len() == 0);
        assert(sentences(s) == head);
    }
}

proof fn lemma_no_end_before_cut(s: Seq<char>, i: int, j: int)
    requires
        0 <= i <= j < cut_from(s, i) - 1,
        j < s.len(),
    ensures
        !ends_at(s, j),
    decreases s.len() - i,
{
    if i < j {
        lemma_cut_from(s, i + 1);
        lemma_no_end_before_cut(s, i + 1, j);
    }
}

/// No sentence holds the end of another: a terminator before a blank stands only at the end of a
/// sentence.
pub proof fn law_sentences_are_not_split_further(s: Seq<char>, k: int, i: int)
    requires
        0 <= k < sentences(s).len(),
        0 <= i < sentences(s)[k].len() - 1,
    ensures
        !ends_at(sentences(s)[k], i),
    decreases s.len(),
{
    lemma_cut_from(s, 0);
    let n = cut_from(s, 0);
    let head = sentence(s.take(n));
    if k < head.len() {
        let a = lemma_trimmed(s.take(n));
        let found = sentences(s)[k];
        assert(found[i] == s[a + i]);
        assert(found[i + 1] == s[a + i + 1]);
        lemma_no_end_before_cut(s, 0, a + i);
    } else {
        law_sentences_are_not_split_further(s.skip(n), k - head.len(), i);
    }
}

/// The sentences that were not asked for yet after `n` rounds in which a sentence was asked for,
/// its audio came and the playback took it.
pub open spec fn left_after_rounds(left: Seq<Seq<char>>, n: nat) -> Seq<Seq<char>>
    decreases n,
{
    if n == 0 {
        left
    } else {
        let before = left_after_rounds(left, (n - 1) as nat);
        left_after(before, next_action(before, SpeakEvent::Queued))
    }
}

/// The sentences are asked for in order: after `n` rounds the next one is the `n`-th, and when all
/// were asked for the playback is waited for.
pub proof fn law_sentences_are_asked_for_in_order(left: Seq<Seq<char>>, n: nat)
    requires
        n <= left.len(),
    ensures
        left_after_rounds(left, n) == left.skip(n as int),
        next_action(left, SpeakEvent::Begun) == next_action(left, SpeakEvent::Queued),
        next_action(left_after_rounds(left, n), SpeakEvent::Queued) == if n < left.len() {
            SpeakActionView::Fetch(left[n as int])
        } else {
            SpeakActionView::Await
        },
    decreases n,
{
    if n > 0 {
        law_sentences_are_asked_for_in_order(left, (n - 1) as nat);
        assert(left.skip(n - 1).drop_first() == left.skip(n as int));
    } else {
        assert(left.skip(0) == left);
    }
}

/// The first failure is the end: whatever happens after it, no sentence is asked for.
pub proof fn law_nothing_is_asked_for_after_a_failure(
    left: Seq<Seq<char>>,
    failure: SpeakEvent,
    later: SpeakEvent,
)
    requires
        next_action(left, failure) is Fail,
    ensures
        ({
            let rest = left_after(left, next_action(left, failure));
            &&& next_action(rest, later) !is Fetch
            &&& left_after(rest, next_action(rest, later)) == rest
        }),
{
}

proof fn lemma_cut_same(s: Seq<char>, t: Seq<char>, i: int)
    requires
        0 <= i <= s.len(),
        s.len() > 0,
        is_terminator(s.last()),
        t.len() == 0 || t.first() == ' ',
        i < s.len(),
    ensures
        cut_from(s + t, i) == cut_from(s, i),
    decreases s.len() - i,
{
    assert((s + t)[i] == s[i]);
    if i + 1 < s.len() {
        assert((s + t)[i + 1] == s[i + 1]);
        assert(ends_at(s + t, i) == ends_at(s, i));
        lemma_cut_same(s, t, i + 1);
    } else {
        assert(t.len() > 0 ==> (s + t)[i + 1] == t.first());
        assert(ends_at(s + t, i) && ends_at(s, i));
    }
}

proof fn lemma_cut_after_blank(s: Seq<char>, i: int)
    requires
        0 <= i <= s.len(),
    ensures
        cut_from(" "@ + s, i + 1) == cut_from(s, i) + 1,
    decreases s.len() - i,
{
    reveal_strlit(" ");
    let t = " "@ + s;
    if i < s.len() {
        assert(t[i + 1] == s[i]);
        assert(i + 1 < s.len() ==> t[i + 2] == s[i + 1]);
        assert(ends_at(t, i + 1) == ends_at(s, i));
        lemma_cut_after_blank(s, i + 1);
    }
}

proof fn lemma_leading_blank(s: Seq<char>)
    ensures
        sentences(" "@ + s) == sentences(s),
{
    reveal_strlit(" ");
    let t = " "@ + s;
    assert(!ends_at(t, 0));
    lemma_cut_after_blank(s, 0);
    lemma_cut_from(s, 0);
    let n = cut_from(s, 0);
    assert(cut_from(t, 0) == n + 1);
    assert(t.take(n + 1).drop_first() == s.take(n));
    assert(trim_start(t.take(n + 1)) == trim_start(s.take(n)));
    assert(t.skip(n + 1) == s.skip(n));
    if s.len() == 0 {
        assert(s.take(n) == s);
        assert(s.skip(n) == s);
        assert(trimmed(s).len() == 0);
        assert(sentences(t) == sentences(s));
    }
}

/// Texts are split one after the other: where `a` ends with a terminator, the sentences of `a`, a
/// blank and `b` are those of `a` and then those of `b`.
pub proof fn law_texts_are_split_one_after_the_other(a: Seq<char>, b: Seq<char>)
    requires
        a.len() > 0,
        is_terminator(a.last()),
    ensures
        sentences(a + " "@ + b) == sentences(a) + sentences(b),
    decreases a.len(),
{
    reveal_strlit(" ");
    let tail = " "@ + b;
    let s = a + tail;
    assert(a + " "@ + b == s);
    assert(tail.first() == ' ');
    lemma_cut_same(a, tail, 0);
    lemma_cut_from(a, 0);
    let n = cut_from(a, 0);
    assert(s.take(n) == a.take(n));
    assert(s.skip(n) == a.skip(n) + tail);
    if n < a.len() {
        assert(a.skip(n).last() == a.last());
        law_texts_are_split_one_after_the_other(a.skip(n), b);
        assert(a.skip(n) + " "@ + b == a.skip(n) + tail);
        assert(sentence(a.take(n)) + (sentences(a.skip(n)) + sentences(b)) == sentence(a.take(n))
            + sentences(a.skip(n)) + sentences(b));
    } else {
        assert(a.skip(n) == Seq::<char>::empty());
        assert(s.skip(n) == tail);
        lemma_leading_blank(b);
        assert(sentences(a) == sentence(a.take(n)));
    }
}

proof fn lemma_cut_whole(s: Seq<char>, i: int)
    requires
        0 <= i <= s.len(),
        forall|j: int| 0 <= j < s.len() - 1 ==> !ends_at(s, j),
    ensures
        cut_from(s, i) == s.len(),
    decreases s.len() - i,
{
    if i < s.len() {
        lemma_cut_whole(s, i + 1);
    }
}

proof fn lemma_one_sentence(s: Seq<char>)
    requires
        s.len() > 0,
        trimmed(s) == s,
        forall|j: int| 0 <= j < s.len() - 1 ==> !ends_at(s, j),
    ensures
        sentences(s) == seq![s],
{
    lemma_cut_whole(s, 0);
    assert(s.take(s.len() as int) == s);
    assert(s.skip(s.len() as int) == Seq::<char>::empty());
    assert(sentence(s) + sentences(Seq::<char>::empty()) == seq![s]);
}

proof fn lemma_sentences_of_joined(parts: Seq<Seq<char>>)
    requires
        forall|k: int| 0 <= k < parts.len() ==> (#[trigger] parts[k]).len() > 0,
        forall|k: int| 0 <= k < parts.len() ==> trimmed(#[trigger] parts[k]) == parts[k],
        forall|k: int, j: int|
            0 <= k < parts.len() && 0 <= j < parts[k].len() - 1 ==> !(#[trigger] ends_at(
                parts[k],
                j,
            )),
        forall|k: int| 0 <= k < parts.len() - 1 ==> is_terminator((#[trigger] parts[k]).last()),
    ensures
        sentences(joined(parts, " "@)) == parts,
    decreases parts.len(),
{
    if parts.len() == 1 {
        lemma_one_sentence(parts[0]);
        assert(parts.drop_first() == Seq::<Seq<char>>::empty());
        assert(joined(parts, " "@) == parts[0]);
        assert(seq![parts[0]] == parts);
    } else if parts.len() > 1 {
        let rest = parts.drop_first();
        lemma_joined_front(parts, " "@);
        lemma_one_sentence(parts[0]);
        assert forall|k: int| 0 <= k < rest.len() implies (#[trigger] rest[k]).len() > 0 && trimmed(
            rest[k],
        ) == rest[k] && (k < rest.len() - 1 ==> is_terminator(rest[k].last())) by {
            assert(rest[k] == parts[k + 1]);
        }
        assert forall|k: int, j: int|
            0 <= k < rest.len() && 0 <= j < rest[k].len() - 1 implies !(#[trigger] ends_at(
            rest[k],
            j,
        )) by {
            assert(rest[k] == parts[k + 1]);
            assert(!ends_at(parts[k + 1], j));
        }
        lemma_sentences_of_joined(rest);
        law_texts_are_split_one_after_the_other(parts[0], joined(rest, " "@));
        assert(seq![parts[0]] + rest == parts);
    }
}

/// Sentences with a blank between two of them split into the same sentences again.
pub proof fn law_joined_sentences_split_again(s: Seq<char>)
    ensures
        sentences(joined(sentences(s), " "@)) == sentences(s),
{
    let parts = sentences(s);
    assert forall|k: int| 0 <= k < parts.len() implies (#[trigger] parts[k]).len() > 0 && trimmed(
        parts[k],
    ) == parts[k] by {
        law_sentences_are_trimmed(s, k);
    }
    assert forall|k: int, j: int|
        0 <= k < parts.len() && 0 <= j < parts[k].len() - 1 implies !(#[trigger] ends_at(
        parts[k],
        j,
    )) by {
        law_sentences_are_not_split_further(s, k, j);
    }
    assert forall|k: int| 0 <= k < parts.len() - 1 implies is_terminator(
        (#[trigger] parts[k]).last(),
    ) by {
        law_sentences_end_with_a_terminator(s, k);
    }
    lemma_sentences_of_joined(parts);
}

/// Only a full stop, an exclamation mark or a question mark ends a sentence, and only before a
/// blank: a text in which none of them stands before a blank is one sentence, without the white
/// space around it.
pub proof fn law_only_marks_before_blanks_end_sentences(s: Seq<char>)
    requires
        forall|i: int|
            0 <= i < s.len() - 1 && s[i + 1] == ' ' ==> #[trigger] s[i] != '.' && s[i] != '!'
                && s[i] != '?',
    ensures
        sentences(s) == if trimmed(s).len() > 0 {
            seq![trimmed(s)]
        } else {
            Seq::<Seq<char>>::empty()
        },
{
    assert forall|j: int| 0 <= j < s.len() - 1 implies !ends_at(s, j) by {
        assert(s[j + 1] == ' ' ==> s[j] != '.' && s[j] != '!' && s[j] != '?');
    }
    lemma_cut_whole(s, 0);
    assert(s.take(s.len() as int) == s);
    assert(s.skip(s.len() as int) == Seq::<char>::empty());
    assert(sentence(s) + sentences(Seq::<char>::empty()) == sentence(s));
    if s.len() == 0 {
        crate::text::law_white_space_is_trimmed_away(s);
    }
}

/// A full stop, an exclamation mark or a question mark before a blank ends a sentence: what stands
/// before the blank and what stands after it are split each on its own.
pub proof fn law_a_mark_before_a_blank_ends_a_sentence(a: Seq<char>, mark: char, b: Seq<char>)
    requires
        mark == '.' || mark == '!' || mark == '?',
    ensures
        sentences(a + seq![mark, ' '] + b) == sentences(a + seq![mark]) + sentences(b),
{
    reveal_strlit(" ");
    let head = a + seq![mark];
    assert(head.last() == mark);
    law_texts_are_split_one_after_the_other(head, b);
    assert(head + " "@ + b == a + seq![mark, ' '] + b);
}

/// The request to speak a text carries the whole text, and names the model, the voice and the form
/// of the audio.
pub proof fn law_the_request_carries_the_text(input: Seq<char>)
    ensures
        speech(input).member_text("input"@) == Some(input),
        speech(input).member_text("model"@) == Some("tts-1"@),
        speech(input).member_text("voice"@) == Some("alloy"@),
        speech(input).member_text("response_format"@) == Some("mp3"@),
{
    reveal_strlit("model");
    reveal_strlit("input");
    reveal_strlit("voice");
    reveal_strlit("response_format");
    let all = speech(input)->Object_0;
    assert("model"@[0] != "input"@[0]);
    assert("model"@[0] != "voice"@[0]);
    assert("model"@[0] != "response_format"@[0]);
    assert("input"@[0] != "voice"@[0]);
    assert("input"@[0] != "response_format"@[0]);
    assert("voice"@[0] != "response_format"@[0]);
    law_members_are_found(all, 0);
    law_members_are_found(all, 1);
    law_members_are_found(all, 2);
    law_members_are_found(all, 3);
}

/// The audio of a sentence is handed on as it came, and what is said of a failure ends with its
/// cause.
pub proof fn law_audio_and_causes_are_kept(left: Seq<Seq<char>>, reply: Reply<Vec<u8>>)
    ensures
        match reply {
            Reply::Received(audio) => next_action(left, SpeakEvent::Fetched(reply))
                == SpeakActionView::Queue(audio@),
            Reply::NotSent(e) | Reply::Unread(e) => next_action(
                left,
                SpeakEvent::Fetched(reply),
            ) matches SpeakActionView::Fail(m) && finishes_with(m, e@),
            Reply::Refused { status, body } => next_action(
                left,
                SpeakEvent::Fetched(reply),
            ) matches SpeakActionView::Fail(m) && finishes_with(
                m,
                seq!['('] + status@ + seq![')', ':', ' '] + body@,
            ),
        },
{
    match reply {
        Reply::Received(_) => {},
        Reply::NotSent(e) => {
            let m = "TTS request failed: "@ + e@;
            assert(m.skip(m.len() - e@.len()) == e@);
        },
        Reply::Unread(e) => {
            let m = "Failed to read TTS audio: "@ + e@;
            assert(m.skip(m.len() - e@.len()) == e@);
        },
        Reply::Refused { status, body } => {
            law_a_refusal_says_why("TTS"@, status@, body@);
        },
    }
}

} // verus!
