//! Questions about a screenshot: the request, and the tokens in the stream of the answer.

use vstd::prelude::*;
use vstd::utf8::{
    decode_utf8, decode_utf8_encode_utf8, encode_utf8, encode_utf8_decode_utf8, valid_utf8,
    valid_utf8_concat,
};
use crate::http::{concat, refusal, refusal_message, Reply};
use crate::image::{base64_fits, data_url, image_url, law_an_address_holds_the_image, unbase64};
use crate::json::{
    law_members_are_found, list_of_one, list_of_two, member, number, parse_text, read_text, text,
    tree_of, view_of, Json, JsonTree, Members,
};
use crate::text::{
    begins_with, chars_of, find_char, find_from, from_utf8_lossy, lemma_find_from,
    lemma_find_from_prefix, lemma_find_from_skip, lemma_find_first, lossy, part_begins_with,
    reads_true, same, string_of, views,
};

verus! {

// ---------------------------------------------------------------------------------------------
// The request
// ---------------------------------------------------------------------------------------------

/// The two parts of a question: the screenshot and what was said about it.
pub open spec fn question(image: Seq<u8>, transcript: Seq<char>) -> JsonTree {
    JsonTree::List(
        seq![
            JsonTree::Object(
                seq![
                    member("type"@, JsonTree::Text("image_url"@)),
                    member(
                        "image_url"@,
                        JsonTree::Object(seq![member("url"@, JsonTree::Text(data_url(image)))]),
                    ),
                ],
            ),
            JsonTree::Object(
                seq![
                    member("type"@, JsonTree::Text("text"@)),
                    member("text"@, JsonTree::Text(transcript)),
                ],
            ),
        ],
    )
}

/// The body of the request that asks a question and wants the answer as a stream.
pub open spec fn request(image: Seq<u8>, transcript: Seq<char>) -> JsonTree {
    JsonTree::Object(
        seq![
            member("model"@, JsonTree::Text("gpt-4o"@)),
            member(
                "messages"@,
                JsonTree::List(
                    seq![
                        JsonTree::Object(
                            seq![
                                member("role"@, JsonTree::Text("user"@)),
                                member("content"@, question(image, transcript)),
                            ],
                        ),
                    ],
                ),
            ),
            member("max_tokens"@, JsonTree::Number("1024"@)),
            member("stream"@, JsonTree::Bool(true)),
        ],
    )
}

fn question_json(image: &[u8], transcript: &str) -> (j: Json)
    requires
        base64_fits(image@.len()),
    ensures
        j@ == question(image@, transcript@),
{
    let url = Members::new().with("url", Json::Text(image_url(image)));
    assert(url@ == seq![member("url"@, JsonTree::Text(data_url(image@)))]);
    let picture = Members::new().with("type", text("image_url")).with("image_url", url.object());
    let words = Members::new().with("type", text("text")).with("text", text(transcript));
    assert(words@ == seq![
        member("type"@, JsonTree::Text("text"@)),
        member("text"@, JsonTree::Text(transcript@)),
    ]);
    let ghost shape = question(image@, transcript@)->List_0;
    assert(picture@ == shape[0]->Object_0);
    assert(words@ == shape[1]->Object_0);
    let j = list_of_two(picture.object(), words.object());
    assert(j@->List_0 == shape);
    j
}

/// The body of the request that asks a question and wants the answer as a stream.
pub fn chat_request(image: &[u8], transcript: &str) -> (j: Json)
    requires
        base64_fits(image@.len()),
    ensures
        j@ == request(image@, transcript@),
{
    let message = Members::new().with("role", text("user")).with(
        "content",
        question_json(image, transcript),
    );
    assert(message@ == seq![
        member("role"@, JsonTree::Text("user"@)),
        member("content"@, question(image@, transcript@)),
    ]);
    let messages = list_of_one(message.object());
    let all = Members::new().with("model", text("gpt-4o")).with("messages", messages).with(
        "max_tokens",
        number("1024"),
    ).with("stream", Json::Bool(true));
    assert(all@ == request(image@, transcript@)->Object_0);
    all.object()
}

/// Whether the stream of an answer can be read on.
pub fn stream_alive(reply: Reply<()>) -> (r: Result<(), String>)
    ensures
        match reply {
            Reply::NotSent(e) => r matches Err(m) && m@ == "API request failed: "@ + e@,
            Reply::Refused { status, body } => r matches Err(m) && m@ == refusal(
                "GPT"@,
                status@,
                body@,
            ),
            Reply::Unread(e) => r matches Err(m) && m@ == "Stream error: "@ + e@,
            Reply::Received(_) => r is Ok,
        },
{
    match reply {
        Reply::NotSent(e) => Err(concat("API request failed: ", e.as_str())),
        Reply::Refused { status, body } => Err(
            refusal_message("GPT", status.as_str(), body.as_str()),
        ),
        Reply::Unread(e) => Err(concat("Stream error: ", e.as_str())),
        Reply::Received(_) => Ok(()),
    }
}

// ---------------------------------------------------------------------------------------------
// The stream
// ---------------------------------------------------------------------------------------------

/// What a line of the stream says.
#[verifier::ext_equal]
pub enum Line {
    /// A token of the answer.
    Token(Seq<char>),
    /// The answer is complete.
    Done,
    /// Nothing to show.
    Nothing,
}

/// `s` without the carriage returns at its end.
pub open spec fn without_returns(s: Seq<char>) -> Seq<char>
    decreases s.len(),
{
    if s.len() > 0 && s.last() == '\r' {
        without_returns(s.drop_last())
    } else {
        s
    }
}

/// The token in the data of one event: the text at `choices[0].delta.content`.
pub open spec fn content(event: JsonTree) -> Option<Seq<char>> {
    match event.member("choices"@) {
        Some(choices) => match choices.item(0) {
            Some(choice) => match choice.member("delta"@) {
                Some(delta) => delta.member_text("content"@),
                None => None,
            },
            None => None,
        },
        None => None,
    }
}

/// What an event says whose data reads as `event`: an empty token says nothing, nor does data that
/// is not JSON.
pub open spec fn event_line(event: Option<JsonTree>) -> Line {
    match event {
        Some(tree) => match content(tree) {
            Some(token) => if token.len() > 0 {
                Line::Token(token)
            } else {
                Line::Nothing
            },
            None => Line::Nothing,
        },
        None => Line::Nothing,
    }
}

/// What a line says. Only lines that begin with `data: ` say anything.
pub open spec fn line_meaning(line: Seq<char>) -> Line {
    let line = without_returns(line);
    if !begins_with(line, "data: "@) {
        Line::Nothing
    } else {
        let data = line.skip(6);
        if data == "[DONE]"@ {
            Line::Done
        } else {
            event_line(read_text(data))
        }
    }
}

/// What has been read of a stream.
#[verifier::ext_equal]
pub struct Progress {
    /// The tokens of the lines that are complete.
    pub tokens: Seq<Seq<char>>,
    /// The characters that wait for the rest of their line; none once the answer is complete.
    pub rest: Seq<char>,
    /// Whether the answer is complete.
    pub done: bool,
}

/// Reads the complete lines of `s` in order, up to the one that says that the answer is complete.
pub open spec fn read_lines(s: Seq<char>) -> Progress
    decreases s.len(),
{
    let end = find_from(s, 0, '\n');
    proof {
        lemma_find_from(s, 0, '\n');
    }
    if end >= s.len() {
        Progress { tokens: seq![], rest: s, done: false }
    } else {
        let after = s.skip(end + 1);
        match line_meaning(s.take(end)) {
            Line::Done => Progress { tokens: seq![], rest: seq![], done: true },
            Line::Token(token) => {
                let next = read_lines(after);
                Progress { tokens: seq![token] + next.tokens, ..next }
            },
            Line::Nothing => read_lines(after),
        }
    }
}

/// The token in the data of one event.
pub fn delta_content(event: &Json) -> (token: Option<String>)
    ensures
        view_of(token) == content(event@),
{
    match event.member("choices") {
        Some(choices) => match choices.item(0) {
            Some(choice) => match choice.member("delta") {
                Some(delta) => delta.member_text("content"),
                None => None,
            },
            None => None,
        },
        None => None,
    }
}

/// The token to show of an event whose data was read.
pub fn event_token(event: Option<Json>) -> (token: Option<String>)
    ensures
        match token {
            Some(t) => event_line(tree_of(event)) == Line::Token(t@),
            None => event_line(tree_of(event)) == Line::Nothing,
        },
{
    match event {
        Some(json) => match delta_content(&json) {
            Some(token) => if token.as_str().is_empty() {
                None
            } else {
                Some(token)
            },
            None => None,
        },
        None => None,
    }
}

/// The answer that comes in over a stream.
pub struct TokenStream {
    buffer: Vec<char>,
    done: bool,
}

/// The model of a stream.
#[verifier::ext_equal]
pub struct StreamState {
    /// The characters that wait for the rest of their line.
    pub waiting: Seq<char>,
    /// Whether the answer is complete.
    pub done: bool,
}

/// What the next characters bring. Nothing follows an answer that is complete.
pub open spec fn advance(state: StreamState, piece: Seq<char>) -> Progress {
    if state.done {
        Progress { tokens: seq![], rest: state.waiting, done: true }
    } else {
        read_lines(state.waiting + piece)
    }
}

/// The state in which reading leaves a stream.
pub open spec fn state_after(progress: Progress) -> StreamState {
    StreamState { waiting: progress.rest, done: progress.done }
}

/// What the next piece of a stream brings.
#[derive(Debug, PartialEq)]
pub struct Tokens {
    /// The tokens to show, in order.
    pub tokens: Vec<String>,
    /// Whether the answer is complete.
    pub done: bool,
}

impl View for TokenStream {
    type V = StreamState;

    closed spec fn view(&self) -> StreamState {
        StreamState { waiting: self.buffer@, done: self.done }
    }
}

impl TokenStream {
    /// A stream of which nothing has come in.
    pub fn new() -> (s: TokenStream)
        ensures
            s@ == (StreamState { waiting: seq![], done: false }),
    {
        TokenStream { buffer: Vec::new(), done: false }
    }

    /// Takes the next bytes of the stream.
    pub fn feed(&mut self, bytes: &[u8]) -> (r: Tokens)
        ensures
            ({
                let progress = advance(old(self)@, lossy(bytes@));
                &&& views(r.tokens@) == progress.tokens
                &&& r.done == progress.done
                &&& final(self)@ == state_after(progress)
            }),
            reads_true(bytes@),
    {
        let piece = from_utf8_lossy(bytes);
        self.feed_text(piece.as_str())
    }

    /// Takes the next characters of the stream.
    pub fn feed_text(&mut self, piece: &str) -> (r: Tokens)
        ensures
            ({
                let progress = advance(old(self)@, piece@);
                &&& views(r.tokens@) == progress.tokens
                &&& r.done == progress.done
                &&& final(self)@ == state_after(progress)
            }),
    {
        if self.done {
            let tokens: Vec<String> = Vec::new();
            assert(views(tokens@) == Seq::<Seq<char>>::empty());
            return Tokens { tokens, done: true };
        }
        let mut piece = chars_of(piece);
        self.buffer.append(&mut piece);
        let ghost all = self.buffer@;
        let mut tokens: Vec<String> = Vec::new();
        let mut start: usize = 0;
        let mut done = false;
        let ghost goal = read_lines(all);
        proof {
            assert(all.skip(0) == all);
            assert(views(tokens@) + goal.tokens == goal.tokens);
        }
        loop
            invariant_except_break
                !done,
                views(tokens@) + read_lines(all.skip(start as int)).tokens == goal.tokens,
                read_lines(all.skip(start as int)).rest == goal.rest,
                read_lines(all.skip(start as int)).done == goal.done,
            invariant
                self.buffer@ == all,
                !self.done,
                goal == read_lines(all),
                start <= all.len(),
            ensures
                views(tokens@) == goal.tokens,
                !done ==> all.skip(start as int) == goal.rest,
                done ==> goal.rest.len() == 0,
                done == goal.done,
            decreases all.len() - start,
        {
            let ghost rest = all.skip(start as int);
            let end = find_char(&self.buffer, start, '\n');
            proof {
                lemma_find_from_skip(all, start as int, start as int, '\n');
                lemma_find_from(all, start as int, '\n');
            }
            if end >= self.buffer.len() {
                assert(views(tokens@) + Seq::<Seq<char>>::empty() == views(tokens@));
                break;
            }
            let ghost before = tokens@;
            let meaning = read_line(&self.buffer, start, end);
            proof {
                assert(rest.take(end - start) == all.subrange(start as int, end as int));
                assert(rest.skip(end + 1 - start) == all.skip(end + 1));
            }
            start = end + 1;
            match meaning {
                LineRead::Done => {
                    assert(views(tokens@) + Seq::<Seq<char>>::empty() == views(tokens@));
                    done = true;
                    break;
                },
                LineRead::Token(token) => {
                    tokens.push(token);
                    proof {
                        let next = read_lines(all.skip(start as int)).tokens;
                        assert(views(tokens@) == views(before) + seq![token@]);
                        assert(views(before) + (seq![token@] + next) == views(tokens@) + next);
                    }
                },
                LineRead::Nothing => {},
            }
        }
        if done {
            self.buffer.clear();
            self.done = true;
        } else {
            let tail = self.buffer.split_off(start);
            self.buffer = tail;
        }
        assert(self@ == state_after(goal));
        Tokens { tokens, done }
    }
}

/// What a line of the stream says.
enum LineRead {
    Token(String),
    Done,
    Nothing,
}

impl LineRead {
    spec fn meaning(self) -> Line {
        match self {
            LineRead::Token(t) => Line::Token(t@),
            LineRead::Done => Line::Done,
            LineRead::Nothing => Line::Nothing,
        }
    }
}

fn read_line(cs: &Vec<char>, from: usize, to: usize) -> (r: LineRead)
    requires
        from <= to <= cs@.len(),
    ensures
        r.meaning() == line_meaning(cs@.subrange(from as int, to as int)),
{
    let mut end: usize = to;
    while end > from && cs[end - 1] == '\r'
        invariant
            from <= end <= to <= cs@.len(),
            without_returns(cs@.subrange(from as int, end as int)) == without_returns(
                cs@.subrange(from as int, to as int),
            ),
        decreases end,
    {
        assert(cs@.subrange(from as int, end as int).drop_last() == cs@.subrange(
            from as int,
            end - 1,
        ));
        end = end - 1;
    }
    let ghost line = cs@.subrange(from as int, end as int);
    assert(end > from ==> line.last() == cs@[end - 1]);
    if !part_begins_with(cs, from, end, "data: ") {
        return LineRead::Nothing;
    }
    proof {
        reveal_strlit("data: ");
        assert(line.skip(6) == cs@.subrange(from + 6, end as int));
    }
    let data = string_of(cs, from + 6, end);
    if same(data.as_str(), "[DONE]") {
        return LineRead::Done;
    }
    match event_token(parse_text(data.as_str())) {
        Some(token) => LineRead::Token(token),
        None => LineRead::Nothing,
    }
}

// ---------------------------------------------------------------------------------------------
// Laws
// ---------------------------------------------------------------------------------------------

/// What has been read after more characters came in.
pub open spec fn followed(first: Progress, more: Seq<char>) -> Progress {
    let second = advance(state_after(first), more);
    Progress { tokens: first.tokens + second.tokens, ..second }
}

proof fn lemma_read_lines_in_pieces(a: Seq<char>, b: Seq<char>)
    ensures
        read_lines(a + b) == followed(read_lines(a), b),
    decreases a.len(),
{
    let end = find_from(a, 0, '\n');
    lemma_find_from(a, 0, '\n');
    if end < a.len() {
        lemma_find_from_prefix(a, b, 0, '\n');
        let after = a.skip(end + 1);
        assert((a + b).take(end) == a.take(end));
        assert((a + b).skip(end + 1) == after + b);
        lemma_read_lines_in_pieces(after, b);
        if let Line::Token(token) = line_meaning(a.take(end)) {
            let next = read_lines(after);
            let second = advance(state_after(next), b);
            assert(seq![token] + (next.tokens + second.tokens) == (seq![token] + next.tokens)
                + second.tokens);
        }
    } else {
        assert(read_lines(a).tokens + read_lines(a + b).tokens == read_lines(a + b).tokens);
    }
}

/// How a stream is cut into pieces does not matter: taking `a` and then `b` brings the tokens that
/// taking both at once brings, in the same order, and leaves the stream in the same state.
pub proof fn law_pieces_do_not_matter(state: StreamState, a: Seq<char>, b: Seq<char>)
    ensures
        advance(state, a + b) == followed(advance(state, a), b),
{
    if !state.done {
        assert(state.waiting + (a + b) == state.waiting + a + b);
        lemma_read_lines_in_pieces(state.waiting + a, b);
    }
}

/// Nothing follows the end: once the answer is complete every further piece brings no token, and
/// the stream stays complete.
pub proof fn law_nothing_follows_the_end(state: StreamState, first: Seq<char>, later: Seq<char>)
    requires
        advance(state, first).done,
    ensures
        ({
            let next = advance(state_after(advance(state, first)), later);
            &&& next.tokens.len() == 0
            &&& next.done
            &&& state_after(next) == state_after(advance(state, first))
        }),
{
}

proof fn lemma_encode_concat(a: Seq<char>, b: Seq<char>)
    ensures
        encode_utf8(a + b) == encode_utf8(a) + encode_utf8(b),
    decreases a.len(),
{
    if a.len() == 0 {
        assert(a + b == b);
    } else {
        assert((a + b).drop_first() == a.drop_first() + b);
        lemma_encode_concat(a.drop_first(), b);
    }
}

/// How the bytes of a stream are cut into pieces does not matter, as long as no character is cut:
/// taking `x` and then `y` comes to the same as taking both at once.
pub proof fn law_byte_pieces_do_not_matter(state: StreamState, x: Seq<u8>, y: Seq<u8>)
    requires
        valid_utf8(x),
        valid_utf8(y),
    ensures
        valid_utf8(x + y),
        advance(state, decode_utf8(x + y)) == followed(
            advance(state, decode_utf8(x)),
            decode_utf8(y),
        ),
{
    let a = decode_utf8(x);
    let b = decode_utf8(y);
    valid_utf8_concat(x, y);
    decode_utf8_encode_utf8(x);
    decode_utf8_encode_utf8(y);
    lemma_encode_concat(a, b);
    encode_utf8_decode_utf8(a + b);
    law_pieces_do_not_matter(state, a, b);
}

/// The characters that wait for the rest of their line hold no line break.
pub proof fn law_only_an_open_line_waits(s: Seq<char>)
    ensures
        !read_lines(s).rest.contains('\n'),
    decreases s.len(),
{
    let end = find_from(s, 0, '\n');
    lemma_find_from(s, 0, '\n');
    if end < s.len() {
        law_only_an_open_line_waits(s.skip(end + 1));
    }
}

/// No token that is shown is empty.
pub proof fn law_tokens_are_not_empty(s: Seq<char>, k: int)
    requires
        0 <= k < read_lines(s).tokens.len(),
    ensures
        read_lines(s).tokens[k].len() > 0,
    decreases s.len(),
{
    let end = find_from(s, 0, '\n');
    lemma_find_from(s, 0, '\n');
    let after = s.skip(end + 1);
    match line_meaning(s.take(end)) {
        Line::Token(_) => if k > 0 {
            law_tokens_are_not_empty(after, k - 1);
        },
        _ => law_tokens_are_not_empty(after, k),
    }
}

/// Whether an event has the content `text` at `choices[0].delta.content`.
pub open spec fn tells(
    event: JsonTree,
    choices: Seq<JsonTree>,
    delta: JsonTree,
    text: Seq<char>,
) -> bool {
    &&& event.member("choices"@) == Some(JsonTree::List(choices))
    &&& choices.len() > 0
    &&& choices[0].member("delta"@) == Some(delta)
    &&& delta.member("content"@) == Some(JsonTree::Text(text))
}

/// The content of an event is shown as it is: the text at `choices[0].delta.content` is the token,
/// whatever it holds, and only an empty one shows nothing.
pub proof fn law_contents_are_shown_as_they_are(
    event: JsonTree,
    choices: Seq<JsonTree>,
    delta: JsonTree,
    text: Seq<char>,
)
    requires
        tells(event, choices, delta, text),
    ensures
        content(event) == Some(text),
        text.len() > 0 ==> event_line(Some(event)) == Line::Token(text),
        text.len() == 0 ==> event_line(Some(event)) == Line::Nothing,
{
}

/// An event without a content shows nothing, nor does data that is not JSON.
pub proof fn law_events_without_content_show_nothing(event: JsonTree)
    requires
        forall|choices: Seq<JsonTree>, delta: JsonTree, text: Seq<char>|
            !tells(event, choices, delta, text),
    ensures
        event_line(Some(event)) == Line::Nothing,
        event_line(None) == Line::Nothing,
{
    if let Some(text) = content(event) {
        let choices = event.member("choices"@)->Some_0->List_0;
        let delta = choices[0].member("delta"@)->Some_0;
        assert(tells(event, choices, delta, text));
    }
}

/// A line of the stream that carries data.
pub open spec fn data_line(data: Seq<char>) -> Seq<char> {
    seq!['d', 'a', 't', 'a', ':', ' '] + data
}

/// Whether data can stand in a line: it holds no line break and does not end with a carriage
/// return.
pub open spec fn fits_line(data: Seq<char>) -> bool {
    !data.contains('\n') && (data.len() > 0 ==> data.last() != '\r')
}

/// The text that an event with this data tells.
pub open spec fn told(data: Seq<char>) -> Seq<char> {
    match read_text(data) {
        Some(event) => match content(event) {
            Some(text) => text,
            None => seq![],
        },
        None => seq![],
    }
}

/// The texts one after the other.
pub open spec fn flat(texts: Seq<Seq<char>>) -> Seq<char>
    decreases texts.len(),
{
    if texts.len() == 0 {
        seq![]
    } else {
        texts.first() + flat(texts.drop_first())
    }
}

/// The stream of events with these data, followed by `end`.
pub open spec fn event_stream(events: Seq<Seq<char>>, end: Seq<char>) -> Seq<char>
    decreases events.len(),
{
    if events.len() == 0 {
        end
    } else {
        data_line(events.first()) + seq!['\n'] + event_stream(events.drop_first(), end)
    }
}

proof fn lemma_first_line(line: Seq<char>, rest: Seq<char>)
    requires
        !line.contains('\n'),
    ensures
        ({
            let s = line + seq!['\n'] + rest;
            let next = read_lines(rest);
            read_lines(s) == match line_meaning(line) {
                Line::Done => Progress { tokens: seq![], rest: seq![], done: true },
                Line::Token(token) => Progress { tokens: seq![token] + next.tokens, ..next },
                Line::Nothing => next,
            }
        }),
{
    let s = line + seq!['\n'] + rest;
    lemma_find_first(line, '\n', rest);
    assert(s.take(line.len() as int) == line);
    assert(s.skip(line.len() as int + 1) == rest);
}

proof fn lemma_without_returns(s: Seq<char>)
    ensures
        without_returns(s).len() <= s.len(),
        without_returns(s) == s.take(without_returns(s).len() as int),
    decreases s.len(),
{
    if s.len() > 0 && s.last() == '\r' {
        lemma_without_returns(s.drop_last());
        let n = without_returns(s).len() as int;
        assert(s.drop_last().take(n) == s.take(n));
    } else {
        assert(s.take(s.len() as int) == s);
    }
}

proof fn lemma_data_line(data: Seq<char>)
    requires
        fits_line(data),
    ensures
        !data_line(data).contains('\n'),
        line_meaning(data_line(data)) == if data == "[DONE]"@ {
            Line::Done
        } else {
            event_line(read_text(data))
        },
{
    reveal_strlit("data: ");
    let line = data_line(data);
    assert forall|i: int| 0 <= i < line.len() implies line[i] != '\n' by {
        if i >= 6 {
            assert(line[i] == data[i - 6]);
        }
    }
    assert(line.last() == if data.len() > 0 { data.last() } else { ' ' });
    assert(without_returns(line) == line);
    assert(line.take(6) == "data: "@);
    assert(line.skip(6) == data);
}

/// The answer that is shown is the answer that was sent: the tokens of a stream, put together, are
/// the contents of its events, put together, whatever line comes after them.
pub proof fn law_the_answer_is_what_was_sent(events: Seq<Seq<char>>, end: Seq<char>)
    requires
        forall|k: int|
            0 <= k < events.len() ==> fits_line(#[trigger] events[k]) && events[k] != "[DONE]"@,
    ensures
        ({
            let whole = read_lines(event_stream(events, end));
            let after = read_lines(end);
            &&& flat(whole.tokens) == flat(events.map_values(|data: Seq<char>| told(data)))
                + flat(after.tokens)
            &&& whole.rest == after.rest
            &&& whole.done == after.done
        }),
    decreases events.len(),
{
    let texts = events.map_values(|data: Seq<char>| told(data));
    if events.len() == 0 {
        assert(flat(texts) + flat(read_lines(end).tokens) == flat(read_lines(end).tokens));
    } else {
        let data = events.first();
        let others = events.drop_first();
        assert(fits_line(events[0]));
        assert forall|k: int| 0 <= k < others.len() implies fits_line(#[trigger] others[k])
            && others[k] != "[DONE]"@ by {
            assert(others[k] == events[k + 1]);
        }
        law_the_answer_is_what_was_sent(others, end);
        lemma_data_line(data);
        let rest = event_stream(others, end);
        lemma_first_line(data_line(data), rest);
        let whole = read_lines(event_stream(events, end));
        let next = read_lines(rest);
        assert(texts.first() == told(data));
        assert(texts.drop_first() == others.map_values(|d: Seq<char>| told(d)));
        if let Line::Token(token) = event_line(read_text(data)) {
            assert(whole.tokens.first() == token);
            assert(whole.tokens.drop_first() == next.tokens);
        } else {
            assert(told(data).len() == 0);
            assert(told(data) + flat(texts.drop_first()) == flat(texts.drop_first()));
        }
        assert(flat(whole.tokens) == told(data) + flat(next.tokens));
        assert(told(data) + (flat(texts.drop_first()) + flat(read_lines(end).tokens)) == told(data)
            + flat(texts.drop_first()) + flat(read_lines(end).tokens));
    }
}

/// The line `data: [DONE]` is the end: no token comes after it, whatever follows.
pub proof fn law_done_is_the_end(after: Seq<char>)
    ensures
        read_lines(data_line("[DONE]"@) + seq!['\n'] + after).done,
        read_lines(data_line("[DONE]"@) + seq!['\n'] + after).tokens.len() == 0,
{
    reveal_strlit("[DONE]");
    lemma_data_line("[DONE]"@);
    lemma_first_line(data_line("[DONE]"@), after);
}

/// Lines that carry no data change nothing.
pub proof fn law_other_lines_change_nothing(line: Seq<char>, after: Seq<char>)
    requires
        !line.contains('\n'),
        !begins_with(line, seq!['d', 'a', 't', 'a', ':', ' ']),
    ensures
        read_lines(line + seq!['\n'] + after) == read_lines(after),
{
    reveal_strlit("data: ");
    lemma_without_returns(line);
    let kept = without_returns(line);
    if begins_with(kept, "data: "@) {
        assert(kept.take(6) == line.take(6));
        assert("data: "@ == seq!['d', 'a', 't', 'a', ':', ' ']);
    }
    lemma_first_line(line, after);
}

/// A carriage return before a line break changes nothing.
pub proof fn law_carriage_returns_change_nothing(line: Seq<char>, after: Seq<char>)
    requires
        !line.contains('\n'),
    ensures
        read_lines(line + seq!['\r'] + seq!['\n'] + after) == read_lines(
            line + seq!['\n'] + after,
        ),
{
    let longer = line + seq!['\r'];
    assert(longer.last() == '\r');
    assert(longer.drop_last() == line);
    assert forall|i: int| 0 <= i < longer.len() implies longer[i] != '\n' by {
        if i < line.len() {
            assert(longer[i] == line[i]);
        }
    }
    lemma_first_line(longer, after);
    lemma_first_line(line, after);
}

/// A question arrives whole: the request holds the words as they were said, and an image address
/// whose base64 stands for the screenshot. It asks for a stream.
pub proof fn law_the_request_carries_the_question(image: Seq<u8>, transcript: Seq<char>)
    ensures
        ({
            let body = request(image, transcript);
            let message = body.member("messages"@)->Some_0.item(0)->Some_0;
            let parts = message.member("content"@)->Some_0;
            let picture = parts.item(0)->Some_0;
            let words = parts.item(1)->Some_0;
            let url = picture.member("image_url"@)->Some_0.member_text("url"@);
            &&& body.member_text("model"@) == Some("gpt-4o"@)
            &&& body.member("stream"@) == Some(JsonTree::Bool(true))
            &&& body.member("max_tokens"@) == Some(JsonTree::Number("1024"@))
            &&& message.member_text("role"@) == Some("user"@)
            &&& picture.member_text("type"@) == Some("image_url"@)
            &&& words.member_text("type"@) == Some("text"@)
            &&& words.member_text("text"@) == Some(transcript)
            &&& url is Some
            &&& begins_with(url->Some_0, "data:image/png;base64,"@)
            &&& unbase64(url->Some_0.skip("data:image/png;base64,"@.len() as int)) == image
        }),
{
    reveal_strlit("model");
    reveal_strlit("messages");
    reveal_strlit("max_tokens");
    reveal_strlit("stream");
    reveal_strlit("role");
    reveal_strlit("content");
    reveal_strlit("type");
    reveal_strlit("text");
    reveal_strlit("image_url");
    let body = request(image, transcript);
    let all = body->Object_0;
    assert("model"@.len() == 5 && "messages"@.len() == 8 && "max_tokens"@.len() == 10 && "stream"@.len()
        == 6);
    law_members_are_found(all, 0);
    law_members_are_found(all, 1);
    law_members_are_found(all, 2);
    law_members_are_found(all, 3);
    let message = all[1].value->List_0[0];
    assert("role"@.len() == 4 && "content"@.len() == 7);
    law_members_are_found(message->Object_0, 0);
    law_members_are_found(message->Object_0, 1);
    let parts = question(image, transcript)->List_0;
    let picture = parts[0]->Object_0;
    let words = parts[1]->Object_0;
    assert("type"@.len() == 4 && "image_url"@.len() == 9);
    assert("type"@[1] != "text"@[1]);
    law_members_are_found(picture, 0);
    law_members_are_found(picture, 1);
    law_members_are_found(words, 0);
    law_members_are_found(words, 1);
    law_members_are_found(picture[1].value->Object_0, 0);
    law_an_address_holds_the_image(image);
}

/// A line that is not complete is kept whole until the rest of it comes.
pub proof fn law_an_open_line_is_kept(s: Seq<char>)
    requires
        !s.contains('\n'),
    ensures
        read_lines(s) == (Progress { tokens: seq![], rest: s, done: false }),
{
    lemma_find_from(s, 0, '\n');
}

} // verus!
