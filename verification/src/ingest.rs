//! Ingestion: what becomes of a text that a hook sends. The text is split into
//! chunks, chunks that say nothing are dropped, and the rest are classified and
//! stored, each under a key that keeps it from being stored twice.

use vstd::prelude::*;
use vstd::string::*;

use crate::db::{MemoryRow, RowView};
use crate::facets::Facets;
use crate::floats;
use crate::hash::sha256_digest;
use crate::ids::{self, format_id, fresh_id, MemoryId};
use crate::json::{self, Json, JsonView};
use crate::text::{
    self, byte_len, concat2, count_char, ends_with, hex_of, last_word_of, lines, starts_with,
    str_eq, to_lowercase, trim, trim_end,
};
use crate::time::Timestamp;

verus! {

// ---- Splitting ------------------------------------------------------------------

/// Whether a chunk may end after the line `s`: with a full stop, an exclamation
/// mark or a question mark that does not belong to a URL, a path or a version
/// number.
pub open spec fn sentence_end(s: Seq<char>) -> bool {
    ||| text::has_suffix(s, ". "@)
    ||| text::has_suffix(s, ".\t"@)
    ||| {
        let t = text::trimmed_end(s);
        let word = text::last_word(t);
        &&& t.len() > 0
        &&& t.last() == '.' || t.last() == '!' || t.last() == '?'
        &&& text::occurrences(word, '/') == 0
        &&& text::occurrences(word, '.') <= 1
    }
}

/// Whether a chunk may end after a line.
pub fn ends_with_sentence_boundary(s: &str) -> (r: bool)
    ensures
        r == sentence_end(s@),
{
    if ends_with(s, ". ") || ends_with(s, ".\t") {
        return true;
    }
    let t = trim_end(s);
    let n: usize = t.unicode_len();
    if n == 0 {
        return false;
    }
    let last: char = t.get_char(n - 1);
    if last != '.' && last != '!' && last != '?' {
        return false;
    }
    let word = last_word_of(t);
    count_char(word, '/') == 0 && count_char(word, '.') <= 1
}

/// The state of splitting: the chunks that are done, the chunk under way, and
/// whether the text is inside a code fence.
pub struct SplitState {
    pub done: Seq<Seq<char>>,
    pub current: Seq<char>,
    pub fenced: bool,
}

/// The state with the chunk under way, if any, done.
pub open spec fn flushed(st: SplitState) -> SplitState {
    if st.current.len() > 0 {
        SplitState { done: st.done.push(st.current), current: Seq::empty(), ..st }
    } else {
        st
    }
}

/// The state after one more line. A line that opens or closes a code fence ends
/// the chunk under way; lines inside a fence are passed over; a blank line ends
/// the chunk; any other line joins it, and ends it where a sentence ends.
pub open spec fn split_step(st: SplitState, line: Seq<char>) -> SplitState {
    let t = text::trimmed(line);
    if text::has_prefix(t, "```"@) {
        flushed(SplitState { fenced: !st.fenced, ..st })
    } else if st.fenced {
        st
    } else if t.len() == 0 {
        flushed(st)
    } else {
        let joined = SplitState {
            current: if st.current.len() > 0 {
                st.current.push(' ') + t
            } else {
                t
            },
            ..st
        };
        if sentence_end(t) {
            flushed(joined)
        } else {
            joined
        }
    }
}

/// The state after the given lines.
pub open spec fn split_lines(lines: Seq<Seq<char>>) -> SplitState
    decreases lines.len(),
{
    if lines.len() == 0 {
        SplitState { done: Seq::empty(), current: Seq::empty(), fenced: false }
    } else {
        split_step(split_lines(lines.drop_last()), lines.last())
    }
}

/// The chunks of a text.
pub open spec fn chunks_of(s: Seq<char>) -> Seq<Seq<char>> {
    flushed(split_lines(text::lines_of(s))).done
}

/// Splits a text into chunks: lines joined up to the end of a sentence, a blank
/// line or a code fence, without what stands inside code fences.
pub fn split_chunks(s: &str) -> (r: Vec<String>)
    ensures
        text::texts(r@) == chunks_of(s@),
{
    broadcast use {text::lemma_texts_push, text::lemma_texts_empty};

    let all = lines(s);
    let ghost views = text::texts(all@);
    let mut done: Vec<String> = Vec::new();
    let mut current: String = String::new();
    let mut fenced: bool = false;
    assert(current@ =~= Seq::<char>::empty());
    for i in 0..all.len()
        invariant
            views == text::texts(all@),
            split_lines(views.take(i as int)) == (SplitState {
                done: text::texts(done@),
                current: current@,
                fenced,
            }),
    {
        broadcast use {text::lemma_texts_push, text::lemma_texts_empty};

        let ghost next = views.take(i + 1);
        assert(next.drop_last() =~= views.take(i as int));
        assert(next.last() == all@[i as int]@);
        let trimmed = trim(all[i].as_str());
        if starts_with(trimmed, "```") {
            fenced = !fenced;
            if current.as_str().unicode_len() > 0 {
                done.push(current);
                current = String::new();
                assert(current@ =~= Seq::<char>::empty());
            }
        } else if fenced {
        } else if trimmed.unicode_len() == 0 {
            if current.as_str().unicode_len() > 0 {
                done.push(current);
                current = String::new();
                assert(current@ =~= Seq::<char>::empty());
            }
        } else {
            if current.as_str().unicode_len() > 0 {
                current.push(' ');
                current.append(trimmed);
            } else {
                current = trimmed.to_owned();
            }
            if ends_with_sentence_boundary(trimmed) {
                done.push(current);
                current = String::new();
                assert(current@ =~= Seq::<char>::empty());
            }
        }
    }
    assert(views.take(views.len() as int) =~= views);
    if current.as_str().unicode_len() > 0 {
        done.push(current);
    }
    done
}

/// Whether a line opens or closes a code fence.
pub open spec fn is_fence(line: Seq<char>) -> bool {
    text::has_prefix(text::trimmed(line), "```"@)
}

proof fn lemma_split_fenced(before: Seq<Seq<char>>, inside: Seq<Seq<char>>)
    requires
        split_lines(before).fenced,
        forall|i: int| 0 <= i < inside.len() ==> !is_fence(#[trigger] inside[i]),
    ensures
        split_lines(before + inside) == split_lines(before),
    decreases inside.len(),
{
    if inside.len() == 0 {
        assert(before + inside =~= before);
    } else {
        let all = before + inside;
        assert(all.drop_last() =~= before + inside.drop_last());
        assert(all.last() == inside[inside.len() - 1]);
        lemma_split_fenced(before, inside.drop_last());
    }
}

proof fn lemma_split_continues(a: Seq<Seq<char>>, b: Seq<Seq<char>>, after: Seq<Seq<char>>)
    requires
        split_lines(a) == split_lines(b),
    ensures
        split_lines(a + after) == split_lines(b + after),
    decreases after.len(),
{
    if after.len() == 0 {
        assert(a + after =~= a);
        assert(b + after =~= b);
    } else {
        assert((a + after).drop_last() =~= a + after.drop_last());
        assert((b + after).drop_last() =~= b + after.drop_last());
        lemma_split_continues(a, b, after.drop_last());
    }
}

/// What stands inside a code fence has no part in the chunks: whatever lines
/// follow the opening of a fence, up to the next fence line, splitting goes on as
/// if they were not there.
pub proof fn lemma_fenced_lines_do_not_matter(
    before: Seq<Seq<char>>,
    open: Seq<char>,
    inside: Seq<Seq<char>>,
    after: Seq<Seq<char>>,
)
    requires
        !split_lines(before).fenced,
        is_fence(open),
        forall|i: int| 0 <= i < inside.len() ==> !is_fence(#[trigger] inside[i]),
    ensures
        split_lines(before.push(open) + inside + after) == split_lines(before.push(open) + after),
{
    let opened = before.push(open);
    assert(opened.drop_last() =~= before);
    lemma_split_fenced(opened, inside);
    lemma_split_continues(opened + inside, opened, after);
}

/// The state after the given lines, where splitting begins in the state `st`.
spec fn split_on(st: SplitState, lines: Seq<Seq<char>>) -> SplitState
    decreases lines.len(),
{
    if lines.len() == 0 {
        st
    } else {
        split_step(split_on(st, lines.drop_last()), lines.last())
    }
}

proof fn lemma_split_on_append(st: SplitState, a: Seq<Seq<char>>, b: Seq<Seq<char>>)
    ensures
        split_on(st, a + b) == split_on(split_on(st, a), b),
    decreases b.len(),
{
    if b.len() == 0 {
        assert(a + b =~= a);
    } else {
        assert((a + b).drop_last() =~= a + b.drop_last());
        lemma_split_on_append(st, a, b.drop_last());
    }
}

proof fn lemma_split_is_split_on(lines: Seq<Seq<char>>)
    ensures
        split_lines(lines) == split_on(split_lines(Seq::empty()), lines),
    decreases lines.len(),
{
    if lines.len() > 0 {
        lemma_split_is_split_on(lines.drop_last());
    } else {
        assert(lines =~= Seq::empty());
    }
}

proof fn lemma_blank_line(st: SplitState)
    ensures
        split_step(st, Seq::empty()) == if st.fenced {
            st
        } else {
            flushed(st)
        },
        split_step(split_step(st, Seq::empty()), Seq::empty()) == split_step(st, Seq::empty()),
{
    reveal_strlit("```");
    assert(text::trimmed(Seq::<char>::empty()).len() == 0);
}

proof fn lemma_ended_lines_split_alike(st: SplitState, s: Seq<char>, from: int)
    requires
        0 <= from <= s.len(),
    ensures
        split_step(split_on(st, text::ended_lines(s, from)), Seq::empty()) == split_step(
            split_on(st, text::lines_from(s, from)),
            Seq::empty(),
        ),
    decreases s.len() - from,
{
    let ended = text::ended_lines(s, from);
    let lines = text::lines_from(s, from);
    let e = text::newline_at(s, from);
    reveal_with_fuel(split_on, 2);
    if from <= e < s.len() {
        let first = text::without_cr(s.subrange(from, e));
        lemma_split_on_append(st, seq![first], text::ended_lines(s, e + 1));
        lemma_split_on_append(st, seq![first], text::lines_from(s, e + 1));
        lemma_ended_lines_split_alike(split_on(st, seq![first]), s, e + 1);
    } else if from == s.len() {
        assert(s.subrange(from, s.len() as int) =~= Seq::empty());
        assert(ended.drop_last() =~= Seq::empty());
        assert(lines =~= Seq::empty());
        lemma_blank_line(st);
    } else {
        let last = s.subrange(from, s.len() as int);
        assert(ended.drop_last() =~= Seq::empty());
        assert(lines.drop_last() =~= Seq::empty());
        if last.len() > 0 && last.last() == '\r' {
            text::lemma_trimmed_ignores_last_space(last);
        }
    }
}

proof fn lemma_split_from_rest(done: Seq<Seq<char>>, lines: Seq<Seq<char>>)
    ensures
        ({
            let rest = SplitState { done, current: Seq::empty(), fenced: false };
            let alone = split_lines(lines);
            split_on(rest, lines) == (SplitState { done: done + alone.done, ..alone })
        }),
    decreases lines.len(),
{
    let rest = SplitState { done, current: Seq::empty(), fenced: false };
    let alone = split_lines(lines);
    if lines.len() == 0 {
        assert(done + alone.done =~= done);
    } else {
        lemma_split_from_rest(done, lines.drop_last());
        let before = split_lines(lines.drop_last());
        assert(done + before.done.push(before.current) =~= (done + before.done).push(
            before.current,
        ));
        assert(split_on(rest, lines).done =~= done + alone.done);
    }
}

/// Texts with a blank line between them are split each by itself: the chunks are
/// those of the first and then those of the second, where the first leaves no code
/// fence open.
pub proof fn lemma_blank_line_parts_texts(a: Seq<char>, b: Seq<char>)
    requires
        !split_lines(text::lines_of(a)).fenced,
    ensures
        chunks_of(a + seq!['\n', '\n'] + b) == chunks_of(a) + chunks_of(b),
{
    let none = Seq::<char>::empty();
    let start = split_lines(Seq::empty());
    let blank = seq![none];
    let s = a + seq!['\n', '\n'] + b;
    assert(s =~= a.push('\n') + (none.push('\n') + b));
    text::lemma_lines_of_joined(a, none.push('\n') + b, 0);
    text::lemma_lines_of_joined(none, b, 0);
    assert(none.subrange(0, 0) =~= none);
    assert(text::ended_lines(none, 0) =~= blank);
    let ended = text::ended_lines(a, 0);
    let lines = text::lines_of(s);
    assert(lines =~= ended + blank + text::lines_of(b));
    lemma_split_is_split_on(lines);
    lemma_split_is_split_on(text::lines_of(a));
    lemma_split_on_append(start, ended + blank, text::lines_of(b));
    lemma_split_on_append(start, ended, blank);
    lemma_ended_lines_split_alike(start, a, 0);
    reveal_with_fuel(split_on, 2);
    assert(blank.drop_last() =~= Seq::empty());
    let first = split_lines(text::lines_of(a));
    let second = split_lines(text::lines_of(b));
    lemma_blank_line(first);
    let mid = flushed(first);
    assert(split_on(start, ended + blank) == mid);
    assert(mid.current =~= none);
    lemma_split_from_rest(mid.done, text::lines_of(b));
    assert(mid.done + second.done.push(second.current) =~= (mid.done + second.done).push(
        second.current,
    ));
    assert(chunks_of(s) =~= chunks_of(a) + chunks_of(b));
}

/// Whether a text is not empty, and neither begins nor ends with white space.
pub open spec fn is_tidy(s: Seq<char>) -> bool {
    s.len() > 0 && !text::white_space(s[0]) && !text::white_space(s.last())
}

proof fn lemma_split_tidy(lines: Seq<Seq<char>>)
    ensures
        forall|i: int|
            0 <= i < split_lines(lines).done.len() ==> is_tidy(
                #[trigger] split_lines(lines).done[i],
            ),
        split_lines(lines).current.len() > 0 ==> is_tidy(split_lines(lines).current),
    decreases lines.len(),
{
    if lines.len() > 0 {
        lemma_split_tidy(lines.drop_last());
        text::lemma_trimmed_is_tidy(lines.last());
    }
}

/// Every chunk has something in it, and neither begins nor ends with white space.
pub proof fn lemma_chunks_are_tidy(s: Seq<char>)
    ensures
        forall|i: int| 0 <= i < chunks_of(s).len() ==> is_tidy(#[trigger] chunks_of(s)[i]),
{
    lemma_split_tidy(text::lines_of(s));
}

// ---- Requests ---------------------------------------------------------------------

/// What a hook sends.
#[derive(Debug, PartialEq, Eq)]
pub struct IngestRequest {
    pub text: String,
    pub project: Option<String>,
    pub profile: String,
    pub source: String,
}

/// What waits to be worked on.
#[derive(Debug, PartialEq, Eq)]
pub struct IngestItem {
    pub id: MemoryId,
    pub text: String,
    pub project: Option<String>,
    pub profile: String,
    pub source: String,
}

/// What a hook is told where its text was queued.
#[derive(Debug, PartialEq, Eq)]
pub struct IngestResponse {
    pub queued: bool,
    pub queue_id: MemoryId,
}

/// The profile of a request that names none.
pub fn default_profile() -> (r: String)
    ensures
        r@ == "chitta"@,
{
    "chitta".to_owned()
}

/// The source of a request that names none.
pub fn default_source() -> (r: String)
    ensures
        r@ == "hook:post"@,
{
    "hook:post".to_owned()
}

/// The most bytes that a request's text may have.
pub const MAX_INGEST_BYTES: usize = 1_000_000;

/// An HTTP answer: the status code and the JSON body.
#[derive(Debug, PartialEq, Eq)]
pub struct IngestAnswer {
    pub status: u16,
    pub body: Json,
}

/// The body of an answer that says what went wrong.
pub open spec fn error_body(message: Seq<char>) -> JsonView {
    json::object1("error"@, JsonView::Text(message))
}

fn make_answer(status: u16, message: &str) -> (r: IngestAnswer)
    ensures
        r.status == status,
        r.body@ == error_body(message@),
{
    IngestAnswer { status, body: json::make_object1("error", json::text_value(message)) }
}

/// Takes a request in under the given identifier, or refuses it: an empty text
/// and a text of more than [`MAX_INGEST_BYTES`] are bad requests.
pub fn take_in_as(req: IngestRequest, queue_id: MemoryId) -> (r: Result<IngestItem, IngestAnswer>)
    ensures
        match r {
            Ok(item) => {
                &&& 0 < text::utf8(req.text@).len() <= MAX_INGEST_BYTES
                &&& item.id == queue_id
                &&& item.text == req.text
                &&& item.project == req.project
                &&& item.profile == req.profile
                &&& item.source == req.source
            },
            Err(a) => {
                let n = text::utf8(req.text@).len();
                &&& n == 0 || n > MAX_INGEST_BYTES
                &&& a.status == 400
                &&& a.body@ == error_body(
                    if n == 0 {
                        "text must be non-empty"@
                    } else {
                        "text exceeds 1MB limit"@
                    },
                )
            },
        },
{
    let n: usize = byte_len(req.text.as_str());
    if n == 0 {
        return Err(make_answer(400, "text must be non-empty"));
    }
    if n > MAX_INGEST_BYTES {
        return Err(make_answer(400, "text exceeds 1MB limit"));
    }
    Ok(
        IngestItem {
            id: queue_id,
            text: req.text,
            project: req.project,
            profile: req.profile,
            source: req.source,
        },
    )
}

/// Takes a request in under a new identifier, or refuses it.
pub fn take_in(req: IngestRequest) -> (r: Result<IngestItem, IngestAnswer>)
    ensures
        r is Ok <==> 0 < text::utf8(req.text@).len() <= MAX_INGEST_BYTES,
        match r {
            Ok(item) => item.text == req.text && item.project == req.project && item.profile
                == req.profile && item.source == req.source,
            Err(a) => a.status == 400 && a.body@ == error_body(
                if text::utf8(req.text@).len() == 0 {
                    "text must be non-empty"@
                } else {
                    "text exceeds 1MB limit"@
                },
            ),
        },
{
    take_in_as(req, fresh_id())
}

/// What became of an item that was sent to the queue.
#[derive(Clone, Copy, Debug, PartialEq, Eq, Structural)]
pub enum SendOutcome {
    Sent,
    Full,
    Closed,
}

/// The body of the answer for an item that was queued.
pub open spec fn queued_body(queue_id: MemoryId) -> JsonView {
    json::object2(
        "queued"@,
        JsonView::Bool(true),
        "queue_id"@,
        JsonView::Text(ids::id_text(queue_id)),
    )
}

/// The answer to a request whose item was sent to the queue: 202 where it was
/// taken, 503 where the queue is full, 500 where nobody works on it.
pub fn answer(outcome: SendOutcome, queue_id: MemoryId) -> (r: IngestAnswer)
    ensures
        match outcome {
            SendOutcome::Sent => r.status == 202 && r.body@ == queued_body(queue_id),
            SendOutcome::Full => r.status == 503 && r.body@ == error_body(
                "ingest queue full, try again later"@,
            ),
            SendOutcome::Closed => r.status == 500 && r.body@ == error_body(
                "ingest worker not running"@,
            ),
        },
{
    match outcome {
        SendOutcome::Sent => {
            let response = IngestResponse { queued: true, queue_id };
            IngestAnswer {
                status: 202,
                body: json::make_object2(
                    "queued",
                    Json::Bool(response.queued),
                    "queue_id",
                    Json::Text(format_id(response.queue_id)),
                ),
            }
        },
        SendOutcome::Full => make_answer(503, "ingest queue full, try again later"),
        SendOutcome::Closed => make_answer(500, "ingest worker not running"),
    }
}

// ---- Narration --------------------------------------------------------------------

/// Whether a text in lower case opens as narration does: with words about what
/// the writer is about to do.
pub open spec fn narration_opening(lower: Seq<char>) -> bool {
    ||| text::has_prefix(lower, "let me "@)
    ||| text::has_prefix(lower, "i'll now "@)
    ||| text::has_prefix(lower, "i will now "@)
    ||| text::has_prefix(lower, "let's "@)
    ||| text::has_prefix(lower, "now i'll "@)
    ||| text::has_prefix(lower, "now let me "@)
    ||| text::has_prefix(lower, "i need to "@)
    ||| text::has_prefix(lower, "i should "@)
    ||| text::has_prefix(lower, "first, let me "@)
    ||| text::has_prefix(lower, "next, i'll "@)
    ||| text::has_prefix(lower, "okay, "@)
    ||| text::has_prefix(lower, "alright, "@)
}

/// Whether a text in lower case opens as narration does.
pub fn opens_as_narration(lower: &str) -> (r: bool)
    ensures
        r == narration_opening(lower@),
{
    starts_with(lower, "let me ") || starts_with(lower, "i'll now ") || starts_with(
        lower,
        "i will now ",
    ) || starts_with(lower, "let's ") || starts_with(lower, "now i'll ") || starts_with(
        lower,
        "now let me ",
    ) || starts_with(lower, "i need to ") || starts_with(lower, "i should ") || starts_with(
        lower,
        "first, let me ",
    ) || starts_with(lower, "next, i'll ") || starts_with(lower, "okay, ") || starts_with(
        lower,
        "alright, ",
    )
}

/// Whether a text is narration, in upper or lower case.
pub fn is_narration(s: &str) -> (r: bool)
    ensures
        r == narration_opening(text::lowercase(s@)),
        text::is_ascii(s@) ==> r == narration_opening(text::ascii_lowercase(s@)),
{
    opens_as_narration(to_lowercase(s).as_str())
}

/// The case of its letters makes no difference to whether an ASCII text is
/// narration: it is where the text in upper case is, and where the text in lower
/// case is. `plain`, `upper` and `lower` are what [`is_narration`] says of the three.
pub proof fn lemma_case_makes_no_difference(s: Seq<char>, plain: bool, upper: bool, lower: bool)
    requires
        text::is_ascii(s),
        text::is_ascii(s) ==> plain == narration_opening(text::ascii_lowercase(s)),
        text::is_ascii(text::ascii_uppercase(s)) ==> upper == narration_opening(
            text::ascii_lowercase(text::ascii_uppercase(s)),
        ),
        text::is_ascii(text::ascii_lowercase(s)) ==> lower == narration_opening(
            text::ascii_lowercase(text::ascii_lowercase(s)),
        ),
    ensures
        plain == upper,
        plain == lower,
{
    text::lemma_lower_case_forgets_case(s);
}

// ---- Keys and tags ----------------------------------------------------------------

/// The text of an optional project; empty where there is none.
pub open spec fn project_text(project: Option<Seq<char>>) -> Seq<char> {
    match project {
        Some(p) => p,
        None => Seq::empty(),
    }
}

/// What a chunk's key is made from: the chunk, the project and the source, with
/// bars between them.
pub open spec fn key_material(
    chunk: Seq<char>,
    project: Option<Seq<char>>,
    source: Seq<char>,
) -> Seq<u8> {
    text::utf8(chunk) + seq![0x7cu8] + text::utf8(project_text(project)) + seq![0x7cu8]
        + text::utf8(source)
}

/// The key of the chunk whose key material has the given digest.
pub open spec fn key_of_digest(digest: Seq<u8>) -> Seq<char> {
    "ingest:"@ + text::hex(digest)
}

/// The key of a chunk.
pub open spec fn chunk_key(
    chunk: Seq<char>,
    project: Option<Seq<char>>,
    source: Seq<char>,
) -> Seq<char> {
    key_of_digest(crate::hash::sha256(key_material(chunk, project, source)))
}

/// The view of an optional string slice.
pub open spec fn opt_slice(o: Option<&str>) -> Option<Seq<char>> {
    match o {
        Some(s) => Some(s@),
        None => None,
    }
}

/// The key of the chunk whose key material has the given digest.
pub fn key_from_digest(digest: &[u8]) -> (r: String)
    ensures
        r@ == key_of_digest(digest@),
{
    let h = hex_of(digest, digest.len());
    assert(digest@.take(digest@.len() as int) =~= digest@);
    concat2("ingest:", h.as_str())
}

fn extend_bytes(v: &mut Vec<u8>, more: &[u8])
    ensures
        final(v)@ == old(v)@ + more@,
{
    let ghost before = v@;
    for i in 0..more.len()
        invariant
            v@ == before + more@.take(i as int),
    {
        v.push(more[i]);
        assert(more@.take(i + 1) =~= more@.take(i as int).push(more@[i as int]));
        assert(v@ =~= before + more@.take(i + 1));
    }
    assert(more@.take(more@.len() as int) =~= more@);
}

/// The key of a chunk: the same chunk of the same project and source has the
/// same key.
pub fn make_idempotency_key(chunk: &str, project: Option<&str>, source: &str) -> (r: String)
    ensures
        r@ == chunk_key(chunk@, opt_slice(project), source@),
{
    let mut data: Vec<u8> = Vec::new();
    extend_bytes(&mut data, chunk.as_bytes());
    data.push(0x7c);
    match project {
        Some(p) => {
            extend_bytes(&mut data, p.as_bytes());
        },
        None => {
            assert(text::utf8(Seq::<char>::empty()) =~= Seq::<u8>::empty());
        },
    }
    data.push(0x7c);
    extend_bytes(&mut data, source.as_bytes());
    assert(data@ =~= key_material(chunk@, opt_slice(project), source@));
    let digest = sha256_digest(data.as_slice());
    key_from_digest(digest.as_slice())
}

/// The tags of what was ingested.
pub open spec fn ingest_tags(project: Option<Seq<char>>, source: Seq<char>) -> Seq<Seq<char>> {
    match project {
        Some(p) => seq!["auto-extracted"@, "project:"@ + p, "source:"@ + source],
        None => seq!["auto-extracted"@, "source:"@ + source],
    }
}

/// The tags of what was ingested: that it was extracted, the project where there
/// is one, and the source.
pub fn build_tags(project: Option<&str>, source: &str) -> (r: Vec<String>)
    ensures
        text::texts(r@) == ingest_tags(opt_slice(project), source@),
        are_tags_of(r@, opt_slice(project), source@),
{
    let mut tags: Vec<String> = Vec::new();
    tags.push("auto-extracted".to_owned());
    match project {
        Some(p) => {
            tags.push(concat2("project:", p));
        },
        None => {},
    }
    tags.push(concat2("source:", source));
    assert(text::texts(tags@) =~= ingest_tags(opt_slice(project), source@));
    tags
}

/// Whether the tags of a memory say that it was extracted, from which source, and, in
/// between, for which project where there is one.
pub open spec fn are_tags_of(
    tags: Seq<String>,
    project: Option<Seq<char>>,
    source: Seq<char>,
) -> bool {
    &&& tags.len() == (if project is Some {
        3int
    } else {
        2
    })
    &&& tags[0]@ == "auto-extracted"@
    &&& tags.last()@ == "source:"@ + source
    &&& project is Some ==> tags[1]@ == "project:"@ + project->0
}

/// The byte texts of key material for the same project and source are told apart by
/// their chunks.
pub proof fn lemma_material_tells_chunks_apart(
    a: Seq<char>,
    b: Seq<char>,
    project: Option<Seq<char>>,
    source: Seq<char>,
)
    requires
        key_material(a, project, source) == key_material(b, project, source),
    ensures
        text::utf8(a) == text::utf8(b),
{
    let x = key_material(a, project, source);
    let y = key_material(b, project, source);
    assert(x.len() == y.len());
    assert(text::utf8(a).len() == text::utf8(b).len());
    assert(x.take(text::utf8(a).len() as int) =~= text::utf8(a));
    assert(y.take(text::utf8(b).len() as int) =~= text::utf8(b));
}

/// A memory from one source, or for one project, does not share its key material with
/// one from another, where the rest is the same.
pub proof fn lemma_material_tells_sources_apart(
    chunk: Seq<char>,
    p: Seq<char>,
    q: Seq<char>,
    a: Seq<char>,
    b: Seq<char>,
)
    ensures
        key_material(chunk, Some(p), a) == key_material(chunk, Some(p), b) ==> text::utf8(a)
            == text::utf8(b),
        key_material(chunk, Some(p), a) == key_material(chunk, Some(q), a) ==> text::utf8(p)
            == text::utf8(q),
{
    let c = text::utf8(chunk).len() as int;
    if key_material(chunk, Some(p), a) == key_material(chunk, Some(p), b) {
        let n = c + 2 + text::utf8(p).len();
        let x = key_material(chunk, Some(p), a);
        let y = key_material(chunk, Some(p), b);
        assert(x.len() == y.len());
        assert(x.skip(n) =~= text::utf8(a));
        assert(y.skip(n) =~= text::utf8(b));
    }
    if key_material(chunk, Some(p), a) == key_material(chunk, Some(q), a) {
        let x = key_material(chunk, Some(p), a);
        let y = key_material(chunk, Some(q), a);
        assert(x.len() == y.len());
        assert(text::utf8(p).len() == text::utf8(q).len());
        assert(x.subrange(c + 1, c + 1 + text::utf8(p).len()) =~= text::utf8(p));
        assert(y.subrange(c + 1, c + 1 + text::utf8(q).len()) =~= text::utf8(q));
    }
}

// ---- Planning ---------------------------------------------------------------------

/// The fewest bytes of a chunk that is worth storing.
pub const MIN_CHUNK_BYTES: usize = 20;

/// A chunk that is to be classified, under its key.
#[derive(Debug, PartialEq, Eq)]
pub struct PlannedChunk {
    pub content: String,
    pub key: String,
}

/// What a [`PlannedChunk`] stands for.
pub struct PlannedView {
    pub content: Seq<char>,
    pub key: Seq<char>,
}

impl View for PlannedChunk {
    type V = PlannedView;

    open spec fn view(&self) -> PlannedView {
        PlannedView { content: self.content@, key: self.key@ }
    }
}

/// The views of planned chunks.
pub open spec fn planned_views(v: Seq<PlannedChunk>) -> Seq<PlannedView> {
    v.map_values(|c: PlannedChunk| c@)
}

/// Whether one of the planned chunks has the key.
pub open spec fn key_planned(plan: Seq<PlannedView>, key: Seq<char>) -> bool {
    exists|i: int| 0 <= i < plan.len() && (#[trigger] plan[i]).key == key
}

/// The plan for the given chunks: each chunk, trimmed, that is long enough, is no
/// narration, and does not have the key of a chunk planned before it.
pub open spec fn plan_of(
    chunks: Seq<Seq<char>>,
    project: Option<Seq<char>>,
    source: Seq<char>,
) -> Seq<PlannedView>
    decreases chunks.len(),
{
    if chunks.len() == 0 {
        Seq::empty()
    } else {
        let before = plan_of(chunks.drop_last(), project, source);
        let content = text::trimmed(chunks.last());
        let key = chunk_key(content, project, source);
        if text::utf8(content).len() < MIN_CHUNK_BYTES || narration_opening(
            text::lowercase(content),
        ) || key_planned(before, key) {
            before
        } else {
            before.push(PlannedView { content, key })
        }
    }
}

fn has_key(plan: &Vec<PlannedChunk>, key: &str) -> (r: bool)
    ensures
        r == key_planned(planned_views(plan@), key@),
{
    let ghost views = planned_views(plan@);
    for i in 0..plan.len()
        invariant
            views == planned_views(plan@),
            forall|j: int| 0 <= j < i ==> (#[trigger] views[j]).key != key@,
    {
        assert(views[i as int] == plan@[i as int]@);
        if str_eq(plan[i].key.as_str(), key) {
            return true;
        }
    }
    false
}

/// Plans what to store of a text: its chunks, without those that are too short,
/// narrate, or repeat an earlier one.
pub fn plan_chunks(s: &str, project: Option<&str>, source: &str) -> (r: Vec<PlannedChunk>)
    ensures
        planned_views(r@) == plan_of(chunks_of(s@), opt_slice(project), source@),
{
    let chunks = split_chunks(s);
    let ghost views = text::texts(chunks@);
    let mut plan: Vec<PlannedChunk> = Vec::new();
    assert(planned_views(plan@) =~= Seq::<PlannedView>::empty());
    for i in 0..chunks.len()
        invariant
            views == text::texts(chunks@),
            planned_views(plan@) == plan_of(views.take(i as int), opt_slice(project), source@),
    {
        let ghost before = plan@;
        assert(views.take(i + 1).drop_last() =~= views.take(i as int));
        assert(views.take(i + 1).last() == chunks@[i as int]@);
        let content = trim(chunks[i].as_str());
        if byte_len(content) >= MIN_CHUNK_BYTES && !is_narration(content) {
            let key = make_idempotency_key(content, project, source);
            if !has_key(&plan, key.as_str()) {
                plan.push(PlannedChunk { content: content.to_owned(), key });
                assert(planned_views(plan@) =~= planned_views(before).push(
                    plan@[before.len() as int]@,
                ));
            }
        }
    }
    assert(views.take(views.len() as int) =~= views);
    plan
}

/// Whether no two chunks of a plan have the same key.
pub open spec fn keys_distinct(plan: Seq<PlannedView>) -> bool {
    forall|i: int, j: int|
        0 <= i < j < plan.len() ==> (#[trigger] plan[i]).key != (#[trigger] plan[j]).key
}

/// Whether a planned chunk is long enough, no narration, and has the key that
/// belongs to it.
pub open spec fn worth_storing(
    c: PlannedView,
    project: Option<Seq<char>>,
    source: Seq<char>,
) -> bool {
    &&& text::utf8(c.content).len() >= MIN_CHUNK_BYTES
    &&& !narration_opening(text::lowercase(c.content))
    &&& c.key == chunk_key(c.content, project, source)
}

/// No two chunks of a plan have the same key: what an item says twice is stored
/// once. Every planned chunk is long enough and no narration.
pub proof fn lemma_plan_keys_are_distinct(
    chunks: Seq<Seq<char>>,
    project: Option<Seq<char>>,
    source: Seq<char>,
)
    ensures
        keys_distinct(plan_of(chunks, project, source)),
        forall|i: int|
            0 <= i < plan_of(chunks, project, source).len() ==> worth_storing(
                #[trigger] plan_of(chunks, project, source)[i],
                project,
                source,
            ),
    decreases chunks.len(),
{
    if chunks.len() > 0 {
        lemma_plan_keys_are_distinct(chunks.drop_last(), project, source);
        let before = plan_of(chunks.drop_last(), project, source);
        let plan = plan_of(chunks, project, source);
        if plan != before {
            assert(plan =~= before.push(plan.last()));
            assert forall|i: int, j: int| 0 <= i < j < plan.len() implies (#[trigger] plan[i]).key
                != (#[trigger] plan[j]).key by {
                assert(plan[i] == before[i]);
                if j < before.len() {
                    assert(plan[j] == before[j]);
                }
            }
            assert forall|i: int| 0 <= i < plan.len() implies worth_storing(
                #[trigger] plan[i],
                project,
                source,
            ) by {
                if i < before.len() {
                    assert(plan[i] == before[i]);
                }
            }
        }
    }
}

/// Nothing that is worth storing is lost: the key of every chunk that, trimmed, is
/// long enough and no narration is planned.
pub proof fn lemma_worthy_chunks_are_planned(
    chunks: Seq<Seq<char>>,
    project: Option<Seq<char>>,
    source: Seq<char>,
    i: int,
)
    requires
        0 <= i < chunks.len(),
        text::utf8(text::trimmed(chunks[i])).len() >= MIN_CHUNK_BYTES,
        !narration_opening(text::lowercase(text::trimmed(chunks[i]))),
    ensures
        key_planned(
            plan_of(chunks, project, source),
            chunk_key(text::trimmed(chunks[i]), project, source),
        ),
    decreases chunks.len(),
{
    let key = chunk_key(text::trimmed(chunks[i]), project, source);
    let before = plan_of(chunks.drop_last(), project, source);
    let plan = plan_of(chunks, project, source);
    if i < chunks.len() - 1 {
        lemma_worthy_chunks_are_planned(chunks.drop_last(), project, source, i);
    }
    if key_planned(before, key) {
        let k = choose|k: int| 0 <= k < before.len() && (#[trigger] before[k]).key == key;
        assert(plan[k].key == key);
    } else {
        assert(plan.last().key == key);
        assert(plan[plan.len() - 1].key == key);
    }
}

/// Whether what a planned chunk holds is one of the chunks, trimmed.
pub open spec fn is_from(c: PlannedView, chunks: Seq<Seq<char>>) -> bool {
    exists|i: int| 0 <= i < chunks.len() && c.content == text::trimmed(#[trigger] chunks[i])
}

/// Every chunk of a plan is one of the chunks, trimmed, and holds twenty bytes at least;
/// and every chunk of twenty bytes that is no narration is in the plan, under its key.
pub proof fn lemma_plan_holds_the_chunks(
    chunks: Seq<Seq<char>>,
    project: Option<Seq<char>>,
    source: Seq<char>,
)
    ensures
        forall|k: int|
            0 <= k < plan_of(chunks, project, source).len() ==> is_from(
                #[trigger] plan_of(chunks, project, source)[k],
                chunks,
            ) && text::utf8(plan_of(chunks, project, source)[k].content).len() >= 20,
        forall|i: int|
            0 <= i < chunks.len() && text::utf8(text::trimmed(#[trigger] chunks[i])).len() >= 20
                && !narration_opening(text::lowercase(text::trimmed(chunks[i]))) ==> key_planned(
                plan_of(chunks, project, source),
                chunk_key(text::trimmed(chunks[i]), project, source),
            ),
        plan_of(chunks, project, source).len() <= chunks.len(),
    decreases chunks.len(),
{
    let plan = plan_of(chunks, project, source);
    assert forall|i: int|
        0 <= i < chunks.len() && text::utf8(text::trimmed(#[trigger] chunks[i])).len() >= 20
            && !narration_opening(text::lowercase(text::trimmed(chunks[i]))) implies key_planned(
        plan,
        chunk_key(text::trimmed(chunks[i]), project, source),
    ) by {
        lemma_worthy_chunks_are_planned(chunks, project, source, i);
    }
    if chunks.len() > 0 {
        let rest = chunks.drop_last();
        lemma_plan_holds_the_chunks(rest, project, source);
        let before = plan_of(rest, project, source);
        assert forall|k: int| 0 <= k < plan.len() implies is_from(#[trigger] plan[k], chunks)
            && text::utf8(plan[k].content).len() >= 20 by {
            if k < before.len() {
                assert(plan[k] == before[k]);
                let i = choose|i: int|
                    0 <= i < rest.len() && before[k].content == text::trimmed(#[trigger] rest[i]);
                assert(chunks[i] == rest[i]);
            } else {
                assert(plan[k].content == text::trimmed(chunks[chunks.len() - 1]));
            }
        }
    }
}

// ---- Classification -----------------------------------------------------------------

/// The phrases that chunks are compared with, and the memory type that each
/// stands for.
pub const ANCHOR_PHRASES: [(&'static str, &'static str); 6] = [
    ("a technical decision was made about architecture or design", "decision"),
    ("a bug was found or a problem was diagnosed", "observation"),
    ("a preference or convention was established", "observation"),
    ("an approach was tried and it failed or did not work", "observation"),
    ("a non-obvious constraint or requirement was discovered", "observation"),
    ("a correction was made to fix incorrect understanding", "decision"),
];

/// The bits of 0.45: a chunk less similar than that to every anchor is dropped.
pub const MIN_ANCHOR_SIMILARITY: u32 = 0x3ee6_6666;

/// A chunk is dropped where it is less similar than forty-five hundredths.
pub proof fn lemma_least_similarity_in_hundredths()
    ensures
        floats::is_nearest(MIN_ANCHOR_SIMILARITY, 45, 100),
{
    vstd::arithmetic::power2::lemma2_to64();
    assert(floats::exponent(MIN_ANCHOR_SIMILARITY) == 125);
}

/// How similar a chunk is to an anchor, by the bits of the cosine, and the memory
/// type that the anchor stands for.
#[derive(Clone, Copy, Debug, PartialEq, Eq)]
pub struct AnchorMatch {
    pub similarity: u32,
    pub memory_type: &'static str,
}

/// The memory type and the similarity of the best match: the first of those with
/// the greatest similarity above zero, or an observation with similarity zero
/// where there is none.
pub open spec fn best_match(matches: Seq<AnchorMatch>) -> (Seq<char>, u32)
    decreases matches.len(),
{
    if matches.len() == 0 {
        ("observation"@, 0u32)
    } else {
        let best = best_match(matches.drop_last());
        let last = matches.last();
        if floats::place(last.similarity) > floats::place(best.1) {
            (last.memory_type@, last.similarity)
        } else {
            best
        }
    }
}

/// The memory type and the similarity of the best match.
pub fn classify(matches: &[AnchorMatch]) -> (r: (&'static str, u32))
    ensures
        (r.0@, r.1) == best_match(matches@),
        floats::place(r.1) >= 0,
        forall|i: int|
            0 <= i < matches@.len() ==> floats::place((#[trigger] matches@[i]).similarity)
                <= floats::place(r.1),
        some_above_zero(matches@) ==> exists|i: int| #[trigger]
            is_best(matches@, i) && r.0@ == matches@[i].memory_type@ && r.1
                == matches@[i].similarity,
        !some_above_zero(matches@) ==> r.0@ == "observation"@ && r.1 == 0,
{
    let mut best_type: &'static str = "observation";
    let mut best: u32 = 0;
    for i in 0..matches.len()
        invariant
            (best_type@, best) == best_match(matches@.take(i as int)),
            floats::place(best) >= 0,
            forall|j: int|
                0 <= j < i ==> floats::place((#[trigger] matches@[j]).similarity) <= floats::place(
                    best,
                ),
    {
        assert(matches@.take(i + 1).drop_last() =~= matches@.take(i as int));
        if floats::place_of(matches[i].similarity) > floats::place_of(best) {
            best = matches[i].similarity;
            best_type = matches[i].memory_type;
        }
    }
    assert(matches@.take(matches@.len() as int) =~= matches@);
    proof {
        lemma_type_is_that_of_the_best_match(matches@);
    }
    (best_type, best)
}

/// Whether some match is better than none at all.
pub open spec fn some_above_zero(matches: Seq<AnchorMatch>) -> bool {
    exists|i: int| 0 <= i < matches.len() && floats::greater((#[trigger] matches[i]).similarity, 0)
}

/// Whether the match is the best: above zero, no other is more similar, and those
/// before it are less similar.
pub open spec fn is_best(matches: Seq<AnchorMatch>, i: int) -> bool {
    &&& 0 <= i < matches.len()
    &&& floats::greater(matches[i].similarity, 0)
    &&& forall|j: int|
        0 <= j < matches.len() ==> !floats::greater(
            (#[trigger] matches[j]).similarity,
            matches[i].similarity,
        )
    &&& forall|j: int|
        0 <= j < i && !floats::nan((#[trigger] matches[j]).similarity) ==> floats::greater(
            matches[i].similarity,
            matches[j].similarity,
        )
}

/// A chunk is classified by one match, the best: its type and its similarity are
/// those of the same match, the first among the most similar. Where no match is
/// above zero, it is an observation with similarity zero.
pub proof fn lemma_type_is_that_of_the_best_match(matches: Seq<AnchorMatch>)
    ensures
        some_above_zero(matches) ==> exists|i: int| #[trigger]
            is_best(matches, i) && best_match(matches) == (
                matches[i].memory_type@,
                matches[i].similarity,
            ),
        !some_above_zero(matches) ==> best_match(matches) == ("observation"@, 0u32),
    decreases matches.len(),
{
    if matches.len() > 0 {
        let rest = matches.drop_last();
        let last = matches.len() - 1;
        lemma_type_is_that_of_the_best_match(rest);
        assert forall|j: int| 0 <= j < rest.len() implies rest[j] == matches[j] by {}
        let best = best_match(rest);
        if some_above_zero(rest) {
            let i = choose|i: int| #[trigger]
                is_best(rest, i) && best_match(rest) == (rest[i].memory_type@, rest[i].similarity);
            assert(rest[i] == matches[i]);
            assert(floats::greater(matches[i].similarity, 0));
            if floats::place(matches[last].similarity) > floats::place(best.1) {
                assert forall|j: int| 0 <= j < matches.len() implies !floats::greater(
                    (#[trigger] matches[j]).similarity,
                    matches[last].similarity,
                ) by {
                    if j < last {
                        assert(rest[j] == matches[j]);
                        assert(!floats::greater(rest[j].similarity, rest[i].similarity));
                    }
                }
                assert forall|j: int|
                    0 <= j < last && !floats::nan(
                        (#[trigger] matches[j]).similarity,
                    ) implies floats::greater(matches[last].similarity, matches[j].similarity) by {
                    assert(rest[j] == matches[j]);
                    assert(!floats::greater(rest[j].similarity, rest[i].similarity));
                }
                assert(is_best(matches, last));
            } else {
                assert forall|j: int| 0 <= j < matches.len() implies !floats::greater(
                    (#[trigger] matches[j]).similarity,
                    matches[i].similarity,
                ) by {
                    if j < last {
                        assert(rest[j] == matches[j]);
                        assert(!floats::greater(rest[j].similarity, rest[i].similarity));
                    }
                }
                assert forall|j: int|
                    0 <= j < i && !floats::nan((#[trigger] matches[j]).similarity) implies floats::greater(
                    matches[i].similarity,
                    matches[j].similarity,
                ) by {
                    assert(rest[j] == matches[j]);
                }
                assert(is_best(matches, i));
            }
        } else {
            assert forall|j: int| 0 <= j < last implies !floats::greater(
                (#[trigger] matches[j]).similarity,
                0,
            ) by {
                assert(rest[j] == matches[j]);
            }
            if floats::greater(matches[last].similarity, 0) {
                assert(is_best(matches, last));
            } else {
                assert forall|j: int| 0 <= j < matches.len() implies !floats::greater(
                    (#[trigger] matches[j]).similarity,
                    0,
                ) by {}
            }
        }
    }
}

/// The memory type to store a chunk under, or `None` where it is too unlike every
/// anchor to be stored.
pub fn memory_type_for(matches: &[AnchorMatch]) -> (r: Option<&'static str>)
    ensures
        match r {
            Some(t) => t@ == best_match(matches@).0 && floats::place(best_match(matches@).1)
                >= floats::place(MIN_ANCHOR_SIMILARITY),
            None => floats::place(best_match(matches@).1) < floats::place(MIN_ANCHOR_SIMILARITY),
        },
        r matches Some(t) ==> exists|i: int| #[trigger]
            is_best(matches@, i) && t@ == matches@[i].memory_type@ && !floats::greater(
                MIN_ANCHOR_SIMILARITY,
                matches@[i].similarity,
            ),
        r is None ==> forall|i: int|
            0 <= i < matches@.len() && !floats::nan((#[trigger] matches@[i]).similarity)
                ==> floats::greater(MIN_ANCHOR_SIMILARITY, matches@[i].similarity),
{
    let (best_type, best) = classify(matches);
    if floats::place_of(best) < floats::place_of(MIN_ANCHOR_SIMILARITY) {
        None
    } else {
        Some(best_type)
    }
}

/// The row that a planned chunk of an item becomes.
pub open spec fn ingested_row(
    profile: Seq<char>,
    project: Option<Seq<char>>,
    source: Seq<char>,
    chunk: PlannedView,
    memory_type: Seq<char>,
    id: MemoryId,
    now: Timestamp,
) -> RowView {
    RowView {
        id,
        profile,
        content: chunk.content,
        event_time: now,
        record_time: now,
        idempotency_key: chunk.key,
        source: Some(source),
        memory_type,
        tags: ingest_tags(project, source),
        external_refs: None,
        metadata: None,
        facets: crate::facets::no_facets(),
        superseded_by: None,
        confidence: None,
        reinforcement_count: 0,
        last_reinforced_at: None,
        invalidated_at: None,
    }
}

/// Whether a row keeps a planned chunk of an item: its content and key as they are, for
/// the item's profile and from its source, with the tags of what was ingested and with
/// nothing made up.
pub open spec fn keeps_the_chunk(
    row: MemoryRow,
    item: IngestItem,
    chunk: PlannedChunk,
    now: Timestamp,
) -> bool {
    &&& row.profile@ == item.profile@
    &&& row.content@ == chunk.content@
    &&& row.idempotency_key@ == chunk.key@
    &&& row.source is Some && row.source->0@ == item.source@
    &&& are_tags_of(row.tags@, text::opt_text(item.project), item.source@)
    &&& row.event_time == now
    &&& row.record_time == now
    &&& row.external_refs is None
    &&& row.metadata is None
    &&& row.facets.domains@.len() == 0
    &&& row.facets.skills@.len() == 0
    &&& row.facets.projects@.len() == 0
    &&& row.facets.situations@.len() == 0
    &&& row.superseded_by is None
    &&& row.confidence is None
    &&& row.reinforcement_count == 0
    &&& row.last_reinforced_at is None
    &&& row.invalidated_at is None
}

/// What becomes of a planned chunk keeps the chunk.
pub proof fn lemma_row_keeps_the_chunk(
    row: MemoryRow,
    item: IngestItem,
    chunk: PlannedChunk,
    memory_type: Seq<char>,
    now: Timestamp,
)
    requires
        row@ == ingested_row(
            item.profile@,
            text::opt_text(item.project),
            item.source@,
            chunk@,
            memory_type,
            row.id,
            now,
        ),
    ensures
        keeps_the_chunk(row, item, chunk, now),
        row.memory_type@ == memory_type,
{
    let tags = text::texts(row.tags@);
    assert(tags.len() == row.tags@.len());
    assert(tags[0] == row.tags@[0]@);
    assert(tags[1] == row.tags@[1]@);
    if item.project is Some {
        assert(tags[2] == row.tags@[2]@);
    }
    assert(text::texts(row.facets.domains@).len() == row.facets.domains@.len());
    assert(text::texts(row.facets.skills@).len() == row.facets.skills@.len());
    assert(text::texts(row.facets.projects@).len() == row.facets.projects@.len());
    assert(text::texts(row.facets.situations@).len() == row.facets.situations@.len());
}

/// The row that a planned chunk of an item becomes.
pub fn make_ingested_row(
    item: &IngestItem,
    chunk: &PlannedChunk,
    memory_type: &str,
    id: MemoryId,
    now: Timestamp,
) -> (r: MemoryRow)
    ensures
        r@ == ingested_row(
            item.profile@,
            text::opt_text(item.project),
            item.source@,
            chunk@,
            memory_type@,
            id,
            now,
        ),
        r.id == id,
        keeps_the_chunk(r, *item, *chunk, now),
        r.memory_type@ == memory_type@,
{
    let project = match &item.project {
        Some(p) => Some(p.as_str()),
        None => None,
    };
    let row = MemoryRow {
        id,
        profile: item.profile.clone(),
        content: chunk.content.clone(),
        event_time: now,
        record_time: now,
        idempotency_key: chunk.key.clone(),
        source: Some(item.source.clone()),
        memory_type: memory_type.to_owned(),
        tags: build_tags(project, item.source.as_str()),
        external_refs: None,
        metadata: None,
        facets: Facets::default(),
        superseded_by: None,
        confidence: None,
        reinforcement_count: 0,
        last_reinforced_at: None,
        invalidated_at: None,
    };
    proof {
        lemma_row_keeps_the_chunk(row, *item, *chunk, memory_type@, now);
    }
    row
}

// ---- The work on an item ------------------------------------------------------------

/// What happened.
#[derive(Debug, PartialEq, Eq)]
pub enum IngestEvent {
    /// The chunk was embedded and held against the anchors, and the clock shows the
    /// given time.
    Embedded(Vec<AnchorMatch>, Timestamp),
    /// The chunk could not be embedded.
    NotEmbedded,
    /// The row was inserted, or, as a replay, one with its key was there already.
    Inserted(bool),
    /// The row could not be inserted.
    NotInserted,
}

/// What to do next.
#[derive(Debug, PartialEq, Eq)]
pub enum IngestAction {
    /// Embed the chunk, and hold it against the anchors.
    Embed(String),
    /// Insert the row.
    Insert(MemoryRow),
    /// Stop: so many memories were stored.
    Finish(usize),
}

/// The work on one item, chunk after chunk.
#[derive(Debug, PartialEq, Eq)]
pub struct IngestRun {
    item: IngestItem,
    plan: Vec<PlannedChunk>,
    at: usize,
    inserting: bool,
    stored: usize,
}

/// What an [`IngestRun`] stands for.
pub struct IngestRunView {
    pub id: MemoryId,
    pub text: Seq<char>,
    pub profile: Seq<char>,
    pub project: Option<Seq<char>>,
    pub source: Seq<char>,
    /// The chunks, in the order in which they are taken.
    pub plan: Seq<PlannedView>,
    /// How many chunks are done with.
    pub at: int,
    /// Whether the row of the chunk under way is being inserted.
    pub inserting: bool,
    /// How many memories were stored.
    pub stored: int,
}

impl View for IngestRun {
    type V = IngestRunView;

    closed spec fn view(&self) -> IngestRunView {
        IngestRunView {
            id: self.item.id,
            text: self.item.text@,
            profile: self.item.profile@,
            project: text::opt_text(self.item.project),
            source: self.item.source@,
            plan: planned_views(self.plan@),
            at: self.at as int,
            inserting: self.inserting,
            stored: self.stored as int,
        }
    }
}

impl IngestRunView {
    /// What holds of every run: no more chunks are done with than there are, and
    /// no more memories were stored than chunks are done with.
    pub open spec fn well_formed(self) -> bool {
        &&& 0 <= self.stored <= self.at <= self.plan.len() <= usize::MAX
        &&& self.inserting ==> self.at < self.plan.len()
    }

    /// The run with the chunk under way done with, and so many memories stored.
    pub open spec fn past_chunk(self, stored: int) -> IngestRunView {
        IngestRunView { at: self.at + 1, inserting: false, stored, ..self }
    }
}

/// Whether the action is the one that comes before a chunk is begun: to embed it,
/// or to stop where there is none.
pub open spec fn turns_to_chunk(run: IngestRunView, action: IngestAction) -> bool {
    if run.at < run.plan.len() {
        action matches IngestAction::Embed(content) && content@ == run.plan[run.at].content
    } else {
        action matches IngestAction::Finish(stored) && stored == run.stored
    }
}

/// Whether the run, on the event, goes on as it should: to the state `after`, with
/// the given action. A chunk that cannot be embedded, that is too unlike every
/// anchor, or whose row cannot be inserted is passed over; a replay is not
/// counted. An event that does not belong to the state changes nothing and calls
/// for nothing.
pub open spec fn goes_on(
    before: IngestRunView,
    event: IngestEvent,
    after: IngestRunView,
    action: Option<IngestAction>,
) -> bool {
    let waiting = before.at < before.plan.len() && !before.inserting;
    match event {
        IngestEvent::Embedded(matches, now) if waiting => {
            let best = best_match(matches@);
            if floats::place(best.1) >= floats::place(MIN_ANCHOR_SIMILARITY) {
                &&& after == (IngestRunView { inserting: true, ..before })
                &&& action matches Some(IngestAction::Insert(row)) && row@ == ingested_row(
                    before.profile,
                    before.project,
                    before.source,
                    before.plan[before.at],
                    best.0,
                    row.id,
                    now,
                )
            } else {
                &&& after == before.past_chunk(before.stored)
                &&& action is Some && turns_to_chunk(after, action->0)
            }
        },
        IngestEvent::NotEmbedded if waiting => {
            &&& after == before.past_chunk(before.stored)
            &&& action is Some && turns_to_chunk(after, action->0)
        },
        IngestEvent::Inserted(replayed) if before.inserting => {
            &&& after == before.past_chunk(
                if replayed {
                    before.stored
                } else {
                    before.stored + 1
                },
            )
            &&& action is Some && turns_to_chunk(after, action->0)
        },
        IngestEvent::NotInserted if before.inserting => {
            &&& after == before.past_chunk(before.stored)
            &&& action is Some && turns_to_chunk(after, action->0)
        },
        _ => after == before && action is None,
    }
}

impl IngestRun {
    fn turn_to_chunk(&self) -> (r: IngestAction)
        ensures
            turns_to_chunk(self@, r),
    {
        assert(self@.at < self@.plan.len() ==> self@.plan[self@.at] == self.plan@[self@.at]@);
        if self.at < self.plan.len() {
            IngestAction::Embed(self.plan[self.at].content.clone())
        } else {
            IngestAction::Finish(self.stored)
        }
    }

    /// Begins to work on an item, and says what to do first.
    pub fn begin(item: IngestItem) -> (r: (IngestRun, IngestAction))
        ensures
            r.0@ == (IngestRunView {
                id: item.id,
                text: item.text@,
                profile: item.profile@,
                project: text::opt_text(item.project),
                source: item.source@,
                plan: plan_of(chunks_of(item.text@), text::opt_text(item.project), item.source@),
                at: 0,
                inserting: false,
                stored: 0,
            }),
            r.0@.well_formed(),
            turns_to_chunk(r.0@, r.1),
    {
        let project = match &item.project {
            Some(p) => Some(p.as_str()),
            None => None,
        };
        let plan = plan_chunks(item.text.as_str(), project, item.source.as_str());
        assert(plan@.len() == plan.len());
        let run = IngestRun { item, plan, at: 0, inserting: false, stored: 0 };
        let action = run.turn_to_chunk();
        (run, action)
    }

    /// What to do next, now that the given event happened; `None` where the event
    /// does not belong to where the run stands.
    pub fn step(&mut self, event: IngestEvent) -> (r: Option<IngestAction>)
        requires
            old(self)@.well_formed(),
        ensures
            final(self)@.well_formed(),
            goes_on(old(self)@, event, final(self)@, r),
    {
        let waiting = self.at < self.plan.len() && !self.inserting;
        match event {
            IngestEvent::Embedded(matches, now) => {
                if !waiting {
                    return None;
                }
                if let Some(memory_type) = memory_type_for(matches.as_slice()) {
                    assert(self@.plan[self@.at] == self.plan@[self@.at]@);
                    let row = make_ingested_row(
                        &self.item,
                        &self.plan[self.at],
                        memory_type,
                        fresh_id(),
                        now,
                    );
                    self.inserting = true;
                    return Some(IngestAction::Insert(row));
                }
            },
            IngestEvent::NotEmbedded => {
                if !waiting {
                    return None;
                }
            },
            IngestEvent::Inserted(replayed) => {
                if !self.inserting {
                    return None;
                }
                if !replayed {
                    self.stored = self.stored + 1;
                }
            },
            IngestEvent::NotInserted => {
                if !self.inserting {
                    return None;
                }
            },
        }
        self.at = self.at + 1;
        self.inserting = false;
        Some(self.turn_to_chunk())
    }
}

/// One chunk that fails does not keep the others from being stored: whatever
/// happens, the run turns to the next chunk, or to the insertion of this one, and
/// it stops only when every chunk is done with.
pub proof fn lemma_run_goes_through_all_chunks(
    before: IngestRunView,
    event: IngestEvent,
    after: IngestRunView,
    action: Option<IngestAction>,
)
    requires
        before.well_formed(),
        goes_on(before, event, after, action),
    ensures
        after.plan == before.plan,
        before.at <= after.at <= before.at + 1,
        action is Some <==> after.at > before.at || after.inserting && !before.inserting,
        action matches Some(IngestAction::Finish(_)) ==> after.at == after.plan.len(),
{
}

/// A run takes the planned chunks one by one, in their order: a chunk that is embedded
/// and similar enough to an anchor is inserted, as it is and with the type of the best
/// match, and every other one is passed over; exactly the rows that were inserted and
/// were not there before are counted.
pub proof fn lemma_run_takes_chunks_in_order(
    item: IngestItem,
    plan: Seq<PlannedChunk>,
    matches: Vec<AnchorMatch>,
    now: Timestamp,
    before: IngestRunView,
    event: IngestEvent,
    after: IngestRunView,
    action: Option<IngestAction>,
)
    requires
        before.profile == item.profile@,
        before.project == text::opt_text(item.project),
        before.source == item.source@,
        before.plan == planned_views(plan),
        before.well_formed(),
        goes_on(before, event, after, action),
    ensures
        after.plan == before.plan && after.profile == before.profile && after.project
            == before.project && after.source == before.source,
        action is None ==> after == before,
        action matches Some(IngestAction::Insert(row)) ==> after.at == before.at && after.inserting
            && !before.inserting && event is Embedded,
        event == IngestEvent::Embedded(matches, now) ==> (action matches Some(
            IngestAction::Insert(row),
        ) ==> keeps_the_chunk(row, item, plan[before.at], now) && row.memory_type@ == best_match(
            matches@,
        ).0),
        action matches Some(IngestAction::Embed(content)) ==> after.at == before.at + 1 && after.at
            < plan.len() && content@ == plan[after.at].content@,
        action matches Some(IngestAction::Finish(stored)) ==> after.at == before.at + 1 && after.at
            == plan.len() && stored == after.stored,
        before.inserting && event == IngestEvent::Inserted(false) ==> after.stored == before.stored
            + 1,
        !(before.inserting && event == IngestEvent::Inserted(false)) ==> after.stored
            == before.stored,
        before.at < plan.len() && !before.inserting && (event is Embedded || event is NotEmbedded)
            ==> action is Some,
        before.inserting && (event is Inserted || event is NotInserted) ==> action is Some,
        before.at < plan.len() && !before.inserting && event == IngestEvent::NotEmbedded
            ==> after.at == before.at + 1,
        before.at < plan.len() && !before.inserting && event == IngestEvent::Embedded(matches, now)
            ==> (after.at == before.at <==> floats::place(best_match(matches@).1)
            >= floats::place(MIN_ANCHOR_SIMILARITY)),
{
    assert(before.plan.len() == plan.len());
    if before.at < plan.len() {
        assert(before.plan[before.at] == plan[before.at]@);
    }
    if before.at + 1 < plan.len() {
        assert(before.plan[before.at + 1] == plan[before.at + 1]@);
    }
    match action {
        Some(IngestAction::Insert(row)) => {
            match event {
                IngestEvent::Embedded(m, time) => {
                    lemma_row_keeps_the_chunk(
                        row,
                        item,
                        plan[before.at],
                        best_match(m@).0,
                        time,
                    );
                },
                _ => {},
            }
        },
        _ => {},
    }
}

/// A text is taken in where it holds a byte at least and a million at most.
pub proof fn lemma_largest_text()
    ensures
        MAX_INGEST_BYTES == 1_000_000,
        MIN_CHUNK_BYTES == 20,
{
}

/// Whether a line behind the given ones is inside a code fence: an odd number of them
/// opens or closes one.
pub open spec fn in_fence(lines: Seq<Seq<char>>) -> bool
    decreases lines.len(),
{
    if lines.len() == 0 {
        false
    } else if text::has_prefix(text::trimmed(lines.last()), "```"@) {
        !in_fence(lines.drop_last())
    } else {
        in_fence(lines.drop_last())
    }
}

/// The lines of prose among the given ones, trimmed: those that are not blank, are no
/// fences and are inside none.
pub open spec fn prose(lines: Seq<Seq<char>>) -> Seq<Seq<char>>
    decreases lines.len(),
{
    if lines.len() == 0 {
        Seq::empty()
    } else {
        let before = prose(lines.drop_last());
        let t = text::trimmed(lines.last());
        if text::has_prefix(t, "```"@) || in_fence(lines.drop_last()) || t.len() == 0 {
            before
        } else {
            before.push(t)
        }
    }
}

/// Nothing of the prose is lost, added or moved: the chunks one after another are the lines
/// of prose one after another.
pub proof fn lemma_chunks_hold_the_prose(lines: Seq<Seq<char>>)
    ensures
        split_lines(lines).fenced == in_fence(lines),
        text::joined(flushed(split_lines(lines)).done, " "@) == text::joined(prose(lines), " "@),
        flushed(split_lines(lines)).done.len() == 0 <==> prose(lines).len() == 0,
    decreases lines.len(),
{
    let space = " "@;
    reveal_strlit(" ");
    assert(space =~= seq![' ']);
    if lines.len() > 0 {
        let rest = lines.drop_last();
        lemma_chunks_hold_the_prose(rest);
        let st0 = split_lines(rest);
        let st = split_lines(lines);
        let t = text::trimmed(lines.last());
        let whole0 = flushed(st0).done;
        let p0 = prose(rest);
        if text::has_prefix(t, "```"@) || st0.fenced || t.len() == 0 {
            assert(flushed(st).done =~= whole0);
        } else {
            let current = if st0.current.len() > 0 {
                st0.current.push(' ') + t
            } else {
                t
            };
            let whole = flushed(st).done;
            assert(whole =~= st0.done.push(current));
            assert(prose(lines) == p0.push(t));
            assert(whole.drop_last() =~= st0.done);
            assert(p0.push(t).drop_last() =~= p0);
            if st0.current.len() > 0 {
                assert(whole0.drop_last() =~= st0.done);
                assert(st0.current.push(' ') + t =~= st0.current + space + t);
                if st0.done.len() > 0 {
                    assert(text::joined(whole, space) =~= text::joined(st0.done, space) + space
                        + st0.current + space + t);
                }
                assert(text::joined(whole, space) =~= text::joined(whole0, space) + space + t);
            } else {
                assert(whole0 =~= st0.done);
            }
        }
    }
}

/// A chunk ends with a line that ends a sentence, at a blank line and at a fence, and goes
/// on behind any other line.
pub proof fn lemma_chunks_end_with_sentences(lines: Seq<Seq<char>>, line: Seq<char>)
    requires
        !in_fence(lines),
    ensures
        text::trimmed(line).len() == 0 || text::has_prefix(text::trimmed(line), "```"@)
            || sentence_end(text::trimmed(line)) ==> split_lines(lines.push(line)).current.len()
            == 0,
        text::trimmed(line).len() > 0 && !text::has_prefix(text::trimmed(line), "```"@)
            && !sentence_end(text::trimmed(line)) ==> split_lines(lines.push(line)).done
            == split_lines(lines).done && text::has_suffix(
            split_lines(lines.push(line)).current,
            text::trimmed(line),
        ),
{
    let more = lines.push(line);
    assert(more.drop_last() =~= lines);
    lemma_chunks_hold_the_prose(lines);
    let t = text::trimmed(line);
    let st = split_lines(lines);
    let next = split_lines(more);
    if t.len() > 0 && !text::has_prefix(t, "```"@) && !sentence_end(t) {
        if st.current.len() > 0 {
            assert(next.current.skip(next.current.len() - t.len()) =~= t);
        } else {
            assert(next.current.skip(0) =~= t);
        }
    }
}

/// A trimmed line ends a sentence where its last character is a full stop, an exclamation
/// mark or a question mark, and its last word holds no slash and one full stop at most.
pub proof fn lemma_sentences_end_with_marks(s: Seq<char>)
    requires
        s.len() > 0,
        !text::white_space(s.last()),
    ensures
        sentence_end(s) <==> (s.last() == '.' || s.last() == '!' || s.last() == '?')
            && !text::last_word(s).contains('/') && text::occurrences(text::last_word(s), '.') <= 1,
{
    reveal_strlit(". ");
    reveal_strlit(".\t");
    if text::has_suffix(s, ". "@) {
        assert(s.skip(s.len() - 2)[1] == s.last());
        assert(". "@[1] == ' ');
    }
    if text::has_suffix(s, ".\t"@) {
        assert(s.skip(s.len() - 2)[1] == s.last());
        assert(".\t"@[1] == '\t');
    }
    text::lemma_occurrences_count(text::last_word(s), Seq::empty(), '/', '/');
}

/// Whatever follows one of the openings, the text opens as narration does.
pub proof fn lemma_narration_opens(rest: Seq<char>)
    ensures
        narration_opening("let me "@ + rest),
        narration_opening("i'll now "@ + rest),
        narration_opening("i will now "@ + rest),
        narration_opening("let's "@ + rest),
        narration_opening("now i'll "@ + rest),
        narration_opening("now let me "@ + rest),
        narration_opening("i need to "@ + rest),
        narration_opening("i should "@ + rest),
        narration_opening("first, let me "@ + rest),
        narration_opening("next, i'll "@ + rest),
        narration_opening("okay, "@ + rest),
        narration_opening("alright, "@ + rest),
{
    text::lemma_ends_of_texts(rest, "let me "@, rest);
    text::lemma_ends_of_texts(rest, "i'll now "@, rest);
    text::lemma_ends_of_texts(rest, "i will now "@, rest);
    text::lemma_ends_of_texts(rest, "let's "@, rest);
    text::lemma_ends_of_texts(rest, "now i'll "@, rest);
    text::lemma_ends_of_texts(rest, "now let me "@, rest);
    text::lemma_ends_of_texts(rest, "i need to "@, rest);
    text::lemma_ends_of_texts(rest, "i should "@, rest);
    text::lemma_ends_of_texts(rest, "first, let me "@, rest);
    text::lemma_ends_of_texts(rest, "next, i'll "@, rest);
    text::lemma_ends_of_texts(rest, "okay, "@, rest);
    text::lemma_ends_of_texts(rest, "alright, "@, rest);
}

/// What opens as narration begins with one of six letters, holds a space, and has six
/// characters at least.
pub proof fn lemma_other_openings_are_none(s: Seq<char>)
    requires
        narration_opening(s),
    ensures
        s.len() >= 6,
        s[0] == 'l' || s[0] == 'i' || s[0] == 'n' || s[0] == 'f' || s[0] == 'o' || s[0] == 'a',
        s.contains(' '),
{
    reveal_strlit("let me ");
    reveal_strlit("i'll now ");
    reveal_strlit("i will now ");
    reveal_strlit("let's ");
    reveal_strlit("now i'll ");
    reveal_strlit("now let me ");
    reveal_strlit("i need to ");
    reveal_strlit("i should ");
    reveal_strlit("first, let me ");
    reveal_strlit("next, i'll ");
    reveal_strlit("okay, ");
    reveal_strlit("alright, ");
    let p = if text::has_prefix(s, "let me "@) {
        "let me "@
    } else if text::has_prefix(s, "i'll now "@) {
        "i'll now "@
    } else if text::has_prefix(s, "i will now "@) {
        "i will now "@
    } else if text::has_prefix(s, "let's "@) {
        "let's "@
    } else if text::has_prefix(s, "now i'll "@) {
        "now i'll "@
    } else if text::has_prefix(s, "now let me "@) {
        "now let me "@
    } else if text::has_prefix(s, "i need to "@) {
        "i need to "@
    } else if text::has_prefix(s, "i should "@) {
        "i should "@
    } else if text::has_prefix(s, "first, let me "@) {
        "first, let me "@
    } else if text::has_prefix(s, "next, i'll "@) {
        "next, i'll "@
    } else if text::has_prefix(s, "okay, "@) {
        "okay, "@
    } else {
        "alright, "@
    };
    assert(text::has_prefix(s, p));
    assert(s[0] == s.take(p.len() as int)[0]);
    assert(p.last() == ' ');
    assert(s[p.len() - 1] == s.take(p.len() as int)[p.len() - 1]);
    assert(s[p.len() - 1] == ' ');
}

/// The key of a chunk shows every byte of the digest, two digits each, behind its prefix.
pub proof fn lemma_key_shows_the_digest(digest: Seq<u8>, i: int)
    requires
        0 <= i < digest.len(),
    ensures
        key_of_digest(digest).len() == "ingest:"@.len() + 2 * digest.len(),
        text::has_prefix(key_of_digest(digest), "ingest:"@),
        digest[i] as int == 16 * text::digit_value(
            key_of_digest(digest)["ingest:"@.len() + 2 * i],
        ) + text::digit_value(key_of_digest(digest)["ingest:"@.len() + 2 * i + 1]),
{
    text::lemma_hex_stands_for_the_bytes(digest);
    text::lemma_ends_of_texts("ingest:"@, "ingest:"@, text::hex(digest));
}

/// A decision, a mistake that was put right, and four kinds of findings are what chunks are
/// compared with: the first and the last anchor stand for decisions, and the others for
/// observations.
pub proof fn lemma_anchors_stand_for_two_types(i: int)
    requires
        0 <= i < 6,
    ensures
        i == 0 || i == 5 ==> ANCHOR_PHRASES@[i].1@ == "decision"@,
        0 < i < 5 ==> ANCHOR_PHRASES@[i].1@ == "observation"@,
{
    let anchors = ANCHOR_PHRASES@;
    assert(anchors[0].1@ == "decision"@);
    assert(anchors[1].1@ == "observation"@);
    assert(anchors[2].1@ == "observation"@);
    assert(anchors[3].1@ == "observation"@);
    assert(anchors[4].1@ == "observation"@);
    assert(anchors[5].1@ == "decision"@);
}

} // verus!
