//! The metrics endpoint's HTTP: good for exactly one route, `GET /metrics`.
//!
//! A request is read until its head is complete or long enough
//! ([`needs_more`]), and decided on by its first line ([`wants_metrics`]).

use vstd::prelude::*;
use vstd::utf8::{decode_utf8, encode_utf8, valid_utf8};

use crate::exposition::exposition;
use crate::metrics::{Metrics, OP_COUNT};
use crate::text::{chars_of, decimal, law_decimal_round_trip, push_decimal, spelled_int};

verus! {

/// No request head is read further than this.
pub const MAX_HEAD: usize = 8192;

/// Whether an empty line ends in `head` at `at`.
pub open spec fn blank_line_at(head: Seq<u8>, at: int) -> bool {
    &&& 0 <= at
    &&& at + 4 <= head.len()
    &&& head[at] == 13
    &&& head[at + 1] == 10
    &&& head[at + 2] == 13
    &&& head[at + 3] == 10
}

/// Whether the head of a request is complete: an empty line ends it.
pub open spec fn head_is_complete(head: Seq<u8>) -> bool {
    exists|at: int| blank_line_at(head, at)
}

/// Whether more of a request must be read, of which `head` is there so far.
pub fn needs_more(head: &[u8]) -> (r: bool)
    ensures
        r == (!head_is_complete(head@) && head.len() < MAX_HEAD),
{
    if head.len() >= MAX_HEAD {
        return false;
    }
    let mut at: usize = 0;
    while at + 4 <= head.len()
        invariant
            at <= head.len() < MAX_HEAD,
            forall|k: int| 0 <= k < at ==> !blank_line_at(head@, k),
        decreases head.len() - at,
    {
        if head[at] == 13 && head[at + 1] == 10 && head[at + 2] == 13 && head[at + 3] == 10 {
            assert(blank_line_at(head@, at as int));
            return false;
        }
        at += 1;
    }
    true
}

/// How long the first line of `head` is; a line feed ends it.
pub open spec fn line_len(head: Seq<u8>) -> nat
    decreases head.len(),
{
    if head.len() == 0 || head[0] == 10 {
        0
    } else {
        1 + line_len(head.skip(1))
    }
}

/// The first line of `head`.
pub open spec fn first_line(head: Seq<u8>) -> Seq<u8> {
    head.take(line_len(head) as int)
}

/// The bytes before the first line feed make up the first line.
proof fn lemma_line_len(head: Seq<u8>, n: int)
    requires
        0 <= n <= head.len(),
        forall|k: int| 0 <= k < n ==> head[k] != 10,
        n < head.len() ==> head[n] == 10,
    ensures
        line_len(head) == n,
    decreases n,
{
    if n > 0 {
        assert(head[0] != 10);
        lemma_line_len(head.skip(1), n - 1);
    }
}

/// Whether `c` is whitespace: Unicode's `White_Space` property.
pub open spec fn is_space(c: char) -> bool {
    ||| '\u{9}' <= c <= '\u{d}'
    ||| c == '\u{20}'
    ||| c == '\u{85}'
    ||| c == '\u{a0}'
    ||| c == '\u{1680}'
    ||| '\u{2000}' <= c <= '\u{200a}'
    ||| c == '\u{2028}'
    ||| c == '\u{2029}'
    ||| c == '\u{202f}'
    ||| c == '\u{205f}'
    ||| c == '\u{3000}'
}

/// Whether `c` is whitespace.
pub fn is_whitespace(c: char) -> (r: bool)
    ensures
        r == is_space(c),
{
    ('\u{9}' <= c && c <= '\u{d}') || c == '\u{20}' || c == '\u{85}' || c == '\u{a0}' || c
        == '\u{1680}' || ('\u{2000}' <= c && c <= '\u{200a}') || c == '\u{2028}' || c == '\u{2029}'
        || c == '\u{202f}' || c == '\u{205f}' || c == '\u{3000}'
}

/// Where the whitespace from `i` on ends in `s`.
pub open spec fn space_end(s: Seq<char>, i: int) -> int
    decreases s.len() - i,
{
    if 0 <= i < s.len() && is_space(s[i]) {
        space_end(s, i + 1)
    } else {
        i
    }
}

/// Where the word from `i` on ends in `s`.
pub open spec fn word_end(s: Seq<char>, i: int) -> int
    decreases s.len() - i,
{
    if 0 <= i < s.len() && !is_space(s[i]) {
        word_end(s, i + 1)
    } else {
        i
    }
}

/// Where the whitespace up to `i` starts in `s`.
pub open spec fn space_start(s: Seq<char>, i: int) -> int
    decreases i,
{
    if 0 < i <= s.len() && is_space(s[i - 1]) {
        space_start(s, i - 1)
    } else {
        i
    }
}

/// `s` without whitespace at its ends.
pub open spec fn trimmed(s: Seq<char>) -> Seq<char> {
    let start = space_end(s, 0);
    let end = space_start(s, s.len() as int);
    if start < end {
        s.subrange(start, end)
    } else {
        Seq::empty()
    }
}

/// The second word of `s`, empty if there is none.
pub open spec fn second_word(s: Seq<char>) -> Seq<char> {
    let start = space_end(s, word_end(s, space_end(s, 0)));
    s.subrange(start, word_end(s, start))
}

/// Whether the request line `line` asks for the metrics.
pub open spec fn asks_for_metrics(line: Seq<char>) -> bool {
    &&& trimmed(line).len() >= 4
    &&& trimmed(line).take(4) == "GET "@
    &&& second_word(trimmed(line)) == "/metrics"@
}

fn skip_space(s: &Vec<char>, from: usize) -> (i: usize)
    requires
        from <= s.len(),
    ensures
        i == space_end(s@, from as int),
        from <= i <= s.len(),
{
    let mut i: usize = from;
    while i < s.len() && is_whitespace(s[i])
        invariant
            from <= i <= s.len(),
            space_end(s@, from as int) == space_end(s@, i as int),
        decreases s.len() - i,
    {
        i += 1;
    }
    i
}

fn skip_word(s: &Vec<char>, from: usize) -> (i: usize)
    requires
        from <= s.len(),
    ensures
        i == word_end(s@, from as int),
        from <= i <= s.len(),
{
    let mut i: usize = from;
    while i < s.len() && !is_whitespace(s[i])
        invariant
            from <= i <= s.len(),
            word_end(s@, from as int) == word_end(s@, i as int),
        decreases s.len() - i,
    {
        i += 1;
    }
    i
}

fn skip_space_back(s: &Vec<char>) -> (i: usize)
    ensures
        i == space_start(s@, s.len() as int),
        i <= s.len(),
{
    let mut i: usize = s.len();
    while i > 0 && is_whitespace(s[i - 1])
        invariant
            i <= s.len(),
            space_start(s@, s.len() as int) == space_start(s@, i as int),
        decreases i,
    {
        i -= 1;
    }
    i
}

/// Whether the characters `from..to` of `s` are `text`.
fn reads(s: &Vec<char>, from: usize, to: usize, text: &str) -> (r: bool)
    requires
        from <= to <= s.len(),
    ensures
        r == (s@.subrange(from as int, to as int) == text@),
{
    let wanted = chars_of(text);
    if wanted.len() != to - from {
        return false;
    }
    let mut i: usize = 0;
    while i < wanted.len()
        invariant
            i <= wanted.len(),
            wanted@ == text@,
            from <= to <= s.len(),
            wanted.len() == to - from,
            forall|k: int| 0 <= k < i ==> s@[from + k] == #[trigger] wanted@[k],
        decreases wanted.len() - i,
    {
        if s[from + i] != wanted[i] {
            assert(s@.subrange(from as int, to as int)[i as int] != text@[i as int]);
            return false;
        }
        i += 1;
    }
    assert(s@.subrange(from as int, to as int) =~= text@);
    true
}

/// Whether a request line asks for the metrics.
pub fn is_metrics_line(line: &str) -> (r: bool)
    ensures
        r == asks_for_metrics(line@),
{
    let all = chars_of(line);
    let start = skip_space(&all, 0);
    let end = skip_space_back(&all);
    if start >= end {
        return false;
    }
    let mut s: Vec<char> = Vec::new();
    let mut i: usize = start;
    while i < end
        invariant
            start <= i <= end <= all.len(),
            s@ == all@.subrange(start as int, i as int),
        decreases end - i,
    {
        s.push(all[i]);
        i += 1;
        assert(s@ =~= all@.subrange(start as int, i as int));
    }
    assert(s@ == trimmed(line@));
    if s.len() < 4 {
        return false;
    }
    assert(s@.subrange(0, 4) =~= s@.take(4));
    if !reads(&s, 0, 4, "GET ") {
        return false;
    }
    let path = skip_space(&s, skip_word(&s, skip_space(&s, 0)));
    let path_end = skip_word(&s, path);
    reads(&s, path, path_end, "/metrics")
}

/// What `String::from_utf8_lossy` makes of `bytes`.
pub uninterp spec fn lossy_text(bytes: Seq<u8>) -> Seq<char>;

/// Calls `String::from_utf8_lossy`: valid UTF-8 is decoded, and where it is not
/// valid, replacement characters stand in.
#[verifier::external_body]
fn decode_lossy(bytes: &[u8]) -> (text: String)
    ensures
        text@ == lossy_text(bytes@),
        valid_utf8(bytes@) ==> text@ == decode_utf8(bytes@),
{
    String::from_utf8_lossy(bytes).into_owned()
}

/// Whether a request asks for the metrics, by the first line of its head.
pub fn wants_metrics(head: &[u8]) -> (r: bool)
    ensures
        r == asks_for_metrics(lossy_text(first_line(head@))),
        valid_utf8(first_line(head@)) ==> r == asks_for_metrics(decode_utf8(first_line(head@))),
{
    let mut n: usize = 0;
    while n < head.len() && head[n] != 10
        invariant
            n <= head.len(),
            forall|k: int| 0 <= k < n ==> head@[k] != 10,
        decreases head.len() - n,
    {
        n += 1;
    }
    proof {
        lemma_line_len(head@, n as int);
    }
    let line = &head[0..n];
    assert(line@ =~= first_line(head@));
    is_metrics_line(decode_lossy(line).as_str())
}

/// A response with the given status, content type and body.
pub open spec fn response_text(
    status: Seq<char>,
    content_type: Seq<char>,
    body: Seq<char>,
) -> Seq<char> {
    "HTTP/1.1 "@ + status + "\r\ncontent-type: "@ + content_type + "\r\ncontent-length: "@
        + decimal(encode_utf8(body).len()) + "\r\nconnection: close\r\n\r\n"@ + body
}

fn response(status: &str, content_type: &str, body: &str) -> (text: String)
    ensures
        text@ == response_text(status@, content_type@, body@),
{
    let mut text: String = "HTTP/1.1 ".to_owned();
    text.append(status);
    text.append("\r\ncontent-type: ");
    text.append(content_type);
    text.append("\r\ncontent-length: ");
    push_decimal(&mut text, body.as_bytes().len() as u64);
    text.append("\r\nconnection: close\r\n\r\n");
    text.append(body);
    text
}

/// The response that carries `body` as the metrics.
pub open spec fn metrics_response(body: Seq<char>) -> Seq<char> {
    response_text("200 OK"@, "text/plain; version=0.0.4; charset=utf-8"@, body)
}

/// The response to anything but a request for the metrics.
pub open spec fn not_found_response() -> Seq<char> {
    response_text("404 Not Found"@, "text/plain; charset=utf-8"@, "not found\n"@)
}

/// The response to a request with the given head. `duration_sums` is as
/// [`Metrics::render`] takes it.
pub fn respond(head: &[u8], metrics: &Metrics, duration_sums: &[String]) -> (text: String)
    requires
        duration_sums.len() == OP_COUNT,
    ensures
        text@ == (if asks_for_metrics(lossy_text(first_line(head@))) {
            metrics_response(exposition(metrics@, duration_sums@))
        } else {
            not_found_response()
        }),
        valid_utf8(first_line(head@)) ==> text@ == (if asks_for_metrics(
            decode_utf8(first_line(head@)),
        ) {
            metrics_response(exposition(metrics@, duration_sums@))
        } else {
            not_found_response()
        }),
{
    if wants_metrics(head) {
        let body = metrics.render(duration_sums);
        response("200 OK", "text/plain; version=0.0.4; charset=utf-8", body.as_str())
    } else {
        response("404 Not Found", "text/plain; charset=utf-8", "not found\n")
    }
}

/// Whitespace from `i` up to `j`, and none at `j`, ends there.
proof fn lemma_space_ends(s: Seq<char>, i: int, j: int)
    requires
        0 <= i <= j <= s.len(),
        forall|k: int| i <= k < j ==> is_space(#[trigger] s[k]),
        j < s.len() ==> !is_space(s[j]),
    ensures
        space_end(s, i) == j,
    decreases j - i,
{
    if i < j {
        lemma_space_ends(s, i + 1, j);
    }
}

/// A word from `i` up to `j`, and whitespace or nothing at `j`, ends there.
proof fn lemma_word_ends(s: Seq<char>, i: int, j: int)
    requires
        0 <= i <= j <= s.len(),
        forall|k: int| i <= k < j ==> !is_space(#[trigger] s[k]),
        j < s.len() ==> is_space(s[j]),
    ensures
        word_end(s, i) == j,
    decreases j - i,
{
    if i < j {
        lemma_word_ends(s, i + 1, j);
    }
}

/// Whitespace at the end starts behind every character that is none.
proof fn lemma_space_starts_behind(s: Seq<char>, i: int, k: int)
    requires
        0 <= k < i <= s.len(),
        !is_space(s[k]),
    ensures
        k < space_start(s, i) <= i,
    decreases i,
{
    if k < i - 1 && is_space(s[i - 1]) {
        lemma_space_starts_behind(s, i - 1, k);
    }
}

/// A line that begins with a word is not trimmed there, nor within the word.
proof fn lemma_trimming_keeps_words(word: Seq<char>, rest: Seq<char>, n: int)
    requires
        0 < n <= word.len(),
        !is_space(word[0]),
        !is_space(word[n - 1]),
    ensures
        ({
            let line = word + rest;
            exists|end: int|
                n <= end <= line.len() && trimmed(line) == #[trigger] line.subrange(0, end)
        }),
{
    let line = word + rest;
    assert(line[0] == word[0] && line[n - 1] == word[n - 1]);
    lemma_space_ends(line, 0, 0);
    lemma_space_starts_behind(line, line.len() as int, n - 1);
    let end = space_start(line, line.len() as int);
    assert(trimmed(line) == line.subrange(0, end));
}

/// One path is served, and no other: `GET`, a blank and whatever other whitespace,
/// and then a path, followed by whitespace or nothing, ask for the metrics exactly if
/// the path is `/metrics`.
pub proof fn law_only_one_path_is_served(gap: Seq<char>, path: Seq<char>, rest: Seq<char>)
    requires
        forall|k: int| 0 <= k < gap.len() ==> is_space(#[trigger] gap[k]),
        path.len() > 0,
        forall|k: int| 0 <= k < path.len() ==> !is_space(#[trigger] path[k]),
        rest.len() > 0 ==> is_space(rest[0]),
    ensures
        asks_for_metrics("GET "@ + gap + path + rest) <==> path == "/metrics"@,
{
    reveal_strlit("GET ");
    let start = "GET "@ + gap + path;
    let line = start + rest;
    let m = (4 + gap.len()) as int;
    let n = m + path.len();
    assert(start[n - 1] == path[path.len() - 1]);
    lemma_trimming_keeps_words(start, rest, n);
    let end = choose|end: int|
        n <= end <= line.len() && trimmed(line) == #[trigger] line.subrange(0, end);
    let text = line.subrange(0, end);
    assert(text.take(4) =~= "GET "@);
    assert forall|k: int| 3 <= k < m implies is_space(#[trigger] text[k]) by {
        if k > 3 {
            assert(text[k] == gap[k - 4]);
        }
    }
    assert forall|k: int| m <= k < n implies !is_space(#[trigger] text[k]) by {
        assert(text[k] == path[k - m]);
    }
    if n < end {
        assert(text[n] == rest[0]);
    }
    lemma_space_ends(text, 0, 0);
    lemma_word_ends(text, 0, 3);
    lemma_space_ends(text, 3, m);
    lemma_word_ends(text, m, n);
    assert(second_word(text) =~= path);
}

/// `GET` alone asks for nothing, nor does it where another character than a blank
/// follows it, or nothing but whitespace.
pub proof fn law_a_blank_and_a_path_follow(rest: Seq<char>)
    requires
        rest.len() == 0 || rest[0] != ' ' || forall|k: int|
            0 <= k < rest.len() ==> is_space(#[trigger] rest[k]),
    ensures
        !asks_for_metrics("GET"@ + rest),
{
    reveal_strlit("GET ");
    reveal_strlit("GET");
    let line = "GET"@ + rest;
    lemma_trimming_keeps_words("GET"@, rest, 3);
    let end = choose|end: int|
        3 <= end <= line.len() && trimmed(line) == #[trigger] line.subrange(0, end);
    let text = line.subrange(0, end);
    if text.len() >= 4 && text.take(4) == "GET "@ {
        assert(text.take(4)[3] == rest[0]);
        assert forall|k: int| 3 <= k < line.len() implies is_space(#[trigger] line[k]) by {
            assert(line[k] == rest[k - 3]);
        }
        lemma_space_starts_at(line, line.len() as int, 3);
        lemma_space_ends(line, 0, 0);
        assert(trimmed(line).len() == 3);
    }
}

/// Whitespace from `j` on, and none right before, starts there.
proof fn lemma_space_starts_at(s: Seq<char>, i: int, j: int)
    requires
        0 < j <= i <= s.len(),
        forall|k: int| j <= k < i ==> is_space(#[trigger] s[k]),
        !is_space(s[j - 1]),
    ensures
        space_start(s, i) == j,
    decreases i,
{
    if j < i {
        lemma_space_starts_at(s, i - 1, j);
    }
}

/// One method is served, and no other: a line whose first word is not `GET` asks for
/// nothing.
pub proof fn law_only_one_method_is_served(method: Seq<char>, rest: Seq<char>)
    requires
        method.len() > 0,
        forall|k: int| 0 <= k < method.len() ==> !is_space(#[trigger] method[k]),
        rest.len() > 0 ==> is_space(rest[0]),
        method != "GET"@,
    ensures
        !asks_for_metrics(method + rest),
{
    reveal_strlit("GET ");
    reveal_strlit("GET");
    let line = method + rest;
    let n = method.len() as int;
    assert(!is_space(method[0]) && !is_space(method[n - 1]));
    lemma_trimming_keeps_words(method, rest, n);
    let end = choose|end: int|
        n <= end <= line.len() && trimmed(line) == #[trigger] line.subrange(0, end);
    let text = line.subrange(0, end);
    if text.len() >= 4 && text.take(4) == "GET "@ {
        let four = text.take(4);
        assert(four[0] == line[0] && four[1] == line[1] && four[2] == line[2] && four[3]
            == line[3]);
        if n > 3 {
            assert(line[3] == method[3]);
        } else if n < 3 {
            assert(line[n] == rest[0]);
        } else {
            assert(method =~= "GET"@);
        }
    }
}

/// Whitespace moves along with what it stands behind.
proof fn lemma_space_end_shifts(c: char, s: Seq<char>, i: int)
    requires
        0 <= i <= s.len(),
    ensures
        space_end(seq![c] + s, i + 1) == space_end(s, i) + 1,
    decreases s.len() - i,
{
    let longer = seq![c] + s;
    if i < s.len() {
        assert(longer[i + 1] == s[i]);
        if is_space(s[i]) {
            lemma_space_end_shifts(c, s, i + 1);
        }
    }
}

/// Whitespace moves along with what it stands in front of.
proof fn lemma_space_start_shifts(c: char, s: Seq<char>, i: int)
    requires
        0 <= i <= s.len(),
        is_space(c),
    ensures
        0 <= space_start(s, i) <= i,
        space_start(seq![c] + s, i + 1) == (if space_start(s, i) > 0 {
            space_start(s, i) + 1
        } else {
            0
        }),
    decreases i,
{
    let longer = seq![c] + s;
    if i > 0 {
        assert(longer[i] == s[i - 1]);
        if is_space(s[i - 1]) {
            lemma_space_start_shifts(c, s, i - 1);
        }
    } else {
        assert(longer[0] == c);
        assert(space_start(longer, 0) == 0);
    }
}

/// Whitespace in front of a line does not matter.
pub proof fn law_leading_whitespace_is_no_matter(c: char, line: Seq<char>)
    requires
        is_space(c),
    ensures
        asks_for_metrics(seq![c] + line) == asks_for_metrics(line),
{
    let longer = seq![c] + line;
    lemma_space_end_shifts(c, line, 0);
    lemma_space_start_shifts(c, line, line.len() as int);
    assert(longer[0] == c);
    assert(space_end(longer, 0) == space_end(line, 0) + 1);
    let start = space_end(line, 0);
    let end = space_start(line, line.len() as int);
    lemma_space_end_is_within(line, 0);
    if start < end {
        assert(longer.subrange(start + 1, end + 1) =~= line.subrange(start, end));
    }
    assert(trimmed(longer) =~= trimmed(line));
}

/// Whitespace ends within the text.
proof fn lemma_space_end_is_within(s: Seq<char>, i: int)
    requires
        0 <= i <= s.len(),
    ensures
        i <= space_end(s, i) <= s.len(),
    decreases s.len() - i,
{
    if i < s.len() && is_space(s[i]) {
        lemma_space_end_is_within(s, i + 1);
    }
}

/// What counts of a request is its first line: whatever follows a line feed does not
/// matter, and a head without one is a line as a whole.
pub proof fn law_the_first_line_counts(line: Seq<u8>, rest: Seq<u8>)
    requires
        forall|k: int| 0 <= k < line.len() ==> line[k] != 10,
    ensures
        first_line(line + seq![10u8] + rest) == line,
        first_line(line) == line,
{
    let head = line + seq![10u8] + rest;
    lemma_line_len(head, line.len() as int);
    lemma_line_len(line, line.len() as int);
    assert(first_line(head) =~= line);
    assert(first_line(line) =~= line);
}

/// A head is complete exactly if an empty line stands somewhere in it: two line ends,
/// one right behind the other.
pub proof fn law_an_empty_line_completes_a_head(
    before: Seq<u8>,
    blank: Seq<u8>,
    behind: Seq<u8>,
    head: Seq<u8>,
)
    requires
        blank == seq![13u8, 10u8, 13u8, 10u8],
    ensures
        head_is_complete(before + blank + behind),
        head_is_complete(head) ==> exists|a: Seq<u8>, b: Seq<u8>|
            head == #[trigger] (a + blank + b),
{
    assert(blank_line_at(before + blank + behind, before.len() as int));
    if head_is_complete(head) {
        let at = choose|at: int| blank_line_at(head, at);
        let (a, b) = (head.take(at), head.skip(at + 4));
        assert(head =~= a + blank + b);
    }
}

/// Responses are a head and then the body as it is. The head tells the status, the
/// content type and how many bytes of body follow: the number can be read from it, and
/// is that of the body's bytes, not of its characters.
pub proof fn law_lengths_are_announced(
    status: Seq<char>,
    content_type: Seq<char>,
    body: Seq<char>,
)
    ensures
        exists|digits: Seq<char>|
            response_text(status, content_type, body) == #[trigger] ((("HTTP/1.1 "@ + status
                + "\r\ncontent-type: "@ + content_type) + "\r\ncontent-length: "@) + (digits
                + "\r\nconnection: close\r\n\r\n"@ + body)) && spelled_int(
                digits,
                0,
                encode_utf8(body).len() as int,
            ) == Some(encode_utf8(body).len() as int),
{
    let start = "HTTP/1.1 "@ + status + "\r\ncontent-type: "@ + content_type;
    let digits = decimal(encode_utf8(body).len());
    let n = encode_utf8(body).len() as int;
    law_decimal_round_trip(n, 0, n);
    assert(response_text(status, content_type, body) =~= (start + "\r\ncontent-length: "@) + (digits
        + "\r\nconnection: close\r\n\r\n"@ + body));
}

/// The metrics are served as they are, however long they are: the response says that
/// all is well, and ends with just them. Any other response says that nothing was
/// found.
pub proof fn law_metrics_are_served_as_they_are(body: Seq<char>)
    ensures
        ({
            let (served, other) = (metrics_response(body), not_found_response());
            let n = served.len() - body.len();
            &&& served.len() > 16
            &&& served.subrange(0, 17) == "HTTP/1.1 200 OK\r\n"@
            &&& n >= 4
            &&& served.subrange(n - 4, n) == "\r\n\r\n"@
            &&& served.subrange(n, served.len() as int) == body
            &&& other.len() > 23
            &&& other.subrange(0, 24) == "HTTP/1.1 404 Not Found\r\n"@
        }),
{
    reveal_strlit("HTTP/1.1 ");
    reveal_strlit("200 OK");
    reveal_strlit("404 Not Found");
    reveal_strlit("\r\ncontent-type: ");
    reveal_strlit("\r\nconnection: close\r\n\r\n");
    reveal_strlit("HTTP/1.1 200 OK\r\n");
    reveal_strlit("HTTP/1.1 404 Not Found\r\n");
    reveal_strlit("\r\n\r\n");
    let (served, other) = (metrics_response(body), not_found_response());
    let n = served.len() - body.len();
    assert(served.subrange(0, 17) =~= "HTTP/1.1 200 OK\r\n"@);
    assert(served.subrange(n - 4, n) =~= "\r\n\r\n"@);
    assert(served.subrange(n, served.len() as int) =~= body);
    assert(other.subrange(0, 24) =~= "HTTP/1.1 404 Not Found\r\n"@);
}

/// Once enough of a request has been read, it stays enough: reading stops at an empty
/// line or at 8192 bytes, whichever comes first, and at nothing else.
pub proof fn law_enough_stays_enough(head: &[u8], longer: &[u8], r: bool, then: bool)
    requires
        head@.is_prefix_of(longer@),
        call_ensures(needs_more, (head,), r),
        call_ensures(needs_more, (longer,), then),
    ensures
        then ==> r,
        r ==> head@.len() < 8192,
        !r ==> head@.len() >= 8192 || head_is_complete(head@),
{
    if head_is_complete(head@) {
        let at = choose|at: int| blank_line_at(head@, at);
        assert(blank_line_at(longer@, at));
    }
}

} // verus!
