//! What a request to the configuration editor is, from its bytes: the lines of its headers,
//! the length of its body, and what it asks for.

use vstd::prelude::*;
use vstd::utf8::{decode_utf8, valid_utf8};

use crate::http::{
    answer_head, fed, first_place, head_of, header_lines, headers_end, is_active, law_first_place,
    length_text, lengths, line_end, nothing_read, route_of, stands_at, HeadModel, ReaderModel,
    RequestFault, RequestModel, StepModel,
};
use crate::text::{
    decimal, find, lacks, lemma_find, lemma_find_unique, lemma_split_parts, lowered, number_of,
    split, starts, trimmed, words,
};

verus! {

/// Whether a text holds no end of a line.
pub open spec fn one_line(s: Seq<char>) -> bool {
    forall|i: int| 0 <= i < s.len() - 1 ==> !(#[trigger] s[i] == '\r' && s[i + 1] == '\n')
}

proof fn lemma_no_end(s: Seq<char>, from: int, at: int)
    requires
        0 <= from <= at <= s.len(),
        forall|i: int| from <= i < at && i + 1 < s.len() ==> !(#[trigger] s[i] == '\r' && s[i + 1]
            == '\n'),
        at < s.len() ==> at + 1 < s.len() && s[at] == '\r' && s[at + 1] == '\n',
    ensures
        line_end(s, from) == at,
    decreases s.len() - from,
{
    if from + 1 < s.len() && from < at {
        lemma_no_end(s, from + 1, at);
    }
}

/// Lines end with a carriage return and a line feed: a text without both is one line, and
/// what stands before the first of them is the first line.
pub proof fn law_header_lines(a: Seq<char>, rest: Seq<char>)
    requires
        one_line(a),
    ensures
        header_lines(a) == seq![a],
        header_lines(a + seq!['\r', '\n'] + rest) == seq![a] + header_lines(rest),
{
    lemma_no_end(a, 0, a.len() as int);
    let s = a + seq!['\r', '\n'] + rest;
    let n = a.len() as int;
    assert(s[n] == '\r' && s[n + 1] == '\n');
    assert forall|i: int| 0 <= i < n && i + 1 < s.len() implies !(#[trigger] s[i] == '\r' && s[i
        + 1] == '\n') by {
        assert(s[i] == a[i]);
        if i + 1 < n {
            assert(s[i + 1] == a[i + 1]);
        }
    }
    lemma_no_end(s, 0, n);
    assert(s.take(n) =~= a);
    assert(s.skip(n + 2) =~= rest);
}

/// A line gives the length of the body where its name, before the first colon, is
/// `content-length` in whatever letters.
pub proof fn law_length_lines(name: Seq<char>, value: Seq<char>)
    requires
        lacks(name, ':'),
    ensures
        length_text(name) is None,
        length_text(name + seq![':'] + value) == if lowered(name) == "content-length"@ {
            Some(value)
        } else {
            None
        },
{
    let line = name + seq![':'] + value;
    let n = name.len() as int;
    lemma_find(name, ':');
    assert(line[n] == ':');
    assert forall|i: int| 0 <= i < n implies line[i] != ':' by {
        assert(line[i] == name[i]);
    }
    lemma_find_unique(line, ':', n);
    assert(line.take(n) =~= name);
    assert(line.skip(n + 1) =~= value);
}

/// The last line that gives a length counts, and every one of them has to give a number.
pub proof fn law_last_length_counts(lines: Seq<Seq<char>>, l: Seq<char>, so_far: nat)
    ensures
        lengths(seq![], so_far) == Some(so_far),
        lengths(lines, so_far) is None ==> lengths(lines.push(l), so_far) is None,
        lengths(lines, so_far) is Some ==> lengths(lines.push(l), so_far) == match length_text(l) {
            Some(t) => number_of(trimmed(t)),
            None => lengths(lines, so_far),
        },
    decreases lines.len(),
{
    let more = lines.push(l);
    if lines.len() > 0 {
        assert(more.drop_first() =~= lines.drop_first().push(l));
        assert(more[0] == lines[0]);
        match length_text(lines[0]) {
            Some(t) => match number_of(trimmed(t)) {
                Some(n) => {
                    law_last_length_counts(lines.drop_first(), l, n);
                },
                None => {},
            },
            None => {
                law_last_length_counts(lines.drop_first(), l, so_far);
            },
        }
    } else {
        assert(more.drop_first() =~= seq![]);
        reveal_with_fuel(lengths, 2);
    }
}

/// The first line of a request holds a method and a target. The path is the target up to a
/// question mark. A request without them, one whose length is no number and one whose body
/// would have more than four mebibytes is refused.
pub proof fn law_heads(text: Seq<char>)
    ensures
        ({
            let lines = header_lines(text);
            let parts = words(lines[0]);
            let length = lengths(lines.drop_first(), 0);
            let head = head_of(text);
            &&& parts.len() == 0 ==> head == Err::<HeadModel, _>(RequestFault::MissingMethod)
            &&& parts.len() == 1 ==> head == Err::<HeadModel, _>(RequestFault::MissingPath)
            &&& parts.len() >= 2 && length is None ==> head == Err::<HeadModel, _>(
                RequestFault::InvalidLength,
            )
            &&& parts.len() >= 2 ==> (length matches Some(n) ==> {
                &&& n > 4 * 1024 * 1024 ==> head == Err::<HeadModel, _>(RequestFault::BodyTooLarge)
                &&& n <= 4 * 1024 * 1024 ==> head is Ok && head->Ok_0.method == parts[0]
                    && head->Ok_0.length == n
                &&& n <= 4 * 1024 * 1024 ==> {
                    let path = head->Ok_0.path;
                    &&& lacks(path, '?')
                    &&& starts(parts[1], path)
                    &&& path.len() < parts[1].len() ==> parts[1][path.len() as int] == '?'
                }
            })
        }),
{
    let parts = words(header_lines(text)[0]);
    if parts.len() >= 2 {
        lemma_split_parts(parts[1], '?');
        lemma_find(parts[1], '?');
        let path = split(parts[1], '?')[0];
        assert(lacks(path, '?'));
        let at = find(parts[1], '?');
        if at < parts[1].len() {
            assert(path == parts[1].take(at));
            assert(parts[1].take(at).len() == at);
            assert(parts[1].take(path.len() as int) =~= path);
        } else {
            assert(path == parts[1]);
            assert(parts[1].take(path.len() as int) =~= path);
        }
    }
}

/// A request that comes in at once is its headers, up to the first empty line, and as much
/// of what follows as the headers say. Where less follows, more is waited for.
pub proof fn law_requests(bytes: Seq<u8>, i: int)
    requires
        0 <= i,
        i + 4 <= bytes.len(),
        bytes.subrange(i, i + 4) == seq![13u8, 10u8, 13u8, 10u8],
        forall|j: int| 0 <= j < i ==> #[trigger] bytes.subrange(j, j + 4) != seq![
            13u8,
            10u8,
            13u8,
            10u8,
        ],
        valid_utf8(bytes.take(i + 4)),
    ensures
        match head_of(decode_utf8(bytes.take(i + 4))) {
            Err(e) => fed(nothing_read(), bytes) == StepModel::Failed(e),
            Ok(h) => {
                let end = i + 4 + h.length;
                &&& end <= bytes.len() ==> fed(nothing_read(), bytes) == StepModel::Done(
                    RequestModel {
                        method: h.method,
                        path: h.path,
                        body: bytes.subrange(i + 4, end),
                    },
                )
                &&& end > bytes.len() ==> fed(nothing_read(), bytes) == StepModel::More(
                    ReaderModel { buf: bytes, head: Some((i + 4, h)) },
                )
            },
        },
{
    let st = nothing_read();
    assert(st.buf + bytes =~= bytes);
    law_first_place(bytes, headers_end(), 0);
    let at = first_place(bytes, headers_end(), 0);
    assert(stands_at(bytes, headers_end(), i));
    assert(at is Some);
    let k = at->0;
    if k < i {
        assert(bytes.subrange(k, k + 4) == seq![13u8, 10u8, 13u8, 10u8]);
    }
    assert(k == i);
}

/// Headers that do not end within 64 kibibytes are refused, and so is a connection that
/// closes before the request is there.
pub proof fn law_unfinished_requests(st: ReaderModel, chunk: Seq<u8>)
    ensures
        chunk.len() == 0 && st.head is None ==> fed(st, chunk) == StepModel::Failed(
            RequestFault::ClosedInHeaders,
        ),
        chunk.len() == 0 && st.head is Some ==> fed(st, chunk) == StepModel::Failed(
            RequestFault::ClosedInBody,
        ),
        chunk.len() > 0 && st.head is None && first_place(st.buf + chunk, headers_end(), 0) is None
            ==> fed(st, chunk) == if st.buf.len() + chunk.len() > 64 * 1024 {
            StepModel::Failed(RequestFault::HeadersTooLarge)
        } else {
            StepModel::More(ReaderModel { buf: st.buf + chunk, head: None })
        },
        chunk.len() > 0 ==> (st.head matches Some((at, h)) ==> {
            let buf = st.buf + chunk;
            &&& buf.len() - at < h.length ==> fed(st, chunk) == StepModel::More(
                ReaderModel { buf, head: Some((at, h)) },
            )
            &&& buf.len() - at >= h.length ==> fed(st, chunk) == StepModel::Done(
                RequestModel {
                    method: h.method,
                    path: h.path,
                    body: buf.subrange(at, at + h.length),
                },
            )
        }),
{
}

/// Why a request is refused, in words.
pub proof fn law_fault_words(text: Seq<char>)
    ensures
        RequestFault::ClosedInHeaders.words() == "connection closed before request headers"@,
        RequestFault::HeadersTooLarge.words() == "request headers too large"@,
        RequestFault::NotText(text).words() == text,
        RequestFault::MissingMethod.words() == "missing method"@,
        RequestFault::MissingPath.words() == "missing path"@,
        RequestFault::InvalidLength.words() == "invalid content-length"@,
        RequestFault::BodyTooLarge.words() == "request body too large"@,
        RequestFault::ClosedInBody.words() == "connection closed before request body"@,
{
}

/// The page, the configuration and the state of the service are read with `GET`; the
/// configuration is written, and the service restarted, with `POST`. Everything else is not
/// found.
pub proof fn law_routes(method: Seq<char>, path: Seq<char>)
    ensures
        route_of(method, path) is Index <==> method == "GET"@ && (path == "/"@ || path
            == "/index.html"@),
        route_of(method, path) is ReadConfig <==> method == "GET"@ && path == "/api/config"@,
        route_of(method, path) is WriteConfig <==> method == "POST"@ && path == "/api/config"@,
        route_of(method, path) is Restart <==> method == "POST"@ && path == "/api/restart"@,
        route_of(method, path) is Status <==> method == "GET"@ && path == "/api/status"@,
{
    reveal_strlit("GET");
    reveal_strlit("POST");
    reveal_strlit("/");
    reveal_strlit("/index.html");
    reveal_strlit("/api/config");
    reveal_strlit("/api/restart");
    reveal_strlit("/api/status");
    assert("GET"@.len() == 3 && "POST"@.len() == 4);
    assert("/"@.len() == 1 && "/index.html"@.len() == 11 && "/api/config"@.len() == 11);
    assert("/api/restart"@.len() == 12 && "/api/status"@.len() == 11);
    assert("/index.html"@[1] == 'i' && "/api/config"@[1] == 'a' && "/api/config"@[5] == 'c');
    assert("/api/status"@[1] == 'a' && "/api/status"@[5] == 's');
}

/// An answer says its status, the type and the length of its body, and that it is the only
/// one of its connection and is not to be kept.
pub proof fn law_answers(status: nat, content_type: Seq<char>, length: nat)
    ensures
        answer_head(status, content_type, length) == "HTTP/1.1 "@ + decimal(status) + " "@ + (
        if status == 404 {
            "Not Found"@
        } else if status == 500 {
            "Internal Server Error"@
        } else {
            "OK"@
        }) + "\r\nContent-Type: "@ + content_type + "\r\nContent-Length: "@ + decimal(length)
            + "\r\nCache-Control: no-store\r\nX-Content-Type-Options: nosniff\r\nConnection: close\r\n\r\n"@,
{
}

/// The service runs where its manager says `active` and nothing else but white space.
pub proof fn law_active(output: &str, r: bool)
    requires
        call_ensures(is_active, (output,), r),
    ensures
        r <==> trimmed(output@) == "active"@,
{
}

} // verus!
