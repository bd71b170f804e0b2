//! Requests to the configuration editor and the answers to them.

use vstd::prelude::*;
use vstd::utf8::{decode_utf8, valid_utf8};

use crate::text::{
    cat3, chars_of, decimal, decimal_text, find, find_from, lemma_find, lowercase, lowered,
    number_of, parse_number, same, split, split_on, split_words, text_of, trim, trimmed, views,
    words,
};

verus! {

/// How many bytes the headers of a request may have before their end is found.
pub const MAX_HEADERS: usize = 65_536;

/// How many bytes the body of a request may have.
pub const MAX_REQUEST_BODY: usize = 4_194_304;

// ---- searching ----------------------------------------------------------------------

/// Whether `needle` stands in `haystack` at a place.
pub open spec fn stands_at(haystack: Seq<u8>, needle: Seq<u8>, i: int) -> bool {
    0 <= i && i + needle.len() <= haystack.len() && haystack.subrange(i, i + needle.len())
        == needle
}

/// The first place where `needle` stands in `haystack`.
pub open spec fn first_place(haystack: Seq<u8>, needle: Seq<u8>, from: int) -> Option<int>
    decreases haystack.len() + 1 - from,
{
    if from + needle.len() > haystack.len() {
        None
    } else if stands_at(haystack, needle, from) {
        Some(from)
    } else {
        first_place(haystack, needle, from + 1)
    }
}

fn matches_at(haystack: &Vec<u8>, needle: &Vec<u8>, i: usize) -> (r: bool)
    requires
        i + needle@.len() <= haystack@.len(),
    ensures
        r == stands_at(haystack@, needle@, i as int),
{
    let ghost part = haystack@.subrange(i as int, i + needle@.len());
    let n: usize = haystack.len();
    let mut k: usize = 0;
    while k < needle.len()
        invariant
            k <= needle@.len(),
            n == haystack@.len(),
            i + needle@.len() <= n,
            part == haystack@.subrange(i as int, i + needle@.len()),
            forall|j: int| 0 <= j < k ==> part[j] == needle@[j],
        decreases needle@.len() - k,
    {
        if haystack[i + k] != needle[k] {
            assert(part[k as int] != needle@[k as int]);
            return false;
        }
        k += 1;
    }
    assert(part =~= needle@);
    true
}

/// The first place where `needle` stands in `haystack`.
pub fn find_bytes(haystack: &Vec<u8>, needle: &Vec<u8>) -> (r: Option<usize>)
    requires
        needle@.len() > 0,
    ensures
        match r {
            Some(i) => first_place(haystack@, needle@, 0) == Some(i as int),
            None => first_place(haystack@, needle@, 0) is None,
        },
        r matches Some(i) ==> i + needle@.len() <= haystack@.len(),
{
    let (n, m) = (haystack.len(), needle.len());
    if m > n {
        return None;
    }
    let mut i: usize = 0;
    while i <= n - m
        invariant
            m == needle@.len() && n == haystack@.len(),
            0 < m <= n,
            i <= n - m + 1,
            first_place(haystack@, needle@, 0) == first_place(haystack@, needle@, i as int),
        decreases n - m + 1 - i,
    {
        if matches_at(haystack, needle, i) {
            return Some(i);
        }
        i += 1;
    }
    None
}

/// What is found is the first place, and what is not found is nowhere.
pub proof fn law_first_place(haystack: Seq<u8>, needle: Seq<u8>, from: int)
    requires
        0 <= from,
    ensures
        match first_place(haystack, needle, from) {
            Some(i) => from <= i && stands_at(haystack, needle, i) && forall|j: int|
                from <= j < i ==> !#[trigger] stands_at(haystack, needle, j),
            None => forall|j: int| from <= j ==> !#[trigger] stands_at(haystack, needle, j),
        },
    decreases haystack.len() + 1 - from,
{
    if from + needle.len() <= haystack.len() && !stands_at(haystack, needle, from) {
        law_first_place(haystack, needle, from + 1);
    }
}

// ---- headers ----------------------------------------------------------------------

/// Why a request is refused.
#[derive(Debug, PartialEq, Eq)]
pub enum RequestError {
    ClosedInHeaders,
    HeadersTooLarge,
    /// The headers are not text, with what is said of them.
    NotText(String),
    MissingMethod,
    MissingPath,
    InvalidLength,
    BodyTooLarge,
    ClosedInBody,
}

/// Why a request is refused.
pub enum RequestFault {
    ClosedInHeaders,
    HeadersTooLarge,
    NotText(Seq<char>),
    MissingMethod,
    MissingPath,
    InvalidLength,
    BodyTooLarge,
    ClosedInBody,
}

impl View for RequestError {
    type V = RequestFault;

    open spec fn view(&self) -> RequestFault {
        match self {
            RequestError::ClosedInHeaders => RequestFault::ClosedInHeaders,
            RequestError::HeadersTooLarge => RequestFault::HeadersTooLarge,
            RequestError::NotText(s) => RequestFault::NotText(s@),
            RequestError::MissingMethod => RequestFault::MissingMethod,
            RequestError::MissingPath => RequestFault::MissingPath,
            RequestError::InvalidLength => RequestFault::InvalidLength,
            RequestError::BodyTooLarge => RequestFault::BodyTooLarge,
            RequestError::ClosedInBody => RequestFault::ClosedInBody,
        }
    }
}

impl RequestFault {
    /// The error in words.
    pub open spec fn words(self) -> Seq<char> {
        match self {
            RequestFault::ClosedInHeaders => "connection closed before request headers"@,
            RequestFault::HeadersTooLarge => "request headers too large"@,
            RequestFault::NotText(s) => s,
            RequestFault::MissingMethod => "missing method"@,
            RequestFault::MissingPath => "missing path"@,
            RequestFault::InvalidLength => "invalid content-length"@,
            RequestFault::BodyTooLarge => "request body too large"@,
            RequestFault::ClosedInBody => "connection closed before request body"@,
        }
    }
}

impl RequestError {
    /// The error in words.
    pub fn message(&self) -> (s: String)
        ensures
            s@ == self@.words(),
    {
        match self {
            RequestError::ClosedInHeaders => "connection closed before request headers".to_owned(),
            RequestError::HeadersTooLarge => "request headers too large".to_owned(),
            RequestError::NotText(s) => s.clone(),
            RequestError::MissingMethod => "missing method".to_owned(),
            RequestError::MissingPath => "missing path".to_owned(),
            RequestError::InvalidLength => "invalid content-length".to_owned(),
            RequestError::BodyTooLarge => "request body too large".to_owned(),
            RequestError::ClosedInBody => "connection closed before request body".to_owned(),
        }
    }
}

/// Where the first end of a line stands from a place on, or the length.
pub open spec fn line_end(s: Seq<char>, from: int) -> int
    decreases s.len() - from,
{
    if from + 1 >= s.len() {
        s.len() as int
    } else if s[from] == '\r' && s[from + 1] == '\n' {
        from
    } else {
        line_end(s, from + 1)
    }
}

proof fn lemma_line_end(s: Seq<char>, from: int)
    requires
        0 <= from <= s.len(),
    ensures
        from <= line_end(s, from) <= s.len(),
        line_end(s, from) < s.len() ==> line_end(s, from) + 1 < s.len(),
    decreases s.len() - from,
{
    if from + 1 < s.len() && !(s[from] == '\r' && s[from + 1] == '\n') {
        lemma_line_end(s, from + 1);
    }
}

/// The lines of headers.
pub open spec fn header_lines(s: Seq<char>) -> Seq<Seq<char>>
    decreases s.len(),
    via header_lines_decreases
{
    let at = line_end(s, 0);
    if at >= s.len() {
        seq![s]
    } else {
        seq![s.take(at)] + header_lines(s.skip(at + 2))
    }
}

#[via_fn]
proof fn header_lines_decreases(s: Seq<char>) {
    lemma_line_end(s, 0);
}

fn end_of_line(v: &Vec<char>, from: usize) -> (at: usize)
    requires
        from <= v@.len(),
    ensures
        at == from + line_end(v@.skip(from as int), 0),
        from <= at <= v@.len(),
        at < v@.len() ==> at + 2 <= v@.len(),
{
    let ghost t = v@.skip(from as int);
    let mut i: usize = from;
    while i < v.len() && i + 1 < v.len()
        invariant
            from <= i <= v@.len(),
            t == v@.skip(from as int),
            line_end(t, 0) == line_end(t, i - from),
        decreases v@.len() - i,
    {
        assert(t[i - from] == v@[i as int] && t[i - from + 1] == v@[i + 1]);
        if v[i] == '\r' && v[i + 1] == '\n' {
            return i;
        }
        i += 1;
    }
    v.len()
}

fn split_lines(s: &str) -> (lines: Vec<String>)
    ensures
        views(lines@) == header_lines(s@),
{
    let v = chars_of(s);
    let mut lines: Vec<String> = Vec::new();
    let mut from: usize = 0;
    assert(s@.skip(0) =~= s@);
    assert(views(lines@) + header_lines(s@) =~= header_lines(s@));
    loop
        invariant
            from <= v@.len(),
            v@ == s@,
            views(lines@) + header_lines(s@.skip(from as int)) == header_lines(s@),
        decreases v@.len() - from,
    {
        let at: usize = end_of_line(&v, from);
        let ghost rest = s@.skip(from as int);
        let ghost before = views(lines@);
        let piece = text_of(&v, from, at);
        if at >= v.len() {
            assert(piece@ =~= rest);
            crate::text::push_text(&mut lines, piece);
            assert(before + seq![rest] =~= before.push(rest));
            return lines;
        }
        proof {
            assert(piece@ =~= rest.take(at - from));
            assert(rest.skip(at - from + 2) =~= s@.skip(at + 2));
            assert(before.push(piece@) + header_lines(s@.skip(at + 2)) =~= before + (seq![
                piece@,
            ] + header_lines(s@.skip(at + 2))));
        }
        crate::text::push_text(&mut lines, piece);
        from = at + 2;
    }
}

/// What the headers of a request say.
pub struct Head {
    pub method: String,
    /// The path, without a query.
    pub path: String,
    /// The length of the body.
    pub length: usize,
}

/// What the headers of a request hold.
pub struct HeadModel {
    pub method: Seq<char>,
    pub path: Seq<char>,
    pub length: nat,
}

impl View for Head {
    type V = HeadModel;

    open spec fn view(&self) -> HeadModel {
        HeadModel { method: self.method@, path: self.path@, length: self.length as nat }
    }
}

/// Whether a line gives the length of the body, and what stands behind its colon.
pub open spec fn length_text(line: Seq<char>) -> Option<Seq<char>> {
    let at = find(line, ':');
    if at < line.len() && lowered(line.take(at)) == "content-length"@ {
        Some(line.skip(at + 1))
    } else {
        None
    }
}

/// The length of the body that lines give: that of the last one that does. There is
/// none where one of them gives no number.
pub open spec fn lengths(lines: Seq<Seq<char>>, so_far: nat) -> Option<nat>
    decreases lines.len(),
{
    if lines.len() == 0 {
        Some(so_far)
    } else {
        match length_text(lines[0]) {
            Some(t) => match number_of(trimmed(t)) {
                Some(n) => lengths(lines.drop_first(), n),
                None => None,
            },
            None => lengths(lines.drop_first(), so_far),
        }
    }
}

/// What headers say, or why they are refused.
pub open spec fn head_of(text: Seq<char>) -> Result<HeadModel, RequestFault> {
    let lines = header_lines(text);
    let parts = words(lines[0]);
    if parts.len() == 0 {
        Err(RequestFault::MissingMethod)
    } else if parts.len() == 1 {
        Err(RequestFault::MissingPath)
    } else {
        match lengths(lines.drop_first(), 0) {
            None => Err(RequestFault::InvalidLength),
            Some(n) => if n > MAX_REQUEST_BODY {
                Err(RequestFault::BodyTooLarge)
            } else {
                Ok(HeadModel { method: parts[0], path: split(parts[1], '?')[0], length: n })
            },
        }
    }
}

fn length_of(line: &str) -> (r: Option<String>)
    ensures
        match r {
            Some(t) => length_text(line@) == Some(t@),
            None => length_text(line@) is None,
        },
{
    let v = chars_of(line);
    proof {
        lemma_find(line@, ':');
        assert(v@.skip(0) =~= v@);
    }
    let at: usize = find_from(&v, ':', 0);
    if at >= v.len() {
        return None;
    }
    let name = text_of(&v, 0, at);
    assert(name@ =~= line@.take(at as int));
    if same(lowercase(name.as_str()).as_str(), "content-length") {
        let rest = text_of(&v, at + 1, v.len());
        assert(rest@ =~= line@.skip(at as int + 1));
        Some(rest)
    } else {
        None
    }
}

/// Reads the headers of a request.
pub fn parse_head(text: &str) -> (r: Result<Head, RequestError>)
    ensures
        match r {
            Ok(h) => head_of(text@) == Ok::<HeadModel, RequestFault>(h@),
            Err(e) => head_of(text@) == Err::<HeadModel, RequestFault>(e@),
        },
{
    let lines = split_lines(text);
    let ghost all = header_lines(text@);
    proof {
        lemma_line_end(text@, 0);
        assert(all.len() > 0);
        assert(all.len() == lines@.len());
        assert(all[0] == lines@[0]@);
    }
    let parts = split_words(lines[0].as_str());
    assert(views(parts@).len() == parts@.len());
    if parts.len() == 0 {
        return Err(RequestError::MissingMethod);
    }
    if parts.len() == 1 {
        return Err(RequestError::MissingPath);
    }
    assert(views(parts@)[0] == parts@[0]@ && views(parts@)[1] == parts@[1]@);
    let pieces = split_on(parts[1].as_str(), '?');
    proof {
        crate::text::lemma_split_parts(parts@[1]@, '?');
        assert(views(pieces@).len() == pieces@.len());
        assert(views(pieces@)[0] == pieces@[0]@);
    }
    let mut length: usize = 0;
    let mut i: usize = 1;
    assert(all.skip(1) =~= all.drop_first());
    while i < lines.len()
        invariant
            1 <= i <= lines@.len(),
            all == header_lines(text@),
            views(lines@) == all,
            all.len() == lines@.len(),
            words(all[0]).len() > 1,
            lengths(all.drop_first(), 0) == lengths(all.skip(i as int), length as nat),
        decreases lines@.len() - i,
    {
        proof {
            assert(all.skip(i as int)[0] == lines@[i as int]@);
            assert(all.skip(i as int).drop_first() =~= all.skip(i as int + 1));
        }
        match length_of(lines[i].as_str()) {
            Some(t) => match parse_number(trim(t.as_str())) {
                Some(n) => {
                    length = n;
                },
                None => {
                    return Err(RequestError::InvalidLength);
                },
            },
            None => {},
        }
        i += 1;
    }
    if length > MAX_REQUEST_BODY {
        return Err(RequestError::BodyTooLarge);
    }
    Ok(Head { method: parts[0].clone(), path: pieces[0].clone(), length })
}

// ---- reading a request ----------------------------------------------------------------

/// A request.
#[derive(Debug, PartialEq, Eq)]
pub struct HttpRequest {
    pub method: String,
    pub path: String,
    pub body: Vec<u8>,
}

/// What a request holds.
pub struct RequestModel {
    pub method: Seq<char>,
    pub path: Seq<char>,
    pub body: Seq<u8>,
}

impl View for HttpRequest {
    type V = RequestModel;

    open spec fn view(&self) -> RequestModel {
        RequestModel { method: self.method@, path: self.path@, body: self.body@ }
    }
}

/// What the error of `std::str::from_utf8` says of bytes that are not UTF-8.
pub uninterp spec fn utf8_fault(bytes: Seq<u8>) -> Seq<char>;

/// `std::str::from_utf8`: bytes that are the UTF-8 encoding of a text give that text,
/// and others are refused. What the error says is a matter of the bytes alone.
#[verifier::external_body]
fn text_from(bytes: &Vec<u8>) -> (r: Result<String, String>)
    ensures
        match r {
            Ok(s) => valid_utf8(bytes@) && s@ == decode_utf8(bytes@),
            Err(e) => !valid_utf8(bytes@) && e@ == utf8_fault(bytes@),
        },
{
    match std::str::from_utf8(bytes) {
        Ok(s) => Ok(s.to_owned()),
        Err(e) => Err(e.to_string()),
    }
}

/// What is known of a request whose bytes have come in only in part.
pub struct RequestReader {
    buf: Vec<u8>,
    /// Where the body starts and what the headers say, once they are there.
    head: Option<(usize, Head)>,
}

/// What is known of a request whose bytes have come in only in part.
pub struct ReaderModel {
    pub buf: Seq<u8>,
    pub head: Option<(int, HeadModel)>,
}

impl View for RequestReader {
    type V = ReaderModel;

    closed spec fn view(&self) -> ReaderModel {
        ReaderModel {
            buf: self.buf@,
            head: match self.head {
                Some((at, h)) => Some((at as int, h@)),
                None => None,
            },
        }
    }
}

/// What comes of more bytes.
pub enum Step {
    /// More bytes are needed.
    More,
    Done(HttpRequest),
    Failed(RequestError),
}

/// What comes of more bytes.
pub enum StepModel {
    More(ReaderModel),
    Done(RequestModel),
    Failed(RequestFault),
}

/// The end of headers.
pub open spec fn headers_end() -> Seq<u8> {
    seq![13u8, 10u8, 13u8, 10u8]
}

/// A request is there once its body is.
pub open spec fn settled(buf: Seq<u8>, at: int, h: HeadModel) -> StepModel {
    if buf.len() - at >= h.length {
        StepModel::Done(
            RequestModel {
                method: h.method,
                path: h.path,
                body: buf.subrange(at, at + h.length),
            },
        )
    } else {
        StepModel::More(ReaderModel { buf, head: Some((at, h)) })
    }
}

/// What comes of bytes, or of the end of the connection where there are none.
pub open spec fn fed(st: ReaderModel, chunk: Seq<u8>) -> StepModel {
    let buf = st.buf + chunk;
    match st.head {
        Some((at, h)) => if chunk.len() == 0 {
            StepModel::Failed(RequestFault::ClosedInBody)
        } else {
            settled(buf, at, h)
        },
        None => if chunk.len() == 0 {
            StepModel::Failed(RequestFault::ClosedInHeaders)
        } else {
            match first_place(buf, headers_end(), 0) {
                Some(i) => {
                    let head = buf.take(i + 4);
                    if !valid_utf8(head) {
                        StepModel::Failed(RequestFault::NotText(utf8_fault(head)))
                    } else {
                        match head_of(decode_utf8(head)) {
                            Ok(h) => settled(buf, i + 4, h),
                            Err(e) => StepModel::Failed(e),
                        }
                    }
                },
                None => if buf.len() > MAX_HEADERS {
                    StepModel::Failed(RequestFault::HeadersTooLarge)
                } else {
                    StepModel::More(ReaderModel { buf, head: None })
                },
            }
        },
    }
}

fn part_of(v: &Vec<u8>, from: usize, to: usize) -> (r: Vec<u8>)
    requires
        from <= to <= v@.len(),
    ensures
        r@ == v@.subrange(from as int, to as int),
{
    let mut r: Vec<u8> = Vec::new();
    let mut i: usize = from;
    while i < to
        invariant
            from <= i <= to <= v@.len(),
            r@ =~= v@.subrange(from as int, i as int),
        decreases to - i,
    {
        r.push(v[i]);
        i += 1;
    }
    r
}

impl RequestReader {
    /// The body starts within what has come in.
    #[verifier::type_invariant]
    spec fn in_bounds(&self) -> bool {
        self.head matches Some((at, _)) ==> at <= self.buf@.len()
    }

    /// Nothing has come in yet.
    pub fn new() -> (r: Self)
        ensures
            r@ == (ReaderModel { buf: Seq::empty(), head: None }),
    {
        RequestReader { buf: Vec::new(), head: None }
    }

    fn settle(buf: Vec<u8>, at: usize, h: Head) -> (r: (RequestReader, Step))
        requires
            at <= buf@.len(),
        ensures
            match r.1 {
                Step::More => settled(buf@, at as int, h@) == StepModel::More(r.0@),
                Step::Done(q) => settled(buf@, at as int, h@) == StepModel::Done(q@),
                Step::Failed(_) => false,
            },
    {
        let n: usize = buf.len();
        if n - at >= h.length {
            let body = part_of(&buf, at, at + h.length);
            (
                RequestReader::new(),
                Step::Done(HttpRequest { method: h.method, path: h.path, body }),
            )
        } else {
            (RequestReader { buf, head: Some((at, h)) }, Step::More)
        }
    }

    /// Takes in what was read; nothing was read where the connection has ended.
    pub fn feed(self, chunk: &Vec<u8>) -> (r: (RequestReader, Step))
        ensures
            match r.1 {
                Step::More => fed(self@, chunk@) == StepModel::More(r.0@),
                Step::Done(q) => fed(self@, chunk@) == StepModel::Done(q@),
                Step::Failed(e) => fed(self@, chunk@) == StepModel::Failed(e@),
            },
    {
        proof {
            use_type_invariant(&self);
        }
        let ghost st = self@;
        let RequestReader { buf: held, head } = self;
        let mut buf = held;
        let mut i: usize = 0;
        while i < chunk.len()
            invariant
                i <= chunk@.len(),
                buf@ =~= st.buf + chunk@.take(i as int),
            decreases chunk@.len() - i,
        {
            buf.push(chunk[i]);
            i += 1;
        }
        assert(buf@ =~= st.buf + chunk@);
        match head {
            Some((at, h)) => {
                if chunk.len() == 0 {
                    return (RequestReader::new(), Step::Failed(RequestError::ClosedInBody));
                }
                RequestReader::settle(buf, at, h)
            },
            None => {
                if chunk.len() == 0 {
                    return (RequestReader::new(), Step::Failed(RequestError::ClosedInHeaders));
                }
                let mut end: Vec<u8> = Vec::new();
                end.push(13);
                end.push(10);
                end.push(13);
                end.push(10);
                assert(end@ =~= headers_end());
                let total: usize = buf.len();
                match find_bytes(&buf, &end) {
                    Some(i) => {
                        let text = part_of(&buf, 0, i + 4);
                        assert(text@ =~= buf@.take(i + 4));
                        match text_from(&text) {
                            Ok(s) => match parse_head(s.as_str()) {
                                Ok(h) => RequestReader::settle(buf, i + 4, h),
                                Err(e) => (RequestReader::new(), Step::Failed(e)),
                            },
                            Err(e) => (
                                RequestReader::new(),
                                Step::Failed(RequestError::NotText(e)),
                            ),
                        }
                    },
                    None => {
                        if buf.len() > MAX_HEADERS {
                            (
                                RequestReader::new(),
                                Step::Failed(RequestError::HeadersTooLarge),
                            )
                        } else {
                            (RequestReader { buf, head: None }, Step::More)
                        }
                    },
                }
            },
        }
    }
}

/// The body of a request has the length that its headers gave, which is not more than
/// bodies may have.
pub proof fn law_body_is_limited(st: ReaderModel, chunk: Seq<u8>)
    requires
        st.head matches Some((at, h)) ==> 0 <= at <= st.buf.len() && h.length <= MAX_REQUEST_BODY,
    ensures
        fed(st, chunk) matches StepModel::Done(q) ==> q.body.len() <= MAX_REQUEST_BODY,
        fed(st, chunk) matches StepModel::More(next) ==> next.head matches Some((at, h)) ==> 0 <= at
            <= next.buf.len() && h.length <= MAX_REQUEST_BODY,
        fed(st, chunk) matches StepModel::More(next) ==> next.head is None ==> next.buf.len()
            <= MAX_HEADERS,
{
    law_first_place(st.buf + chunk, headers_end(), 0);
}

/// What comes of bytes that are read in several pieces, none of them empty: reading ends
/// once a piece completes the request or makes it refused.
pub open spec fn fed_in_pieces(st: ReaderModel, pieces: Seq<Seq<u8>>) -> StepModel
    decreases pieces.len(),
{
    if pieces.len() == 0 {
        StepModel::More(st)
    } else {
        match fed(st, pieces[0]) {
            StepModel::More(next) => fed_in_pieces(next, pieces.drop_first()),
            end => end,
        }
    }
}

/// The bytes of pieces, one after the other.
pub open spec fn bytes_of(pieces: Seq<Seq<u8>>) -> Seq<u8>
    decreases pieces.len(),
{
    if pieces.len() == 0 {
        Seq::empty()
    } else {
        pieces[0] + bytes_of(pieces.drop_first())
    }
}

/// Whether the headers end only behind more bytes than they may have.
pub open spec fn ends_late(bytes: Seq<u8>) -> bool {
    first_place(bytes, headers_end(), 0) matches Some(i) && i + 4 > MAX_HEADERS + 1
}

/// A request of which nothing is known.
pub open spec fn nothing_read() -> ReaderModel {
    ReaderModel { buf: Seq::empty(), head: None }
}

proof fn lemma_place_stays(a: Seq<u8>, b: Seq<u8>)
    ensures
        match first_place(a, headers_end(), 0) {
            Some(i) => first_place(a + b, headers_end(), 0) == Some(i) && 0 <= i && i + 4
                <= a.len(),
            None => first_place(a + b, headers_end(), 0) matches Some(i) ==> i + 4 > a.len() && i
                + 4 <= a.len() + b.len(),
        },
{
    let (e, c) = (headers_end(), a + b);
    law_first_place(a, e, 0);
    law_first_place(c, e, 0);
    assert forall|i: int| 0 <= i && i + 4 <= a.len() implies #[trigger] stands_at(a, e, i)
        == stands_at(c, e, i) by {
        assert(a.subrange(i, i + 4) =~= c.subrange(i, i + 4));
    }
    match first_place(a, e, 0) {
        Some(i) => {
            assert(stands_at(c, e, i));
            let j = first_place(c, e, 0)->0;
            if j < i {
                assert(stands_at(a, e, j));
            }
        },
        None => {
            if let Some(i) = first_place(c, e, 0) {
                if i + 4 <= a.len() {
                    assert(stands_at(a, e, i));
                }
            }
        },
    }
}

/// Where the body starts, once it is known, lies within what has come in.
pub open spec fn begun(st: ReaderModel) -> bool {
    match st.head {
        Some((at, h)) => 0 <= at <= st.buf.len() && st.buf.len() - at < h.length,
        None => st.buf.len() <= MAX_HEADERS && first_place(st.buf, headers_end(), 0) is None,
    }
}

proof fn lemma_one_by_one(st: ReaderModel, a: Seq<u8>, b: Seq<u8>)
    requires
        begun(st),
        a.len() > 0,
        b.len() > 0,
    ensures
        match fed(st, a) {
            StepModel::More(next) => begun(next) && fed(next, b) == fed(st, a + b),
            StepModel::Failed(RequestFault::HeadersTooLarge) => true,
            end => fed(st, a + b) == end,
        },
{
    assert(st.buf + a + b =~= st.buf + (a + b));
    let (x, y) = (st.buf + a, st.buf + (a + b));
    match st.head {
        Some((at, h)) => {
            if x.len() - at >= h.length {
                assert(x.subrange(at, at + h.length) =~= y.subrange(at, at + h.length));
            }
        },
        None => {
            lemma_place_stays(x, b);
            if let Some(i) = first_place(x, headers_end(), 0) {
                assert(x.take(i + 4) =~= y.take(i + 4));
                let head = x.take(i + 4);
                if valid_utf8(head) && head_of(decode_utf8(head)) is Ok {
                    let h = head_of(decode_utf8(head))->Ok_0;
                    if x.len() - (i + 4) >= h.length {
                        assert(x.subrange(i + 4, i + 4 + h.length) =~= y.subrange(
                            i + 4,
                            i + 4 + h.length,
                        ));
                    }
                }
            }
        },
    }
}

proof fn lemma_bytes_of(pieces: Seq<Seq<u8>>)
    requires
        pieces.len() > 0,
        forall|i: int| 0 <= i < pieces.len() ==> (#[trigger] pieces[i]).len() > 0,
    ensures
        bytes_of(pieces).len() > 0,
{
    assert(pieces[0].len() > 0);
}

proof fn lemma_in_pieces(st: ReaderModel, pieces: Seq<Seq<u8>>)
    requires
        begun(st),
        pieces.len() > 0,
        forall|i: int| 0 <= i < pieces.len() ==> (#[trigger] pieces[i]).len() > 0,
        st.head is None ==> !ends_late(st.buf + bytes_of(pieces)),
    ensures
        fed_in_pieces(st, pieces) == fed(st, bytes_of(pieces)),
    decreases pieces.len(),
{
    let (a, rest) = (pieces[0], pieces.drop_first());
    let b = bytes_of(rest);
    if rest.len() == 0 {
        assert(a + b =~= a);
        assert(fed(st, a) matches StepModel::More(next) ==> fed_in_pieces(next, rest)
            == StepModel::More(next));
    } else {
        assert forall|i: int| 0 <= i < rest.len() implies (#[trigger] rest[i]).len() > 0 by {
            assert(rest[i] == pieces[i + 1]);
        }
        lemma_bytes_of(rest);
        lemma_one_by_one(st, a, b);
        assert(st.buf + a + b =~= st.buf + (a + b));
        match fed(st, a) {
            StepModel::More(next) => {
                lemma_in_pieces(next, rest);
            },
            StepModel::Failed(RequestFault::HeadersTooLarge) => {
                if st.head is None {
                    lemma_place_stays(st.buf + a, b);
                }
            },
            _ => {},
        }
    }
}

/// How a request is split into reads does not change what comes of it: it is what comes of
/// all its bytes in one read. Left out are headers that end only behind more bytes than
/// they may have; those are accepted where one read brings them and their end.
pub proof fn law_reads_may_be_split(pieces: Seq<Seq<u8>>)
    requires
        pieces.len() > 0,
        forall|i: int| 0 <= i < pieces.len() ==> (#[trigger] pieces[i]).len() > 0,
        !ends_late(bytes_of(pieces)),
    ensures
        fed_in_pieces(nothing_read(), pieces) == fed(nothing_read(), bytes_of(pieces)),
{
    let st = nothing_read();
    assert(st.buf + bytes_of(pieces) =~= bytes_of(pieces));
    lemma_in_pieces(st, pieces);
}

// ---- answering ----------------------------------------------------------------------------

/// What a request asks for.
#[derive(Debug, Clone, Copy, PartialEq, Eq, Structural)]
pub enum Route {
    /// The page of the editor.
    Index,
    ReadConfig,
    WriteConfig,
    /// A restart of the service.
    Restart,
    /// Whether the service runs.
    Status,
    NotFound,
}

/// What a method and a path ask for.
pub open spec fn route_of(method: Seq<char>, path: Seq<char>) -> Route {
    if method == "GET"@ && (path == "/"@ || path == "/index.html"@) {
        Route::Index
    } else if method == "GET"@ && path == "/api/config"@ {
        Route::ReadConfig
    } else if method == "POST"@ && path == "/api/config"@ {
        Route::WriteConfig
    } else if method == "POST"@ && path == "/api/restart"@ {
        Route::Restart
    } else if method == "GET"@ && path == "/api/status"@ {
        Route::Status
    } else {
        Route::NotFound
    }
}

/// What a method and a path ask for.
pub fn route(method: &str, path: &str) -> (r: Route)
    ensures
        r == route_of(method@, path@),
{
    if same(method, "GET") && (same(path, "/") || same(path, "/index.html")) {
        Route::Index
    } else if same(method, "GET") && same(path, "/api/config") {
        Route::ReadConfig
    } else if same(method, "POST") && same(path, "/api/config") {
        Route::WriteConfig
    } else if same(method, "POST") && same(path, "/api/restart") {
        Route::Restart
    } else if same(method, "GET") && same(path, "/api/status") {
        Route::Status
    } else {
        Route::NotFound
    }
}

/// What a status is called.
pub open spec fn reason_of(status: nat) -> Seq<char> {
    if status == 404 {
        "Not Found"@
    } else if status == 500 {
        "Internal Server Error"@
    } else {
        "OK"@
    }
}

/// The headers of an answer.
pub open spec fn answer_head(status: nat, content_type: Seq<char>, length: nat) -> Seq<char> {
    "HTTP/1.1 "@ + decimal(status) + " "@ + reason_of(status) + "\r\nContent-Type: "@
        + content_type + "\r\nContent-Length: "@ + decimal(length)
        + "\r\nCache-Control: no-store\r\nX-Content-Type-Options: nosniff\r\nConnection: close\r\n\r\n"@
}

/// The headers of an answer.
pub fn response_head(status: u16, content_type: &str, length: usize) -> (s: String)
    ensures
        s@ == answer_head(status as nat, content_type@, length as nat),
{
    let reason = if status == 404 {
        "Not Found"
    } else if status == 500 {
        "Internal Server Error"
    } else {
        "OK"
    };
    let mut s = cat3("HTTP/1.1 ", decimal_text(status as u64).as_str(), " ");
    s.append(reason);
    s.append("\r\nContent-Type: ");
    s.append(content_type);
    s.append("\r\nContent-Length: ");
    s.append(decimal_text(length as u64).as_str());
    s.append(
        "\r\nCache-Control: no-store\r\nX-Content-Type-Options: nosniff\r\nConnection: close\r\n\r\n",
    );
    s
}

/// Whether the service runs, by what its manager says.
pub fn is_active(output: &str) -> (r: bool)
    ensures
        r == (trimmed(output@) == "active"@),
{
    same(trim(output), "active")
}

} // verus!
