//! The byte protocol between the pool and an out-of-process worker.
//!
//! Each message is one ASCII code byte. `F` (fetch) and `P` (discovered
//! pages) are followed by an eight-digit, zero-padded decimal length and that
//! many payload bytes. The payload of `F` is one address; that of `P` is each
//! address followed by a newline.
use vstd::prelude::*;
use vstd::slice::{slice_subrange, slice_to_vec};
use vstd::string::*;
use vstd::utf8::{valid_utf8, decode_utf8, encode_utf8};
use crate::url::{WebUrl, UrlView, parsed_url, opt_url_view};
use crate::frontier::views;

verus! {

/// The largest payload that an eight-digit length can describe, plus one.
pub const PAYLOAD_LIMIT: usize = 100000000;

pub const CODE_FETCH: u8 = 70;

pub const CODE_IDLE: u8 = 68;

pub const CODE_EXIT: u8 = 69;

pub const CODE_STARTED: u8 = 83;

pub const CODE_DONE: u8 = 73;

pub const CODE_PAGE: u8 = 80;

pub const NEWLINE: u8 = 10;

/// A message from the pool to a worker.
#[derive(Clone, Debug, PartialEq, Eq)]
pub enum Request {
    Fetch(WebUrl),
    Idle,
    Exit,
}

/// A message from a worker to the pool. The byte protocol has no code for a
/// failure: a worker that failed reports `Done` on it.
#[derive(Clone, Debug, PartialEq, Eq)]
pub enum Response {
    Started,
    Discovered(Vec<WebUrl>),
    Done,
    Failed,
}

/// Why a message could not be encoded or decoded.
#[derive(PartialEq, Eq, Structural, Debug, Clone, Copy)]
pub enum ProtocolError {
    /// The bytes end before the message does.
    Truncated,
    /// The first byte is no code of this direction.
    UnknownCode(u8),
    /// The length field is not eight decimal digits.
    BadLength,
    /// The payload is not what the message carries: an address, or
    /// addresses each followed by a newline.
    BadPayload,
    /// The payload is too long for an eight-digit length.
    PayloadTooLong,
}

pub ghost enum RequestView {
    Fetch(UrlView),
    Idle,
    Exit,
}

pub ghost enum ResponseView {
    Started,
    Discovered(Seq<UrlView>),
    Done,
    Failed,
}

impl View for Request {
    type V = RequestView;

    open spec fn view(&self) -> RequestView {
        match self {
            Request::Fetch(u) => RequestView::Fetch(u@),
            Request::Idle => RequestView::Idle,
            Request::Exit => RequestView::Exit,
        }
    }
}

impl View for Response {
    type V = ResponseView;

    open spec fn view(&self) -> ResponseView {
        match self {
            Response::Started => ResponseView::Started,
            Response::Discovered(us) => ResponseView::Discovered(views(us@)),
            Response::Done => ResponseView::Done,
            Response::Failed => ResponseView::Failed,
        }
    }
}

/// The bytes that stand for an address: its serialisation in UTF-8.
pub open spec fn href_bytes(u: UrlView) -> Seq<u8> {
    encode_utf8(u.href)
}

/// The bytes of each address.
pub open spec fn lines_of(us: Seq<UrlView>) -> Seq<Seq<u8>> {
    us.map_values(|u: UrlView| href_bytes(u))
}

/// The address that some bytes name: UTF-8 text that parses as a URL.
pub open spec fn url_from_bytes(b: Seq<u8>) -> Option<UrlView> {
    if valid_utf8(b) {
        parsed_url(decode_utf8(b))
    } else {
        None
    }
}


/// The last `k` decimal digits of `n`, most significant first, as ASCII.
pub open spec fn digits(n: nat, k: nat) -> Seq<u8>
    decreases k,
{
    if k == 0 {
        Seq::empty()
    } else {
        digits(n / 10, (k - 1) as nat).push((48 + n % 10) as u8)
    }
}

pub open spec fn is_digit(b: u8) -> bool {
    48 <= b <= 57
}

/// The number that a string of ASCII digits writes.
pub open spec fn digits_value(s: Seq<u8>) -> nat
    decreases s.len(),
{
    if s.len() == 0 {
        0
    } else {
        digits_value(s.drop_last()) * 10 + (s.last() - 48) as nat
    }
}

/// A framed payload: code, eight-digit length, payload.
pub open spec fn frame(code: u8, payload: Seq<u8>) -> Seq<u8> {
    seq![code] + digits(payload.len(), 8) + payload
}

/// Each address followed by a newline.
pub open spec fn join_lines(us: Seq<Seq<u8>>) -> Seq<u8>
    decreases us.len(),
{
    if us.len() == 0 {
        Seq::empty()
    } else {
        us[0] + seq![NEWLINE] + join_lines(us.drop_first())
    }
}

/// Position of the first newline at or after `i`, or the length.
pub open spec fn line_end(p: Seq<u8>, i: int) -> int
    decreases p.len() - i,
{
    if i < 0 || i >= p.len() {
        p.len() as int
    } else if p[i] == NEWLINE {
        i
    } else {
        line_end(p, i + 1)
    }
}

/// The addresses of a `P` payload: each line ends in a newline and names an
/// address; none where that fails.
pub open spec fn parse_urls(p: Seq<u8>) -> Option<Seq<UrlView>>
    decreases p.len(),
{
    if p.len() == 0 {
        Some(Seq::empty())
    } else {
        let k = line_end(p, 0);
        if 0 <= k < p.len() {
            match url_from_bytes(p.subrange(0, k)) {
                Some(u) => match parse_urls(p.subrange(k + 1, p.len() as int)) {
                    Some(rest) => Some(seq![u] + rest),
                    None => None,
                },
                None => None,
            }
        } else {
            None
        }
    }
}

pub open spec fn request_bytes(r: RequestView) -> Seq<u8> {
    match r {
        RequestView::Fetch(u) => frame(CODE_FETCH, href_bytes(u)),
        RequestView::Idle => seq![CODE_IDLE],
        RequestView::Exit => seq![CODE_EXIT],
    }
}

pub open spec fn response_bytes(r: ResponseView) -> Seq<u8> {
    match r {
        ResponseView::Started => seq![CODE_STARTED],
        ResponseView::Discovered(us) => frame(CODE_PAGE, join_lines(lines_of(us))),
        ResponseView::Done => seq![CODE_DONE],
        ResponseView::Failed => seq![CODE_DONE],
    }
}

/// The payload that a message carries, if it has one.
pub open spec fn request_payload(r: RequestView) -> Seq<u8> {
    match r {
        RequestView::Fetch(u) => href_bytes(u),
        _ => Seq::empty(),
    }
}

pub open spec fn response_payload(r: ResponseView) -> Seq<u8> {
    match r {
        ResponseView::Discovered(us) => join_lines(lines_of(us)),
        _ => Seq::empty(),
    }
}

/// The payload of a framed message at the start of `b`, after its code.
pub open spec fn payload_of(b: Seq<u8>) -> Result<Seq<u8>, ProtocolError> {
    if b.len() < 9 {
        Err(ProtocolError::Truncated)
    } else if !(forall|i: int| 1 <= i < 9 ==> is_digit(#[trigger] b[i])) {
        Err(ProtocolError::BadLength)
    } else if b.len() < 9 + digits_value(b.subrange(1, 9)) {
        Err(ProtocolError::Truncated)
    } else {
        Ok(b.subrange(9, 9 + digits_value(b.subrange(1, 9)) as int))
    }
}

/// The request at the start of `b`, with the number of bytes it takes.
pub open spec fn parse_request(b: Seq<u8>) -> Result<(RequestView, nat), ProtocolError> {
    if b.len() == 0 {
        Err(ProtocolError::Truncated)
    } else if b[0] == CODE_IDLE {
        Ok((RequestView::Idle, 1))
    } else if b[0] == CODE_EXIT {
        Ok((RequestView::Exit, 1))
    } else if b[0] == CODE_FETCH {
        match payload_of(b) {
            Ok(p) => match url_from_bytes(p) {
                Some(u) => Ok((RequestView::Fetch(u), 9 + p.len())),
                None => Err(ProtocolError::BadPayload),
            },
            Err(e) => Err(e),
        }
    } else {
        Err(ProtocolError::UnknownCode(b[0]))
    }
}

/// The response at the start of `b`, with the number of bytes it takes.
pub open spec fn parse_response(b: Seq<u8>) -> Result<(ResponseView, nat), ProtocolError> {
    if b.len() == 0 {
        Err(ProtocolError::Truncated)
    } else if b[0] == CODE_STARTED {
        Ok((ResponseView::Started, 1))
    } else if b[0] == CODE_DONE {
        Ok((ResponseView::Done, 1))
    } else if b[0] == CODE_PAGE {
        match payload_of(b) {
            Ok(p) => match parse_urls(p) {
                Some(us) => Ok((ResponseView::Discovered(us), 9 + p.len())),
                None => Err(ProtocolError::BadPayload),
            },
            Err(e) => Err(e),
        }
    } else {
        Err(ProtocolError::UnknownCode(b[0]))
    }
}


fn push_digits(out: &mut Vec<u8>, n: usize, k: usize)
    requires
        k <= 8,
    ensures
        final(out)@ == old(out)@ + digits(n as nat, k as nat),
    decreases k,
{
    if k > 0 {
        push_digits(out, n / 10, k - 1);
        let d: u8 = (n % 10) as u8;
        out.push(48 + d);
        assert(final(out)@ =~= old(out)@ + digits(n as nat, k as nat));
    } else {
        assert(final(out)@ =~= old(out)@ + digits(n as nat, k as nat));
    }
}

fn append_bytes(out: &mut Vec<u8>, b: &Vec<u8>)
    ensures
        final(out)@ == old(out)@ + b@,
{
    let mut i: usize = 0;
    while i < b.len()
        invariant
            i <= b@.len(),
            out@ == old(out)@ + b@.subrange(0, i as int),
        decreases b@.len() - i,
    {
        out.push(b[i]);
        assert(b@.subrange(0, i + 1) =~= b@.subrange(0, i as int).push(b@[i as int]));
        i = i + 1;
    }
    assert(b@.subrange(0, b@.len() as int) =~= b@);
}

fn framed(code: u8, payload: &Vec<u8>) -> (r: Result<Vec<u8>, ProtocolError>)
    ensures
        payload@.len() < PAYLOAD_LIMIT ==> r == Ok::<Vec<u8>, ProtocolError>(r->Ok_0) && r->Ok_0@
            == frame(code, payload@),
        payload@.len() >= PAYLOAD_LIMIT ==> r == Err::<Vec<u8>, ProtocolError>(
            ProtocolError::PayloadTooLong,
        ),
{
    if payload.len() >= PAYLOAD_LIMIT {
        return Err(ProtocolError::PayloadTooLong);
    }
    let mut out: Vec<u8> = Vec::new();
    out.push(code);
    push_digits(&mut out, payload.len(), 8);
    append_bytes(&mut out, payload);
    assert(out@ =~= frame(code, payload@));
    Ok(out)
}

/// The bytes of a request; an error where the payload is too long for the
/// length field.
pub fn encode_request(r: &Request) -> (res: Result<Vec<u8>, ProtocolError>)
    ensures
        request_payload(r@).len() < PAYLOAD_LIMIT ==> res is Ok && res->Ok_0@ == request_bytes(r@),
        request_payload(r@).len() >= PAYLOAD_LIMIT ==> res == Err::<Vec<u8>, ProtocolError>(
            ProtocolError::PayloadTooLong,
        ),
{
    match r {
        Request::Fetch(u) => framed(CODE_FETCH, &u.href.as_str().as_bytes_vec()),
        Request::Idle => Ok(vec![CODE_IDLE]),
        Request::Exit => Ok(vec![CODE_EXIT]),
    }
}


proof fn lemma_join_push(us: Seq<Seq<u8>>, u: Seq<u8>)
    ensures
        join_lines(us.push(u)) == join_lines(us) + u + seq![NEWLINE],
    decreases us.len(),
{
    if us.len() == 0 {
        assert(us.push(u).drop_first() =~= Seq::<Seq<u8>>::empty());
        assert(us.push(u)[0] == u);
        assert(join_lines(us.push(u).drop_first()) == Seq::<u8>::empty());
        assert(join_lines(us) == Seq::<u8>::empty());
        assert(join_lines(us.push(u)) =~= join_lines(us) + u + seq![NEWLINE]);
    } else {
        assert(us.push(u).drop_first() =~= us.drop_first().push(u));
        lemma_join_push(us.drop_first(), u);
        assert(us.push(u)[0] == us[0]);
        assert(join_lines(us.push(u)) == us[0] + seq![NEWLINE] + join_lines(us.drop_first().push(u)));
        assert(join_lines(us) == us[0] + seq![NEWLINE] + join_lines(us.drop_first()));
        assert(join_lines(us.push(u)) =~= join_lines(us) + u + seq![NEWLINE]);
    }
}

fn join_payload(us: &Vec<WebUrl>) -> (r: Vec<u8>)
    ensures
        r@ == join_lines(lines_of(views(us@))),
{
    let mut out: Vec<u8> = Vec::new();
    let mut i: usize = 0;
    while i < us.len()
        invariant
            i <= us@.len(),
            out@ == join_lines(lines_of(views(us@.subrange(0, i as int)))),
        decreases us@.len() - i,
    {
        proof {
            assert(lines_of(views(us@.subrange(0, i + 1))) =~= lines_of(
                views(us@.subrange(0, i as int)),
            ).push(href_bytes(us@[i as int]@)));
            lemma_join_push(lines_of(views(us@.subrange(0, i as int))), href_bytes(us@[i as int]@));
        }
        let b = us[i].href.as_str().as_bytes_vec();
        append_bytes(&mut out, &b);
        out.push(NEWLINE);
        i = i + 1;
    }
    assert(us@.subrange(0, us@.len() as int) =~= us@);
    out
}

/// The bytes of a response; an error where the payload is too long for the
/// length field.
pub fn encode_response(r: &Response) -> (res: Result<Vec<u8>, ProtocolError>)
    ensures
        response_payload(r@).len() < PAYLOAD_LIMIT ==> res is Ok && res->Ok_0@ == response_bytes(
            r@,
        ),
        response_payload(r@).len() >= PAYLOAD_LIMIT ==> res == Err::<Vec<u8>, ProtocolError>(
            ProtocolError::PayloadTooLong,
        ),
{
    match r {
        Response::Started => Ok(vec![CODE_STARTED]),
        Response::Discovered(us) => framed(CODE_PAGE, &join_payload(us)),
        Response::Done => Ok(vec![CODE_DONE]),
        Response::Failed => Ok(vec![CODE_DONE]),
    }
}


pub open spec fn pow10(k: nat) -> nat
    decreases k,
{
    if k == 0 {
        1
    } else {
        10 * pow10((k - 1) as nat)
    }
}

proof fn lemma_pow10_mono(a: nat, b: nat)
    requires
        a <= b,
    ensures
        1 <= pow10(a) <= pow10(b),
    decreases b,
{
    if a < b {
        lemma_pow10_mono(a, (b - 1) as nat);
    } else if a > 0 {
        lemma_pow10_mono((a - 1) as nat, (a - 1) as nat);
    }
}

proof fn lemma_pow10_8()
    ensures
        pow10(8) == PAYLOAD_LIMIT,
{
    assert(pow10(0) == 1);
    assert(pow10(1) == 10);
    assert(pow10(2) == 100);
    assert(pow10(3) == 1000);
    assert(pow10(4) == 10000);
    assert(pow10(5) == 100000);
    assert(pow10(6) == 1000000);
    assert(pow10(7) == 10000000);
    assert(pow10(8) == 100000000);
}

/// The value of the eight-digit length field of `b`, if it is one.
fn read_length(b: &Vec<u8>) -> (r: Option<usize>)
    requires
        b@.len() >= 9,
    ensures
        r is Some <==> (forall|i: int| 1 <= i < 9 ==> is_digit(#[trigger] b@[i])),
        r is Some ==> r->0 == digits_value(b@.subrange(1, 9)) && r->0 < PAYLOAD_LIMIT,
{
    proof {
        lemma_pow10_8();
    }
    let mut v: u64 = 0;
    let mut i: usize = 1;
    while i < 9
        invariant
            1 <= i <= 9,
            b@.len() >= 9,
            pow10(8) == PAYLOAD_LIMIT,
            forall|j: int| 1 <= j < i ==> is_digit(#[trigger] b@[j]),
            v == digits_value(b@.subrange(1, i as int)),
            v < pow10((i - 1) as nat),
        decreases 9 - i,
    {
        let c = b[i];
        if c < 48 || c > 57 {
            return None;
        }
        proof {
            lemma_pow10_mono((i - 1) as nat, 8);
            assert(b@.subrange(1, i + 1).drop_last() =~= b@.subrange(1, i as int));
            assert(pow10(i as nat) == 10 * pow10((i - 1) as nat));
        }
        v = v * 10 + (c - 48) as u64;
        i = i + 1;
    }
    Some(v as usize)
}

fn sub_vec(b: &Vec<u8>, from: usize, to: usize) -> (r: Vec<u8>)
    requires
        from <= to <= b@.len(),
    ensures
        r@ == b@.subrange(from as int, to as int),
{
    slice_to_vec(slice_subrange(b.as_slice(), from, to))
}

/// The payload of the framed message at the start of `b`.
fn read_payload(b: &Vec<u8>) -> (r: Result<Vec<u8>, ProtocolError>)
    ensures
        match payload_of(b@) {
            Ok(p) => r is Ok && r->Ok_0@ == p,
            Err(e) => r == Err::<Vec<u8>, ProtocolError>(e),
        },
{
    if b.len() < 9 {
        return Err(ProtocolError::Truncated);
    }
    match read_length(b) {
        None => Err(ProtocolError::BadLength),
        Some(n) => if b.len() - 9 < n {
            Err(ProtocolError::Truncated)
        } else {
            Ok(sub_vec(b, 9, 9 + n))
        },
    }
}

proof fn lemma_line_end_shift(p: Seq<u8>, s: int, j: int)
    requires
        0 <= s <= p.len(),
        0 <= j,
    ensures
        line_end(p.subrange(s, p.len() as int), j) == (if s + j <= p.len() {
            line_end(p, s + j) - s
        } else {
            p.len() - s
        }),
    decreases p.len() - s - j,
{
    if s + j < p.len() {
        lemma_line_end_shift(p, s, j + 1);
    }
}

/// Relies on std's `String::from_utf8`: the text when the bytes are valid
/// UTF-8, an error otherwise.
#[verifier::external_body]
fn utf8_text(b: Vec<u8>) -> (r: Option<String>)
    ensures
        r is Some <==> valid_utf8(b@),
        r is Some ==> r->0@ == decode_utf8(b@),
{
    String::from_utf8(b).ok()
}

/// The address that some bytes name.
pub fn url_of_bytes(b: Vec<u8>) -> (r: Option<WebUrl>)
    ensures
        opt_url_view(r) == url_from_bytes(b@),
{
    match utf8_text(b) {
        Some(s) => WebUrl::parse(s.as_str()),
        None => None,
    }
}

/// The addresses of a `P` payload; none where a line does not name an
/// address or the last one lacks its newline.
fn read_urls(p: &Vec<u8>) -> (r: Option<Vec<WebUrl>>)
    ensures
        match parse_urls(p@) {
            Some(us) => r is Some && views(r->0@) == us,
            None => r is None,
        },
{
    let n = p.len();
    let mut out: Vec<WebUrl> = Vec::new();
    let mut start: usize = 0;
    assert(p@.subrange(0, n as int) =~= p@);
    assert(views(out@) =~= Seq::<UrlView>::empty());
    while start < n
        invariant
            n == p@.len(),
            start <= n,
            parse_urls(p@) == match parse_urls(p@.subrange(start as int, n as int)) {
                Some(rest) => Some(views(out@) + rest),
                None => None,
            },
        decreases n - start,
    {
        let mut k: usize = start;
        while k < n && p[k] != NEWLINE
            invariant
                n == p@.len(),
                start <= k <= n,
                line_end(p@, start as int) == line_end(p@, k as int),
            decreases n - k,
        {
            k = k + 1;
        }
        let ghost q = p@.subrange(start as int, n as int);
        proof {
            lemma_line_end_shift(p@, start as int, 0);
            assert(line_end(p@, k as int) == k as int);
            assert(line_end(q, 0) == k - start);
        }
        if k == n {
            return None;
        }
        let piece = sub_vec(p, start, k);
        assert(q.subrange(0, k - start) =~= piece@);
        assert(q.subrange(k - start + 1, q.len() as int) =~= p@.subrange(k + 1, n as int));
        match url_of_bytes(piece) {
            None => {
                return None;
            },
            Some(u) => {
                let ghost before = views(out@);
                out.push(u);
                proof {
                    assert(views(out@) =~= before.push(u@));
                    match parse_urls(p@.subrange(k + 1, n as int)) {
                        Some(rest) => {
                            assert(before + (seq![u@] + rest) =~= views(out@) + rest);
                        },
                        None => {},
                    }
                }
                start = k + 1;
            },
        }
    }
    assert(p@.subrange(start as int, n as int) =~= Seq::<u8>::empty());
    assert(views(out@) + Seq::<UrlView>::empty() =~= views(out@));
    Some(out)
}

/// Decodes the request at the start of `b`, with the number of bytes it
/// takes.
pub fn decode_request(b: &Vec<u8>) -> (r: Result<(Request, usize), ProtocolError>)
    ensures
        match parse_request(b@) {
            Ok((m, k)) => r is Ok && r->Ok_0.0@ == m && r->Ok_0.1 == k,
            Err(e) => r == Err::<(Request, usize), ProtocolError>(e),
        },
{
    if b.len() == 0 {
        return Err(ProtocolError::Truncated);
    }
    let code = b[0];
    if code == CODE_IDLE {
        Ok((Request::Idle, 1))
    } else if code == CODE_EXIT {
        Ok((Request::Exit, 1))
    } else if code == CODE_FETCH {
        match read_payload(b) {
            Ok(p) => {
                let k = 9 + p.len();
                match url_of_bytes(p) {
                    Some(u) => Ok((Request::Fetch(u), k)),
                    None => Err(ProtocolError::BadPayload),
                }
            },
            Err(e) => Err(e),
        }
    } else {
        Err(ProtocolError::UnknownCode(code))
    }
}

/// Decodes the response at the start of `b`, with the number of bytes it
/// takes.
pub fn decode_response(b: &Vec<u8>) -> (r: Result<(Response, usize), ProtocolError>)
    ensures
        match parse_response(b@) {
            Ok((m, k)) => r is Ok && r->Ok_0.0@ == m && r->Ok_0.1 == k,
            Err(e) => r == Err::<(Response, usize), ProtocolError>(e),
        },
{
    if b.len() == 0 {
        return Err(ProtocolError::Truncated);
    }
    let code = b[0];
    if code == CODE_STARTED {
        Ok((Response::Started, 1))
    } else if code == CODE_DONE {
        Ok((Response::Done, 1))
    } else if code == CODE_PAGE {
        match read_payload(b) {
            Ok(p) => {
                let k = 9 + p.len();
                match read_urls(&p) {
                    Some(us) => Ok((Response::Discovered(us), k)),
                    None => Err(ProtocolError::BadPayload),
                }
            },
            Err(e) => Err(e),
        }
    } else {
        Err(ProtocolError::UnknownCode(code))
    }
}


proof fn lemma_digits(n: nat, k: nat)
    requires
        n < pow10(k),
    ensures
        digits(n, k).len() == k,
        forall|j: int| 0 <= j < k ==> is_digit(#[trigger] digits(n, k)[j]),
        digits_value(digits(n, k)) == n,
    decreases k,
{
    if k > 0 {
        assert(pow10(k) == 10 * pow10((k - 1) as nat));
        lemma_digits(n / 10, (k - 1) as nat);
        let d = digits(n, k);
        assert(d.drop_last() =~= digits(n / 10, (k - 1) as nat));
        assert(d.last() == (48 + n % 10) as u8);
    } else {
        assert(n == 0);
    }
}

proof fn lemma_frame(code: u8, p: Seq<u8>)
    requires
        p.len() < PAYLOAD_LIMIT,
    ensures
        payload_of(frame(code, p)) == Ok::<Seq<u8>, ProtocolError>(p),
        frame(code, p).len() == 9 + p.len(),
        frame(code, p)[0] == code,
{
    lemma_pow10_8();
    lemma_digits(p.len(), 8);
    let b = frame(code, p);
    assert(b.subrange(1, 9) =~= digits(p.len(), 8));
    assert forall|i: int| 1 <= i < 9 implies is_digit(#[trigger] b[i]) by {
        assert(b[i] == digits(p.len(), 8)[i - 1]);
    }
    assert(b.subrange(9, 9 + p.len() as int) =~= p);
}

proof fn lemma_line_end_in_first(j: Seq<u8>, u: Seq<u8>, i: int)
    requires
        0 <= i <= u.len() < j.len(),
        j.subrange(0, u.len() as int) == u,
        j[u.len() as int] == NEWLINE,
        forall|x: int| 0 <= x < u.len() ==> u[x] != NEWLINE,
    ensures
        line_end(j, i) == u.len(),
    decreases u.len() - i,
{
    if i < u.len() {
        assert(j[i] == u[i]);
        lemma_line_end_in_first(j, u, i + 1);
    }
}

/// No line of `ls` holds a newline byte.
pub open spec fn newline_free(ls: Seq<Seq<u8>>) -> bool {
    forall|i: int, x: int| 0 <= i < ls.len() && 0 <= x < ls[i].len() ==> #[trigger] ls[i][x] != NEWLINE
}

/// Parsing its own serialisation gives the address back.
pub open spec fn reparses(u: UrlView) -> bool {
    parsed_url(u.href) == Some(u)
}

proof fn lemma_url_bytes(u: UrlView)
    requires
        reparses(u),
    ensures
        url_from_bytes(href_bytes(u)) == Some(u),
{
    vstd::utf8::encode_utf8_valid_utf8(u.href);
    vstd::utf8::encode_utf8_decode_utf8(u.href);
}

proof fn lemma_parse_join(us: Seq<UrlView>)
    requires
        forall|i: int| 0 <= i < us.len() ==> reparses(#[trigger] us[i]),
        newline_free(lines_of(us)),
    ensures
        parse_urls(join_lines(lines_of(us))) == Some(us),
    decreases us.len(),
{
    let ls = lines_of(us);
    if us.len() == 0 {
        assert(join_lines(ls) =~= Seq::<u8>::empty());
        assert(Seq::<UrlView>::empty() =~= us);
    } else {
        let u = ls[0];
        let tail = us.drop_first();
        assert(ls.drop_first() =~= lines_of(tail));
        let rest = join_lines(lines_of(tail));
        let j = join_lines(ls);
        assert(j == u + seq![NEWLINE] + rest);
        assert forall|i: int| 0 <= i < tail.len() implies reparses(#[trigger] tail[i]) by {
            assert(tail[i] == us[i + 1]);
        }
        assert(newline_free(lines_of(tail))) by {
            assert forall|i: int, x: int| 0 <= i < lines_of(tail).len() && 0 <= x < lines_of(
                tail,
            )[i].len() implies #[trigger] lines_of(tail)[i][x] != NEWLINE by {
                assert(lines_of(tail)[i] == ls[i + 1]);
            }
        }
        lemma_parse_join(tail);
        assert(j.subrange(0, u.len() as int) =~= u);
        assert forall|x: int| 0 <= x < u.len() implies u[x] != NEWLINE by {
            assert(ls[0][x] != NEWLINE);
        }
        lemma_line_end_in_first(j, u, 0);
        assert(j.subrange(u.len() as int + 1, j.len() as int) =~= rest);
        assert(reparses(us[0]));
        lemma_url_bytes(us[0]);
        assert(seq![us[0]] + tail =~= us);
    }
}

/// Decoding the bytes of a request gives that request back, and takes all of
/// them, where a fetched address parses back to itself.
pub proof fn lemma_request_round_trip(r: RequestView)
    requires
        request_payload(r).len() < PAYLOAD_LIMIT,
        r is Fetch ==> reparses(r->Fetch_0),
    ensures
        parse_request(request_bytes(r)) == Ok::<(RequestView, nat), ProtocolError>(
            (r, request_bytes(r).len()),
        ),
{
    if let RequestView::Fetch(u) = r {
        lemma_frame(CODE_FETCH, href_bytes(u));
        lemma_url_bytes(u);
    }
}

/// Decoding the bytes of a response other than a failure gives that response
/// back, and takes all of them; a discovery report keeps its addresses and
/// their order, where each parses back to itself and none of their bytes is a
/// newline.
pub proof fn lemma_response_round_trip(r: ResponseView)
    requires
        response_payload(r).len() < PAYLOAD_LIMIT,
        !(r is Failed),
        r is Discovered ==> newline_free(lines_of(r->Discovered_0)),
        r is Discovered ==> forall|i: int|
            0 <= i < r->Discovered_0.len() ==> reparses(#[trigger] r->Discovered_0[i]),
    ensures
        parse_response(response_bytes(r)) == Ok::<(ResponseView, nat), ProtocolError>(
            (r, response_bytes(r).len()),
        ),
{
    if let ResponseView::Discovered(us) = r {
        lemma_frame(CODE_PAGE, join_lines(lines_of(us)));
        lemma_parse_join(us);
    }
}

/// An empty discovery report has an empty payload and decodes to no
/// addresses.
pub proof fn lemma_empty_report()
    ensures
        response_payload(ResponseView::Discovered(Seq::empty())).len() == 0,
        parse_response(response_bytes(ResponseView::Discovered(Seq::empty()))) == Ok::<
            (ResponseView, nat),
            ProtocolError,
        >((ResponseView::Discovered(Seq::empty()), 9)),
{
    let e = Seq::<UrlView>::empty();
    assert(lines_of(e) =~= Seq::<Seq<u8>>::empty());
    assert(join_lines(lines_of(e)) == Seq::<u8>::empty());
    lemma_response_round_trip(ResponseView::Discovered(e));
}

} // verus!
