//! The one-page site served through the pool: which page a request asks
//! for, and the bytes of the response that carries it.
use vstd::prelude::*;
use vstd::string::StringSliceAdditionalSpecFns;

verus! {

/// The request line that asks for the root page.
pub open spec fn root_request_line() -> Seq<u8> {
    "GET / HTTP/1.1\r\n".spec_bytes()
}

/// `pre` is a prefix of `s`.
pub open spec fn starts_with(s: Seq<u8>, pre: Seq<u8>) -> bool {
    pre.len() <= s.len() && s.subrange(0, pre.len() as int) == pre
}

/// The ASCII decimal digits of `n`, most significant first.
pub open spec fn decimal(n: nat) -> Seq<u8>
    decreases n,
{
    if n < 10 {
        seq![(48 + n) as u8]
    } else {
        decimal(n / 10).push((48 + n % 10) as u8)
    }
}

/// The response to a request: status line, length header, blank line, body.
pub open spec fn response_bytes(status_line: Seq<u8>, body: Seq<u8>) -> Seq<u8> {
    status_line + "\r\nContent-Length: ".spec_bytes() + decimal(body.len()) + "\r\n\r\n".spec_bytes()
        + body
}

/// The pages the site serves.
#[derive(Clone, Copy, Debug, PartialEq, Eq, Structural)]
pub enum Page {
    /// The root page, `index.html`.
    Index,
    /// The page for every other request, `404.html`.
    NotFound,
}

impl Page {
    /// The status line sent with the page.
    pub fn status_line(self) -> (r: &'static str)
        ensures
            r@ == (match self {
                Page::Index => "HTTP/1.1 200 OK"@,
                Page::NotFound => "HTTP/1.1 404 NOT FOUND"@,
            }),
    {
        match self {
            Page::Index => "HTTP/1.1 200 OK",
            Page::NotFound => "HTTP/1.1 404 NOT FOUND",
        }
    }

    /// The file that holds the page's body.
    pub fn file_name(self) -> (r: &'static str)
        ensures
            r@ == (match self {
                Page::Index => "index.html"@,
                Page::NotFound => "404.html"@,
            }),
    {
        match self {
            Page::Index => "index.html",
            Page::NotFound => "404.html",
        }
    }
}

/// The page that the bytes read from a connection ask for: the root page
/// when they begin with its request line, else the not-found page.
pub fn route(request: &[u8]) -> (r: Page)
    ensures
        r == (if starts_with(request@, root_request_line()) {
            Page::Index
        } else {
            Page::NotFound
        }),
{
    let line = "GET / HTTP/1.1\r\n".as_bytes();
    if line.len() > request.len() {
        return Page::NotFound;
    }
    let mut i: usize = 0;
    while i < line.len()
        invariant
            line@ == root_request_line(),
            line@.len() <= request@.len(),
            i <= line@.len(),
            request@.subrange(0, i as int) == line@.subrange(0, i as int),
        decreases line@.len() - i,
    {
        if request[i] != line[i] {
            assert(request@.subrange(0, line@.len() as int)[i as int] != line@[i as int]);
            return Page::NotFound;
        }
        assert(request@.subrange(0, i + 1) =~= line@.subrange(0, i + 1));
        i = i + 1;
    }
    assert(line@.subrange(0, line@.len() as int) =~= line@);
    Page::Index
}

/// Appends `bytes` to `out`.
fn push_all(out: &mut Vec<u8>, bytes: &[u8])
    ensures
        final(out)@ == old(out)@ + bytes@,
{
    let mut i: usize = 0;
    while i < bytes.len()
        invariant
            i <= bytes@.len(),
            out@ == old(out)@ + bytes@.subrange(0, i as int),
        decreases bytes@.len() - i,
    {
        out.push(bytes[i]);
        i = i + 1;
        assert(out@ =~= old(out)@ + bytes@.subrange(0, i as int));
    }
    assert(bytes@.subrange(0, bytes@.len() as int) =~= bytes@);
}

/// Appends the decimal digits of `n` to `out`.
fn push_decimal(out: &mut Vec<u8>, n: usize)
    ensures
        final(out)@ == old(out)@ + decimal(n as nat),
    decreases n,
{
    if n >= 10 {
        push_decimal(out, n / 10);
    }
    out.push(48 + (n % 10) as u8);
    assert(out@ =~= old(out)@ + decimal(n as nat));
}

/// The bytes of a response with the given status line whose body is `body`.
pub fn response(status_line: &str, body: &[u8]) -> (r: Vec<u8>)
    ensures
        r@ == response_bytes(status_line.spec_bytes(), body@),
{
    let mut out: Vec<u8> = Vec::new();
    push_all(&mut out, status_line.as_bytes());
    push_all(&mut out, "\r\nContent-Length: ".as_bytes());
    push_decimal(&mut out, body.len());
    push_all(&mut out, "\r\n\r\n".as_bytes());
    push_all(&mut out, body);
    out
}

} // verus!
