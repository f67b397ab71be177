//! Requests to a machine's control socket, and their responses.
use crate::outside;
use crate::outside::Failure;
use crate::text;
use vstd::prelude::*;
use vstd::string::*;

verus! {

/// A client of a control socket.
#[derive(Debug, Clone)]
pub struct UdsHttp {
    pub sock: String,
    /// Milliseconds that the other side may take.
    pub timeout_ms: u64,
}

/// A request: its method, path, and the length and text of its body.
pub open spec fn request_text(method: Seq<char>, path: Seq<char>, body: Seq<char>) -> Seq<char> {
    method + " "@ + path
        + " HTTP/1.1\r\nHost: localhost\r\nAccept: application/json\r\nContent-Type: application/json\r\nContent-Length: "@
        + text::dec(vstd::utf8::encode_utf8(body).len()) + "\r\nConnection: close\r\n\r\n"@ + body
}

impl UdsHttp {
    /// A client of the socket at `sock`.
    pub fn new(sock: &str) -> (u: UdsHttp)
        ensures
            u.sock@ == sock@,
            u.timeout_ms == 10000,
    {
        UdsHttp { sock: sock.to_owned(), timeout_ms: 10000 }
    }

    /// The request that puts `body` to `path`.
    pub fn put(&self, path: &str, body: Option<&str>) -> (r: String)
        ensures
            r@ == request_text(
                "PUT"@,
                path@,
                match body {
                    Some(b) => b@,
                    None => Seq::empty(),
                },
            ),
    {
        match body {
            Some(b) => request("PUT", path, b),
            None => {
                proof {
                    reveal_strlit("");
                    assert(""@ =~= Seq::empty());
                }
                request("PUT", path, "")
            },
        }
    }

    /// The request that gets `path`.
    pub fn get(&self, path: &str) -> (r: String)
        ensures
            r@ == request_text("GET"@, path@, Seq::empty()),
    {
        proof {
            reveal_strlit("");
            assert(""@ =~= Seq::empty());
        }
        request("GET", path, "")
    }

    /// The error of a socket that could not be reached.
    pub fn connect_error(&self, why: &str) -> (f: Failure)
        ensures
            f@ == "uds connect "@ + self.sock@ + " failed: "@ + why@,
    {
        let mut message = "uds connect ".to_owned();
        message.append(self.sock.as_str());
        message.append(" failed: ");
        message.append(why);
        Failure { message }
    }
}

fn request(method: &str, path: &str, body: &str) -> (r: String)
    ensures
        r@ == request_text(method@, path@, body@),
{
    let n: usize = body.as_bytes().len();
    let mut r = method.to_owned();
    r.append(" ");
    r.append(path);
    r.append(
        " HTTP/1.1\r\nHost: localhost\r\nAccept: application/json\r\nContent-Type: application/json\r\nContent-Length: ",
    );
    r.append(text::decimal(n as u64).as_str());
    r.append("\r\nConnection: close\r\n\r\n");
    r.append(body);
    r
}

/// A response.
#[derive(Debug, Clone, PartialEq, Eq)]
pub struct UdsResponse {
    pub status: u16,
    pub body: String,
}

/// What stands before and behind the first empty line of a response.
pub open spec fn head_and_body(s: Seq<char>) -> (Seq<char>, Seq<char>) {
    match text::cut(s, "\r\n\r\n"@) {
        Some(parts) => parts,
        None => (s, Seq::empty()),
    }
}

/// The first line of a response.
pub open spec fn status_line(s: Seq<char>) -> Seq<char> {
    let l = text::lines(head_and_body(s).0);
    if l.len() == 0 {
        Seq::empty()
    } else {
        l[0]
    }
}

/// The second word of a status line as a number; 0 where it is none.
pub open spec fn status_code(line: Seq<char>) -> u16 {
    let w = text::words(line);
    if w.len() < 2 {
        0
    } else {
        match text::parse_dec(w[1], u16::MAX as nat) {
            Some(n) => n as u16,
            None => 0,
        }
    }
}

fn read_status(line: &str) -> (n: u16)
    ensures
        n == status_code(line@),
{
    let w = text::split_words(line);
    assert(text::texts(w@).len() == w@.len());
    if w.len() < 2 {
        return 0;
    }
    assert(text::texts(w@)[1] == w@[1]@);
    match text::parse_number(w[1].as_str(), u16::MAX as u64) {
        Some(n) => n as u16,
        None => 0,
    }
}

impl UdsResponse {
    /// Reads a response from its bytes.
    pub fn parse(raw: &[u8]) -> (r: Result<UdsResponse, Failure>)
        ensures
            reads_as(outside::utf8_lossy(raw@), r),
    {
        UdsResponse::read(outside::lossy_text(raw).as_str())
    }

    /// Reads a response from its text: the status from its first line, the
    /// body behind its first empty line. Without a status it is an error.
    pub fn read(s: &str) -> (r: Result<UdsResponse, Failure>)
        ensures
            reads_as(s@, r),
    {
        proof {
            reveal_strlit("\r\n\r\n");
        }
        let (head, body) = match text::split_once(s, "\r\n\r\n") {
            Some(parts) => parts,
            None => (s.to_owned(), String::new()),
        };
        let lines = text::split_lines(head.as_str());
        assert(text::texts(lines@).len() == lines@.len());
        let first = if lines.len() == 0 {
            String::new()
        } else {
            lines[0].clone()
        };
        proof {
            if lines@.len() > 0 {
                assert(text::texts(lines@)[0] == lines@[0]@);
            }
        }
        let status: u16 = read_status(first.as_str());
        if status == 0 {
            return Err(
                Failure::because_of(
                    "bad http status line: ",
                    outside::debug_text(first.as_str()).as_str(),
                ),
            );
        }
        Ok(UdsResponse { status, body })
    }

    /// The body of a response that reports success; the error of `op` with
    /// the body otherwise.
    pub fn ok(self, op: &str) -> (r: Result<String, Failure>)
        ensures
            match r {
                Ok(b) => 200 <= self.status < 300 && b@ == self.body@,
                Err(f) => !(200 <= self.status < 300) && f@ == op@ + " failed (http "@ + text::dec(
                    self.status as nat,
                ) + "): "@ + text::trim(self.body@, text::blank()),
            },
    {
        if self.status >= 200 && self.status < 300 {
            return Ok(self.body);
        }
        let mut message = op.to_owned();
        message.append(" failed (http ");
        message.append(text::decimal(self.status as u64).as_str());
        message.append("): ");
        message.append(text::trimmed(self.body.as_str()).as_str());
        Err(Failure { message })
    }
}

/// `r` is what the text of a response reads as.
pub open spec fn reads_as(s: Seq<char>, r: Result<UdsResponse, Failure>) -> bool {
    let line = status_line(s);
    match r {
        Ok(u) => status_code(line) != 0 && u.status == status_code(line) && u.body@
            == head_and_body(s).1,
        Err(f) => status_code(line) == 0 && f@ == "bad http status line: "@ + outside::debug_of(
            line,
        ),
    }
}

/// An answer is read by the second word of its first line and the text behind
/// the empty line; one whose status cannot be read is an error.
pub proof fn answers_are_read_by_status_and_body(
    head: Seq<char>,
    body: Seq<char>,
    r: Result<UdsResponse, Failure>,
    n: u16,
)
    requires
        reads_as(head + "\r\n\r\n"@ + body, r),
        forall|k: int| 0 <= k < head.len() ==> !#[trigger] text::occurs_at(
            head + "\r\n\r\n"@ + body,
            "\r\n\r\n"@,
            k,
        ),
        text::lines(head).len() > 0,
        text::words(text::lines(head)[0]).len() >= 2,
        text::words(text::lines(head)[0])[1] == text::dec(n as nat),
        n > 0,
    ensures
        r is Ok,
        r->Ok_0.status == n,
        r->Ok_0.body@ == body,
{
    reveal_strlit("\r\n\r\n");
    let s = head + "\r\n\r\n"@ + body;
    let at = head.len() as int;
    assert(s.subrange(at, at + 4) =~= "\r\n\r\n"@);
    assert(text::occurs_at(s, "\r\n\r\n"@, at));
    text::cut_parts_make_the_text(s, "\r\n\r\n"@);
    text::search_finds_the_first(s, "\r\n\r\n"@, 0);
    let i = text::find_from(s, "\r\n\r\n"@, 0)->Some_0;
    if i < at {
        assert(text::occurs_at(s, "\r\n\r\n"@, i));
    }
    assert(s.take(at) =~= head);
    assert(s.skip(at + 4) =~= body);
    text::written_numbers_read_back(n as nat, u16::MAX as nat);
}

/// A request names its method and path first and ends in an empty line and the
/// body, whose length in bytes it gives.
pub proof fn requests_carry_their_body(method: Seq<char>, path: Seq<char>, body: Seq<char>)
    ensures
        ({
            let r = request_text(method, path, body);
            &&& (method + seq![' '] + path + " HTTP/1.1\r\n"@).is_prefix_of(r)
            &&& r.skip(r.len() - body.len()) == body
            &&& exists|a: Seq<char>, b: Seq<char>|
                #[trigger] (a + text::dec(vstd::utf8::encode_utf8(body).len()) + b) == r
        }),
{
    reveal_strlit(" ");
    assert(" "@ =~= seq![' ']);
    reveal_strlit(" HTTP/1.1\r\n");
    reveal_strlit(
        " HTTP/1.1\r\nHost: localhost\r\nAccept: application/json\r\nContent-Type: application/json\r\nContent-Length: ",
    );
    let r = request_text(method, path, body);
    let h = method + seq![' '] + path + " HTTP/1.1\r\n"@;
    assert(r.subrange(0, h.len() as int) =~= h);
    assert(r.skip(r.len() - body.len()) =~= body);
    let a = method + " "@ + path
        + " HTTP/1.1\r\nHost: localhost\r\nAccept: application/json\r\nContent-Type: application/json\r\nContent-Length: "@;
    let b = "\r\nConnection: close\r\n\r\n"@ + body;
    assert(a + text::dec(vstd::utf8::encode_utf8(body).len()) + b =~= r);
}

} // verus!
