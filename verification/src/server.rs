//! The HTTP/1.1 request by which a client asks for SPDY, and the answer.

use crate::error::{protocol, Error};
#[allow(unused_imports)]
use crate::error::is_protocol;
use crate::frame::Fields;
#[allow(unused_imports)]
use crate::headers::{
    fields, lower_name, no_fields, replace, valid_name, valid_value, ROOM_FOR_NAMES,
};
use http::{HeaderMap, HeaderName, HeaderValue};
use vstd::prelude::*;
use vstd::string::{StrSliceExecFns, StringExecFns};
#[allow(unused_imports)]
use vstd::utf8::{decode_utf8, encode_utf8, valid_utf8};

verus! {

/// How many octets of a request are read before it is given up, if its blank
/// line has not come.
pub const MAX_REQUEST: usize = 8192;

/// A request to switch to SPDY.
#[derive(Debug)]
pub struct UpgradeRequest {
    pub path: String,
    pub headers: HeaderMap,
    pub method: String,
}

/// Whether `s` ends with a line end and a blank line.
pub open spec fn ends_blank(s: Seq<u8>) -> bool {
    &&& s.len() >= 4
    &&& s[s.len() - 4] == 0x0d
    &&& s[s.len() - 3] == 0x0a
    &&& s[s.len() - 2] == 0x0d
    &&& s[s.len() - 1] == 0x0a
}

/// The octets of a request, as they come in.
pub struct RequestReader {
    octets: Vec<u8>,
}

impl View for RequestReader {
    type V = Seq<u8>;

    closed spec fn view(&self) -> Seq<u8> {
        self.octets@
    }
}

impl RequestReader {
    /// Whether the request is still incomplete and not yet too large.
    pub open spec fn wf(&self) -> bool {
        &&& !ends_blank(self@)
        &&& self@.len() <= MAX_REQUEST
    }

    /// A reader that has seen nothing.
    pub fn new() -> (r: RequestReader)
        ensures
            r.wf(),
            r@ == Seq::<u8>::empty(),
    {
        RequestReader { octets: Vec::new() }
    }

    /// Takes the next octet in, and says whether the request is complete: it is
    /// once its blank line has come.
    pub fn push(&mut self, b: u8) -> (r: Result<bool, Error>)
        requires
            old(self).wf(),
        ensures
            final(self)@ == old(self)@.push(b),
            r matches Ok(done) ==> done == ends_blank(final(self)@),
            r matches Ok(false) ==> final(self).wf(),
            r is Err <==> !ends_blank(final(self)@) && final(self)@.len() > MAX_REQUEST,
            r matches Err(e) ==> is_protocol(e, "HTTP request too large"@),
    {
        self.octets.push(b);
        let n: usize = self.octets.len();
        if n >= 4 && self.octets[n - 4] == 0x0d && self.octets[n - 3] == 0x0a && self.octets[n - 2]
            == 0x0d && b == 0x0a {
            return Ok(true);
        }
        if n > MAX_REQUEST {
            return Err(protocol("HTTP request too large"));
        }
        Ok(false)
    }

    /// The octets taken in so far.
    pub fn octets(&self) -> (s: &[u8])
        ensures
            s@ == self@,
    {
        self.octets.as_slice()
    }
}

/// Where the first line of `t` ends: the place of its first line end, or of
/// its end.
pub open spec fn line_length(t: Seq<char>) -> int
    decreases t.len(),
{
    if t.len() < 2 {
        t.len() as int
    } else if t[0] == '\r' && t[1] == '\n' {
        0
    } else {
        1 + line_length(t.skip(1))
    }
}

/// The first line of `t`.
pub open spec fn first_line(t: Seq<char>) -> Seq<char> {
    t.take(line_length(t))
}

/// What follows the first line of `t` and its line end; `None` if there is no
/// line end.
pub open spec fn further_lines(t: Seq<char>) -> Option<Seq<char>> {
    if line_length(t) < t.len() {
        Some(t.skip(line_length(t) + 2))
    } else {
        None
    }
}

/// Where `c` first occurs in `s`; the length of `s` if it does not.
pub open spec fn place_of(s: Seq<char>, c: char) -> int
    decreases s.len(),
{
    if s.len() == 0 || s[0] == c {
        0
    } else {
        1 + place_of(s.skip(1), c)
    }
}

/// Whether a character is white space, as Unicode has it.
pub open spec fn white_space(c: char) -> bool {
    ||| '\u{9}' <= c <= '\u{d}'
    ||| c == '\u{20}' || c == '\u{85}' || c == '\u{a0}' || c == '\u{1680}'
    ||| '\u{2000}' <= c <= '\u{200a}'
    ||| c == '\u{2028}' || c == '\u{2029}' || c == '\u{202f}' || c == '\u{205f}' || c
        == '\u{3000}'
}

/// `s` without white space at its front.
pub open spec fn front_trimmed(s: Seq<char>) -> Seq<char>
    decreases s.len(),
{
    if s.len() > 0 && white_space(s[0]) {
        front_trimmed(s.skip(1))
    } else {
        s
    }
}

/// `s` without white space at its end.
pub open spec fn end_trimmed(s: Seq<char>) -> Seq<char>
    decreases s.len(),
{
    if s.len() > 0 && white_space(s.last()) {
        end_trimmed(s.drop_last())
    } else {
        s
    }
}

/// `s` without white space at either end.
pub open spec fn trimmed(s: Seq<char>) -> Seq<char> {
    end_trimmed(front_trimmed(s))
}

/// An ASCII letter in lower case; any other character as it is.
pub open spec fn lower_char(c: char) -> char {
    if 'A' <= c <= 'Z' {
        (c as u32 + 32) as char
    } else {
        c
    }
}

/// Whether two texts differ at most in the case of ASCII letters.
pub open spec fn same_text(a: Seq<char>, b: Seq<char>) -> bool {
    a.len() == b.len() && forall|i: int|
        0 <= i < a.len() ==> lower_char(#[trigger] a[i]) == lower_char(b[i])
}

/// A line ends within its text, and a line end takes two characters.
pub proof fn lemma_line_length(t: Seq<char>)
    ensures
        0 <= line_length(t) <= t.len(),
        line_length(t) < t.len() ==> line_length(t) + 2 <= t.len(),
    decreases t.len(),
{
    if t.len() >= 2 && !(t[0] == '\r' && t[1] == '\n') {
        lemma_line_length(t.skip(1));
        if line_length(t.skip(1)) < t.skip(1).len() {
        } else {
            assert(line_length(t) == t.len());
        }
    }
}

/// Whether a header asks for the switch to SPDY/3.1.
pub open spec fn asks_for_spdy(name: Seq<char>, value: Seq<char>) -> bool {
    same_text(name, "upgrade"@) && same_text(value, "spdy/3.1"@)
}

/// What the header lines `t` add to the fields `f`, and whether one of them, or
/// one before them (`asked`), asks for SPDY/3.1; or the message that says what
/// is wrong with them. The lines end at the first empty one.
pub open spec fn lines_read(t: Option<Seq<char>>, f: Fields, asked: bool) -> Result<
    (Fields, bool),
    Seq<char>,
>
    decreases
            (match t {
                Some(s) => s.len() + 1,
                None => 0,
            }),
{
    match t {
        None => Ok((f, asked)),
        Some(s) => {
            proof {
                lemma_line_length(s);
            }
            let line = first_line(s);
            let colon = place_of(line, ':');
            let name = trimmed(line.take(colon));
            let value = trimmed(line.skip(colon + 1));
            if line.len() == 0 {
                Ok((f, asked))
            } else if colon == line.len() {
                Err("invalid header line: "@ + line)
            } else if !valid_name(encode_utf8(name)) {
                Err("invalid header name: "@ + name)
            } else if !valid_value(encode_utf8(value)) {
                Err("invalid header value: "@ + value)
            } else {
                lines_read(
                    further_lines(s),
                    f.insert(lower_name(encode_utf8(name)), seq![encode_utf8(value)]),
                    asked || asks_for_spdy(name, value),
                )
            }
        },
    }
}

/// Whether reading the header lines `t` into the fields `f` comes to a header
/// that is put into a map of [`ROOM_FOR_NAMES`] names or more.
pub open spec fn lines_crowd(t: Option<Seq<char>>, f: Fields) -> bool
    decreases
            (match t {
                Some(s) => s.len() + 1,
                None => 0,
            }),
{
    match t {
        None => false,
        Some(s) => {
            proof {
                lemma_line_length(s);
            }
            let line = first_line(s);
            let colon = place_of(line, ':');
            let name = trimmed(line.take(colon));
            let value = trimmed(line.skip(colon + 1));
            &&& line.len() > 0
            &&& colon < line.len()
            &&& valid_name(encode_utf8(name))
            &&& valid_value(encode_utf8(value))
            &&& f.dom().len() >= ROOM_FOR_NAMES || lines_crowd(
                further_lines(s),
                f.insert(lower_name(encode_utf8(name)), seq![encode_utf8(value)]),
            )
        },
    }
}

/// Whether reading the request `t` comes to a header that is put into a map of
/// [`ROOM_FOR_NAMES`] names or more, which the map may refuse.
pub open spec fn request_crowds(t: Seq<char>) -> bool {
    lines_crowd(further_lines(t), Map::empty())
}

/// A request as the proofs see it.
pub ghost struct RequestModel {
    pub method: Seq<char>,
    pub path: Seq<char>,
    pub headers: Fields,
}

impl View for UpgradeRequest {
    type V = RequestModel;

    open spec fn view(&self) -> RequestModel {
        RequestModel { method: self.method@, path: self.path@, headers: fields(self.headers) }
    }
}

/// The request with this method and path, whose header lines read as `lines`
/// says: they must ask for SPDY/3.1.
pub open spec fn request_with(
    method: Seq<char>,
    path: Seq<char>,
    lines: Result<(Fields, bool), Seq<char>>,
) -> Result<RequestModel, Seq<char>> {
    match lines {
        Err(text) => Err(text),
        Ok((headers, asked)) => if asked {
            Ok(RequestModel { method, path, headers })
        } else {
            Err("missing or incorrect Upgrade: spdy/3.1 header"@)
        },
    }
}

/// The request that a text holds, or the message that says what is wrong with
/// it.
pub open spec fn request_read(t: Seq<char>) -> Result<RequestModel, Seq<char>> {
    let line = first_line(t);
    let m = place_of(line, ' ');
    let after = line.skip(m + 1);
    let p = place_of(after, ' ');
    if m == line.len() {
        Err("missing path"@)
    } else if p == after.len() {
        Err("missing HTTP version"@)
    } else {
        request_with(
            line.take(m),
            after.take(p),
            lines_read(further_lines(t), Map::empty(), false),
        )
    }
}

/// Whether `r` reports what `read` says.
pub open spec fn request_reported(
    r: Result<UpgradeRequest, Error>,
    read: Result<RequestModel, Seq<char>>,
) -> bool {
    match read {
        Ok(request) => r matches Ok(got) && got@ == request,
        Err(text) => r matches Err(e) && is_protocol(e, text),
    }
}

/// The characters of a text.
fn chars_of(text: &str) -> (v: Vec<char>)
    ensures
        v@ == text@,
{
    broadcast use vstd::string::axiom_spec_iter;

    let mut v: Vec<char> = Vec::new();
    for c in it: text.chars()
        invariant
            it.seq() == text@,
            v@ == text@.take(it.index()),
    {
        v.push(c);
    }
    assert(text@.take(text@.len() as int) == text@);
    v
}

/// Where the line that starts at `from` ends.
fn line_end(v: &Vec<char>, from: usize) -> (end: usize)
    requires
        from <= v@.len(),
    ensures
        end == from + line_length(v@.skip(from as int)),
        from <= end <= v@.len(),
        end < v@.len() ==> end + 2 <= v@.len(),
{
    proof {
        lemma_line_length(v@.skip(from as int));
    }
    let mut i: usize = from;
    while i < v.len() && !(i + 1 < v.len() && v[i] == '\r' && v[i + 1] == '\n')
        invariant
            from <= i <= v@.len(),
            from + line_length(v@.skip(from as int)) == i + line_length(v@.skip(i as int)),
        decreases v.len() - i,
    {
        assert(v@.skip(i as int).skip(1) == v@.skip(i + 1));
        i += 1;
    }
    i
}

/// Where `c` first occurs between `from` and `to`; `to` if it does not.
fn find(v: &Vec<char>, from: usize, to: usize, c: char) -> (at: usize)
    requires
        from <= to <= v@.len(),
    ensures
        at == from + place_of(v@.subrange(from as int, to as int), c),
        from <= at <= to,
{
    let mut i: usize = from;
    while i < to && v[i] != c
        invariant
            from <= i <= to <= v@.len(),
            from + place_of(v@.subrange(from as int, to as int), c) == i + place_of(
                v@.subrange(i as int, to as int),
                c,
            ),
        decreases to - i,
    {
        assert(v@.subrange(i as int, to as int).skip(1) == v@.subrange(i + 1, to as int));
        i += 1;
    }
    i
}

/// Whether a character is white space.
fn is_white_space(c: char) -> (b: bool)
    ensures
        b == white_space(c),
{
    ('\u{9}' <= c && c <= '\u{d}') || c == '\u{20}' || c == '\u{85}' || c == '\u{a0}' || c
        == '\u{1680}' || ('\u{2000}' <= c && c <= '\u{200a}') || c == '\u{2028}' || c == '\u{2029}'
        || c == '\u{202f}' || c == '\u{205f}' || c == '\u{3000}'
}

/// The part between `from` and `to` that is left without white space at either
/// end.
fn trim(v: &Vec<char>, from: usize, to: usize) -> (part: (usize, usize))
    requires
        from <= to <= v@.len(),
    ensures
        from <= part.0 <= part.1 <= to,
        v@.subrange(part.0 as int, part.1 as int) == trimmed(v@.subrange(from as int, to as int)),
{
    let ghost all = v@.subrange(from as int, to as int);
    let mut i: usize = from;
    while i < to && is_white_space(v[i])
        invariant
            from <= i <= to <= v@.len(),
            front_trimmed(all) == front_trimmed(v@.subrange(i as int, to as int)),
        decreases to - i,
    {
        assert(v@.subrange(i as int, to as int).skip(1) == v@.subrange(i + 1, to as int));
        i += 1;
    }
    let ghost front = v@.subrange(i as int, to as int);
    assert(front_trimmed(all) == front);
    let mut j: usize = to;
    while i < j && is_white_space(v[j - 1])
        invariant
            from <= i <= j <= to <= v@.len(),
            end_trimmed(front) == end_trimmed(v@.subrange(i as int, j as int)),
        decreases j,
    {
        assert(v@.subrange(i as int, j as int).drop_last() == v@.subrange(i as int, j - 1));
        j -= 1;
    }
    (i, j)
}

/// An ASCII letter in lower case; any other character as it is.
fn lower(c: char) -> (l: char)
    ensures
        l == lower_char(c),
{
    if 'A' <= c && c <= 'Z' {
        ((c as u8) + 32) as char
    } else {
        c
    }
}

/// Whether the part between `from` and `to` is `text`, but for the case of
/// ASCII letters.
fn is_text(v: &Vec<char>, from: usize, to: usize, text: &str) -> (b: bool)
    requires
        from <= to <= v@.len(),
    ensures
        b == same_text(v@.subrange(from as int, to as int), text@),
{
    if to - from != text.unicode_len() {
        return false;
    }
    let ghost part = v@.subrange(from as int, to as int);
    let mut i: usize = 0;
    while i < to - from
        invariant
            from <= to <= v@.len(),
            to - from == text@.len(),
            i <= to - from,
            part == v@.subrange(from as int, to as int),
            forall|j: int| 0 <= j < i ==> lower_char(#[trigger] part[j]) == lower_char(text@[j]),
        decreases to - from - i,
    {
        assert(part[i as int] == v@[from + i]);
        if lower(v[from + i]) != lower(text.get_char(i)) {
            return false;
        }
        i += 1;
    }
    true
}

/// Reads a request.
///
/// The text is read as [`request_read`] says. One that would put a header into a
/// map of [`ROOM_FOR_NAMES`] names or more may also be refused because the
/// header map cannot hold so many.
pub fn parse_http_request(text: &str) -> (r: Result<UpgradeRequest, Error>)
    ensures
        ({
            ||| request_reported(r, request_read(text@))
            ||| request_crowds(text@) && (r matches Err(e) && is_protocol(
                e,
                "too many header names"@,
            ))
        }),
{
    let v = chars_of(text);
    let ghost t = text@;
    assert(v@.skip(0) == t);
    let end: usize = line_end(&v, 0);
    assert(v@.subrange(0, end as int) == first_line(t));
    let space: usize = find(&v, 0, end, ' ');
    if space == end {
        return Err(protocol("missing path"));
    }
    assert(v@.subrange(space + 1, end as int) == first_line(t).skip(space + 1));
    let second: usize = find(&v, space + 1, end, ' ');
    if second == end {
        return Err(protocol("missing HTTP version"));
    }
    let method = text.substring_char(0, space).to_owned();
    let path = text.substring_char(space + 1, second).to_owned();
    assert(method@ == first_line(t).take(space as int));
    assert(path@ == first_line(t).skip(space + 1).take(second - space - 1));

    let mut headers = no_fields();
    let mut asked = false;
    let ghost mut rest = further_lines(t);
    let mut at: usize = end;
    while at < v.len()
        invariant_except_break
            v@ == t,
            at <= t.len(),
            at < t.len() ==> at + 2 <= t.len(),
            rest == if at < t.len() {
                Some(t.skip(at + 2))
            } else {
                None
            },
            lines_read(rest, fields(headers), asked) == lines_read(
                further_lines(t),
                Map::empty(),
                false,
            ),
            lines_crowd(rest, fields(headers)) ==> request_crowds(t),
        invariant
            t == text@,
            request_read(t) == request_with(
                method@,
                path@,
                lines_read(further_lines(t), Map::empty(), false),
            ),
        ensures
            lines_read(further_lines(t), Map::empty(), false) == Ok::<(Fields, bool), Seq<char>>(
                (fields(headers), asked),
            ),
        decreases v.len() - at,
    {
        let from: usize = at + 2;
        let ghost s = t.skip(from as int);
        let to: usize = line_end(&v, from);
        let ghost line = first_line(s);
        assert(v@.subrange(from as int, to as int) == line);
        if from == to {
            break;
        }
        let colon: usize = find(&v, from, to, ':');
        if colon == to {
            let text = "invalid header line: ".to_owned().concat(text.substring_char(from, to));
            return Err(protocol(text.as_str()));
        }
        let (name_from, name_to) = trim(&v, from, colon);
        let (value_from, value_to) = trim(&v, colon + 1, to);
        let name = text.substring_char(name_from, name_to);
        let value = text.substring_char(value_from, value_to);
        assert(v@.subrange(from as int, colon as int) == line.take(colon - from));
        assert(v@.subrange(colon + 1, to as int) == line.skip(colon - from + 1));
        let is_upgrade = is_text(&v, name_from, name_to, "upgrade") && is_text(
            &v,
            value_from,
            value_to,
            "spdy/3.1",
        );
        let header_name = match HeaderName::from_bytes(name.as_bytes()) {
            Ok(n) => n,
            Err(_) => {
                let text = "invalid header name: ".to_owned().concat(name);
                return Err(protocol(text.as_str()));
            },
        };
        let header_value = match HeaderValue::from_str(value) {
            Ok(v) => v,
            Err(_) => {
                let text = "invalid header value: ".to_owned().concat(value);
                return Err(protocol(text.as_str()));
            },
        };
        if replace(&mut headers, header_name, header_value).is_err() {
            return Err(protocol("too many header names"));
        }
        asked = asked || is_upgrade;
        proof {
            rest = further_lines(s);
            if to < t.len() {
                assert(s.skip(to - from + 2) == t.skip(to + 2));
            }
        }
        at = to;
    }
    if !asked {
        return Err(protocol("missing or incorrect Upgrade: spdy/3.1 header"));
    }
    Ok(UpgradeRequest { path, headers, method })
}

proof fn lemma_trimmed_length(s: Seq<char>)
    ensures
        trimmed(s).len() <= s.len(),
{
    lemma_front_trimmed_length(s);
    lemma_end_trimmed_length(front_trimmed(s));
}

proof fn lemma_front_trimmed_length(s: Seq<char>)
    ensures
        front_trimmed(s).len() <= s.len(),
    decreases s.len(),
{
    if s.len() > 0 && white_space(s[0]) {
        lemma_front_trimmed_length(s.skip(1));
    }
}

proof fn lemma_end_trimmed_length(s: Seq<char>)
    ensures
        end_trimmed(s).len() <= s.len(),
    decreases s.len(),
{
    if s.len() > 0 && white_space(s.last()) {
        lemma_end_trimmed_length(s.drop_last());
    }
}

proof fn lemma_short_lines_do_not_crowd(s: Seq<char>, f: Fields)
    requires
        f.dom().finite(),
        4 * f.dom().len() + s.len() + 2 < 4 * ROOM_FOR_NAMES,
    ensures
        !lines_crowd(Some(s), f),
    decreases s.len(),
{
    lemma_line_length(s);
    let line = first_line(s);
    let colon = place_of(line, ':');
    let name = trimmed(line.take(colon));
    let value = trimmed(line.skip(colon + 1));
    if line.len() > 0 && colon < line.len() && valid_name(encode_utf8(name)) {
        lemma_place_of(line, ':');
        lemma_trimmed_length(line.take(colon));
        assert(name.len() > 0);
        let next = f.insert(lower_name(encode_utf8(name)), seq![encode_utf8(value)]);
        if line_length(s) < s.len() {
            lemma_short_lines_do_not_crowd(s.skip(line_length(s) + 2), next);
        }
        assert(!lines_crowd(further_lines(s), next));
    }
}

proof fn lemma_place_of(s: Seq<char>, c: char)
    ensures
        0 <= place_of(s, c) <= s.len(),
    decreases s.len(),
{
    if s.len() > 0 && s[0] != c {
        lemma_place_of(s.skip(1), c);
    }
}

/// A request shorter than four times [`ROOM_FOR_NAMES`] is never refused for the
/// number of its names: a header takes four characters or more. Every request
/// that [`RequestReader`] completes is shorter.
pub proof fn law_short_requests_do_not_crowd(t: Seq<char>)
    requires
        t.len() < 26216,
    ensures
        !request_crowds(t),
{
    lemma_line_length(t);
    if line_length(t) < t.len() {
        lemma_short_lines_do_not_crowd(t.skip(line_length(t) + 2), Map::empty());
    }
}

/// `std::str::from_utf8`: the text that the octets encode, if they are UTF-8.
#[verifier::external_body]
fn utf8_text(octets: &[u8]) -> (r: Option<&str>)
    ensures
        r is Some <==> valid_utf8(octets@),
        r matches Some(s) ==> s@ == decode_utf8(octets@),
{
    std::str::from_utf8(octets).ok()
}

/// Reads the octets of a request, as [`RequestReader`] collects them.
pub fn parse_upgrade_request(octets: &[u8]) -> (r: Result<UpgradeRequest, Error>)
    ensures
        !valid_utf8(octets@) ==> (r matches Err(e) && is_protocol(e, "non-UTF8 HTTP request"@)),
        valid_utf8(octets@) ==> {
            ||| request_reported(r, request_read(decode_utf8(octets@)))
            ||| request_crowds(decode_utf8(octets@)) && (r matches Err(e) && is_protocol(
                e,
                "too many header names"@,
            ))
        },
{
    match utf8_text(octets) {
        Some(text) => parse_http_request(text),
        None => Err(protocol("non-UTF8 HTTP request")),
    }
}

/// What the server answers to a request that it accepts.
pub fn upgrade_response() -> (s: &'static str)
    ensures
        s@
            == "HTTP/1.1 101 Switching Protocols\r\nConnection: Upgrade\r\nUpgrade: spdy/3.1\r\n\r\n"@,
{
    "HTTP/1.1 101 Switching Protocols\r\nConnection: Upgrade\r\nUpgrade: spdy/3.1\r\n\r\n"
}

/// Whether a line end stands somewhere in `s`.
pub open spec fn has_line_end(s: Seq<char>) -> bool {
    exists|i: int| 0 <= i < s.len() - 1 && #[trigger] s[i] == '\r' && s[i + 1] == '\n'
}

/// Whether `s` is made of white space.
pub open spec fn is_blank(s: Seq<char>) -> bool {
    forall|i: int| 0 <= i < s.len() ==> white_space(#[trigger] s[i])
}

/// Whether `s` is empty, or neither starts nor ends with white space.
pub open spec fn has_visible_ends(s: Seq<char>) -> bool {
    s.len() > 0 ==> !white_space(s[0]) && !white_space(s.last())
}

/// Whether two texts are equal but for the case of ASCII letters.
pub open spec fn differ_in_case(a: Seq<char>, b: Seq<char>) -> bool {
    a.len() == b.len() && forall|i: int|
        0 <= i < a.len() ==> {
            ||| #[trigger] a[i] == b[i]
            ||| 'A' <= a[i] <= 'Z' && b[i] as int == a[i] as int + 32
            ||| 'A' <= b[i] <= 'Z' && a[i] as int == b[i] as int + 32
        }
}

proof fn lemma_line_is_found(line: Seq<char>, rest: Seq<char>)
    requires
        !has_line_end(line),
    ensures
        line_length(line + seq!['\r', '\n'] + rest) == line.len(),
        first_line(line + seq!['\r', '\n'] + rest) == line,
        further_lines(line + seq!['\r', '\n'] + rest) == Some(rest),
    decreases line.len(),
{
    let t = line + seq!['\r', '\n'] + rest;
    if line.len() == 0 {
        assert(t[0] == '\r' && t[1] == '\n');
    } else {
        assert(t[0] == line[0]);
        if line.len() > 1 {
            assert(t[1] == line[1]);
            assert(!(line[0] == '\r' && line[1] == '\n'));
        } else {
            assert(t[1] == '\r');
        }
        assert(!has_line_end(line.skip(1))) by {
            if has_line_end(line.skip(1)) {
                let i = choose|i: int|
                    0 <= i < line.skip(1).len() - 1 && #[trigger] line.skip(1)[i] == '\r'
                        && line.skip(1)[i + 1] == '\n';
                assert(line[i + 1] == '\r' && line[i + 1 + 1] == '\n');
            }
        }
        lemma_line_is_found(line.skip(1), rest);
        assert(t.skip(1) =~= line.skip(1) + seq!['\r', '\n'] + rest);
    }
    assert(t.take(line.len() as int) =~= line);
    assert(t.skip(line.len() as int + 2) =~= rest);
}

proof fn lemma_last_line_is_found(line: Seq<char>)
    requires
        !has_line_end(line),
    ensures
        line_length(line) == line.len(),
        first_line(line) == line,
        further_lines(line) is None,
    decreases line.len(),
{
    if line.len() >= 2 {
        assert(!(line[0] == '\r' && line[1] == '\n'));
        assert(!has_line_end(line.skip(1))) by {
            if has_line_end(line.skip(1)) {
                let i = choose|i: int|
                    0 <= i < line.skip(1).len() - 1 && #[trigger] line.skip(1)[i] == '\r'
                        && line.skip(1)[i + 1] == '\n';
                assert(line[i + 1] == '\r' && line[i + 1 + 1] == '\n');
            }
        }
        lemma_last_line_is_found(line.skip(1));
    }
    assert(line.take(line.len() as int) =~= line);
}

proof fn lemma_place_is_found(a: Seq<char>, c: char, b: Seq<char>)
    requires
        !a.contains(c),
    ensures
        place_of(a + seq![c] + b, c) == a.len(),
        place_of(a, c) == a.len(),
    decreases a.len(),
{
    let s = a + seq![c] + b;
    if a.len() == 0 {
        assert(s[0] == c);
    } else {
        assert(a.contains(a[0]));
        assert(s[0] == a[0]);
        assert(!a.skip(1).contains(c)) by {
            if a.skip(1).contains(c) {
                let i = choose|i: int| 0 <= i < a.skip(1).len() && a.skip(1)[i] == c;
                assert(a[i + 1] == c);
            }
        }
        lemma_place_is_found(a.skip(1), c, b);
        assert(s.skip(1) =~= a.skip(1) + seq![c] + b);
    }
}

/// A request line gives the method up to its first space and the path up to its
/// second, each as it stands, whatever follows; the headers are those of the
/// lines after it. The request is accepted exactly when these can be read and
/// one of them asks for SPDY/3.1.
pub proof fn law_request_lines_are_read(
    method: Seq<char>,
    path: Seq<char>,
    version: Seq<char>,
    rest: Seq<char>,
)
    requires
        !method.contains(' '),
        !path.contains(' '),
        !has_line_end(method + seq![' '] + path + seq![' '] + version),
    ensures
        ({
            let line = method + seq![' '] + path + seq![' '] + version;
            let lines = lines_read(Some(rest), Map::empty(), false);
            let read = request_read(line + seq!['\r', '\n'] + rest);
            &&& read is Ok <==> lines is Ok && (lines->Ok_0).1
            &&& read matches Ok(q) ==> q.method == method && q.path == path && q.headers == (
            lines->Ok_0).0
            &&& lines matches Err(text) ==> read == Err::<RequestModel, Seq<char>>(text)
            &&& lines is Ok && !(lines->Ok_0).1 ==> read == Err::<RequestModel, Seq<char>>(
                "missing or incorrect Upgrade: spdy/3.1 header"@,
            )
            &&& request_read(line) == Err::<RequestModel, Seq<char>>(
                "missing or incorrect Upgrade: spdy/3.1 header"@,
            )
        }),
{
    let line = method + seq![' '] + path + seq![' '] + version;
    lemma_line_is_found(line, rest);
    lemma_last_line_is_found(line);
    let after = path + seq![' '] + version;
    assert(line =~= method + seq![' '] + after);
    lemma_place_is_found(method, ' ', after);
    lemma_place_is_found(path, ' ', version);
    assert(line.take(method.len() as int) =~= method);
    assert(line.skip(method.len() as int + 1) =~= after);
    assert(after.take(path.len() as int) =~= path);
}

/// A request line without a space lacks its path, and one with a single space
/// its version.
pub proof fn law_request_lines_have_three_parts(
    method: Seq<char>,
    path: Seq<char>,
    rest: Seq<char>,
)
    requires
        !method.contains(' '),
        !path.contains(' '),
    ensures
        !has_line_end(method) ==> request_read(method + seq!['\r', '\n'] + rest) == Err::<
            RequestModel,
            Seq<char>,
        >("missing path"@),
        !has_line_end(method + seq![' '] + path) ==> request_read(
            (method + seq![' '] + path) + seq!['\r', '\n'] + rest,
        ) == Err::<RequestModel, Seq<char>>("missing HTTP version"@),
{
    if !has_line_end(method) {
        lemma_line_is_found(method, rest);
        lemma_place_is_found(method, ' ', Seq::empty());
    }
    let line = method + seq![' '] + path;
    if !has_line_end(line) {
        lemma_line_is_found(line, rest);
        lemma_place_is_found(method, ' ', path);
        lemma_place_is_found(path, ' ', Seq::empty());
        assert(line.skip(method.len() as int + 1) =~= path);
    }
}

proof fn lemma_front_is_trimmed(w: Seq<char>, s: Seq<char>)
    requires
        is_blank(w),
    ensures
        front_trimmed(w + s) == front_trimmed(s),
    decreases w.len(),
{
    if w.len() == 0 {
        assert(w + s =~= s);
    } else {
        assert(white_space(w[0]));
        assert((w + s)[0] == w[0]);
        assert(is_blank(w.skip(1))) by {
            assert forall|i: int| 0 <= i < w.skip(1).len() implies white_space(
                #[trigger] w.skip(1)[i],
            ) by {
                assert(w.skip(1)[i] == w[i + 1]);
            }
        }
        lemma_front_is_trimmed(w.skip(1), s);
        assert((w + s).skip(1) =~= w.skip(1) + s);
    }
}

proof fn lemma_end_is_trimmed(s: Seq<char>, w: Seq<char>)
    requires
        is_blank(w),
    ensures
        end_trimmed(s + w) == end_trimmed(s),
    decreases w.len(),
{
    if w.len() == 0 {
        assert(s + w =~= s);
    } else {
        assert(white_space(w[w.len() - 1]));
        assert((s + w).last() == w.last());
        assert(is_blank(w.drop_last())) by {
            assert forall|i: int| 0 <= i < w.drop_last().len() implies white_space(
                #[trigger] w.drop_last()[i],
            ) by {
                assert(w.drop_last()[i] == w[i]);
            }
        }
        lemma_end_is_trimmed(s, w.drop_last());
        assert((s + w).drop_last() =~= s + w.drop_last());
    }
}

/// White space around a text is trimmed away, and nothing of the text is.
pub proof fn law_trimming_takes_blanks_away(before: Seq<char>, s: Seq<char>, after: Seq<char>)
    requires
        is_blank(before),
        is_blank(after),
        has_visible_ends(s),
    ensures
        trimmed(before + s + after) == s,
{
    assert(before + s + after =~= before + (s + after));
    lemma_front_is_trimmed(before, s + after);
    if s.len() == 0 {
        assert(s + after =~= after + Seq::empty());
        lemma_front_is_trimmed(after, Seq::empty());
        assert(trimmed(before + s + after) =~= s);
    } else {
        assert((s + after)[0] == s[0]);
        lemma_end_is_trimmed(s, after);
    }
}

/// White space is the tab and the four line ends that follow it, the space, the
/// next-line character, and the eighteen wider spaces and separators.
pub proof fn law_white_space_by_number(c: char)
    ensures
        white_space(c) <==> {
            let n = c as int;
            ||| 9 <= n <= 13 || n == 32 || n == 133 || n == 160 || n == 5760
            ||| 8192 <= n <= 8202 || n == 8232 || n == 8233 || n == 8239 || n == 8287 || n == 12288
        },
{
}

/// A header asks for SPDY/3.1 exactly when its name is `upgrade` and its value
/// `spdy/3.1`, in whatever case.
pub proof fn law_case_does_not_matter(name: Seq<char>, value: Seq<char>)
    ensures
        asks_for_spdy(name, value) <==> differ_in_case(name, "upgrade"@) && differ_in_case(
            value,
            "spdy/3.1"@,
        ),
{
    lemma_same_text(name, "upgrade"@);
    lemma_same_text(value, "spdy/3.1"@);
}

proof fn lemma_same_text(a: Seq<char>, b: Seq<char>)
    ensures
        same_text(a, b) == differ_in_case(a, b),
{
    if same_text(a, b) {
        assert forall|i: int| 0 <= i < a.len() implies {
            ||| #[trigger] a[i] == b[i]
            ||| 'A' <= a[i] <= 'Z' && b[i] as int == a[i] as int + 32
            ||| 'A' <= b[i] <= 'Z' && a[i] as int == b[i] as int + 32
        } by {
            assert(lower_char(a[i]) == lower_char(b[i]));
        }
    }
    if differ_in_case(a, b) {
        assert forall|i: int| 0 <= i < a.len() implies lower_char(#[trigger] a[i]) == lower_char(
            b[i],
        ) by {}
    }
}

/// A header line gives its name and its value, without the blanks around them,
/// and takes the place of an earlier one of that name. One with a name or a
/// value that no header can have is refused.
pub proof fn law_header_lines_are_read(
    w1: Seq<char>,
    name: Seq<char>,
    w2: Seq<char>,
    w3: Seq<char>,
    value: Seq<char>,
    w4: Seq<char>,
    rest: Seq<char>,
    f: Fields,
    asked: bool,
)
    requires
        is_blank(w1),
        is_blank(w2),
        is_blank(w3),
        is_blank(w4),
        has_visible_ends(name),
        has_visible_ends(value),
        !name.contains(':'),
        !has_line_end((w1 + name + w2) + seq![':'] + (w3 + value + w4)),
    ensures
        ({
            let line = (w1 + name + w2) + seq![':'] + (w3 + value + w4);
            let read = lines_read(Some(line + seq!['\r', '\n'] + rest), f, asked);
            let asks = differ_in_case(name, "upgrade"@) && differ_in_case(value, "spdy/3.1"@);
            let next = f.insert(lower_name(encode_utf8(name)), seq![encode_utf8(value)]);
            &&& !valid_name(encode_utf8(name)) ==> read == Err::<(Fields, bool), Seq<char>>(
                "invalid header name: "@ + name,
            )
            &&& valid_name(encode_utf8(name)) && !valid_value(encode_utf8(value)) ==> read == Err::<
                (Fields, bool),
                Seq<char>,
            >("invalid header value: "@ + value)
            &&& valid_name(encode_utf8(name)) && valid_value(encode_utf8(value)) ==> read
                == lines_read(Some(rest), next, asked || asks) && lines_read(Some(line), f, asked) == Ok::<
                (Fields, bool),
                Seq<char>,
            >((next, asked || asks))
        }),
{
    let front = w1 + name + w2;
    let back = w3 + value + w4;
    let line = front + seq![':'] + back;
    lemma_line_is_found(line, rest);
    lemma_last_line_is_found(line);
    assert(!front.contains(':')) by {
        if front.contains(':') {
            let i = choose|i: int| 0 <= i < front.len() && front[i] == ':';
            if i < w1.len() {
                assert(w1[i] == ':');
            } else if i < w1.len() + name.len() {
                assert(name[i - w1.len()] == ':');
            } else {
                assert(w2[i - w1.len() - name.len()] == ':');
            }
        }
    }
    lemma_place_is_found(front, ':', back);
    assert(line.take(front.len() as int) =~= front);
    assert(line.skip(front.len() as int + 1) =~= back);
    law_trimming_takes_blanks_away(w1, name, w2);
    law_trimming_takes_blanks_away(w3, value, w4);
    law_case_does_not_matter(name, value);
    let next = f.insert(lower_name(encode_utf8(name)), seq![encode_utf8(value)]);
    let asks = asks_for_spdy(name, value);
    assert(lines_read(None, next, asked || asks) == Ok::<(Fields, bool), Seq<char>>(
        (next, asked || asks),
    ));
}

/// The header lines end where the text does, or at the first empty line; a line
/// without a colon is refused.
pub proof fn law_header_lines_end(line: Seq<char>, rest: Seq<char>, f: Fields, asked: bool)
    requires
        !has_line_end(line),
        !line.contains(':'),
        line.len() > 0,
    ensures
        lines_read(None, f, asked) == Ok::<(Fields, bool), Seq<char>>((f, asked)),
        lines_read(Some(seq!['\r', '\n'] + rest), f, asked) == Ok::<(Fields, bool), Seq<char>>(
            (f, asked),
        ),
        lines_read(Some(line + seq!['\r', '\n'] + rest), f, asked) == Err::<
            (Fields, bool),
            Seq<char>,
        >("invalid header line: "@ + line),
{
    let none = Seq::<char>::empty();
    lemma_line_is_found(none, rest);
    assert(none + seq!['\r', '\n'] + rest =~= seq!['\r', '\n'] + rest);
    lemma_line_is_found(line, rest);
    lemma_place_is_found(line, ':', none);
}

/// A request is complete exactly when it ends with a line end and a blank line.
pub proof fn law_blank_lines_complete_a_request(s: Seq<u8>, front: Seq<u8>)
    ensures
        ends_blank(front + seq![13u8, 10u8, 13u8, 10u8]),
        ends_blank(s) ==> s == s.take(s.len() - 4) + seq![13u8, 10u8, 13u8, 10u8],
{
    if ends_blank(s) {
        assert(s =~= s.take(s.len() - 4) + seq![13u8, 10u8, 13u8, 10u8]);
    }
}

/// What a result reports is what was read: the request, or the message.
pub proof fn law_request_reports_are_faithful(
    r: Result<UpgradeRequest, Error>,
    q: RequestModel,
    text: Seq<char>,
)
    ensures
        request_reported(r, Ok(q)) <==> r is Ok && (r->Ok_0).method@ == q.method && (
        r->Ok_0).path@ == q.path && fields((r->Ok_0).headers) == q.headers,
        request_reported(r, Err(text)) <==> match r {
            Err(Error::Protocol(m)) => m@ == text,
            _ => false,
        },
{
}

} // verus!
