//! Reading HTTP/1.1 responses.
use crate::text::{
    a_text_is_split_at_its_first_mark, ascii_lowered, chars_of, contains_part, has_part,
    is_white_space, lemma_digits_value_grows, lemma_find, parse_unsigned, same_ignoring_ascii_case,
    split_first, split_once, string_from, string_of, to_ascii_lower, trim_start, unsigned_number,
    views, white_space, without_sign,
};
use vstd::prelude::*;
use vstd::utf8::{decode_utf8, valid_utf8};

verus! {

/// Why a response could not be read.
#[derive(Clone, Copy, Debug, PartialEq, Eq, Structural)]
pub enum HttpError {
    /// No empty line ends the headers.
    HeadersIncomplete,
    /// Headers or a chunk size are not UTF-8.
    InvalidText,
    /// The first line has no second word.
    StatusMissing,
    /// The status is not a number.
    InvalidStatus,
    /// No line end follows a chunk size.
    ChunkSizeIncomplete,
    /// A chunk size is not a hexadecimal number.
    InvalidChunkSize,
    /// A chunk ends early, or no line end follows it.
    ChunkBodyIncomplete,
}

/// The bytes of a line end.
pub open spec fn crlf() -> Seq<u8> {
    seq![13u8, 10u8]
}

/// The bytes that end the headers.
pub open spec fn header_end() -> Seq<u8> {
    seq![13u8, 10u8, 13u8, 10u8]
}

/// Where `p` first occurs in `s`.
pub open spec fn find_bytes(s: Seq<u8>, p: Seq<u8>) -> Option<int>
    decreases s.len(),
{
    if s.len() < p.len() {
        None
    } else if s.subrange(0, p.len() as int) == p {
        Some(0)
    } else if s.len() == 0 {
        None
    } else {
        match find_bytes(s.subrange(1, s.len() as int), p) {
            Some(i) => Some(i + 1),
            None => None,
        }
    }
}

/// Where `p` first occurs, it occurs.
pub proof fn lemma_find_bytes(s: Seq<u8>, p: Seq<u8>)
    ensures
        find_bytes(s, p) matches Some(i) ==> 0 <= i && i + p.len() <= s.len() && s.subrange(
            i,
            i + p.len(),
        ) == p,
    decreases s.len(),
{
    if s.len() < p.len() || s.subrange(0, p.len() as int) == p || s.len() == 0 {
    } else {
        let t = s.subrange(1, s.len() as int);
        lemma_find_bytes(t, p);
        if let Some(i) = find_bytes(t, p) {
            assert(s.subrange(i + 1, i + 1 + p.len()) =~= t.subrange(i, i + p.len()));
        }
    }
}

/// Whether `p` stands at position `at` of `s`.
fn bytes_at(s: &[u8], at: usize, p: &Vec<u8>) -> (r: bool)
    requires
        at <= s@.len(),
    ensures
        r == (at + p@.len() <= s@.len() && s@.subrange(at as int, at + p@.len()) == p@),
{
    let n: usize = s.len();
    if p.len() > n - at {
        return false;
    }
    let mut i: usize = 0;
    while i < p.len()
        invariant
            n == s@.len(),
            i <= p@.len(),
            at + p@.len() <= s@.len(),
            forall|k: int| 0 <= k < i ==> s@[at + k] == #[trigger] p@[k],
        decreases p@.len() - i,
    {
        if s[at + i] != p[i] {
            assert(s@.subrange(at as int, at + p@.len())[i as int] != p@[i as int]);
            return false;
        }
        i = i + 1;
    }
    assert(s@.subrange(at as int, at + p@.len()) =~= p@);
    true
}

/// Where `p` first occurs in `s` from position `from` on, counted from there.
fn position_from(s: &[u8], from: usize, p: &Vec<u8>) -> (r: Option<usize>)
    requires
        from <= s@.len(),
    ensures
        match r {
            Some(i) => find_bytes(s@.subrange(from as int, s@.len() as int), p@) == Some(i as int)
                && from + i + p@.len() <= s@.len(),
            None => find_bytes(s@.subrange(from as int, s@.len() as int), p@) is None,
        },
{
    let mut i: usize = from;
    loop
        invariant
            from <= i <= s@.len(),
            find_bytes(s@.subrange(from as int, s@.len() as int), p@) == match find_bytes(
                s@.subrange(i as int, s@.len() as int),
                p@,
            ) {
                Some(k) => Some(k + (i - from)),
                None => None,
            },
        decreases s@.len() - i,
    {
        let ghost here = s@.subrange(i as int, s@.len() as int);
        if p.len() > s.len() - i {
            return None;
        }
        proof {
            assert(here.subrange(0, p@.len() as int) =~= s@.subrange(i as int, i + p@.len()));
        }
        if bytes_at(s, i, p) {
            return Some(i - from);
        }
        if i == s.len() {
            return None;
        }
        proof {
            assert(here.subrange(1, here.len() as int) =~= s@.subrange(i + 1, s@.len() as int));
        }
        i = i + 1;
    }
}

/// A copy of `s[from..to]`.
pub fn bytes_between(s: &[u8], from: usize, to: usize) -> (r: Vec<u8>)
    requires
        from <= to <= s@.len(),
    ensures
        r@ == s@.subrange(from as int, to as int),
{
    let mut r: Vec<u8> = Vec::new();
    let mut i: usize = from;
    while i < to
        invariant
            from <= i <= to <= s@.len(),
            r@ == s@.subrange(from as int, i as int),
        decreases to - i,
    {
        r.push(s[i]);
        i = i + 1;
    }
    r
}

/// Calls std's `str::from_utf8`: the text that the bytes encode, if they are UTF-8.
#[verifier::external_body]
fn utf8_text(bytes: &[u8]) -> (r: Option<String>)
    ensures
        match r {
            Some(s) => valid_utf8(bytes@) && s@ == decode_utf8(bytes@),
            None => !valid_utf8(bytes@),
        },
{
    std::str::from_utf8(bytes).ok().map(|text| text.to_string())
}

/// What stands before the first `c` of `s`.
pub open spec fn before_first(s: Seq<char>, c: char) -> Seq<char> {
    match split_first(s, c) {
        Some((head, rest)) => head,
        None => s,
    }
}

/// A line without the carriage return at its end.
pub open spec fn without_cr(s: Seq<char>) -> Seq<char> {
    if s.len() > 0 && s.last() == '\r' {
        s.drop_last()
    } else {
        s
    }
}

/// The lines of a text; a line ends with a line feed, alone or after a carriage return.
pub open spec fn lines(s: Seq<char>) -> Seq<Seq<char>>
    decreases s.len(),
{
    if s.len() == 0 {
        Seq::empty()
    } else {
        match split_first(s, '\n') {
            Some((line, rest)) => if rest.len() < s.len() {
                seq![without_cr(line)] + lines(rest)
            } else {
                Seq::empty()
            },
            None => seq![s],
        }
    }
}

/// The lines of `s`.
pub fn lines_of(s: &str) -> (r: Vec<String>)
    ensures
        views(r@) == lines(s@),
{
    let mut r: Vec<String> = Vec::new();
    let mut rest: String = s.to_owned();
    assert(views(r@) + lines(rest@) =~= lines(s@));
    loop
        invariant
            views(r@) + lines(rest@) == lines(s@),
        decreases rest@.len(),
    {
        if rest.as_str().is_empty() {
            assert(views(r@) + lines(rest@) =~= views(r@));
            return r;
        }
        match split_once(rest.as_str(), '\n') {
            Some((line, more)) => {
                let mut chars = chars_of(line.as_str());
                if chars.len() > 0 && chars[chars.len() - 1] == '\r' {
                    let _ = chars.pop();
                }
                let line = string_of(&chars);
                let ghost before = r@;
                proof {
                    lemma_find(rest@, '\n');
                }
                r.push(line);
                assert(views(r@) =~= views(before).push(line@));
                assert(views(before) + (seq![line@] + lines(more@)) =~= views(r@) + lines(more@));
                rest = more;
            },
            None => {
                let ghost before = r@;
                let ghost last = rest@;
                r.push(rest);
                assert(views(r@) =~= views(before) + seq![last]);
                return r;
            },
        }
    }
}

/// The length of the word at the beginning of a text.
pub open spec fn word_len(s: Seq<char>) -> int
    decreases s.len(),
{
    if s.len() == 0 || white_space(s[0]) {
        0
    } else {
        1 + word_len(s.subrange(1, s.len() as int))
    }
}

/// The second of the words that white space separates.
pub open spec fn second_word(s: Seq<char>) -> Option<Seq<char>> {
    let first = trim_start(s);
    let rest = trim_start(first.subrange(word_len(first), first.len() as int));
    if rest.len() == 0 {
        None
    } else {
        Some(rest.subrange(0, word_len(rest)))
    }
}

/// The position after the white space at `from`.
fn skip_space(c: &Vec<char>, from: usize) -> (r: usize)
    requires
        from <= c@.len(),
    ensures
        from <= r <= c@.len(),
        trim_start(c@.subrange(from as int, c@.len() as int)) == c@.subrange(
            r as int,
            c@.len() as int,
        ),
{
    let mut i: usize = from;
    while i < c.len() && is_white_space(c[i])
        invariant
            from <= i <= c@.len(),
            trim_start(c@.subrange(from as int, c@.len() as int)) == trim_start(
                c@.subrange(i as int, c@.len() as int),
            ),
        decreases c@.len() - i,
    {
        let ghost here = c@.subrange(i as int, c@.len() as int);
        assert(here.subrange(1, here.len() as int) =~= c@.subrange(i + 1, c@.len() as int));
        i = i + 1;
    }
    i
}

/// The position after the word at `from`.
fn skip_word(c: &Vec<char>, from: usize) -> (r: usize)
    requires
        from <= c@.len(),
    ensures
        from <= r <= c@.len(),
        r - from == word_len(c@.subrange(from as int, c@.len() as int)),
{
    let mut i: usize = from;
    while i < c.len() && !is_white_space(c[i])
        invariant
            from <= i <= c@.len(),
            word_len(c@.subrange(from as int, c@.len() as int)) == (i - from) + word_len(
                c@.subrange(i as int, c@.len() as int),
            ),
        decreases c@.len() - i,
    {
        let ghost here = c@.subrange(i as int, c@.len() as int);
        assert(here.subrange(1, here.len() as int) =~= c@.subrange(i + 1, c@.len() as int));
        i = i + 1;
    }
    i
}

/// The second word of `s`.
pub fn second_word_of(s: &str) -> (r: Option<String>)
    ensures
        match r {
            Some(word) => second_word(s@) == Some(word@),
            None => second_word(s@) is None,
        },
{
    let c = chars_of(s);
    let n: usize = c.len();
    assert(c@.subrange(0, n as int) =~= s@);
    let first: usize = skip_space(&c, 0);
    let end: usize = skip_word(&c, first);
    let second: usize = skip_space(&c, end);
    proof {
        let t = c@.subrange(first as int, n as int);
        assert(t.subrange(word_len(t), t.len() as int) =~= c@.subrange(end as int, n as int));
    }
    if second == n {
        return None;
    }
    let stop: usize = skip_word(&c, second);
    proof {
        let rest = c@.subrange(second as int, n as int);
        assert(rest.subrange(0, word_len(rest)) =~= c@.subrange(second as int, stop as int));
    }
    Some(string_from(&c, second, stop))
}

/// The body that a sequence of chunks carries.
pub open spec fn chunked_body(input: Seq<u8>) -> Result<Seq<u8>, HttpError>
    decreases input.len(),
{
    match find_bytes(input, crlf()) {
        None => Err(HttpError::ChunkSizeIncomplete),
        Some(end) => if !valid_utf8(input.subrange(0, end)) {
            Err(HttpError::InvalidText)
        } else {
            match unsigned_number(
                before_first(decode_utf8(input.subrange(0, end)), ';'),
                16,
                usize::MAX as int,
            ) {
                None => Err(HttpError::InvalidChunkSize),
                Some(size) => {
                    let rest = input.subrange(end + 2, input.len() as int);
                    if size == 0 {
                        Ok(Seq::empty())
                    } else if rest.len() < size + 2 || rest.subrange(size, size + 2) != crlf() {
                        Err(HttpError::ChunkBodyIncomplete)
                    } else {
                        proof {
                            lemma_find_bytes(input, crlf());
                            lemma_number_not_negative(
                                before_first(decode_utf8(input.subrange(0, end)), ';'),
                            );
                        }
                        match chunked_body(rest.subrange(size + 2, rest.len() as int)) {
                            Ok(more) => Ok(rest.subrange(0, size) + more),
                            Err(e) => Err(e),
                        }
                    }
                },
            }
        },
    }
}

/// A hexadecimal number is not negative.
pub proof fn lemma_number_not_negative(s: Seq<char>)
    ensures
        unsigned_number(s, 16, usize::MAX as int) matches Some(n) ==> n >= 0,
{
    let digits = without_sign(s, '+');
    lemma_digits_value_grows(digits, digits.len() as int, 16);
    assert(digits.subrange(0, digits.len() as int) == digits);
}

/// The body that the chunks in `input` carry.
pub fn decode_chunked(input: &[u8]) -> (r: Result<Vec<u8>, HttpError>)
    ensures
        match r {
            Ok(body) => chunked_body(input@) == Ok::<Seq<u8>, HttpError>(body@),
            Err(e) => chunked_body(input@) == Err::<Seq<u8>, HttpError>(e),
        },
{
    let mut line_end: Vec<u8> = Vec::new();
    line_end.push(13);
    line_end.push(10);
    let n: usize = input.len();
    let mut output: Vec<u8> = Vec::new();
    let mut pos: usize = 0;
    assert(input@.subrange(0, n as int) =~= input@);
    assert(chunked_body(input@) matches Ok(t) ==> output@ + t =~= t);
    loop
        invariant
            line_end@ == crlf(),
            n == input@.len(),
            pos <= n,
            chunked_body(input@) == match chunked_body(input@.subrange(pos as int, n as int)) {
                Ok(t) => Ok::<Seq<u8>, HttpError>(output@ + t),
                Err(e) => Err(e),
            },
        decreases n - pos,
    {
        let ghost here = input@.subrange(pos as int, n as int);
        let end: usize = match position_from(input, pos, &line_end) {
            Some(i) => i,
            None => {
                return Err(HttpError::ChunkSizeIncomplete);
            },
        };
        let size_bytes = bytes_between(input, pos, pos + end);
        assert(here.subrange(0, end as int) =~= size_bytes@);
        let size_text = match utf8_text(size_bytes.as_slice()) {
            Some(s) => s,
            None => {
                return Err(HttpError::InvalidText);
            },
        };
        let digits = match split_once(size_text.as_str(), ';') {
            Some((head, rest)) => head,
            None => size_text,
        };
        let size: u64 = match parse_unsigned(digits.as_str(), 16, usize::MAX as u64) {
            Some(v) => v,
            None => {
                return Err(HttpError::InvalidChunkSize);
            },
        };
        let start: usize = pos + end + 2;
        let ghost rest = here.subrange(end + 2, here.len() as int);
        assert(rest =~= input@.subrange(start as int, n as int));
        if size == 0 {
            assert(output@ + Seq::<u8>::empty() =~= output@);
            return Ok(output);
        }
        let left: usize = n - start;
        if left < 2 || size > (left - 2) as u64 {
            return Err(HttpError::ChunkBodyIncomplete);
        }
        let size: usize = size as usize;
        assert(rest.subrange(size as int, size + 2) =~= input@.subrange(
            start + size,
            start + size + 2,
        ));
        if !bytes_at(input, start + size, &line_end) {
            return Err(HttpError::ChunkBodyIncomplete);
        }
        let ghost before = output@;
        let mut i: usize = 0;
        while i < size
            invariant
                i <= size,
                start + size <= n,
                n == input@.len(),
                output@ == before + input@.subrange(start as int, start + i),
            decreases size - i,
        {
            output.push(input[start + i]);
            i = i + 1;
            assert(output@ =~= before + input@.subrange(start as int, start + i));
        }
        proof {
            let next = input@.subrange(start + size + 2, n as int);
            assert(rest.subrange(size + 2, rest.len() as int) =~= next);
            assert(rest.subrange(0, size as int) =~= input@.subrange(start as int, start + size));
            if let Ok(t) = chunked_body(next) {
                assert(output@ + t =~= before + (rest.subrange(0, size as int) + t));
            }
        }
        pos = start + size + 2;
    }
}

/// Whether a header line says that the body comes in chunks.
pub open spec fn says_chunked(line: Seq<char>) -> bool {
    match split_first(line, ':') {
        Some((name, value)) => ascii_lowered(name) == ascii_lowered("transfer-encoding"@)
            && has_part(ascii_lowered(value), "chunked"@),
        None => false,
    }
}

/// Whether `line` says that the body comes in chunks.
fn line_says_chunked(line: &str) -> (r: bool)
    ensures
        r == says_chunked(line@),
{
    match split_once(line, ':') {
        Some((name, value)) => same_ignoring_ascii_case(name.as_str(), "transfer-encoding")
            && contains_part(to_ascii_lower(value.as_str()).as_str(), "chunked"),
        None => false,
    }
}

/// Whether the header lines after the first say that the body comes in chunks.
pub open spec fn is_chunked(lines: Seq<Seq<char>>) -> bool {
    exists|i: int| 1 <= i < lines.len() && says_chunked(#[trigger] lines[i])
}

/// Status and body of a response.
pub open spec fn response_parts(response: Seq<u8>) -> Result<(int, Seq<u8>), HttpError> {
    match find_bytes(response, header_end()) {
        None => Err(HttpError::HeadersIncomplete),
        Some(end) => if !valid_utf8(response.subrange(0, end)) {
            Err(HttpError::InvalidText)
        } else {
            let header_lines = lines(decode_utf8(response.subrange(0, end)));
            let status_text = if header_lines.len() == 0 {
                None
            } else {
                second_word(header_lines[0])
            };
            let body = response.subrange(end + 4, response.len() as int);
            match status_text {
                None => Err(HttpError::StatusMissing),
                Some(word) => match unsigned_number(word, 10, u16::MAX as int) {
                    None => Err(HttpError::InvalidStatus),
                    Some(status) => if is_chunked(header_lines) {
                        match chunked_body(body) {
                            Ok(decoded) => Ok((status, decoded)),
                            Err(e) => Err(e),
                        }
                    } else {
                        Ok((status, body))
                    },
                },
            }
        },
    }
}

/// Status and body of a response.
pub fn parse_http_response(response: &[u8]) -> (r: Result<(u16, Vec<u8>), HttpError>)
    ensures
        match r {
            Ok((status, body)) => response_parts(response@) == Ok::<(int, Seq<u8>), HttpError>(
                (status as int, body@),
            ),
            Err(e) => response_parts(response@) == Err::<(int, Seq<u8>), HttpError>(e),
        },
{
    let mut mark: Vec<u8> = Vec::new();
    mark.push(13);
    mark.push(10);
    mark.push(13);
    mark.push(10);
    assert(mark@ =~= header_end());
    assert(response@.subrange(0, response@.len() as int) =~= response@);
    let end: usize = match position_from(response, 0, &mark) {
        Some(i) => i,
        None => {
            return Err(HttpError::HeadersIncomplete);
        },
    };
    let header_bytes = bytes_between(response, 0, end);
    let headers = match utf8_text(header_bytes.as_slice()) {
        Some(s) => s,
        None => {
            return Err(HttpError::InvalidText);
        },
    };
    let header_lines = lines_of(headers.as_str());
    let ghost all = lines(headers@);
    assert(header_lines@.len() == all.len());
    assert(forall|k: int|
        0 <= k < all.len() ==> (#[trigger] views(header_lines@)[k]) == header_lines@[k]@);
    let word = if header_lines.len() == 0 {
        None
    } else {
        assert(views(header_lines@)[0] == header_lines@[0]@);
        second_word_of(header_lines[0].as_str())
    };
    let word = match word {
        Some(w) => w,
        None => {
            return Err(HttpError::StatusMissing);
        },
    };
    let status: u64 = match parse_unsigned(word.as_str(), 10, u16::MAX as u64) {
        Some(v) => v,
        None => {
            return Err(HttpError::InvalidStatus);
        },
    };
    let mut chunked: bool = false;
    let mut i: usize = 1;
    while i < header_lines.len() && !chunked
        invariant
            1 <= i,
            i <= header_lines@.len() || i == 1,
            views(header_lines@) == all,
            header_lines@.len() == all.len(),
            chunked <==> exists|k: int| 1 <= k < i && k < all.len() && says_chunked(#[trigger] all[k]),
        decreases header_lines@.len() - i,
    {
        assert(all[i as int] == header_lines@[i as int]@);
        chunked = line_says_chunked(header_lines[i].as_str());
        i = i + 1;
    }
    assert(chunked == is_chunked(all));
    let total: usize = response.len();
    let body = bytes_between(response, end + 4, total);
    if chunked {
        match decode_chunked(body.as_slice()) {
            Ok(decoded) => Ok((status as u16, decoded)),
            Err(e) => Err(e),
        }
    } else {
        Ok((status as u16, body))
    }
}

/// A chunk as it travels: its size line, its data and a line end.
pub open spec fn chunk(size_line: Seq<u8>, data: Seq<u8>) -> Seq<u8> {
    size_line + crlf() + data + crlf()
}

/// Whether `size_line` announces a chunk of `size` bytes.
pub open spec fn announces(size_line: Seq<u8>, size: int) -> bool {
    find_bytes(size_line, crlf()) is None && valid_utf8(size_line) && unsigned_number(
        before_first(decode_utf8(size_line), ';'),
        16,
        usize::MAX as int,
    ) == Some(size)
}

/// A line that holds no line end, followed by one, ends there.
proof fn lemma_line_ends_at_its_end(line: Seq<u8>, rest: Seq<u8>)
    requires
        find_bytes(line, crlf()) is None,
    ensures
        find_bytes(line + crlf() + rest, crlf()) == Some(line.len() as int),
    decreases line.len(),
{
    let s = line + crlf() + rest;
    if line.len() == 0 {
        assert(s.subrange(0, 2) =~= crlf());
    } else {
        let tail = line.subrange(1, line.len() as int);
        if line.len() >= 2 {
            assert(line.subrange(0, 2) != crlf());
            assert(s.subrange(0, 2) =~= line.subrange(0, 2));
        } else {
            assert(s.subrange(0, 2)[1] == 13u8);
            assert(s.subrange(0, 2) != crlf());
            assert(find_bytes(tail, crlf()) is None);
        }
        lemma_line_ends_at_its_end(tail, rest);
        assert(s.subrange(1, s.len() as int) =~= tail + crlf() + rest);
    }
}

/// Decoding gives back what was sent in chunks: a chunk in front of an encoded body adds its data
/// in front of the decoded body.
pub proof fn decoding_reads_chunk_after_chunk(size_line: Seq<u8>, data: Seq<u8>, rest: Seq<u8>)
    requires
        data.len() > 0,
        announces(size_line, data.len() as int),
    ensures
        chunked_body(chunk(size_line, data) + rest) == match chunked_body(rest) {
            Ok(more) => Ok::<Seq<u8>, HttpError>(data + more),
            Err(e) => Err(e),
        },
{
    let input = chunk(size_line, data) + rest;
    let after = data + crlf() + rest;
    assert(input =~= size_line + crlf() + after);
    lemma_line_ends_at_its_end(size_line, after);
    let n = size_line.len() as int;
    assert(input.subrange(0, n) =~= size_line);
    assert(input.subrange(n + 2, input.len() as int) =~= after);
    let size = data.len() as int;
    assert(after.subrange(size, size + 2) =~= crlf());
    assert(after.subrange(0, size) =~= data);
    assert(after.subrange(size + 2, after.len() as int) =~= rest);
}

/// A chunk of size zero ends the body, whatever follows it.
pub proof fn an_empty_chunk_ends_the_body(size_line: Seq<u8>, rest: Seq<u8>)
    requires
        announces(size_line, 0),
    ensures
        chunked_body(size_line + crlf() + rest) == Ok::<Seq<u8>, HttpError>(Seq::empty()),
{
    let input = size_line + crlf() + rest;
    lemma_line_ends_at_its_end(size_line, rest);
    assert(input.subrange(0, size_line.len() as int) =~= size_line);
}

/// How many bytes of `input` its chunks take, up to and with the line of the empty chunk.
pub open spec fn chunks_length(input: Seq<u8>) -> int
    decreases input.len(),
{
    match (find_bytes(input, crlf()), chunked_body(input)) {
        (Some(end), Ok(_)) => match unsigned_number(
            before_first(decode_utf8(input.subrange(0, end)), ';'),
            16,
            usize::MAX as int,
        ) {
            Some(size) => if size == 0 {
                end + 2
            } else {
                proof {
                    lemma_find_bytes(input, crlf());
                    lemma_number_not_negative(
                        before_first(decode_utf8(input.subrange(0, end)), ';'),
                    );
                }
                let rest = input.subrange(end + 2, input.len() as int);
                end + 2 + size + 2 + chunks_length(rest.subrange(size + 2, rest.len() as int))
            },
            None => 0,
        },
        _ => 0,
    }
}

/// What is found in a text is found in each part from its beginning that reaches so far, and in no
/// shorter one.
proof fn lemma_find_in_beginning(s: Seq<u8>, p: Seq<u8>, cut: int)
    requires
        0 <= cut <= s.len(),
        p.len() > 0,
        find_bytes(s, p) is Some,
    ensures
        find_bytes(s.take(cut), p) == (if find_bytes(s, p).unwrap() + p.len() <= cut {
            find_bytes(s, p)
        } else {
            None
        }),
    decreases s.len(),
{
    let t = s.take(cut);
    lemma_find_bytes(s, p);
    if p.len() <= cut {
        assert(t.subrange(0, p.len() as int) =~= s.subrange(0, p.len() as int));
        if s.subrange(0, p.len() as int) != p {
            let tail = s.subrange(1, s.len() as int);
            assert(t.subrange(1, t.len() as int) =~= tail.take(cut - 1));
            lemma_find_in_beginning(tail, p, cut - 1);
        }
    }
}

/// A body in chunks that is cut off before the end of its last line is refused; what follows that
/// line makes no difference.
pub proof fn a_body_cut_off_is_refused(input: Seq<u8>, cut: int)
    requires
        chunked_body(input) is Ok,
        0 <= cut <= input.len(),
    ensures
        0 < chunks_length(input) <= input.len(),
        cut < chunks_length(input) ==> chunked_body(input.take(cut)) is Err,
        cut >= chunks_length(input) ==> chunked_body(input.take(cut)) == chunked_body(input),
    decreases input.len(),
{
    let part = input.take(cut);
    let end = find_bytes(input, crlf()).unwrap();
    lemma_find_bytes(input, crlf());
    lemma_find_in_beginning(input, crlf(), cut);
    let line = input.subrange(0, end);
    let size = unsigned_number(
        before_first(decode_utf8(line), ';'),
        16,
        usize::MAX as int,
    ).unwrap();
    lemma_number_not_negative(before_first(decode_utf8(line), ';'));
    let rest = input.subrange(end + 2, input.len() as int);
    if size > 0 {
        let next = rest.subrange(size + 2, rest.len() as int);
        assert(chunked_body(next) is Ok);
        a_body_cut_off_is_refused(next, 0);
        if end + 2 <= cut {
            assert(part.subrange(0, end) =~= line);
            let part_rest = part.subrange(end + 2, part.len() as int);
            assert(part_rest =~= rest.take(cut - end - 2));
            if part_rest.len() >= size + 2 {
                assert(part_rest.subrange(size, size + 2) =~= rest.subrange(size, size + 2));
                assert(part_rest.subrange(0, size) =~= rest.subrange(0, size));
                let left = cut - end - 4 - size;
                assert(part_rest.subrange(size + 2, part_rest.len() as int) =~= next.take(left));
                a_body_cut_off_is_refused(next, left);
            }
        }
    } else if end + 2 <= cut {
        assert(part.subrange(0, end) =~= line);
    }
}

/// What is found in the beginning of some bytes is found there in all of them.
proof fn lemma_found_stays_found(s: Seq<u8>, p: Seq<u8>, more: Seq<u8>)
    requires
        p.len() > 0,
        find_bytes(s, p) is Some,
    ensures
        find_bytes(s + more, p) == find_bytes(s, p),
    decreases s.len(),
{
    let all = s + more;
    assert(all.subrange(0, p.len() as int) =~= s.subrange(0, p.len() as int));
    if s.subrange(0, p.len() as int) != p {
        let tail = s.subrange(1, s.len() as int);
        lemma_found_stays_found(tail, p, more);
        assert(all.subrange(1, all.len() as int) =~= tail + more);
    }
}

/// The body of a response is what follows the first empty line: all of it as it came, or what its
/// chunks carry where a header says that it comes in chunks. The status is the number in the second
/// word of the first line.
pub proof fn a_response_is_head_and_body(head: Seq<u8>, body: Seq<u8>, word: Seq<char>, status: int)
    requires
        find_bytes(head + header_end(), header_end()) == Some(head.len() as int),
        valid_utf8(head),
        lines(decode_utf8(head)).len() > 0,
        second_word(lines(decode_utf8(head))[0]) == Some(word),
        unsigned_number(word, 10, u16::MAX as int) == Some(status),
    ensures
        !is_chunked(lines(decode_utf8(head))) ==> response_parts(head + header_end() + body) == Ok::<
            (int, Seq<u8>),
            HttpError,
        >((status, body)),
        is_chunked(lines(decode_utf8(head))) ==> match (
            chunked_body(body),
            response_parts(head + header_end() + body),
        ) {
            (Ok(decoded), Ok((found, given))) => found == status && given == decoded,
            (Err(e), Err(f)) => e == f,
            _ => false,
        },
{
    let all = head + header_end() + body;
    lemma_found_stays_found(head + header_end(), header_end(), body);
    assert(all.subrange(0, head.len() as int) =~= head);
    assert(all.subrange(head.len() as int + 4, all.len() as int) =~= body);
}

/// A response without an empty line is incomplete.
pub proof fn a_head_without_end_is_refused(response: Seq<u8>)
    requires
        find_bytes(response, header_end()) is None,
    ensures
        response_parts(response) == Err::<(int, Seq<u8>), HttpError>(HttpError::HeadersIncomplete),
{
}

/// A text that ends its first line is that line and the lines of the rest; the carriage return
/// before the line feed does not belong to the line.
pub proof fn lines_end_at_line_feeds(line: Seq<char>, rest: Seq<char>)
    requires
        forall|i: int| 0 <= i < line.len() ==> #[trigger] line[i] != '\n',
    ensures
        lines(line + seq!['\r', '\n'] + rest) == seq![line] + lines(rest),
        line.len() > 0 && line.last() != '\r' ==> lines(line + seq!['\n'] + rest) == seq![line]
            + lines(rest),
        line.len() > 0 ==> lines(line) == seq![line],
{
    let with_return = line + seq!['\r'];
    let all = line + seq!['\r', '\n'] + rest;
    let n = with_return.len() as int;
    assert(all[n] == '\n');
    assert forall|k: int| 0 <= k < n implies #[trigger] all[k] != '\n' by {
        if k < line.len() {
            assert(all[k] == line[k]);
        }
    }
    crate::text::lemma_find_is(all, '\n', n);
    assert(all.subrange(0, n) =~= with_return);
    assert(with_return.drop_last() =~= line);
    assert(all.subrange(n + 1, all.len() as int) =~= rest);
    let plain = line + seq!['\n'] + rest;
    let m = line.len() as int;
    assert(plain[m] == '\n');
    assert forall|k: int| 0 <= k < m implies #[trigger] plain[k] != '\n' by {
        assert(plain[k] == line[k]);
    }
    crate::text::lemma_find_is(plain, '\n', m);
    assert(plain.subrange(0, m) =~= line);
    assert(plain.subrange(m + 1, plain.len() as int) =~= rest);
    crate::text::lemma_find_is(line, '\n', m);
}

/// A word that white space follows ends there.
proof fn lemma_word_ends(word: Seq<char>, rest: Seq<char>)
    requires
        forall|i: int| 0 <= i < word.len() ==> !white_space(#[trigger] word[i]),
        rest.len() > 0 ==> white_space(rest[0]),
    ensures
        word_len(word + rest) == word.len(),
    decreases word.len(),
{
    let s = word + rest;
    if word.len() > 0 {
        let tail = word.subrange(1, word.len() as int);
        assert(s[0] == word[0]);
        assert forall|i: int| 0 <= i < tail.len() implies !white_space(#[trigger] tail[i]) by {
            assert(tail[i] == word[i + 1]);
        }
        lemma_word_ends(tail, rest);
        assert(s.subrange(1, s.len() as int) =~= tail + rest);
    } else {
        assert(s =~= rest);
    }
}

/// Of words with single spaces between them the second is found, whatever follows it.
pub proof fn the_second_word_is_found(first: Seq<char>, second: Seq<char>, rest: Seq<char>)
    requires
        first.len() > 0,
        second.len() > 0,
        forall|i: int| 0 <= i < first.len() ==> !white_space(#[trigger] first[i]),
        forall|i: int| 0 <= i < second.len() ==> !white_space(#[trigger] second[i]),
        rest.len() > 0 ==> white_space(rest[0]),
    ensures
        second_word(first + seq![' '] + second + rest) == Some(second),
        second_word(first) is None,
{
    let tail = second + rest;
    let s = first + seq![' '] + second + rest;
    assert(s =~= first + (seq![' '] + tail));
    assert(s[0] == first[0]);
    assert(trim_start(s) == s);
    lemma_word_ends(first, seq![' '] + tail);
    let after = s.subrange(first.len() as int, s.len() as int);
    assert(after =~= seq![' '] + tail);
    assert(after.subrange(1, after.len() as int) =~= tail);
    assert(tail[0] == second[0]);
    assert(trim_start(tail) == tail);
    assert(trim_start(after) == tail);
    lemma_word_ends(second, rest);
    assert(tail.subrange(0, second.len() as int) =~= second);
    lemma_word_ends(first, Seq::empty());
    assert(first + Seq::<char>::empty() =~= first);
    assert(first.subrange(first.len() as int, first.len() as int) =~= Seq::<char>::empty());
}

/// A header says that the body comes in chunks whatever the case of its letters: its name is that
/// of the transfer encoding, and its value holds the word.
pub proof fn the_encoding_is_read_in_any_case(
    name: Seq<char>,
    before: Seq<char>,
    word: Seq<char>,
    after: Seq<char>,
)
    requires
        ascii_lowered(name) == "transfer-encoding"@,
        ascii_lowered(word) == "chunked"@,
        forall|i: int| 0 <= i < name.len() ==> #[trigger] name[i] != ':',
    ensures
        says_chunked(name + seq![':'] + (before + word + after)),
{
    let value = before + word + after;
    let low = ascii_lowered(value);
    a_text_is_split_at_its_first_mark(name, ':', value);
    reveal_strlit("transfer-encoding");
    assert(ascii_lowered("transfer-encoding"@) =~= "transfer-encoding"@);
    let n = before.len() as int;
    assert forall|i: int| 0 <= i < word.len() implies low[n + i] == #[trigger] "chunked"@[i] by {
        assert(ascii_lowered(word)[i] == "chunked"@[i]);
        assert(value[n + i] == word[i]);
    }
    assert("chunked"@.len() == word.len());
    assert(low.subrange(n, n + "chunked"@.len()) =~= "chunked"@);
}

/// A header of another name does not, whatever its value.
pub proof fn other_headers_say_nothing_of_chunks(name: Seq<char>, value: Seq<char>)
    requires
        ascii_lowered(name) != "transfer-encoding"@,
        forall|i: int| 0 <= i < name.len() ==> #[trigger] name[i] != ':',
    ensures
        !says_chunked(name + seq![':'] + value),
        !says_chunked(name),
{
    a_text_is_split_at_its_first_mark(name, ':', value);
    reveal_strlit("transfer-encoding");
    assert(ascii_lowered("transfer-encoding"@) =~= "transfer-encoding"@);
}

/// A response comes in chunks if one of its headers says so; the line before them, with the status,
/// says nothing of it.
pub proof fn one_header_is_enough(lines: Seq<Seq<char>>, line: Seq<char>)
    ensures
        !is_chunked(seq![line]),
        lines.len() > 0 ==> (is_chunked(lines.push(line)) <==> is_chunked(lines) || says_chunked(
            line,
        )),
{
    let all = lines.push(line);
    if lines.len() > 0 {
        if is_chunked(lines) {
            let i = choose|i: int| 1 <= i < lines.len() && says_chunked(#[trigger] lines[i]);
            assert(says_chunked(all[i]));
        }
        if says_chunked(line) {
            assert(says_chunked(all[lines.len() as int]));
        }
        if is_chunked(all) {
            let i = choose|i: int| 1 <= i < all.len() && says_chunked(#[trigger] all[i]);
            if i < lines.len() {
                assert(says_chunked(lines[i]));
            }
        }
    }
}

} // verus!
