//! Header blocks: a name and a value on each line.
//!
//! Every line of a block is kept, in order and with its name as it was
//! written. A lookup compares names without regard to case and answers with
//! the first line that matches.

use crate::bytes::{
    eq, eq_ignore_case, first_index, is_first_index, position, trim, trim_chars, trim_text,
    trimmed, COLON, CR, LF,
};
use crate::error::{Error, ErrorKind};
use vstd::prelude::*;
use vstd::slice::{slice_subrange, slice_to_vec};
use vstd::string::StringSliceAdditionalSpecFns;
use vstd::utf8::encode_utf8;

verus! {

/// The longest header line that is accepted unless the caller says otherwise.
pub const MAX_HEADER_SIZE: usize = 1024;

/// The most header lines that are accepted unless the caller says otherwise.
pub const MAX_HEADER_COUNT: usize = 64;

/// The bounds that a header block is held to.
#[derive(Clone, Copy, Debug, PartialEq, Eq, Structural)]
pub struct Limits {
    /// The most bytes in one line, its line break not counted.
    pub max_line: usize,
    /// The most lines in a block.
    pub max_count: usize,
}

/// What is wrong with a header block.
#[derive(Clone, Copy, Debug, PartialEq, Eq, Structural)]
pub enum Fault {
    TooLong,
    NoColon,
    TooMany,
}

impl Fault {
    pub open spec fn message_spec(self) -> &'static str {
        match self {
            Fault::TooLong => "HTTP header size larger than supported",
            Fault::NoColon => "HTTP header must be a key-value separated by a colon",
            Fault::TooMany => "HTTP header count larger than supported",
        }
    }

    pub fn message(self) -> (r: &'static str)
        ensures
            r == self.message_spec(),
    {
        match self {
            Fault::TooLong => "HTTP header size larger than supported",
            Fault::NoColon => "HTTP header must be a key-value separated by a colon",
            Fault::TooMany => "HTTP header count larger than supported",
        }
    }

    /// The error that a block with this fault is refused with.
    pub open spec fn error_spec(self) -> Error {
        Error::plain(ErrorKind::BadHeader, Some(self.message_spec()))
    }

    pub fn error(self) -> (r: Error)
        ensures
            r == self.error_spec(),
    {
        ErrorKind::BadHeader.msg(self.message())
    }
}

/// A line without the carriage return at its end, if it has one.
pub open spec fn strip_cr(line: Seq<u8>) -> Seq<u8> {
    if line.len() > 0 && line.last() == CR {
        line.drop_last()
    } else {
        line
    }
}

/// The lines of a block. A line ends at a line feed, CRLF or bare; what
/// follows the last line feed is a line too, unless nothing follows.
pub open spec fn split_lines(buf: Seq<u8>) -> Seq<Seq<u8>>
    decreases buf.len(),
{
    if buf.len() == 0 {
        Seq::empty()
    } else {
        match first_index(buf, LF) {
            None => seq![buf],
            Some(i) => if 0 <= i < buf.len() {
                seq![strip_cr(buf.take(i))] + split_lines(buf.skip(i + 1))
            } else {
                seq![buf]
            },
        }
    }
}

/// Name and value of a line: what stands before its first colon, and what
/// stands behind it without the white space at either end.
pub open spec fn entry_of(line: Seq<u8>) -> Option<(Seq<u8>, Seq<u8>)> {
    match first_index(line, COLON) {
        None => None,
        Some(c) => Some((line.take(c), trim(line.skip(c + 1)))),
    }
}

/// The line at place `index` of a block, held to the limits.
pub open spec fn check_line(line: Seq<u8>, index: int, limits: Limits) -> Result<
    (Seq<u8>, Seq<u8>),
    Fault,
> {
    if index >= limits.max_count {
        Err(Fault::TooMany)
    } else if line.len() > limits.max_line {
        Err(Fault::TooLong)
    } else {
        match entry_of(line) {
            None => Err(Fault::NoColon),
            Some(e) => Ok(e),
        }
    }
}

/// The entries of the lines, or the fault of the first line that has one.
pub open spec fn entries_of(lines: Seq<Seq<u8>>, limits: Limits) -> Result<
    Seq<(Seq<u8>, Seq<u8>)>,
    Fault,
>
    decreases lines.len(),
{
    if lines.len() == 0 {
        Ok(Seq::empty())
    } else {
        match entries_of(lines.drop_last(), limits) {
            Err(f) => Err(f),
            Ok(es) => match check_line(lines.last(), lines.len() - 1, limits) {
                Err(f) => Err(f),
                Ok(e) => Ok(es.push(e)),
            },
        }
    }
}

/// What a block of bytes is as headers.
pub open spec fn parse_spec(buf: Seq<u8>, limits: Limits) -> Result<
    Seq<(Seq<u8>, Seq<u8>)>,
    Fault,
> {
    entries_of(split_lines(buf), limits)
}

/// The value of the first entry whose name is `key` but for case.
pub open spec fn lookup(entries: Seq<(Seq<u8>, Seq<u8>)>, key: Seq<u8>) -> Option<Seq<u8>>
    decreases entries.len(),
{
    if entries.len() == 0 {
        None
    } else if eq_ignore_case(entries[0].0, key) {
        Some(entries[0].1)
    } else {
        lookup(entries.drop_first(), key)
    }
}

/// The values of all entries whose name is `key` but for case, in order.
pub open spec fn lookup_all(entries: Seq<(Seq<u8>, Seq<u8>)>, key: Seq<u8>) -> Seq<Seq<u8>>
    decreases entries.len(),
{
    if entries.len() == 0 {
        Seq::empty()
    } else if eq_ignore_case(entries[0].0, key) {
        seq![entries[0].1] + lookup_all(entries.drop_first(), key)
    } else {
        lookup_all(entries.drop_first(), key)
    }
}

/// A lookup does not depend on the case in which the name is given.
pub proof fn lemma_lookup_ignores_case(entries: Seq<(Seq<u8>, Seq<u8>)>, a: Seq<u8>, b: Seq<u8>)
    requires
        eq_ignore_case(a, b),
    ensures
        lookup(entries, a) == lookup(entries, b),
    decreases entries.len(),
{
    if entries.len() > 0 {
        lemma_lookup_ignores_case(entries.drop_first(), a, b);
    }
}

/// A lookup answers with the first of all the values of that name.
pub proof fn lemma_lookup_is_first(entries: Seq<(Seq<u8>, Seq<u8>)>, key: Seq<u8>)
    ensures
        lookup(entries, key) == if lookup_all(entries, key).len() > 0 {
            Some(lookup_all(entries, key)[0])
        } else {
            None
        },
    decreases entries.len(),
{
    if entries.len() > 0 && !eq_ignore_case(entries[0].0, key) {
        lemma_lookup_is_first(entries.drop_first(), key);
    }
}

/// The bytes that a name is looked up by: the name without the white space
/// at either end, in UTF-8.
pub open spec fn name_key(name: Seq<char>) -> Seq<u8> {
    encode_utf8(trim_chars(name))
}

/// The entries whose name is not `key`, whatever the case.
pub open spec fn other_than(key: Seq<u8>) -> spec_fn((Seq<u8>, Seq<u8>)) -> bool {
    |e: (Seq<u8>, Seq<u8>)| !eq_ignore_case(e.0, key)
}

/// Once a line is at fault, the lines that follow change nothing.
pub proof fn lemma_fault_stays(lines: Seq<Seq<u8>>, more: Seq<Seq<u8>>, limits: Limits)
    requires
        entries_of(lines, limits) is Err,
    ensures
        entries_of(lines + more, limits) == entries_of(lines, limits),
    decreases more.len(),
{
    if more.len() == 0 {
        assert(lines + more =~= lines);
    } else {
        assert((lines + more).drop_last() =~= lines + more.drop_last());
        lemma_fault_stays(lines, more.drop_last(), limits);
    }
}

/// Lines that make a header block are within the limits, each has its
/// colon, and each gives one entry, in order.
pub proof fn lemma_accepted_lines(lines: Seq<Seq<u8>>, limits: Limits)
    requires
        entries_of(lines, limits) is Ok,
    ensures
        lines.len() <= limits.max_count,
        entries_of(lines, limits)->Ok_0.len() == lines.len(),
        forall|i: int|
            0 <= i < lines.len() ==> (#[trigger] lines[i]).len() <= limits.max_line && entry_of(
                lines[i],
            ) == Some(entries_of(lines, limits)->Ok_0[i]),
    decreases lines.len(),
{
    if lines.len() > 0 {
        lemma_accepted_lines(lines.drop_last(), limits);
        let es = entries_of(lines.drop_last(), limits)->Ok_0;
        assert forall|i: int| 0 <= i < lines.len() implies (#[trigger] lines[i]).len()
            <= limits.max_line && entry_of(lines[i]) == Some(
            entries_of(lines, limits)->Ok_0[i],
        ) by {
            if i < lines.len() - 1 {
                assert(lines.drop_last()[i] == lines[i]);
            }
        }
    }
}

/// A block with a line longer than the limit is refused.
pub proof fn lemma_long_line_refused(buf: Seq<u8>, limits: Limits, i: int)
    requires
        0 <= i < split_lines(buf).len(),
        split_lines(buf)[i].len() > limits.max_line,
    ensures
        parse_spec(buf, limits) is Err,
{
    if parse_spec(buf, limits) is Ok {
        lemma_accepted_lines(split_lines(buf), limits);
    }
}

/// A block with more lines than the limit is refused.
pub proof fn lemma_long_block_refused(buf: Seq<u8>, limits: Limits)
    requires
        split_lines(buf).len() > limits.max_count,
    ensures
        parse_spec(buf, limits) is Err,
{
    if parse_spec(buf, limits) is Ok {
        lemma_accepted_lines(split_lines(buf), limits);
    }
}

struct Header {
    name: Vec<u8>,
    value: Vec<u8>,
}

/// The headers of a response or of a request, in the order of their lines.
pub struct Headers {
    arr: Vec<Header>,
}

/// Where the line that starts at `start` ends, and where the next one starts.
fn cut_line(buf: &[u8], start: usize) -> (r: (usize, usize))
    requires
        start < buf@.len(),
    ensures
        start <= r.0 <= r.1 <= buf@.len(),
        start < r.1,
        split_lines(buf@.skip(start as int)) == seq![buf@.subrange(start as int, r.0 as int)]
            + split_lines(buf@.skip(r.1 as int)),
{
    let ghost rest = buf@.skip(start as int);
    let tail = slice_subrange(buf, start, buf.len());
    assert(tail@ =~= rest);
    match position(tail, LF) {
        Some(i) => {
            assert(is_first_index(rest, LF, i as int));
            let stop = start + i;
            let end = if i > 0 && buf[stop - 1] == CR {
                stop - 1
            } else {
                stop
            };
            proof {
                if i > 0 {
                    assert(rest.take(i as int).last() == buf@[stop - 1]);
                }
                assert(strip_cr(rest.take(i as int)) =~= buf@.subrange(start as int, end as int));
                assert(rest.skip(i + 1) =~= buf@.skip(stop + 1));
            }
            (end, stop + 1)
        },
        None => {
            proof {
                assert(buf@.subrange(start as int, buf@.len() as int) =~= rest);
                assert(split_lines(buf@.skip(buf@.len() as int)) =~= Seq::<Seq<u8>>::empty());
                assert(seq![rest] + Seq::<Seq<u8>>::empty() =~= seq![rest]);
            }
            (buf.len(), buf.len())
        },
    }
}

/// Reads the line at place `index` of a block.
fn read_entry(line: &[u8], index: usize, limits: Limits) -> (r: Result<Header, Fault>)
    ensures
        match check_line(line@, index as int, limits) {
            Ok(e) => r matches Ok(h) && (h.name@, h.value@) == e,
            Err(f) => r matches Err(g) && g == f,
        },
{
    if index >= limits.max_count {
        return Err(Fault::TooMany);
    }
    if line.len() > limits.max_line {
        return Err(Fault::TooLong);
    }
    match position(line, COLON) {
        None => Err(Fault::NoColon),
        Some(c) => {
            assert(is_first_index(line@, COLON, c as int));
            let name = slice_subrange(line, 0, c);
            let value = slice_subrange(line, c + 1, line.len());
            assert(name@ =~= line@.take(c as int));
            assert(value@ =~= line@.skip(c + 1));
            Ok(Header { name: slice_to_vec(name), value: slice_to_vec(trimmed(value)) })
        },
    }
}

impl View for Headers {
    type V = Seq<(Seq<u8>, Seq<u8>)>;

    closed spec fn view(&self) -> Seq<(Seq<u8>, Seq<u8>)> {
        Seq::new(self.arr@.len(), |i: int| (self.arr@[i].name@, self.arr@[i].value@))
    }
}

impl Headers {
    /// The limits that `parse` holds a block to.
    pub open spec fn default_limits() -> Limits {
        Limits { max_line: MAX_HEADER_SIZE, max_count: MAX_HEADER_COUNT }
    }

    pub fn new() -> (r: Self)
        ensures
            r@ == Seq::<(Seq<u8>, Seq<u8>)>::empty(),
    {
        let r = Headers { arr: Vec::new() };
        assert(r@ =~= Seq::<(Seq<u8>, Seq<u8>)>::empty());
        r
    }

    /// Adds a line at the end: the name as given, the value without the white
    /// space at either end.
    pub fn push(&mut self, name: &[u8], value: &[u8])
        ensures
            final(self)@ == old(self)@.push((name@, trim(value@))),
    {
        let h = Header { name: slice_to_vec(name), value: slice_to_vec(trimmed(value)) };
        self.arr.push(h);
        assert(self@ =~= old(self)@.push((name@, trim(value@))));
    }

    pub fn len(&self) -> (r: usize)
        ensures
            r == self@.len(),
    {
        self.arr.len()
    }

    /// The name of the line at place `i`, as it was written.
    pub fn name_at(&self, i: usize) -> (r: &[u8])
        requires
            i < self@.len(),
        ensures
            r@ == self@[i as int].0,
    {
        self.arr[i].name.as_slice()
    }

    /// The value of the line at place `i`.
    pub fn value_at(&self, i: usize) -> (r: &[u8])
        requires
            i < self@.len(),
        ensures
            r@ == self@[i as int].1,
    {
        self.arr[i].value.as_slice()
    }

    /// The values of all headers named `name`, in the order of their lines.
    pub fn all(&self, name: &str) -> (r: Vec<&[u8]>)
        ensures
            r@.len() == lookup_all(self@, name_key(name@)).len(),
            forall|i: int|
                0 <= i < r@.len() ==> (#[trigger] r@[i])@ == lookup_all(
                    self@,
                    name_key(name@),
                )[i],
    {
        let key = trim_text(name).as_bytes();
        let mut out: Vec<&[u8]> = Vec::new();
        let ghost mut found: Seq<Seq<u8>> = Seq::empty();
        let mut i: usize = 0;
        assert(self@.skip(0) =~= self@);
        assert(found + lookup_all(self@, key@) =~= lookup_all(self@, key@));
        while i < self.arr.len()
            invariant
                i <= self.arr@.len(),
                self@.len() == self.arr@.len(),
                key@ == name_key(name@),
                lookup_all(self@, key@) == found + lookup_all(self@.skip(i as int), key@),
                out@.len() == found.len(),
                forall|j: int| 0 <= j < out@.len() ==> (#[trigger] out@[j])@ == found[j],
            decreases self.arr@.len() - i,
        {
            let ghost rest = self@.skip(i as int);
            assert(rest[0] == self@[i as int]);
            assert(rest.drop_first() =~= self@.skip(i + 1));
            if eq(self.arr[i].name.as_slice(), key) {
                let v = self.arr[i].value.as_slice();
                out.push(v);
                proof {
                    assert(found.push(v@) + lookup_all(self@.skip(i + 1), key@) =~= found
                        + lookup_all(rest, key@));
                    found = found.push(v@);
                }
            }
            i += 1;
        }
        assert(found + lookup_all(self@.skip(i as int), key@) =~= found);
        out
    }

    /// Whether a header of this name is there, without regard to case.
    pub fn has(&self, name: &str) -> (r: bool)
        ensures
            r == lookup(self@, name_key(name@)) is Some,
    {
        self.header(name).is_some()
    }

    /// These headers without the lines of the name `name`.
    pub fn without(&self, name: &str) -> (r: Headers)
        ensures
            r@ == self@.filter(other_than(name_key(name@))),
    {
        let key = trim_text(name).as_bytes();
        let ghost keep = other_than(name_key(name@));
        let mut out = Headers::new();
        let mut i: usize = 0;
        assert(self@.take(0) =~= Seq::<(Seq<u8>, Seq<u8>)>::empty());
        while i < self.arr.len()
            invariant
                i <= self.arr@.len(),
                self@.len() == self.arr@.len(),
                key@ == name_key(name@),
                keep == other_than(name_key(name@)),
                out@ == self@.take(i as int).filter(keep),
            decreases self.arr@.len() - i,
        {
            proof {
                assert(self@.take(i + 1).drop_last() =~= self@.take(i as int));
                assert(self@.take(i + 1).last() == self@[i as int]);
                reveal(Seq::filter);
            }
            let ghost before = out@;
            if !eq(self.arr[i].name.as_slice(), key) {
                let h = Header { name: self.arr[i].name.clone(), value: self.arr[i].value.clone() };
                out.arr.push(h);
                assert(out@ =~= before.push(self@[i as int]));
            }
            i += 1;
        }
        assert(self@.take(i as int) =~= self@);
        out
    }

    /// Reads a header block, held to `MAX_HEADER_SIZE` and `MAX_HEADER_COUNT`.
    pub fn parse(buf: &[u8]) -> (r: Result<Headers, Error>)
        ensures
            match parse_spec(buf@, Self::default_limits()) {
                Ok(es) => r matches Ok(h) && h@ == es,
                Err(f) => r matches Err(e) && e == f.error_spec(),
            },
    {
        Self::parse_with(buf, Limits { max_line: MAX_HEADER_SIZE, max_count: MAX_HEADER_COUNT })
    }

    /// Reads a header block: the bytes of the header lines, each ended by a
    /// line break. A line longer than `limits.max_line`, a line without a
    /// colon and a line beyond the first `limits.max_count` are each refused
    /// as `BadHeader`, with a message of their own.
    pub fn parse_with(buf: &[u8], limits: Limits) -> (r: Result<Headers, Error>)
        ensures
            match parse_spec(buf@, limits) {
                Ok(es) => r matches Ok(h) && h@ == es,
                Err(f) => r matches Err(e) && e == f.error_spec(),
            },
    {
        let mut map = Headers::new();
        let mut start: usize = 0;
        let ghost mut done: Seq<Seq<u8>> = Seq::empty();
        assert(buf@.skip(0) =~= buf@);
        assert(done + split_lines(buf@) =~= split_lines(buf@));
        while start < buf.len()
            invariant
                start <= buf@.len(),
                buf@.len() == buf.len(),
                split_lines(buf@) == done + split_lines(buf@.skip(start as int)),
                entries_of(done, limits) == Ok::<Seq<(Seq<u8>, Seq<u8>)>, Fault>(map@),
                done.len() == map@.len(),
            decreases buf@.len() - start,
        {
            let (end, next) = cut_line(buf, start);
            let line = slice_subrange(buf, start, end);
            let ghost more = split_lines(buf@.skip(next as int));
            proof {
                assert(done.push(line@) + more =~= split_lines(buf@));
                assert(done.push(line@).drop_last() =~= done);
            }
            match read_entry(line, map.len(), limits) {
                Err(f) => {
                    proof {
                        lemma_fault_stays(done.push(line@), more, limits);
                    }
                    return Err(f.error());
                },
                Ok(h) => {
                    let ghost before = map@;
                    let ghost entry = (h.name@, h.value@);
                    map.arr.push(h);
                    proof {
                        assert(map@ =~= before.push(entry));
                        done = done.push(line@);
                    }
                },
            }
            start = next;
        }
        proof {
            assert(done + split_lines(buf@.skip(start as int)) =~= done);
        }
        Ok(map)
    }

    /// The value of the first header named `name`, without regard to case
    /// and to white space around `name`.
    pub fn header(&self, name: &str) -> (r: Option<&[u8]>)
        ensures
            match lookup(self@, name_key(name@)) {
                Some(v) => r matches Some(b) && b@ == v,
                None => r is None,
            },
    {
        let key = trim_text(name).as_bytes();
        let mut i: usize = 0;
        assert(self@.skip(0) =~= self@);
        while i < self.arr.len()
            invariant
                i <= self.arr@.len(),
                self@.len() == self.arr@.len(),
                key@ == name_key(name@),
                lookup(self@, key@) == lookup(self@.skip(i as int), key@),
            decreases self.arr@.len() - i,
        {
            let ghost rest = self@.skip(i as int);
            assert(rest[0] == self@[i as int]);
            assert(rest.drop_first() =~= self@.skip(i + 1));
            if eq(self.arr[i].name.as_slice(), key) {
                return Some(self.arr[i].value.as_slice());
            }
            i += 1;
        }
        None
    }
}

} // verus!
