//! The trailer block parser.
//!
//! The payload of the trailer frame is a sequence of HTTP-style header
//! lines, `name: value` pairs separated by CRLF (a bare LF is also
//! accepted).  Names must be RFC 7230 tokens and are lowercased; values may
//! hold visible octets, obs-text, spaces and horizontal tabs, with
//! surrounding optional whitespace stripped.  An empty line ends the block
//! early and what follows it is ignored.  The result is an ordered multimap:
//! repeated names keep every value, in order of appearance.

use vstd::prelude::*;

use crate::byteops::find_byte;
use crate::byteops::lemma_find_byte_prefix;
use crate::byteops::lemma_trim_when_range;
use crate::byteops::range_to_vec;
use crate::byteops::trim_when;
use crate::error::Error;

verus! {

/// The three ways a trailer block can be rejected: a line without the
/// shape `name: value`, a bad name, or a bad value.
#[derive(Debug, Clone, Copy, PartialEq, Eq, Structural)]
pub enum TrailerFault {
    /// A line has no terminating newline or no colon.
    Line,
    /// A name is empty or holds an octet outside the token set.
    Name,
    /// A value holds an octet that a header value may not carry.
    Value,
}

/// An RFC 7230 token octet: digits, letters, and the fifteen allowed
/// punctuation marks.
pub open spec fn is_tchar(b: u8) -> bool {
    ||| (0x30 <= b && b <= 0x39)
    ||| (0x41 <= b && b <= 0x5a)
    ||| (0x61 <= b && b <= 0x7a)
    ||| b == 0x21
    ||| b == 0x23
    ||| b == 0x24
    ||| b == 0x25
    ||| b == 0x26
    ||| b == 0x27
    ||| b == 0x2a
    ||| b == 0x2b
    ||| b == 0x2d
    ||| b == 0x2e
    ||| b == 0x5e
    ||| b == 0x5f
    ||| b == 0x60
    ||| b == 0x7c
    ||| b == 0x7e
}

/// Executable form of [`is_tchar`].
pub fn is_tchar_byte(b: u8) -> (r: bool)
    ensures
        r == is_tchar(b),
{
    (0x30 <= b && b <= 0x39) || (0x41 <= b && b <= 0x5a) || (0x61 <= b && b <= 0x7a) || b == 0x21
        || b == 0x23 || b == 0x24 || b == 0x25 || b == 0x26 || b == 0x27 || b == 0x2a || b == 0x2b
        || b == 0x2d || b == 0x2e || b == 0x5e || b == 0x5f || b == 0x60 || b == 0x7c || b == 0x7e
}

/// An octet a header value may carry: visible ASCII, obs-text, space or
/// horizontal tab.
pub open spec fn is_field_byte(b: u8) -> bool {
    b == 0x20 || b == 0x09 || (0x21 <= b && b <= 0x7e) || b >= 0x80
}

/// Executable form of [`is_field_byte`].
pub fn is_field_byte_exec(b: u8) -> (r: bool)
    ensures
        r == is_field_byte(b),
{
    b == 0x20 || b == 0x09 || (0x21 <= b && b <= 0x7e) || b >= 0x80
}

/// Optional whitespace around a header value: space or horizontal tab.
pub open spec fn ows_pred() -> spec_fn(u8) -> bool {
    |b: u8| b == 0x20 || b == 0x09
}

/// An ASCII letter mapped to lower case; other octets unchanged.
pub open spec fn lower(b: u8) -> u8 {
    if 0x41 <= b && b <= 0x5a {
        (b + 0x20) as u8
    } else {
        b
    }
}

/// A byte string with its ASCII letters lowercased.
pub open spec fn lower_seq(s: Seq<u8>) -> Seq<u8> {
    s.map_values(|b: u8| lower(b))
}

/// Parses one header line (without its line terminator) into a lowercased
/// name and a trimmed value.
pub open spec fn parse_line(line: Seq<u8>) -> Result<(Seq<u8>, Seq<u8>), TrailerFault> {
    let c = find_byte(line, 0x3a);
    if c >= line.len() {
        Err(TrailerFault::Line)
    } else {
        let name = line.take(c as int);
        let value = trim_when(line.skip(c + 1 as int), ows_pred());
        if !(name.len() > 0 && (forall|k: int| 0 <= k < name.len() ==> is_tchar(#[trigger] name[k]))) {
            Err(TrailerFault::Name)
        } else if !(forall|k: int| 0 <= k < value.len() ==> is_field_byte(#[trigger] value[k])) {
            Err(TrailerFault::Value)
        } else {
            Ok((lower_seq(name), value))
        }
    }
}

/// Parses a whole trailer block into its ordered name/value pairs.
///
/// Every line must be newline-terminated; one carriage return before the
/// line feed is stripped.  An empty line ends the block and the bytes after
/// it are ignored.
pub open spec fn parse_trailer_block(s: Seq<u8>) -> Result<Seq<(Seq<u8>, Seq<u8>)>, TrailerFault>
    decreases s.len(),
{
    if s.len() == 0 {
        Ok(Seq::empty())
    } else {
        let i = find_byte(s, 0x0a);
        if i >= s.len() {
            Err(TrailerFault::Line)
        } else {
            let rawline = s.take(i as int);
            let line = if rawline.len() > 0 && rawline[rawline.len() - 1] == 0x0d {
                rawline.take(rawline.len() - 1)
            } else {
                rawline
            };
            if line.len() == 0 {
                Ok(Seq::empty())
            } else {
                match parse_line(line) {
                    Ok(pair) => match parse_trailer_block(s.skip(i + 1 as int)) {
                        Ok(rest) => Ok(seq![pair] + rest),
                        Err(f) => Err(f),
                    },
                    Err(f) => Err(f),
                }
            }
        }
    }
}

/// Parses the payload of the trailer frame: the payload is normalised
/// with one trailing line feed before line splitting, so a final line may
/// omit its terminator.
pub open spec fn parse_trailer_payload(s: Seq<u8>) -> Result<
    Seq<(Seq<u8>, Seq<u8>)>,
    TrailerFault,
> {
    parse_trailer_block(s.push(0x0a))
}

/// The first value recorded under `name`, if any.
pub open spec fn lookup(entries: Seq<(Seq<u8>, Seq<u8>)>, name: Seq<u8>) -> Option<Seq<u8>>
    decreases entries.len(),
{
    if entries.len() == 0 {
        None
    } else if entries[0].0 == name {
        Some(entries[0].1)
    } else {
        lookup(entries.skip(1), name)
    }
}

/// The ordered multimap parsed out of a trailer block: each entry is a
/// lowercased header name and its value, in order of appearance, with
/// repeated names kept.
#[derive(Debug)]
pub struct Trailers {
    entries: Vec<(Vec<u8>, Vec<u8>)>,
}

impl View for Trailers {
    type V = Seq<(Seq<u8>, Seq<u8>)>;

    closed spec fn view(&self) -> Seq<(Seq<u8>, Seq<u8>)> {
        self.entries@.map_values(|p: (Vec<u8>, Vec<u8>)| (p.0@, p.1@))
    }
}

impl Trailers {
    /// An empty multimap.
    pub fn new() -> (r: Trailers)
        ensures
            r@ == Seq::<(Seq<u8>, Seq<u8>)>::empty(),
    {
        let r = Trailers { entries: Vec::new() };
        proof {
            assert(r@ =~= Seq::<(Seq<u8>, Seq<u8>)>::empty());
        }
        r
    }

    /// How many name/value pairs the block carried.
    pub fn len(&self) -> (n: usize)
        ensures
            n == self@.len(),
    {
        self.entries.len()
    }

    /// True when the block carried no pair.
    pub fn is_empty(&self) -> (r: bool)
        ensures
            r == (self@.len() == 0),
    {
        self.entries.len() == 0
    }

    /// The name of the `i`-th pair.
    pub fn name_at(&self, i: usize) -> (r: &Vec<u8>)
        requires
            i < self@.len(),
        ensures
            r@ == self@[i as int].0,
    {
        &self.entries[i].0
    }

    /// The value of the `i`-th pair.
    pub fn value_at(&self, i: usize) -> (r: &Vec<u8>)
        requires
            i < self@.len(),
        ensures
            r@ == self@[i as int].1,
    {
        &self.entries[i].1
    }

    /// The first value recorded under `name`, if any.
    pub fn value_of(&self, name: &[u8]) -> (r: Option<&Vec<u8>>)
        ensures
            match r {
                Some(v) => lookup(self@, name@) == Some(v@),
                None => lookup(self@, name@) is None,
            },
    {
        let n = self.entries.len();
        let mut i: usize = 0;
        proof {
            assert(self@.skip(0) =~= self@);
        }
        while i < n
            invariant
                i <= n == self@.len(),
                lookup(self@, name@) == lookup(self@.skip(i as int), name@),
            decreases n - i,
        {
            proof {
                assert(self@.skip(i as int)[0] == self@[i as int]);
                assert(self@.skip(i as int).skip(1) =~= self@.skip(i + 1));
            }
            if vec_eq_slice(&self.entries[i].0, name) {
                return Some(&self.entries[i].1);
            }
            i = i + 1;
        }
        proof {
            assert(self@.skip(i as int) =~= Seq::<(Seq<u8>, Seq<u8>)>::empty());
        }
        None
    }

    fn push_pair(&mut self, name: Vec<u8>, value: Vec<u8>)
        ensures
            final(self)@ == old(self)@.push((name@, value@)),
    {
        let ghost before = self@;
        self.entries.push((name, value));
        proof {
            assert(self@ =~= before.push((name@, value@)));
        }
    }
}

/// True when the vector and the slice hold the same bytes.
fn vec_eq_slice(a: &Vec<u8>, b: &[u8]) -> (r: bool)
    ensures
        r == (a@ == b@),
{
    if a.len() != b.len() {
        proof {
            assert(a@.len() != b@.len());
        }
        return false;
    }
    let mut i: usize = 0;
    while i < a.len()
        invariant
            i <= a@.len() == b@.len(),
            forall|k: int| 0 <= k < i ==> a@[k] == b@[k],
        decreases a@.len() - i,
    {
        if a[i] != b[i] {
            return false;
        }
        i = i + 1;
    }
    proof {
        assert(a@ =~= b@);
    }
    true
}

/// Parses one line `block[lo..hi]`, already stripped of its terminator.
#[verifier::loop_isolation(false)]
fn parse_line_range(block: &[u8], lo: usize, hi: usize) -> (r: Result<(Vec<u8>, Vec<u8>), Error>)
    requires
        lo <= hi <= block@.len(),
    ensures
        match parse_line(block@.subrange(lo as int, hi as int)) {
            Ok(pair) => r matches Ok(p) && p.0@ == pair.0 && p.1@ == pair.1,
            Err(TrailerFault::Line) => r matches Err(Error::HeaderParsingError),
            Err(TrailerFault::Name) => r matches Err(Error::InvalidHeaderName),
            Err(TrailerFault::Value) => r matches Err(Error::InvalidHeaderValue),
        },
{
    let ghost line = block@.subrange(lo as int, hi as int);
    // find the colon
    let mut c: usize = lo;
    while c < hi && block[c] != 0x3a
        invariant
            lo <= c <= hi <= block@.len(),
            forall|k: int| lo <= k < c ==> block@[k] != 0x3a,
        decreases hi - c,
    {
        c = c + 1;
    }
    proof {
        assert forall|k: int| 0 <= k < c - lo implies line[k] != 0x3a by {
            assert(line[k] == block@[lo + k]);
        }
        if c < hi {
            assert(line[c - lo] == block@[c as int]);
        }
        lemma_find_byte_prefix(line, 0x3a, c - lo);
    }
    if c == hi {
        return Err(Error::HeaderParsingError);
    }
    // validate and lowercase the name
    if c == lo {
        proof {
            assert(line.take(c - lo).len() == 0);
        }
        return Err(Error::InvalidHeaderName);
    }
    let mut name: Vec<u8> = Vec::new();
    let mut i: usize = lo;
    while i < c
        invariant
            lo <= i <= c <= hi <= block@.len(),
            line == block@.subrange(lo as int, hi as int),
            c - lo < line.len(),
            name@ =~= lower_seq(line.take(c - lo).take(i - lo)),
            forall|k: int| 0 <= k < i - lo ==> is_tchar(#[trigger] line.take(c - lo)[k]),
        decreases c - i,
    {
        let b = block[i];
        proof {
            assert(line.take(c - lo)[i - lo] == block@[i as int]);
        }
        if !is_tchar_byte(b) {
            return Err(Error::InvalidHeaderName);
        }
        let lb: u8 = if 0x41 <= b && b <= 0x5a {
            b + 0x20
        } else {
            b
        };
        name.push(lb);
        proof {
            assert(lb == lower(b));
            assert(line.take(c - lo).take(i + 1 - lo) =~= line.take(c - lo).take(i - lo).push(
                block@[i as int],
            ));
            assert(name@ =~= lower_seq(line.take(c - lo).take(i + 1 - lo)));
        }
        i = i + 1;
    }
    proof {
        assert(line.take(c - lo).take(c - lo) =~= line.take(c - lo));
    }
    // trim the optional whitespace around the value
    let mut vlo: usize = c + 1;
    let mut vhi: usize = hi;
    while vlo < vhi && (block[vlo] == 0x20 || block[vlo] == 0x09)
        invariant
            c + 1 <= vlo <= vhi <= hi <= block@.len(),
            forall|k: int| c + 1 <= k < vlo ==> (block@[k] == 0x20 || block@[k] == 0x09),
            vhi == hi,
        decreases vhi - vlo,
    {
        vlo = vlo + 1;
    }
    while vlo < vhi && (block[vhi - 1] == 0x20 || block[vhi - 1] == 0x09)
        invariant
            c + 1 <= vlo <= vhi <= hi <= block@.len(),
            forall|k: int| c + 1 <= k < vlo ==> (block@[k] == 0x20 || block@[k] == 0x09),
            forall|k: int| vhi <= k < hi ==> (block@[k] == 0x20 || block@[k] == 0x09),
            vlo < vhi ==> !(block@[vlo as int] == 0x20 || block@[vlo as int] == 0x09),
        decreases vhi - vlo,
    {
        vhi = vhi - 1;
    }
    proof {
        lemma_trim_when_range(block@, ows_pred(), c + 1, hi as int, vlo as int, vhi as int);
        assert(line.skip(c - lo + 1) =~= block@.subrange(c + 1, hi as int));
        assert(trim_when(line.skip(c - lo + 1), ows_pred()) == block@.subrange(
            vlo as int,
            vhi as int,
        ));
    }
    // validate the value
    let mut j: usize = vlo;
    while j < vhi
        invariant
            vlo <= j <= vhi <= block@.len(),
            forall|k: int| vlo <= k < j ==> is_field_byte(#[trigger] block@[k]),
        decreases vhi - j,
    {
        if !is_field_byte_exec(block[j]) {
            proof {
                let value = trim_when(line.skip(c - lo + 1), ows_pred());
                assert(value[j - vlo] == block@[j as int]);
            }
            return Err(Error::InvalidHeaderValue);
        }
        j = j + 1;
    }
    let value = range_to_vec(block, vlo, vhi);
    proof {
        let v = trim_when(line.skip(c - lo + 1), ows_pred());
        assert forall|k: int| 0 <= k < v.len() implies is_field_byte(#[trigger] v[k]) by {
            assert(v[k] == block@[vlo + k]);
        }
        assert(find_byte(line, 0x3a) == c - lo);
        assert(line.take(c - lo).len() > 0);
    }
    Ok((name, value))
}

/// Parses a whole trailer block into an ordered multimap, reporting the
/// first fault found, line by line from the left.
#[verifier::loop_isolation(false)]
#[verifier::rlimit(50)]
pub fn parse_trailers(block: &[u8]) -> (r: Result<Trailers, Error>)
    ensures
        match parse_trailer_block(block@) {
            Ok(pairs) => r matches Ok(t) && t@ == pairs,
            Err(TrailerFault::Line) => r matches Err(Error::HeaderParsingError),
            Err(TrailerFault::Name) => r matches Err(Error::InvalidHeaderName),
            Err(TrailerFault::Value) => r matches Err(Error::InvalidHeaderValue),
        },
{
    let n = block.len();
    let mut tr = Trailers::new();
    let mut pos: usize = 0;
    proof {
        assert(block@.skip(0) =~= block@);
        if parse_trailer_block(block@) is Ok {
            assert(tr@ + parse_trailer_block(block@).unwrap() =~= parse_trailer_block(
                block@,
            ).unwrap());
        }
    }
    loop
        invariant
            pos <= n == block@.len(),
            match parse_trailer_block(block@.skip(pos as int)) {
                Ok(rest) => parse_trailer_block(block@) == Ok::<_, TrailerFault>(tr@ + rest),
                Err(f) => parse_trailer_block(block@) == Err::<Seq<(Seq<u8>, Seq<u8>)>, _>(f),
            },
        decreases n - pos,
    {
        let ghost s = block@.skip(pos as int);
        if pos == n {
            proof {
                assert(s =~= Seq::<u8>::empty());
                assert(tr@ + Seq::<(Seq<u8>, Seq<u8>)>::empty() =~= tr@);
            }
            return Ok(tr);
        }
        // find the line feed that ends the current line
        let mut j: usize = pos;
        while j < n && block[j] != 0x0a
            invariant
                pos <= j <= n == block@.len(),
                forall|k: int| pos <= k < j ==> block@[k] != 0x0a,
            decreases n - j,
        {
            j = j + 1;
        }
        proof {
            assert forall|k: int| 0 <= k < j - pos implies s[k] != 0x0a by {
                assert(s[k] == block@[pos + k]);
            }
            if j < n {
                assert(s[j - pos] == block@[j as int]);
            }
            lemma_find_byte_prefix(s, 0x0a, j - pos);
        }
        if j == n {
            return Err(Error::HeaderParsingError);
        }
        // strip one carriage return before the line feed
        let line_end: usize = if j > pos && block[j - 1] == 0x0d {
            j - 1
        } else {
            j
        };
        proof {
            let rawline = s.take(j - pos);
            assert(rawline =~= block@.subrange(pos as int, j as int));
            if j > pos {
                assert(rawline[rawline.len() - 1] == block@[j - 1]);
            }
            if line_end < j {
                assert(rawline.take(rawline.len() - 1) =~= block@.subrange(
                    pos as int,
                    line_end as int,
                ));
            }
        }
        if line_end == pos {
            proof {
                assert(tr@ + Seq::<(Seq<u8>, Seq<u8>)>::empty() =~= tr@);
            }
            return Ok(tr);
        }
        match parse_line_range(block, pos, line_end) {
            Ok((name, value)) => {
                let ghost pair = (name@, value@);
                let ghost before = tr@;
                tr.push_pair(name, value);
                proof {
                    assert(s.skip(j - pos + 1) =~= block@.skip(j + 1));
                    if parse_trailer_block(block@.skip(j + 1)) is Ok {
                        let rest = parse_trailer_block(block@.skip(j + 1)).unwrap();
                        assert(before.push(pair) + rest =~= before + (seq![pair] + rest));
                    }
                }
                pos = j + 1;
            },
            Err(e) => {
                return Err(e);
            },
        }
    }
}

} // verus!
