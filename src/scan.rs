//! Locating a version string inside a tracked file.

pub mod xml;

use vstd::prelude::*;

verus! {

/// A version string found in a file, with its byte offset.
pub struct Mark {
    pub value: String,
    pub start: usize,
}

impl Mark {
    pub fn make(value: String, start: usize) -> (r: Mark)
        ensures
            r.value == value,
            r.start == start,
    {
        Mark { value, start }
    }

    pub fn value(&self) -> (r: &str)
        ensures
            r@ == self.value@,
    {
        self.value.as_str()
    }

    pub fn start(&self) -> (r: usize)
        ensures
            r == self.start,
    {
        self.start
    }
}

/// The contents of a file, with its name when it has one.
pub struct NamedData {
    pub name: Option<String>,
    pub data: String,
}

impl NamedData {
    pub fn new(name: Option<String>, data: String) -> (r: NamedData)
        ensures
            r.name == name,
            r.data == data,
    {
        NamedData { name, data }
    }

    pub fn data(&self) -> (r: &str)
        ensures
            r@ == self.data@,
    {
        self.data.as_str()
    }

    /// The same data with a mark found in it.
    pub fn mark(self, mark: Mark) -> (r: MarkedData)
        ensures
            r.name == self.name,
            r.data == self.data,
            r.mark == mark,
    {
        MarkedData { name: self.name, data: self.data, mark }
    }
}

/// File contents with the version mark found in them.
pub struct MarkedData {
    pub name: Option<String>,
    pub data: String,
    pub mark: Mark,
}

impl MarkedData {
    pub fn value(&self) -> (r: &str)
        ensures
            r@ == self.mark.value@,
    {
        self.mark.value()
    }

    pub fn start(&self) -> (r: usize)
        ensures
            r == self.mark.start,
    {
        self.mark.start
    }
}

/// `data` with the `old_len` bytes from `start` on replaced by `new`.
pub open spec fn spliced(data: Seq<u8>, start: int, old_len: int, new: Seq<u8>) -> Seq<u8> {
    data.take(start) + new + data.skip(start + old_len)
}

/// Writes a new value over a mark: the bytes before the mark, the new value, and the bytes
/// after the old value, unchanged.
pub fn splice_bytes(data: &Vec<u8>, start: usize, old_len: usize, new: &Vec<u8>) -> (r: Vec<u8>)
    requires
        start + old_len <= data@.len(),
    ensures
        r@ == spliced(data@, start as int, old_len as int, new@),
{
    let mut out: Vec<u8> = Vec::new();
    let mut i: usize = 0;
    while i < start
        invariant
            start + old_len <= data@.len(),
            i <= start,
            out@ == data@.take(i as int),
        decreases start - i,
    {
        out.push(data[i]);
        proof {
            assert(out@ =~= data@.take(i + 1));
        }
        i = i + 1;
    }
    let mut j: usize = 0;
    while j < new.len()
        invariant
            start + old_len <= data@.len(),
            j <= new@.len(),
            out@ == data@.take(start as int) + new@.take(j as int),
        decreases new@.len() - j,
    {
        out.push(new[j]);
        proof {
            assert(out@ =~= data@.take(start as int) + new@.take(j + 1));
        }
        j = j + 1;
    }
    proof {
        assert(new@.take(j as int) =~= new@);
        assert(data@.len() == data.len());
    }
    let mut k: usize = start + old_len;
    while k < data.len()
        invariant
            start + old_len <= k <= data@.len(),
            out@ == data@.take(start as int) + new@ + data@.subrange(start + old_len, k as int),
        decreases data@.len() - k,
    {
        out.push(data[k]);
        proof {
            assert(out@ =~= data@.take(start as int) + new@ + data@.subrange(start + old_len, k + 1));
        }
        k = k + 1;
    }
    proof {
        assert(data@.subrange(start + old_len, k as int) =~= data@.skip(start + old_len));
    }
    out
}

/// Rewriting a mark changes only the bytes of its old value: everything before the mark and
/// everything after the old value stays, and the new value stands at the mark.
pub proof fn lemma_splice_local(data: Seq<u8>, start: int, old_len: int, new: Seq<u8>)
    requires
        0 <= start,
        0 <= old_len,
        start + old_len <= data.len(),
    ensures
        spliced(data, start, old_len, new).take(start) == data.take(start),
        spliced(data, start, old_len, new).subrange(start, start + new.len()) == new,
        spliced(data, start, old_len, new).skip(start + new.len()) == data.skip(start + old_len),
        spliced(data, start, old_len, new).len() == data.len() - old_len + new.len(),
{
    let r = spliced(data, start, old_len, new);
    assert(r.take(start) =~= data.take(start));
    assert(r.subrange(start, start + new.len()) =~= new);
    assert(r.skip(start + new.len()) =~= data.skip(start + old_len));
}

/// Why no mark was found.
#[derive(Debug, PartialEq, Eq)]
pub enum ScanError {
    /// The path expression names no element.
    NoParts,
    /// The document ended, or an enclosing element closed, while the parts from this
    /// position on were still expected.
    NotFound(usize),
    /// The document is not well-formed XML up to the mark.
    BadXml,
}

} // verus!
