//! The file-generation job: a value object describing one output file, and
//! the bounded-memory derivation of that file's exact byte content.

use vstd::arithmetic::div_mod::{lemma_fundamental_div_mod, lemma_mod_multiples_vanish};
use vstd::arithmetic::mul::lemma_mul_is_associative;
use vstd::prelude::*;
use vstd::string::StrSliceExecFns;
use vstd::utf8::encode_utf8;

use crate::Error;

verus! {

/// A job that describes how to make one file: where it goes, what bytes
/// fill it, how large it must end up, and how many bytes may be buffered
/// in memory per write.
pub struct Job {
    /// Destination file location.
    pub path: String,
    /// The fill string, repeated to produce the file's content.
    pub string: String,
    /// Target file size in bytes.
    pub size: u128,
    /// Maximum number of bytes buffered per write.
    pub write_size: u128,
}

impl Job {
    /// The fill pattern as bytes: the UTF-8 bytes of the fill string.
    pub open spec fn fill(self) -> Seq<u8> {
        encode_utf8(self.string@)
    }

    /// A job is well configured when the fill pattern is nonempty, fits in
    /// one chunk, and the chunk size is positive.
    pub open spec fn valid(self) -> bool {
        &&& 0 < self.fill().len()
        &&& self.fill().len() <= self.write_size
        &&& 0 < self.write_size
    }

    /// The exact content of the generated file: the fill bytes repeated and
    /// truncated to `size` bytes, independent of the chunk size.
    pub open spec fn content(self) -> Seq<u8>
        recommends
            self.valid(),
    {
        Seq::new(self.size as nat, |i: int| self.fill()[i % (self.fill().len() as int)])
    }

    /// How many bytes the next write emits once `written` bytes are done:
    /// a full chunk, or the remainder when less than a chunk is left.
    pub open spec fn chunk_len(self, written: nat) -> nat
        recommends
            self.valid(),
            written <= self.size,
    {
        vstd::math::min(self.write_size as int, self.size - written) as nat
    }

    /// Construct a new Job.
    pub fn new(path: String, string: String, size: u128, write_size: u128) -> (j: Job)
        ensures
            j.path == path,
            j.string == string,
            j.size == size,
            j.write_size == write_size,
    {
        Job { size, write_size, path, string }
    }

    /// Check the run-wide configuration carried by this job, before any
    /// file is touched.
    pub fn validate(&self) -> (r: Result<(), Error>)
        ensures
            r is Ok <==> self.valid(),
            !self.valid() ==> r == Err::<(), Error>(Error::ConfigurationError),
    {
        let bytes = self.string.as_str().as_bytes_vec();
        let len = bytes.len();
        if len == 0 || self.write_size == 0 || (len as u128) > self.write_size {
            Err(Error::ConfigurationError)
        } else {
            Ok(())
        }
    }

    /// The bytes of the next bounded write: once `written` bytes of the file
    /// are done, this is the next slice of the content, at most one chunk
    /// long, or `None` when the file is complete.
    #[verifier::loop_isolation(false)]
    pub fn next_chunk(&self, written: u128) -> (r: Option<Vec<u8>>)
        requires
            self.valid(),
            written <= self.size,
            written < self.size ==> self.chunk_len(written as nat) <= usize::MAX,
        ensures
            r is Some <==> written < self.size,
            written < self.size ==> (r matches Some(v) && v@ == self.content().subrange(
                written as int,
                written + self.chunk_len(written as nat),
            )),
    {
        if written == self.size {
            return None;
        }
        let fill = self.string.as_str().as_bytes_vec();
        let fill_len: u128 = fill.len() as u128;
        let rem: u128 = self.size - written;
        let len128: u128 = if self.write_size < rem {
            self.write_size
        } else {
            rem
        };
        let len: usize = len128 as usize;
        assert(len == self.chunk_len(written as nat));
        let mut v: Vec<u8> = Vec::new();
        let mut j: usize = 0;
        while j < len
            invariant
                j <= len,
                v@ =~= self.content().subrange(written as int, written + j),
            decreases len - j,
        {
            let idx: u128 = (written + j as u128) % fill_len;
            assert(idx < fill_len);
            let b = fill[idx as usize];
            proof {
                assert(self.content()[written + j] == self.fill()[(written + j) as int % (
                self.fill().len() as int)]);
            }
            v.push(b);
            j = j + 1;
            proof {
                assert(v@ =~= self.content().subrange(written as int, written + j));
            }
        }
        Some(v)
    }

    /// Materialize the whole file content in memory, chunk by chunk, exactly
    /// as a run of bounded writes would lay it out on disk.
    #[verifier::loop_isolation(false)]
    pub fn generate(&self) -> (out: Vec<u8>)
        requires
            self.valid(),
            self.size <= usize::MAX,
        ensures
            out@ == self.content(),
    {
        let mut out: Vec<u8> = Vec::new();
        let mut written: u128 = 0;
        while written < self.size
            invariant
                written <= self.size,
                out@ =~= self.content().subrange(0, written as int),
            decreases self.size - written,
        {
            let mut chunk = self.next_chunk(written).unwrap();
            let clen = chunk.len();
            out.append(&mut chunk);
            written = written + clen as u128;
            proof {
                assert(out@ =~= self.content().subrange(0, written as int));
            }
        }
        proof {
            assert(out@ =~= self.content());
        }
        out
    }
}

impl Clone for Job {
    /// Clones every field; the copy describes the same file.
    fn clone(&self) -> (j: Self)
        ensures
            j == *self,
    {
        Job {
            size: self.size,
            write_size: self.write_size,
            path: self.path.clone(),
            string: self.string.clone(),
        }
    }
}

/// For every valid job, the produced content has length exactly `size`, and
/// byte `i` of it equals byte `i mod len` of the fill bytes.
pub proof fn lemma_content_shape(j: Job)
    requires
        j.valid(),
    ensures
        j.content().len() == j.size,
        forall|i: int|
            0 <= i < j.size ==> j.content()[i] == j.fill()[i % (j.fill().len() as int)],
{
}

/// Content is invariant to the chunk size: two valid jobs with the same fill
/// string and the same total size produce byte-identical content, whatever
/// their chunk sizes.
pub proof fn lemma_content_chunk_independent(a: Job, b: Job)
    requires
        a.valid(),
        b.valid(),
        a.string@ == b.string@,
        a.size == b.size,
    ensures
        a.content() == b.content(),
{
    assert(a.content() =~= b.content());
}

/// A byte at offset `k` of a write that starts at a chunk-aligned offset
/// `a` does not depend on `a`, as long as the fill length divides the
/// chunk size.
proof fn lemma_aligned_offset_byte(j: Job, a: int, k: int)
    requires
        j.valid(),
        (j.write_size as int) % (j.fill().len() as int) == 0,
        a >= 0,
        a % (j.write_size as int) == 0,
        0 <= k < j.write_size as int,
        a + k < j.size,
    ensures
        j.content()[a + k] == j.fill()[k % (j.fill().len() as int)],
{
    let l = j.fill().len() as int;
    let ws = j.write_size as int;
    let q = a / ws;
    let p = ws / l;
    lemma_fundamental_div_mod(a, ws);
    lemma_fundamental_div_mod(ws, l);
    assert(a == (l * p) * q);
    lemma_mul_is_associative(l, p, q);
    assert(a == l * (p * q));
    lemma_mod_multiples_vanish(p * q, k, l);
    assert((a + k) % l == k % l);
}

/// When the fill length divides the chunk size, every full chunk of a job
/// carries the same bytes, so a chunk buffer built once can be reused
/// verbatim for every full write.
pub proof fn lemma_full_chunks_identical(j: Job, a: u128, b: u128)
    requires
        j.valid(),
        (j.write_size as int) % (j.fill().len() as int) == 0,
        (a as int) % (j.write_size as int) == 0,
        (b as int) % (j.write_size as int) == 0,
        a + j.write_size <= j.size,
        b + j.write_size <= j.size,
    ensures
        j.content().subrange(a as int, a as int + j.write_size as int) == j.content().subrange(
            b as int,
            b as int + j.write_size as int,
        ),
{
    let ws = j.write_size as int;
    let ca = j.content().subrange(a as int, a as int + ws);
    let cb = j.content().subrange(b as int, b as int + ws);
    assert forall|k: int| 0 <= k < ws implies ca[k] == cb[k] by {
        lemma_aligned_offset_byte(j, a as int, k);
        lemma_aligned_offset_byte(j, b as int, k);
    }
    assert(ca =~= cb);
}

} // verus!
