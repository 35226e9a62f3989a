//! Content hashing for duplicate detection.
//!
//! A file's bytes are streamed in fixed-size chunks through a 64-bit
//! xxh3 digest; the digest is rendered as sixteen lowercase hexadecimal
//! digits, a stable key for the hash index.  The digest is a function
//! of the byte stream alone, never of the path or the chunking, which
//! is what makes it fit to tell true content duplicates from mere name
//! collisions.

use vstd::prelude::*;
use vstd::string::StringExecFns;

use crate::strmap::{spec_get, StringMap};
use crate::strutil::digit_char;

verus! {

/// Mapping from file path to content-hash string, built lazily and only
/// for paths involved in an on-disk name collision.
pub type HashIndex = StringMap;

/// The 64-bit xxh3 digest of a byte string, with the default seed.
pub uninterp spec fn xxh3_of(data: Seq<u8>) -> u64;

#[verifier::external_type_specification]
#[verifier::external_body]
pub struct ExXxh3(xxhash_rust::xxh3::Xxh3);

/// A running xxh3 digest over the bytes fed so far.
pub struct DigestStream {
    inner: xxhash_rust::xxh3::Xxh3,
    fed: Ghost<Seq<u8>>,
}

impl DigestStream {
    /// The bytes fed so far.
    pub closed spec fn bytes(&self) -> Seq<u8> {
        self.fed@
    }

    pub fn new() -> (r: DigestStream)
        ensures
            r.bytes() == Seq::<u8>::empty(),
    {
        DigestStream { inner: xxh3_new(), fed: Ghost(Seq::empty()) }
    }

    /// Relies on xxhash_rust's Xxh3::update: appends a chunk to the
    /// hashed stream; only the concatenation matters, not the chunking.
    #[verifier::external_body]
    pub fn update(&mut self, chunk: &[u8])
        ensures
            final(self).bytes() == old(self).bytes() + chunk@,
    {
        self.inner.update(chunk);
    }

    /// Relies on xxhash_rust's Xxh3::digest: the 64-bit digest of the
    /// bytes fed so far, a function of those bytes alone.
    #[verifier::external_body]
    pub fn digest(&self) -> (r: u64)
        ensures
            r == xxh3_of(self.bytes()),
    {
        self.inner.digest()
    }

    /// The digest of the bytes fed so far, as sixteen lowercase
    /// hexadecimal digits.
    pub fn digest_hex(&self) -> (r: String)
        ensures
            r@ == spec_hex16(xxh3_of(self.bytes())),
    {
        to_hex16(self.digest())
    }
}

/// Relies on xxhash_rust's Xxh3::new: a fresh hasher with the default
/// seed.
#[verifier::external_body]
fn xxh3_new() -> xxhash_rust::xxh3::Xxh3 {
    xxhash_rust::xxh3::Xxh3::new()
}

/// The lowercase hexadecimal digit of a value in `0..=15`.
pub open spec fn hex_digit_char(d: int) -> char {
    if d < 10 {
        digit_char(d)
    } else if d == 10 {
        'a'
    } else if d == 11 {
        'b'
    } else if d == 12 {
        'c'
    } else if d == 13 {
        'd'
    } else if d == 14 {
        'e'
    } else {
        'f'
    }
}

/// The `i`-th hexadecimal digit of `v`, most significant first.
pub open spec fn nibble(v: u64, i: int) -> u64 {
    (v >> (((15 - i) * 4) as u64)) & 0xf
}

/// `v` written as sixteen lowercase hexadecimal digits.
pub open spec fn spec_hex16(v: u64) -> Seq<char> {
    Seq::new(16, |i: int| hex_digit_char(nibble(v, i) as int))
}

fn hex_digit_str(d: u8) -> (r: &'static str)
    requires
        d <= 15,
    ensures
        r@ =~= seq![hex_digit_char(d as int)],
{
    proof {
        reveal_strlit("a");
        reveal_strlit("b");
        reveal_strlit("c");
        reveal_strlit("d");
        reveal_strlit("e");
        reveal_strlit("f");
    }
    if d <= 9 {
        crate::strutil::digit_str(d)
    } else if d == 10 {
        "a"
    } else if d == 11 {
        "b"
    } else if d == 12 {
        "c"
    } else if d == 13 {
        "d"
    } else if d == 14 {
        "e"
    } else {
        "f"
    }
}

/// Renders a 64-bit value as sixteen lowercase hexadecimal digits.
pub fn to_hex16(v: u64) -> (r: String)
    ensures
        r@ == spec_hex16(v),
{
    let mut out = String::new();
    let mut i: usize = 0;
    while i < 16
        invariant
            i <= 16,
            out@.len() == i,
            forall|j: int| 0 <= j < i ==> out@[j] == spec_hex16(v)[j],
        decreases 16 - i,
    {
        let shift: u64 = ((15 - i) as u64) * 4;
        let nib = (v >> shift) & 0xf;
        proof {
            assert((v >> shift) & 0xf < 16) by (bit_vector);
        }
        out.append(hex_digit_str(nib as u8));
        i = i + 1;
    }
    proof {
        assert(out@ =~= spec_hex16(v));
    }
    out
}

/// The last binding of `k` among the pairs, scanning from the end.
pub open spec fn spec_last_binding(
    pairs: Seq<(Seq<char>, Seq<char>)>,
    k: Seq<char>,
) -> Option<Seq<char>>
    decreases pairs.len(),
{
    if pairs.len() == 0 {
        None
    } else if pairs.last().0 == k {
        Some(pairs.last().1)
    } else {
        spec_last_binding(pairs.drop_last(), k)
    }
}

/// The first entry whose hash reads `h` and whose path is not `own`.
pub open spec fn spec_first_duplicate(
    m: Seq<(Seq<char>, Seq<char>)>,
    h: Seq<char>,
    own: Seq<char>,
) -> Option<Seq<char>>
    decreases m.len(),
{
    if m.len() == 0 {
        None
    } else if m[0].1 == h && m[0].0 != own {
        Some(m[0].0)
    } else {
        spec_first_duplicate(m.drop_first(), h, own)
    }
}

/// Streams file contents into xxh3 digests and answers duplicate
/// queries over the resulting index.
pub struct ContentHasher {
    chunk_size: usize,
}

impl ContentHasher {
    /// The size of the read buffer a caller should stream with.
    pub closed spec fn spec_chunk_size(&self) -> usize {
        self.chunk_size
    }

    pub fn new() -> (r: ContentHasher)
        ensures
            r.spec_chunk_size() == 65536,
    {
        ContentHasher { chunk_size: 65536 }
    }

    pub fn chunk_size(&self) -> (r: usize)
        ensures
            r == self.spec_chunk_size(),
    {
        self.chunk_size
    }

    /// Builds the hash index from computed (path, hash) pairs; a path
    /// named twice keeps its last hash.
    pub fn build_content_hash_index(&self, entries: &Vec<(String, String)>) -> (r: HashIndex)
        ensures
            r.wf(),
            forall|k: Seq<char>|
                #[trigger] spec_get(r@, k) == spec_last_binding(
                    entries@.map_values(|p: (String, String)| (p.0@, p.1@)),
                    k,
                ),
    {
        let ghost pairs = entries@.map_values(|p: (String, String)| (p.0@, p.1@));
        let mut index = StringMap::new();
        proof {
            assert(pairs.take(0) =~= Seq::<(Seq<char>, Seq<char>)>::empty());
            assert forall|k: Seq<char>| #[trigger]
                spec_get(index@, k) == spec_last_binding(pairs.take(0), k) by {}
        }
        let n = entries.len();
        let mut i: usize = 0;
        while i < n
            invariant
                n == entries@.len(),
                i <= n,
                pairs == entries@.map_values(|p: (String, String)| (p.0@, p.1@)),
                index.wf(),
                forall|k: Seq<char>|
                    #[trigger] spec_get(index@, k) == spec_last_binding(pairs.take(i as int), k),
            decreases n - i,
        {
            let path = entries[i].0.clone();
            let hash = entries[i].1.clone();
            let ghost pk = path@;
            let ghost ph = hash@;
            index.insert(path, hash);
            proof {
                assert(pairs[i as int] == (pk, ph));
                assert forall|k: Seq<char>| #[trigger]
                    spec_get(index@, k) == spec_last_binding(pairs.take(i + 1), k) by {
                    assert(pairs.take(i + 1).drop_last() =~= pairs.take(i as int));
                    assert(pairs.take(i + 1).last() == pairs[i as int]);
                }
            }
            i = i + 1;
        }
        proof {
            assert(pairs.take(n as int) =~= pairs);
        }
        index
    }

    /// The first indexed path holding the same content hash as
    /// `file_hash` but naming another file than `self_path`; `None`
    /// when the content is new.  The caller supplies `self_path` in the
    /// index's own key form.
    pub fn is_content_duplicate(
        &self,
        file_hash: &String,
        existing_hash_index: &HashIndex,
        self_path: &String,
    ) -> (r: Option<String>)
        ensures
            match r {
                Some(p) => spec_first_duplicate(existing_hash_index@, file_hash@, self_path@)
                    == Some(p@),
                None => spec_first_duplicate(existing_hash_index@, file_hash@, self_path@)
                    is None,
            },
    {
        let ghost m = existing_hash_index@;
        proof {
            assert(m.skip(0) =~= m);
        }
        let n = existing_hash_index.len();
        let mut i: usize = 0;
        while i < n
            invariant
                n == m.len(),
                m == existing_hash_index@,
                i <= n,
                spec_first_duplicate(m, file_hash@, self_path@) == spec_first_duplicate(
                    m.skip(i as int),
                    file_hash@,
                    self_path@,
                ),
            decreases n - i,
        {
            let (path, hash) = existing_hash_index.entry(i);
            proof {
                assert(m.skip(i as int)[0] == m[i as int]);
                assert(m.skip(i as int).drop_first() =~= m.skip(i as int + 1));
            }
            if crate::strutil::str_eq(hash.as_str(), file_hash.as_str())
                && !crate::strutil::str_eq(path.as_str(), self_path.as_str()) {
                return Some(path);
            }
            i = i + 1;
        }
        proof {
            assert(m.skip(n as int) =~= Seq::<(Seq<char>, Seq<char>)>::empty());
        }
        None
    }
}

/// Law: the content digest depends on the byte stream alone.  Two
/// byte-identical files give the same rendered hash, whatever their
/// paths and however their reads were chunked; repeated runs over the
/// same bytes give the same hash.
pub proof fn lemma_digest_content_determined(a: Seq<u8>, b: Seq<u8>)
    requires
        a == b,
    ensures
        spec_hex16(xxh3_of(a)) == spec_hex16(xxh3_of(b)),
{
}

} // verus!
