//! Loaded resources, and the context that loads them.
use vstd::prelude::*;
use crate::stream::{chunk, chunk_end};
use vstd::utf8::{
    char_is_scalar, char_u32_cast, encode_scalar, encode_utf8, has_width_1_encoding, is_scalar,
};

verus! {

/// A logical path can name a container entry, and a file, exactly when it holds
/// no NUL character: its narrow encoding must end at its one NUL terminator.
pub open spec fn path_encodable(path: Seq<char>) -> bool {
    forall|i: int| 0 <= i < path.len() ==> path[i] != '\0'
}

/// No byte of `b` is zero.
spec fn nul_free(b: Seq<u8>) -> bool {
    forall|i: int| 0 <= i < b.len() ==> b[i] != 0u8
}

/// Only the NUL character encodes to a zero byte: every byte of every other
/// character's encoding is non-zero.
proof fn lemma_scalar_nul_free(s: u32)
    requires
        is_scalar(s),
    ensures
        nul_free(encode_scalar(s)) <==> s != 0,
{
    let e = encode_scalar(s);
    if has_width_1_encoding(s) {
        assert(s <= 0x7F ==> (((s & 0x7F) as u8 == 0u8) <==> s == 0)) by (bit_vector);
        assert(e[0] == (s & 0x7F) as u8);
    } else {
        assert((0x80u8 | (s & 0x3F) as u8) != 0u8) by (bit_vector);
        assert((0x80u8 | ((s >> 6) & 0x3F) as u8) != 0u8) by (bit_vector);
        assert((0x80u8 | ((s >> 12) & 0x3F) as u8) != 0u8) by (bit_vector);
        assert((0xC0u8 | ((s >> 6) & 0x1F) as u8) != 0u8) by (bit_vector);
        assert((0xE0u8 | ((s >> 12) & 0x0F) as u8) != 0u8) by (bit_vector);
        assert((0xF0u8 | ((s >> 18) & 0x7) as u8) != 0u8) by (bit_vector);
    }
}

/// A path is encodable exactly when its UTF-8 bytes hold no zero byte.
proof fn lemma_encodable_iff_nul_free(path: Seq<char>)
    ensures
        path_encodable(path) <==> nul_free(encode_utf8(path)),
    decreases path.len(),
{
    if path.len() > 0 {
        let rest = path.drop_first();
        let head = encode_scalar(path[0] as u32);
        let tail = encode_utf8(rest);
        lemma_encodable_iff_nul_free(rest);
        char_is_scalar(path[0]);
        lemma_scalar_nul_free(path[0] as u32);
        assert(encode_utf8(path) == head + tail);
        assert((path[0] as u32 == 0) <==> path[0] == '\0') by {
            char_u32_cast(path[0], path[0] as u32);
            char_u32_cast('\0', 0u32);
        };
        if nul_free(encode_utf8(path)) {
            assert forall|i: int| 0 <= i < head.len() implies head[i] != 0u8 by {
                assert(encode_utf8(path)[i] == head[i]);
            };
            assert forall|i: int| 0 <= i < tail.len() implies tail[i] != 0u8 by {
                assert(encode_utf8(path)[head.len() + i] == tail[i]);
            };
            assert forall|i: int| 0 <= i < path.len() implies path[i] != '\0' by {
                if i > 0 {
                    assert(path[i] == rest[i - 1]);
                }
            };
        }
        if path_encodable(path) {
            assert forall|i: int| 0 <= i < rest.len() implies rest[i] != '\0' by {
                assert(rest[i] == path[i + 1]);
            };
        }
    }
}

/// What a backend reported when asked for the entry behind a logical path.
pub enum Fetched {
    /// The whole entry was read: these are its bytes.
    Bytes(Vec<u8>),
    /// No entry answers to the path.
    Missing,
    /// The entry is there but could not be read in full.
    Unreadable,
}

/// Why a load failed; each kind carries the path that was asked for.
#[derive(Debug, PartialEq, Eq)]
pub enum LoadError {
    ResourceNotFound { path: String },
    ReadFailure { path: String },
    InvalidPathEncoding { path: String },
}

/// One loaded resource: an owned buffer that never changes, and a read cursor into it.
pub struct Asset {
    data: Vec<u8>,
    pos: usize,
}

/// What a load of `path` owes, given what the backend reported: the whole entry,
/// with the cursor at its start, or the one error that fits, naming the path.
pub open spec fn load_outcome(path: Seq<char>, fetched: Fetched, r: Result<Asset, LoadError>) -> bool {
    match r {
        Ok(a) => path_encodable(path) && fetched is Bytes && a.bytes() == fetched->Bytes_0@
            && a.cursor() == 0,
        Err(LoadError::InvalidPathEncoding { path: p }) => !path_encodable(path) && p@ == path,
        Err(LoadError::ResourceNotFound { path: p }) => path_encodable(path) && fetched is Missing
            && p@ == path,
        Err(LoadError::ReadFailure { path: p }) => path_encodable(path) && fetched is Unreadable
            && p@ == path,
    }
}

/// Tells whether `path` holds no NUL byte, so that a backend can be asked for it.
pub fn is_encodable(path: &str) -> (r: bool)
    ensures
        r == path_encodable(path@),
{
    let b = path.as_bytes();
    let mut i: usize = 0;
    while i < b.len()
        invariant
            i <= b@.len(),
            b@ == encode_utf8(path@),
            forall|k: int| 0 <= k < i ==> b@[k] != 0u8,
        decreases b@.len() - i,
    {
        if b[i] == 0u8 {
            proof { lemma_encodable_iff_nul_free(path@); }
            return false;
        }
        i = i + 1;
    }
    proof { lemma_encodable_iff_nul_free(path@); }
    true
}

impl Asset {
    #[verifier::type_invariant]
    spec fn cursor_in_bounds(&self) -> bool {
        self.pos <= self.data.len()
    }

    /// The flat view: every byte of the resource, in order.
    pub closed spec fn bytes(&self) -> Seq<u8> {
        self.data@
    }

    /// How many bytes the stream view has handed out so far.
    pub closed spec fn cursor(&self) -> nat {
        self.pos as nat
    }

    /// Makes an asset of the entry behind `path`, from what the backend reported
    /// for it; the path is checked first.
    pub fn load(path: &str, fetched: Fetched) -> (r: Result<Asset, LoadError>)
        ensures
            load_outcome(path@, fetched, r),
    {
        if !is_encodable(path) {
            return Err(LoadError::InvalidPathEncoding { path: path.to_owned() });
        }
        match fetched {
            Fetched::Bytes(data) => Ok(Asset { data, pos: 0 }),
            Fetched::Missing => Err(LoadError::ResourceNotFound { path: path.to_owned() }),
            Fetched::Unreadable => Err(LoadError::ReadFailure { path: path.to_owned() }),
        }
    }

    /// The flat view, without a copy.
    pub fn as_slice(&self) -> (r: &[u8])
        ensures
            r@ == self.bytes(),
    {
        self.data.as_slice()
    }

    pub fn len(&self) -> (r: usize)
        ensures
            r == self.bytes().len(),
    {
        self.data.len()
    }

    /// Where the next stream read starts.
    pub fn position(&self) -> (r: usize)
        ensures
            r == self.cursor(),
            r <= self.bytes().len(),
    {
        proof { use_type_invariant(self); }
        self.pos
    }

    /// Hands out the next unread bytes, as many as fit in `buf`, and moves the
    /// cursor past them; the rest of `buf` is left alone. At the end it hands out
    /// nothing.
    pub fn read(&mut self, buf: &mut [u8]) -> (n: usize)
        ensures
            old(self).cursor() + n == chunk_end(
                old(self).bytes().len() as int,
                old(self).cursor() as int,
                old(buf)@.len() as int,
            ),
            final(buf)@.len() == old(buf)@.len(),
            final(buf)@.subrange(0, n as int) == chunk(
                old(self).bytes(),
                old(self).cursor() as int,
                old(buf)@.len() as int,
            ),
            final(buf)@.subrange(n as int, old(buf)@.len() as int) == old(buf)@.subrange(
                n as int,
                old(buf)@.len() as int,
            ),
            final(self).bytes() == old(self).bytes(),
            final(self).cursor() == old(self).cursor() + n,
    {
        proof { use_type_invariant(&*self); }
        let rest = self.data.len() - self.pos;
        let n: usize = if buf.len() < rest { buf.len() } else { rest };
        let start = self.pos;
        let data = &self.data;
        let mut i: usize = 0;
        while i < n
            invariant
                i <= n,
                n <= buf@.len(),
                start + n <= data.len(),
                buf@.len() == old(buf)@.len(),
                forall|k: int| 0 <= k < i ==> buf@[k] == data@[start + k],
                forall|k: int| n <= k < buf@.len() ==> buf@[k] == old(buf)@[k],
            decreases n - i,
        {
            buf[i] = data[start + i];
            i = i + 1;
        }
        self.pos = self.pos + n;
        assert(buf@.subrange(0, n as int) =~= old(self).data@.subrange(
            old(self).pos as int,
            old(self).pos + n,
        ));
        assert(buf@.subrange(n as int, buf@.len() as int) =~= old(buf)@.subrange(
            n as int,
            old(buf)@.len() as int,
        ));
        n
    }
}

/// The context that resolves logical paths. On a filesystem it holds nothing;
/// the bytes of each entry are read by the embedding program and handed in.
pub struct Assets {}

impl Assets {
    pub fn new() -> (r: Assets) {
        Assets {}
    }

    /// Loads the entry behind `path` from what the backend reported for it; each
    /// call stands alone and keeps nothing.
    pub fn load(&self, path: &str, fetched: Fetched) -> (r: Result<Asset, LoadError>)
        ensures
            load_outcome(path@, fetched, r),
    {
        Asset::load(path, fetched)
    }
}

/// Two loads of one path from the same content both succeed, with equal flat
/// views that equal the content, and each has a cursor of its own at the start.
pub proof fn lemma_loads_of_same_content_agree(
    path: Seq<char>,
    content: Seq<u8>,
    f1: Fetched,
    f2: Fetched,
    r1: Result<Asset, LoadError>,
    r2: Result<Asset, LoadError>,
)
    requires
        path_encodable(path),
        f1 is Bytes && f1->Bytes_0@ == content,
        f2 is Bytes && f2->Bytes_0@ == content,
        load_outcome(path, f1, r1),
        load_outcome(path, f2, r2),
    ensures
        r1 is Ok && r2 is Ok,
        r1->Ok_0.bytes() == content && r2->Ok_0.bytes() == content,
        r1->Ok_0.cursor() == 0 && r2->Ok_0.cursor() == 0,
{
}

} // verus!
