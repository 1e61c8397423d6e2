//! The on-disk container: magic, version, salt, nonce, tag and ciphertext, in that order.
use vstd::prelude::*;
use crate::error::StoreError;

verus! {

pub const MAGIC_LEN: usize = 7;
pub const SALT_LEN: usize = 16;
pub const NONCE_LEN: usize = 12;
pub const TAG_LEN: usize = 16;
/// Magic, version, salt, nonce and tag.
pub const HEADER_LEN: usize = 55;
/// The format version that this library writes, and the newest it reads.
pub const CRED_MAN_VERSION: i32 = 1;

/// The bytes "CREDMAN".
pub open spec fn magic_spec() -> Seq<u8> {
    seq![67u8, 82u8, 69u8, 68u8, 77u8, 65u8, 78u8]
}

/// Four bytes, most significant first.
pub open spec fn be_bytes(u: u32) -> Seq<u8> {
    seq![(u >> 24u32) as u8, (u >> 16u32) as u8, (u >> 8u32) as u8, u as u8]
}

/// The signed integer that four bytes hold, most significant first.
pub open spec fn be_i32(b: Seq<u8>) -> i32 {
    (((b[0] as u32) << 24u32) | ((b[1] as u32) << 16u32) | ((b[2] as u32) << 8u32) | (b[3] as u32)) as i32
}

/// What a container holds.
pub struct ContentView {
    pub salt: Seq<u8>,
    pub nonce: Seq<u8>,
    pub tag: Seq<u8>,
    pub ciphertext: Seq<u8>,
}

impl ContentView {
    pub open spec fn wf(self) -> bool {
        &&& self.salt.len() == SALT_LEN
        &&& self.nonce.len() == NONCE_LEN
        &&& self.tag.len() == TAG_LEN
    }
}

/// The file's bytes for a container.
pub open spec fn container_bytes(c: ContentView) -> Seq<u8> {
    magic_spec() + be_bytes(CRED_MAN_VERSION as u32) + c.salt + c.nonce + c.tag + c.ciphertext
}

/// What reading the bytes `b` as a container gives.
pub open spec fn parse_spec(b: Seq<u8>) -> Result<ContentView, StoreError> {
    if b.len() < HEADER_LEN || b.subrange(0, 7) != magic_spec() {
        Err(StoreError::FormatError)
    } else if be_i32(b.subrange(7, 11)) > CRED_MAN_VERSION {
        Err(StoreError::UnsupportedVersionError(be_i32(b.subrange(7, 11))))
    } else {
        Ok(
            ContentView {
                salt: b.subrange(11, 27),
                nonce: b.subrange(27, 39),
                tag: b.subrange(39, 55),
                ciphertext: b.subrange(55, b.len() as int),
            },
        )
    }
}

/// An encrypted record set, as stored in a container.
pub struct EncryptedFileContent {
    salt: Vec<u8>,
    nonce: Vec<u8>,
    tag: Vec<u8>,
    ciphertext: Vec<u8>,
}

impl EncryptedFileContent {
    pub closed spec fn view(&self) -> ContentView {
        ContentView {
            salt: self.salt@,
            nonce: self.nonce@,
            tag: self.tag@,
            ciphertext: self.ciphertext@,
        }
    }

    pub(crate) fn from_parts(salt: Vec<u8>, nonce: Vec<u8>, tag: Vec<u8>, ciphertext: Vec<u8>) -> (r: Self)
        ensures
            r@ == (ContentView { salt: salt@, nonce: nonce@, tag: tag@, ciphertext: ciphertext@ }),
    {
        EncryptedFileContent { salt, nonce, tag, ciphertext }
    }

    pub fn salt(&self) -> (r: &[u8])
        ensures
            r@ == self@.salt,
    {
        self.salt.as_slice()
    }

    pub fn nonce(&self) -> (r: &[u8])
        ensures
            r@ == self@.nonce,
    {
        self.nonce.as_slice()
    }

    pub fn tag(&self) -> (r: &[u8])
        ensures
            r@ == self@.tag,
    {
        self.tag.as_slice()
    }

    pub fn ciphertext(&self) -> (r: &[u8])
        ensures
            r@ == self@.ciphertext,
    {
        self.ciphertext.as_slice()
    }
}

/// The four bytes of `x`, most significant first.
pub fn i32_to_bytes(x: i32) -> (r: [u8; 4])
    ensures
        r@ == be_bytes(x as u32),
{
    let u = x as u32;
    let v: [u8; 4] = [(u >> 24u32) as u8, (u >> 16u32) as u8, (u >> 8u32) as u8, u as u8];
    assert(v@ =~= be_bytes(x as u32));
    v
}

/// Appends `src` to `out`.
pub(crate) fn append_bytes(out: &mut Vec<u8>, src: &[u8])
    ensures
        final(out)@ == old(out)@ + src@,
{
    let ghost start = out@;
    let mut i: usize = 0;
    while i < src.len()
        invariant
            i <= src@.len(),
            out@ == start + src@.subrange(0, i as int),
        decreases src@.len() - i,
    {
        out.push(src[i]);
        i = i + 1;
        assert(out@ =~= start + src@.subrange(0, i as int));
    }
    assert(src@.subrange(0, i as int) =~= src@);
}

/// The bytes of `src` from `start` up to `end`.
pub(crate) fn copy_range(src: &[u8], start: usize, end: usize) -> (r: Vec<u8>)
    requires
        start <= end <= src@.len(),
    ensures
        r@ == src@.subrange(start as int, end as int),
{
    let mut r: Vec<u8> = Vec::new();
    append_bytes(&mut r, &src[start..end]);
    assert(r@ =~= src@.subrange(start as int, end as int));
    r
}

/// The container's bytes, as a file holds them.
pub fn encode_container(data: &EncryptedFileContent) -> (r: Vec<u8>)
    ensures
        r@ == container_bytes(data@),
{
    let mut out: Vec<u8> = Vec::new();
    out.push(67u8);
    out.push(82u8);
    out.push(69u8);
    out.push(68u8);
    out.push(77u8);
    out.push(65u8);
    out.push(78u8);
    assert(out@ =~= magic_spec());
    let ver = i32_to_bytes(CRED_MAN_VERSION);
    append_bytes(&mut out, ver.as_slice());
    append_bytes(&mut out, data.salt.as_slice());
    append_bytes(&mut out, data.nonce.as_slice());
    append_bytes(&mut out, data.tag.as_slice());
    append_bytes(&mut out, data.ciphertext.as_slice());
    out
}

fn has_magic(b: &[u8]) -> (r: bool)
    requires
        b@.len() >= MAGIC_LEN,
    ensures
        r == (b@.subrange(0, 7) == magic_spec()),
{
    let r = b[0] == 67u8 && b[1] == 82u8 && b[2] == 69u8 && b[3] == 68u8 && b[4] == 77u8
        && b[5] == 65u8 && b[6] == 78u8;
    if r {
        assert(b@.subrange(0, 7) =~= magic_spec());
    } else {
        proof {
            if b@.subrange(0, 7) == magic_spec() {
            assert(b@.subrange(0, 7)[0] == b@[0]);
            assert(b@.subrange(0, 7)[1] == b@[1]);
            assert(b@.subrange(0, 7)[2] == b@[2]);
            assert(b@.subrange(0, 7)[3] == b@[3]);
            assert(b@.subrange(0, 7)[4] == b@[4]);
            assert(b@.subrange(0, 7)[5] == b@[5]);
            assert(b@.subrange(0, 7)[6] == b@[6]);
            }
        }
    }
    r
}

/// Reads a container from the bytes of a file.
pub fn parse_container(bytes: &[u8]) -> (r: Result<EncryptedFileContent, StoreError>)
    ensures
        match r {
            Ok(c) => parse_spec(bytes@) == Ok::<ContentView, StoreError>(c@),
            Err(e) => parse_spec(bytes@) == Err::<ContentView, StoreError>(e),
        },
{
    if bytes.len() < HEADER_LEN {
        return Err(StoreError::FormatError);
    }
    if !has_magic(bytes) {
        return Err(StoreError::FormatError);
    }
    let ver: i32 = (((bytes[7] as u32) << 24u32) | ((bytes[8] as u32) << 16u32) | ((bytes[9] as u32) << 8u32)
        | (bytes[10] as u32)) as i32;
    assert(ver == be_i32(bytes@.subrange(7, 11)));
    if ver > CRED_MAN_VERSION {
        return Err(StoreError::UnsupportedVersionError(ver));
    }
    let salt = copy_range(bytes, 11, 27);
    let nonce = copy_range(bytes, 27, 39);
    let tag = copy_range(bytes, 39, 55);
    let ciphertext = copy_range(bytes, 55, bytes.len());
    Ok(EncryptedFileContent { salt, nonce, tag, ciphertext })
}

proof fn lemma_be_round_trip(u: u32)
    ensures
        be_i32(be_bytes(u)) == u as i32,
{
    let b = be_bytes(u);
    let (b0, b1, b2, b3) = (b[0], b[1], b[2], b[3]);
    assert(b0 == (u >> 24u32) as u8 && b1 == (u >> 16u32) as u8 && b2 == (u >> 8u32) as u8 && b3 == u as u8);
    assert(((b0 as u32) << 24u32) | ((b1 as u32) << 16u32) | ((b2 as u32) << 8u32) | (b3 as u32) == u) by (bit_vector)
        requires
            b0 == (u >> 24u32) as u8,
            b1 == (u >> 16u32) as u8,
            b2 == (u >> 8u32) as u8,
            b3 == u as u8,
    ;
}

/// Reading back the bytes written for a well-formed container gives that container.
pub proof fn lemma_container_round_trip(c: ContentView)
    requires
        c.wf(),
    ensures
        parse_spec(container_bytes(c)) == Ok::<ContentView, StoreError>(c),
{
    let b = container_bytes(c);
    lemma_be_round_trip(CRED_MAN_VERSION as u32);
    assert(b.subrange(0, 7) =~= magic_spec());
    assert(b.subrange(7, 11) =~= be_bytes(CRED_MAN_VERSION as u32));
    assert(b.subrange(11, 27) =~= c.salt);
    assert(b.subrange(27, 39) =~= c.nonce);
    assert(b.subrange(39, 55) =~= c.tag);
    assert(b.subrange(55, b.len() as int) =~= c.ciphertext);
}

/// Bytes that do not start with the magic "CREDMAN" are refused as no container, and a
/// container of version 2 is refused as too new.
pub proof fn lemma_format_rejection(b: Seq<u8>)
    ensures
        (b.len() < MAGIC_LEN || b.subrange(0, 7) != magic_spec()) ==> parse_spec(b) == Err::<ContentView, StoreError>(StoreError::FormatError),
        (b.len() >= HEADER_LEN && b.subrange(0, 7) == magic_spec() && be_i32(b.subrange(7, 11)) == 2)
            ==> parse_spec(b) == Err::<ContentView, StoreError>(StoreError::UnsupportedVersionError(2)),
{
}

} // verus!
