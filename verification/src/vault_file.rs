use vstd::prelude::*;
use vstd::string::StringSliceAdditionalSpecFns;
use crate::kdf::{argon2_hash, vault_kdf_params_spec, derive_key, derived_key, fill_random, wipe_array, wipe_vec, SALT_LEN};
use crate::stream::{open_chunk, seal_chunk, stream_open, stream_seal, STREAM_NONCE_LEN, TAG_LEN};

verus! {

/// Plaintext bytes sealed per chunk.
pub const CHUNK_LEN: usize = 500;

/// Bytes of a sealed full chunk: the chunk and its tag.
pub const SEALED_CHUNK_LEN: usize = 516;

/// Bytes before the first sealed chunk: the salt, then the stream nonce.
pub const HEADER_LEN: usize = 51;

/// Why sealing or opening a vault file fails.
#[derive(PartialEq, Eq, Structural, Debug, Clone, Copy)]
pub enum VaultError {
    /// The file is shorter than a salt.
    SaltMissing,
    /// The file holds a salt but not a whole nonce after it.
    NonceMissing,
    /// A sealed chunk does not authenticate under the key, nonce and position,
    /// or the stream counter is spent before the chunks are.
    ChunkRejected,
    /// The plaintext has more full chunks than the 32-bit stream counter numbers.
    StreamExhausted,
    /// The operating system gave no random bytes for the salt or the nonce.
    NoRandomness,
}

/// `o` with `prefix` put in front of what it holds.
pub open spec fn prefixed(prefix: Seq<u8>, o: Option<Seq<u8>>) -> Option<Seq<u8>> {
    match o {
        Some(s) => Some(prefix + s),
        None => None,
    }
}

/// `r` with `prefix` put in front of the plaintext it holds.
pub open spec fn after(prefix: Seq<u8>, r: (Seq<u8>, bool)) -> (Seq<u8>, bool) {
    (prefix + r.0, r.1)
}

/// The sealed chunks of `data` from stream position `position` on: each full
/// chunk of `CHUNK_LEN` bytes is sealed as a middle chunk, and what is left
/// (possibly nothing) is sealed as the last chunk. `None` where a middle chunk
/// would need the counter's largest value.
pub open spec fn seal_chunks(key: Seq<u8>, nonce: Seq<u8>, data: Seq<u8>, position: nat) -> Option<Seq<u8>>
    decreases data.len(),
{
    if data.len() >= CHUNK_LEN {
        if position >= u32::MAX {
            None
        } else {
            prefixed(
                stream_seal(key, nonce, position as u32, false, data.subrange(0, CHUNK_LEN as int)),
                seal_chunks(key, nonce, data.subrange(CHUNK_LEN as int, data.len() as int), position + 1),
            )
        }
    } else {
        Some(stream_seal(key, nonce, position as u32, true, data))
    }
}

/// Opening sealed chunks from position `position` on: while a whole sealed
/// chunk remains it is opened as a middle chunk; an empty rest ends the
/// stream; a shorter rest is opened as the last chunk. The result is the
/// plaintext of the chunks that opened, in order, up to the first that did
/// not (or up to where the counter is spent), and whether every chunk opened.
pub open spec fn open_chunks(key: Seq<u8>, nonce: Seq<u8>, data: Seq<u8>, position: nat) -> (Seq<u8>, bool)
    decreases data.len(),
{
    if data.len() >= SEALED_CHUNK_LEN {
        if position >= u32::MAX {
            (Seq::empty(), false)
        } else {
            match stream_open(key, nonce, position as u32, false, data.subrange(0, SEALED_CHUNK_LEN as int)) {
                Some(m) => after(
                    m,
                    open_chunks(key, nonce, data.subrange(SEALED_CHUNK_LEN as int, data.len() as int), position + 1),
                ),
                None => (Seq::empty(), false),
            }
        }
    } else if data.len() == 0 {
        (Seq::empty(), true)
    } else {
        match stream_open(key, nonce, position as u32, true, data) {
            Some(m) => (m, true),
            None => (Seq::empty(), false),
        }
    }
}

/// The vault file of `plaintext` under `password`, `salt` and `nonce`: the
/// salt, the nonce, then the sealed chunks under the key derived from the
/// password and the salt.
pub open spec fn sealed_file(plaintext: Seq<u8>, password: Seq<u8>, salt: Seq<u8>, nonce: Seq<u8>) -> Option<Seq<u8>> {
    prefixed(salt + nonce, seal_chunks(derived_key(password, salt), nonce, plaintext, 0))
}

/// What opening the vault file `data` with `password` gives: the plaintext
/// of the chunks that opened before the first failure, and the outcome. A
/// file too short for its header gives no plaintext.
pub open spec fn opened_file(data: Seq<u8>, password: Seq<u8>) -> (Seq<u8>, Result<(), VaultError>) {
    if data.len() < SALT_LEN {
        (Seq::empty(), Err(VaultError::SaltMissing))
    } else if data.len() < HEADER_LEN {
        (Seq::empty(), Err(VaultError::NonceMissing))
    } else {
        let salt = data.subrange(0, SALT_LEN as int);
        let nonce = data.subrange(SALT_LEN as int, HEADER_LEN as int);
        let r = open_chunks(derived_key(password, salt), nonce, data.subrange(HEADER_LEN as int, data.len() as int), 0);
        (r.0, if r.1 { Ok(()) } else { Err(VaultError::ChunkRejected) })
    }
}

/// Length of the vault file of a plaintext of `n` bytes.
pub open spec fn sealed_len(n: nat) -> nat {
    (HEADER_LEN as nat) + n + (TAG_LEN as nat) * (n / (CHUNK_LEN as nat) + 1)
}

/// Sealed middle chunk `i` of a vault file.
pub open spec fn sealed_chunk(file: Seq<u8>, i: int) -> Seq<u8> {
    file.subrange(HEADER_LEN + SEALED_CHUNK_LEN * i, HEADER_LEN + SEALED_CHUNK_LEN * (i + 1))
}

/// Plaintext chunk `i`.
pub open spec fn plain_chunk(plaintext: Seq<u8>, i: int) -> Seq<u8> {
    plaintext.subrange(CHUNK_LEN * i, CHUNK_LEN * (i + 1))
}

/// How the vault file `file` of `plaintext` under `key` and `nonce` is laid
/// out after its header: middle chunk `i` occupies `SEALED_CHUNK_LEN` bytes
/// and is plaintext chunk `i` sealed at position `i`; the rest of the file is
/// the last chunk, what remains of the plaintext sealed as last at the next
/// position, `TAG_LEN` bytes longer than that remainder.
pub open spec fn chunk_layout(file: Seq<u8>, key: Seq<u8>, nonce: Seq<u8>, plaintext: Seq<u8>) -> bool {
    let q = plaintext.len() / (CHUNK_LEN as nat);
    &&& forall|i: int|
        0 <= i < q ==> #[trigger] sealed_chunk(file, i) == stream_seal(key, nonce, i as u32, false, plain_chunk(plaintext, i))
    &&& HEADER_LEN + SEALED_CHUNK_LEN * q <= file.len()
    &&& file.subrange(HEADER_LEN + SEALED_CHUNK_LEN * q, file.len() as int) == stream_seal(
        key,
        nonce,
        q as u32,
        true,
        plaintext.subrange(CHUNK_LEN * q, plaintext.len() as int),
    )
    &&& file.len() - (HEADER_LEN + SEALED_CHUNK_LEN * q) == plaintext.len() % (CHUNK_LEN as nat) + TAG_LEN
}

proof fn lemma_prefixed_assoc(a: Seq<u8>, b: Seq<u8>, o: Option<Seq<u8>>)
    ensures
        prefixed(a, prefixed(b, o)) == prefixed(a + b, o),
{
    if let Some(s) = o {
        assert(a + (b + s) =~= (a + b) + s);
    }
}

proof fn lemma_after_assoc(a: Seq<u8>, b: Seq<u8>, r: (Seq<u8>, bool))
    ensures
        after(a, after(b, r)) == after(a + b, r),
{
    assert(a + (b + r.0) =~= (a + b) + r.0);
}

proof fn lemma_after_empty(r: (Seq<u8>, bool))
    ensures
        after(Seq::empty(), r) == r,
{
    assert(Seq::<u8>::empty() + r.0 =~= r.0);
}

/// Opening a whole middle chunk followed by anything.
proof fn lemma_open_middle(key: Seq<u8>, nonce: Seq<u8>, c: Seq<u8>, m: Seq<u8>, tail: Seq<u8>, position: nat)
    requires
        c.len() == SEALED_CHUNK_LEN,
        position < u32::MAX,
        stream_open(key, nonce, position as u32, false, c) == Some(m),
    ensures
        open_chunks(key, nonce, c + tail, position) == after(m, open_chunks(key, nonce, tail, position + 1)),
{
    let d = c + tail;
    assert(d.subrange(0, SEALED_CHUNK_LEN as int) =~= c);
    assert(d.subrange(SEALED_CHUNK_LEN as int, d.len() as int) =~= tail);
}

/// Appending to a file keeps the middle chunks that lie wholly before the end.
proof fn lemma_chunks_kept(file: Seq<u8>, extra: Seq<u8>, count: int)
    requires
        0 <= count,
        file.len() == HEADER_LEN + SEALED_CHUNK_LEN * count,
    ensures
        forall|j: int| 0 <= j < count ==> #[trigger] sealed_chunk(file + extra, j) == sealed_chunk(file, j),
{
    assert forall|j: int| 0 <= j < count implies #[trigger] sealed_chunk(file + extra, j) == sealed_chunk(file, j) by {
        assert((file + extra).subrange(HEADER_LEN + SEALED_CHUNK_LEN * j, HEADER_LEN + SEALED_CHUNK_LEN * (j + 1))
            =~= file.subrange(HEADER_LEN + SEALED_CHUNK_LEN * j, HEADER_LEN + SEALED_CHUNK_LEN * (j + 1)));
    }
}

/// Seals `plaintext` under `password`, `salt` and `nonce` into a vault file.
/// The result is the file that `sealed_file` describes, laid out chunk by
/// chunk as `chunk_layout` says, of the length `sealed_len` gives, and
/// opening it with the same password gives the whole plaintext back.
pub fn seal_vault(plaintext: &[u8], password: &str, salt: &[u8; 32], nonce: &[u8; 19]) -> (res: Result<Vec<u8>, VaultError>)
    requires
        password.spec_bytes().len() <= u32::MAX,
    ensures
        res is Err <==> plaintext@.len() / (CHUNK_LEN as nat) > u32::MAX,
        res is Err <==> sealed_file(plaintext@, password.spec_bytes(), salt@, nonce@) is None,
        res matches Err(e) ==> e == VaultError::StreamExhausted,
        res matches Ok(c) ==> sealed_file(plaintext@, password.spec_bytes(), salt@, nonce@) == Some(c@),
        res matches Ok(c) ==> c@.len() == sealed_len(plaintext@.len()),
        res matches Ok(c) ==> chunk_layout(c@, derived_key(password.spec_bytes(), salt@), nonce@, plaintext@),
        res matches Ok(c) ==> opened_file(c@, password.spec_bytes()) == (plaintext@, Ok::<(), VaultError>(())),
{
    let ghost pw = password.spec_bytes();
    let mut key = derive_key(password, salt.as_slice());
    let ghost k = key@;
    let ghost data = plaintext@;
    let ghost n = nonce@;
    let mut out = vstd::slice::slice_to_vec(salt.as_slice());
    let mut nonce_bytes = vstd::slice::slice_to_vec(nonce.as_slice());
    out.append(&mut nonce_bytes);
    let ghost header = out@;
    assert(header =~= salt@ + nonce@);
    let mut i: usize = 0;
    let mut pos: u32 = 0;
    let ghost mut done: Seq<u8> = Seq::empty();
    assert(data.subrange(0, 0) =~= Seq::<u8>::empty());
    assert(data.subrange(0, data.len() as int) =~= data);
    assert forall|tail: Seq<u8>| #[trigger] open_chunks(k, n, done + tail, 0) == after(data.subrange(0, 0), open_chunks(k, n, tail, 0)) by {
        assert(done + tail =~= tail);
        lemma_after_empty(open_chunks(k, n, tail, 0));
    }
    loop
        invariant
            i <= data.len(),
            i == pos as int * CHUNK_LEN,
            k == derived_key(pw, salt@),
            pw == password.spec_bytes(),
            k.len() == 32,
            key@ == k,
            n == nonce@,
            n.len() == STREAM_NONCE_LEN,
            data == plaintext@,
            out@ == header + done,
            header == salt@ + nonce@,
            done.len() == pos as int * SEALED_CHUNK_LEN,
            forall|j: int| 0 <= j < pos ==> #[trigger] sealed_chunk(out@, j) == stream_seal(k, n, j as u32, false, plain_chunk(data, j)),
            seal_chunks(k, n, data, 0) == prefixed(done, seal_chunks(k, n, data.subrange(i as int, data.len() as int), pos as nat)),
            forall|tail: Seq<u8>| #[trigger] open_chunks(k, n, done + tail, 0) == after(data.subrange(0, i as int), open_chunks(k, n, tail, pos as nat)),
        decreases data.len() - i,
    {
        let ghost rest = data.subrange(i as int, data.len() as int);
        if plaintext.len() - i >= CHUNK_LEN {
            if pos == u32::MAX {
                wipe_vec(&mut key);
                assert(seal_chunks(k, n, rest, pos as nat) is None);
                assert(seal_chunks(k, n, data, 0) is None);
                assert(sealed_file(data, pw, salt@, nonce@) == prefixed(salt@ + nonce@, seal_chunks(k, n, data, 0)));
                assert(plaintext@.len() / (CHUNK_LEN as nat) > u32::MAX) by (nonlinear_arith)
                    requires i == pos as int * 500, pos == u32::MAX, data.len() - i >= 500, plaintext@.len() == data.len();
                return Err(VaultError::StreamExhausted);
            }
            let chunk = vstd::slice::slice_subrange(plaintext, i, i + CHUNK_LEN);
            let sealed = seal_chunk(key.as_slice(), nonce.as_slice(), pos, false, chunk);
            let mut c = match sealed {
                Ok(c) => c,
                Err(_) => {
                    assert(false);
                    return Err(VaultError::StreamExhausted);
                },
            };
            let ghost cs = c@;
            let ghost m = chunk@;
            let ghost prev = out@;
            out.append(&mut c);
            proof {
                assert(m =~= plain_chunk(data, pos as int));
                lemma_chunks_kept(prev, cs, pos as int);
                assert(sealed_chunk(out@, pos as int) =~= cs);
                assert(rest.subrange(0, CHUNK_LEN as int) =~= m);
                assert(rest.subrange(CHUNK_LEN as int, rest.len() as int) =~= data.subrange(i + CHUNK_LEN, data.len() as int));
                lemma_prefixed_assoc(done, cs, seal_chunks(k, n, data.subrange(i + CHUNK_LEN, data.len() as int), pos as nat + 1));
                assert forall|tail: Seq<u8>| #[trigger] open_chunks(k, n, (done + cs) + tail, 0) == after(data.subrange(0, i + CHUNK_LEN), open_chunks(k, n, tail, pos as nat + 1)) by {
                    assert((done + cs) + tail =~= done + (cs + tail));
                    lemma_open_middle(k, n, cs, m, tail, pos as nat);
                    lemma_after_assoc(data.subrange(0, i as int), m, open_chunks(k, n, tail, pos as nat + 1));
                    assert(data.subrange(0, i as int) + m =~= data.subrange(0, i + CHUNK_LEN));
                }
                done = done + cs;
                assert(out@ =~= header + done);
            }
            i = i + CHUNK_LEN;
            pos = pos + 1;
        } else {
            let last = vstd::slice::slice_subrange(plaintext, i, plaintext.len());
            let sealed = seal_chunk(key.as_slice(), nonce.as_slice(), pos, true, last);
            let mut c = match sealed {
                Ok(c) => c,
                Err(_) => {
                    assert(false);
                    return Err(VaultError::StreamExhausted);
                },
            };
            let ghost cs = c@;
            let ghost prev = out@;
            out.append(&mut c);
            proof {
                assert(last@ =~= rest);
                assert(seal_chunks(k, n, rest, pos as nat) == Some(cs));
                assert(open_chunks(k, n, cs, pos as nat) == (rest, true));
                assert(open_chunks(k, n, done + cs, 0) == after(data.subrange(0, i as int), (rest, true)));
                assert(data.subrange(0, i as int) + rest =~= data);
                assert(out@ =~= (header + done) + cs);
                assert((header + done) + cs =~= header + (done + cs));
                assert(data.len() / 500 == pos as int) by (nonlinear_arith)
                    requires i == pos as int * 500, data.len() - i < 500, i <= data.len();
                assert(data.len() % 500 == data.len() - i) by (nonlinear_arith)
                    requires i == pos as int * 500, data.len() - i < 500, i <= data.len();
                assert(out@.len() == sealed_len(data.len()));
                assert(plaintext@.len() / (CHUNK_LEN as nat) <= u32::MAX);
                // the layout, chunk by chunk
                lemma_chunks_kept(prev, cs, pos as int);
                assert(out@.subrange(HEADER_LEN + SEALED_CHUNK_LEN * pos, out@.len() as int) =~= cs);
                assert(data.subrange(CHUNK_LEN * pos, data.len() as int) =~= rest);
                assert(chunk_layout(out@, k, n, data));
                // opening the file gives the plaintext back
                let file = out@;
                assert(file.subrange(0, 32) =~= salt@);
                assert(file.subrange(32, 51) =~= nonce@);
                assert(file.subrange(51, file.len() as int) =~= done + cs);
                assert(seal_chunks(k, n, data, 0) == Some(done + cs));
                assert(sealed_file(data, pw, salt@, nonce@) == prefixed(salt@ + nonce@, seal_chunks(k, n, data, 0)));
                assert(file =~= (salt@ + nonce@) + (done + cs));
            }
            wipe_vec(&mut key);
            return Ok(out);
        }
    }
}

/// Seals `plaintext` under `password` with a fresh random salt and stream
/// nonce; fails where the operating system gives no random bytes, or where
/// the plaintext has more chunks than the counter numbers. Whatever salt and
/// nonce came out, they head the file and the rest is the sealing under them;
/// opening the file with the same password gives the plaintext back.
pub fn encrypt_bytes(plaintext: &[u8], password: &str) -> (res: Result<Vec<u8>, VaultError>)
    requires
        password.spec_bytes().len() <= u32::MAX,
    ensures
        plaintext@.len() / (CHUNK_LEN as nat) > u32::MAX ==> res is Err,
        res matches Err(e) ==> e == VaultError::NoRandomness || (e == VaultError::StreamExhausted
            && plaintext@.len() / (CHUNK_LEN as nat) > u32::MAX),
        res matches Ok(c) ==> c@.len() == sealed_len(plaintext@.len()),
        res matches Ok(c) ==> sealed_file(
            plaintext@,
            password.spec_bytes(),
            c@.subrange(0, SALT_LEN as int),
            c@.subrange(SALT_LEN as int, HEADER_LEN as int),
        ) == Some(c@),
        res matches Ok(c) ==> chunk_layout(
            c@,
            derived_key(password.spec_bytes(), c@.subrange(0, SALT_LEN as int)),
            c@.subrange(SALT_LEN as int, HEADER_LEN as int),
            plaintext@,
        ),
        res matches Ok(c) ==> opened_file(c@, password.spec_bytes()) == (plaintext@, Ok::<(), VaultError>(())),
{
    let mut salt = [0u8; 32];
    let mut nonce = [0u8; 19];
    let drawn_salt = match fill_random(&mut salt) {
        Ok(()) => Some(salt),
        Err(_) => None,
    };
    let drawn_nonce = match fill_random(&mut nonce) {
        Ok(()) => Some(nonce),
        Err(_) => None,
    };
    let res = seal_with_draws(plaintext, password, drawn_salt, drawn_nonce);
    wipe_array(&mut salt);
    wipe_array(&mut nonce);
    res
}

/// Seals `plaintext` under `password` with the salt and the nonce drawn from
/// the operating system. It fails with `NoRandomness` exactly when one of the
/// draws failed; with both drawn, it fails only where the plaintext has more
/// full chunks than the 32-bit counter numbers, and otherwise gives the file
/// headed by the drawn salt and nonce, laid out chunk by chunk, which opens
/// back to the plaintext.
pub fn seal_with_draws(
    plaintext: &[u8],
    password: &str,
    salt: Option<[u8; 32]>,
    nonce: Option<[u8; 19]>,
) -> (res: Result<Vec<u8>, VaultError>)
    requires
        password.spec_bytes().len() <= u32::MAX,
    ensures
        res == Err::<Vec<u8>, VaultError>(VaultError::NoRandomness) <==> (salt is None || nonce is None),
        (salt is Some && nonce is Some) ==> (res is Ok <==> plaintext@.len() / (CHUNK_LEN as nat) <= u32::MAX),
        (salt is Some && nonce is Some && res is Err) ==> res == Err::<Vec<u8>, VaultError>(VaultError::StreamExhausted),
        res matches Ok(c) ==> c@.subrange(0, SALT_LEN as int) == salt.unwrap()@,
        res matches Ok(c) ==> c@.subrange(SALT_LEN as int, HEADER_LEN as int) == nonce.unwrap()@,
        res matches Ok(c) ==> c@.len() == sealed_len(plaintext@.len()),
        res matches Ok(c) ==> sealed_file(plaintext@, password.spec_bytes(), salt.unwrap()@, nonce.unwrap()@) == Some(c@),
        res matches Ok(c) ==> chunk_layout(c@, derived_key(password.spec_bytes(), salt.unwrap()@), nonce.unwrap()@, plaintext@),
        res matches Ok(c) ==> opened_file(c@, password.spec_bytes()) == (plaintext@, Ok::<(), VaultError>(())),
{
    match (salt, nonce) {
        (Some(s), Some(n)) => {
            let res = seal_vault(plaintext, password, &s, &n);
            proof {
                if res is Ok {
                    let c = res->Ok_0;
                    assert(c@.subrange(0, SALT_LEN as int) =~= s@);
                    assert(c@.subrange(SALT_LEN as int, HEADER_LEN as int) =~= n@);
                }
            }
            res
        },
        _ => Err(VaultError::NoRandomness),
    }
}

/// Opens the vault file `data` with `password`, as `opened_file` says: the
/// salt and the nonce are read first, then the chunks are opened in order.
/// The plaintext of the chunks that opened before a failure is returned
/// together with the failure.
pub fn decrypt_bytes(data: &[u8], password: &str) -> (res: (Vec<u8>, Result<(), VaultError>))
    requires
        data@.len() >= HEADER_LEN ==> password.spec_bytes().len() <= u32::MAX,
    ensures
        (res.0@, res.1) == opened_file(data@, password.spec_bytes()),
{
    if data.len() < SALT_LEN {
        return (Vec::new(), Err(VaultError::SaltMissing));
    }
    if data.len() < HEADER_LEN {
        return (Vec::new(), Err(VaultError::NonceMissing));
    }
    let salt = vstd::slice::slice_subrange(data, 0, SALT_LEN);
    let nonce = vstd::slice::slice_subrange(data, SALT_LEN, HEADER_LEN);
    let mut key = derive_key(password, salt);
    let ghost k = key@;
    let ghost n = nonce@;
    let ghost body = data@.subrange(HEADER_LEN as int, data@.len() as int);
    let mut out: Vec<u8> = Vec::new();
    let mut i: usize = HEADER_LEN;
    let mut pos: u32 = 0;
    proof {
        assert(body.subrange(0, body.len() as int) =~= body);
        lemma_after_empty(open_chunks(k, n, body, 0));
    }
    loop
        invariant
            HEADER_LEN <= i <= data@.len(),
            k == derived_key(password.spec_bytes(), salt@),
            salt@ == data@.subrange(0, SALT_LEN as int),
            n == data@.subrange(SALT_LEN as int, HEADER_LEN as int),
            nonce@ == n,
            key@ == k,
            k.len() == 32,
            n.len() == STREAM_NONCE_LEN,
            body == data@.subrange(HEADER_LEN as int, data@.len() as int),
            open_chunks(k, n, body, 0) == after(out@, open_chunks(k, n, data@.subrange(i as int, data@.len() as int), pos as nat)),
        decreases data@.len() - i,
    {
        let ghost rest = data@.subrange(i as int, data@.len() as int);
        if data.len() - i >= SEALED_CHUNK_LEN {
            if pos == u32::MAX {
                wipe_vec(&mut key);
                assert(out@ + Seq::<u8>::empty() =~= out@);
                return (out, Err(VaultError::ChunkRejected));
            }
            let chunk = vstd::slice::slice_subrange(data, i, i + SEALED_CHUNK_LEN);
            assert(chunk@ =~= rest.subrange(0, SEALED_CHUNK_LEN as int));
            assert(rest.subrange(SEALED_CHUNK_LEN as int, rest.len() as int) =~= data@.subrange(i + SEALED_CHUNK_LEN, data@.len() as int));
            match open_chunk(key.as_slice(), nonce, pos, false, chunk) {
                Ok(mut m) => {
                    let ghost ms = m@;
                    let ghost prev = out@;
                    out.append(&mut m);
                    proof {
                        lemma_after_assoc(prev, ms, open_chunks(k, n, data@.subrange(i + SEALED_CHUNK_LEN, data@.len() as int), pos as nat + 1));
                    }
                },
                Err(_) => {
                    wipe_vec(&mut key);
                    assert(out@ + Seq::<u8>::empty() =~= out@);
                    return (out, Err(VaultError::ChunkRejected));
                },
            }
            i = i + SEALED_CHUNK_LEN;
            pos = pos + 1;
        } else if data.len() == i {
            wipe_vec(&mut key);
            assert(out@ + Seq::<u8>::empty() =~= out@);
            return (out, Ok(()));
        } else {
            let last = vstd::slice::slice_subrange(data, i, data.len());
            assert(last@ =~= rest);
            match open_chunk(key.as_slice(), nonce, pos, true, last) {
                Ok(mut m) => {
                    out.append(&mut m);
                    wipe_vec(&mut key);
                    return (out, Ok(()));
                },
                Err(_) => {
                    wipe_vec(&mut key);
                    assert(out@ + Seq::<u8>::empty() =~= out@);
                    return (out, Err(VaultError::ChunkRejected));
                },
            }
        }
    }
}


/// Sealed piece `i` of a run of sealed chunks: the `i`-th run of
/// `SEALED_CHUNK_LEN` bytes.
pub open spec fn sealed_piece(body: Seq<u8>, i: int) -> Seq<u8> {
    body.subrange(SEALED_CHUNK_LEN * i, SEALED_CHUNK_LEN * (i + 1))
}

/// Whether sealed piece `i` of `body` authenticates as a middle chunk at
/// stream position `start + i`.
pub open spec fn piece_opens(key: Seq<u8>, nonce: Seq<u8>, body: Seq<u8>, start: nat, i: int) -> bool {
    stream_open(key, nonce, (start + i) as u32, false, sealed_piece(body, i)) is Some
}

/// Whether what follows the whole sealed pieces of `body` (if anything)
/// authenticates as the last chunk at the position after them.
pub open spec fn tail_opens(key: Seq<u8>, nonce: Seq<u8>, body: Seq<u8>, start: nat) -> bool {
    let q = body.len() / (SEALED_CHUNK_LEN as nat);
    body.len() % (SEALED_CHUNK_LEN as nat) != 0 ==> stream_open(
        key,
        nonce,
        (start + q) as u32,
        true,
        body.subrange(SEALED_CHUNK_LEN * q, body.len() as int),
    ) is Some
}

/// Opening sealed chunks from `start` on reports success only when every
/// whole sealed piece authenticated as a middle chunk at its own position,
/// the counter never reached its largest value for one of them, and the rest
/// (if any) authenticated as the last chunk.
proof fn lemma_open_chunks_authentic(key: Seq<u8>, nonce: Seq<u8>, body: Seq<u8>, start: nat)
    requires
        start <= u32::MAX,
    ensures
        open_chunks(key, nonce, body, start).1 ==> {
            &&& start + body.len() / (SEALED_CHUNK_LEN as nat) <= u32::MAX
            &&& forall|i: int| 0 <= i < body.len() / (SEALED_CHUNK_LEN as nat) ==> #[trigger] piece_opens(key, nonce, body, start, i)
            &&& tail_opens(key, nonce, body, start)
        },
    decreases body.len(),
{
    if body.len() >= SEALED_CHUNK_LEN && start < u32::MAX {
        let rest = body.subrange(SEALED_CHUNK_LEN as int, body.len() as int);
        lemma_open_chunks_authentic(key, nonce, rest, start + 1);
        if open_chunks(key, nonce, body, start).1 {
            let q = body.len() / (SEALED_CHUNK_LEN as nat);
            assert(rest.len() / (SEALED_CHUNK_LEN as nat) == q - 1 && rest.len() % (SEALED_CHUNK_LEN as nat) == body.len() % (SEALED_CHUNK_LEN as nat)) by (nonlinear_arith)
                requires rest.len() == body.len() - 516, body.len() >= 516, q == body.len() / 516;
            assert(stream_open(key, nonce, start as u32, false, body.subrange(0, SEALED_CHUNK_LEN as int)) is Some);
            assert forall|i: int| 0 <= i < q implies #[trigger] piece_opens(key, nonce, body, start, i) by {
                if i == 0 {
                    assert(sealed_piece(body, 0) =~= body.subrange(0, SEALED_CHUNK_LEN as int));
                } else {
                    assert(piece_opens(key, nonce, rest, start + 1, i - 1));
                    assert(sealed_piece(rest, i - 1) =~= sealed_piece(body, i));
                    assert((start + 1) + (i - 1) == start + i);
                }
            }
            assert(open_chunks(key, nonce, rest, start + 1).1);
            assert(start + q <= u32::MAX);
            assert(tail_opens(key, nonce, rest, start + 1));
            if body.len() % (SEALED_CHUNK_LEN as nat) != 0 {
                assert(rest.subrange(SEALED_CHUNK_LEN * (q - 1), rest.len() as int) =~= body.subrange(SEALED_CHUNK_LEN * q, body.len() as int));
                assert((start + 1) + (q - 1) == start + q);
                assert(stream_open(key, nonce, (start + q) as u32, true, body.subrange(SEALED_CHUNK_LEN * q, body.len() as int)) is Some);
            }
            assert(tail_opens(key, nonce, body, start));
        }
    } else if body.len() < SEALED_CHUNK_LEN {
        assert(body.len() / (SEALED_CHUNK_LEN as nat) == 0);
        if body.len() != 0 {
            assert(body.len() % (SEALED_CHUNK_LEN as nat) == body.len());
            assert(body.subrange(SEALED_CHUNK_LEN * 0, body.len() as int) =~= body);
        }
    }
}

/// A vault file opens with success only if every sealed chunk of its body
/// authenticated, each at its own position, under the key derived from the
/// password and the file's salt and under the file's nonce: middle chunk `i`
/// (the `i`-th 516 bytes after the header) as a middle chunk at position
/// `i`, and what follows them (if anything) as the last chunk. So whenever
/// some chunk fails to authenticate, the outcome is `ChunkRejected`.
pub proof fn lemma_opened_file_authentic(data: Seq<u8>, password: Seq<u8>)
    ensures
        opened_file(data, password).1 is Ok ==> {
            let key = argon2_hash(password, data.subrange(0, 32), vault_kdf_params_spec());
            let nonce = data.subrange(32, 51);
            let body = data.subrange(51, data.len() as int);
            &&& data.len() >= 51
            &&& forall|i: int| 0 <= i < body.len() / (SEALED_CHUNK_LEN as nat) ==> #[trigger] piece_opens(key, nonce, body, 0, i)
            &&& tail_opens(key, nonce, body, 0)
        },
        opened_file(data, password).1 is Err ==> opened_file(data, password).1 == Err::<(), VaultError>(
            if data.len() < 32 { VaultError::SaltMissing } else if data.len() < 51 { VaultError::NonceMissing } else { VaultError::ChunkRejected },
        ),
{
    if data.len() >= 51 {
        let key = derived_key(password, data.subrange(0, 32));
        lemma_open_chunks_authentic(key, data.subrange(32, 51), data.subrange(51, data.len() as int), 0);
    }
}

/// A vault file whose first sealed chunk does not authenticate (under the
/// key derived from the password and the file's salt, at position 0) opens
/// to no plaintext at all, with `ChunkRejected`.
pub proof fn lemma_opened_file_first_chunk(data: Seq<u8>, password: Seq<u8>)
    requires
        data.len() >= 51 + 516,
    ensures
        ({
            let key = argon2_hash(password, data.subrange(0, 32), vault_kdf_params_spec());
            let nonce = data.subrange(32, 51);
            let first = data.subrange(51, 567);
            stream_open(key, nonce, 0u32, false, first) is None ==> opened_file(data, password) == (
                Seq::<u8>::empty(),
                Err::<(), VaultError>(VaultError::ChunkRejected),
            )
        }),
{
    let body = data.subrange(51, data.len() as int);
    assert(body.subrange(0, SEALED_CHUNK_LEN as int) =~= data.subrange(51, 567));
}

} // verus!
