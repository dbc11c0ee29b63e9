use vstd::prelude::*;
use rand::RngCore;
use vstd::string::StringSliceAdditionalSpecFns;

verus! {

/// Which Argon2 function to run.
#[derive(PartialEq, Eq, Structural, Debug, Clone, Copy)]
pub enum KdfVariant {
    Argon2d,
    Argon2i,
    Argon2id,
}

/// The Argon2 parameters that the vault chooses; associated data and secret
/// are empty and the version is 0x13.
pub struct KdfParams {
    pub variant: KdfVariant,
    pub hash_length: u32,
    pub lanes: u32,
    pub mem_cost: u32,
    pub time_cost: u32,
}

/// Length of the random salt, in bytes.
pub const SALT_LEN: usize = 32;

/// Length of a password hash (and of a derived key), in bytes.
pub const HASH_LEN: usize = 32;

/// Argon2id, 32-byte output, 8 lanes, 16 MiB of memory, 8 passes.
pub open spec fn vault_kdf_params_spec() -> KdfParams {
    KdfParams {
        variant: KdfVariant::Argon2id,
        hash_length: 32,
        lanes: 8,
        mem_cost: 16384,
        time_cost: 8,
    }
}

/// The parameters with which every password hash and file key is derived.
pub fn vault_kdf_params() -> (p: KdfParams)
    ensures
        p == vault_kdf_params_spec(),
{
    KdfParams {
        variant: KdfVariant::Argon2id,
        hash_length: 32,
        lanes: 8,
        mem_cost: 16 * 1024,
        time_cost: 8,
    }
}

/// The raw Argon2 output for a password, a salt and parameters.
pub uninterp spec fn argon2_hash(password: Seq<u8>, salt: Seq<u8>, params: KdfParams) -> Seq<u8>;

/// The inputs that Argon2 accepts (with empty associated data and secret).
pub open spec fn argon2_accepts(params: KdfParams, password_len: nat, salt_len: nat) -> bool {
    &&& 1 <= params.lanes <= 0x00FF_FFFF
    &&& 8 <= params.mem_cost
    &&& (usize::BITS == 32 ==> params.mem_cost <= 0x20_0000)
    &&& 8 * params.lanes <= params.mem_cost
    &&& 1 <= params.time_cost
    &&& password_len <= 0xFFFF_FFFF
    &&& 8 <= salt_len <= 0xFFFF_FFFF
    &&& 4 <= params.hash_length
}

#[verifier::external_type_specification]
#[verifier::external_body]
pub struct ExArgon2Error(argon2::Error);

/// Calls `argon2::hash_raw` with a `Config` made of `params` and the crate's
/// defaults for the rest (no associated data, no secret, version 0x13).
/// Trusted: it fails exactly on the inputs that `Context::new` rejects, and
/// otherwise returns `params.hash_length` bytes, named `argon2_hash`.
#[verifier::external_body]
fn argon2_hash_raw(password: &[u8], salt: &[u8], params: &KdfParams) -> (res: Result<Vec<u8>, argon2::Error>)
    ensures
        res is Ok <==> argon2_accepts(*params, password@.len(), salt@.len()),
        res matches Ok(h) ==> h@ == argon2_hash(password@, salt@, *params),
        res matches Ok(h) ==> h@.len() == params.hash_length,
{
    let variant = match params.variant {
        KdfVariant::Argon2d => argon2::Variant::Argon2d,
        KdfVariant::Argon2i => argon2::Variant::Argon2i,
        KdfVariant::Argon2id => argon2::Variant::Argon2id,
    };
    let config = argon2::Config {
        variant,
        hash_length: params.hash_length,
        lanes: params.lanes,
        mem_cost: params.mem_cost,
        time_cost: params.time_cost,
        ..Default::default()
    };
    argon2::hash_raw(password, salt, &config)
}

#[verifier::external_type_specification]
#[verifier::external_body]
pub struct ExRandError(rand::Error);

/// Fills `buf` from the operating system's random source
/// (`OsRng::try_fill_bytes`). Nothing is promised of the bytes, nor of when
/// the operating system refuses.
#[verifier::external_body]
pub(crate) fn fill_random<const N: usize>(buf: &mut [u8; N]) -> Result<(), rand::Error> {
    rand::rngs::OsRng.try_fill_bytes(buf)
}

/// The operating system gave no random bytes.
#[derive(PartialEq, Eq, Structural, Debug, Clone, Copy)]
pub struct NoRandomness;

/// Overwrites every byte of `buf` with zero (`Zeroize` for arrays).
#[verifier::external_body]
pub(crate) fn wipe_array<const N: usize>(buf: &mut [u8; N])
    ensures
        forall|i: int| 0 <= i < N ==> final(buf)@[i] == 0u8,
{
    zeroize::Zeroize::zeroize(buf);
}

/// Zeroes the bytes of `v` and empties it (`Zeroize` for `Vec`).
#[verifier::external_body]
pub(crate) fn wipe_vec(v: &mut Vec<u8>)
    ensures
        final(v)@ == Seq::<u8>::empty(),
{
    zeroize::Zeroize::zeroize(v);
}

/// The key (or stored hash) that a password and a salt give.
pub open spec fn derived_key(password: Seq<u8>, salt: Seq<u8>) -> Seq<u8> {
    argon2_hash(password, salt, vault_kdf_params_spec())
}

/// Derives the 32-byte key of `password` under `salt` with the vault's parameters.
pub fn derive_key(password: &str, salt: &[u8]) -> (key: Vec<u8>)
    requires
        password.spec_bytes().len() <= u32::MAX,
        8 <= salt@.len() <= u32::MAX,
    ensures
        key@ == derived_key(password.spec_bytes(), salt@),
        key@ == argon2_hash(password.spec_bytes(), salt@, vault_kdf_params_spec()),
        key@.len() == HASH_LEN,
{
    let params = vault_kdf_params();
    let res = argon2_hash_raw(password.as_bytes(), salt, &params);
    match res {
        Ok(h) => h,
        Err(_) => {
            assert(false);
            Vec::new()
        },
    }
}


/// A password hash with the salt it was made with.
pub struct Password {
    pub hash: Vec<u8>,
    pub salt: [u8; 32],
}

/// Why a stored password record refuses a password.
#[derive(PartialEq, Eq, Structural, Debug, Clone, Copy)]
pub enum PasswordError {
    /// The record is shorter than a salt.
    SaltMissing,
    /// The record holds a salt but not a whole hash after it.
    HashMissing,
    /// The password hashes to something else under the stored salt.
    WrongPassword,
}

/// The outcome of checking `password` against a stored record: the record is
/// a 32-byte salt followed by a 32-byte hash; anything after them is ignored.
pub open spec fn password_check(record: Seq<u8>, password: Seq<u8>) -> Result<(), PasswordError> {
    if record.len() < SALT_LEN {
        Err(PasswordError::SaltMissing)
    } else if record.len() < SALT_LEN + HASH_LEN {
        Err(PasswordError::HashMissing)
    } else if derived_key(password, record.subrange(0, SALT_LEN as int)) == record.subrange(
        SALT_LEN as int,
        (SALT_LEN + HASH_LEN) as int,
    ) {
        Ok(())
    } else {
        Err(PasswordError::WrongPassword)
    }
}

impl Password {
    /// Hashes `password` under a fresh random salt; fails only where the
    /// operating system gives no random bytes. Whatever salt came out, the
    /// hash is the one derived under it, and the record of the result accepts
    /// the same password.
    pub fn new(password: &str) -> (res: Result<Password, NoRandomness>)
        requires
            password.spec_bytes().len() <= u32::MAX,
        ensures
            res matches Ok(p) ==> p.hash@ == derived_key(password.spec_bytes(), p.salt@),
            res matches Ok(p) ==> p.hash@.len() == HASH_LEN,
            res matches Ok(p) ==> password_check(p.salt@ + p.hash@, password.spec_bytes()) == Ok::<(), PasswordError>(()),
    {
        let mut salt = [0u8; 32];
        let drawn = match fill_random(&mut salt) {
            Ok(()) => Some(salt),
            Err(_) => None,
        };
        Self::with_drawn_salt(password, drawn)
    }

    /// Hashes `password` under the salt drawn from the operating system, or
    /// fails where no salt could be drawn: it fails exactly when `salt` is
    /// `None`, and otherwise holds that salt and the Argon2id hash of the
    /// whole password under it.
    pub fn with_drawn_salt(password: &str, salt: Option<[u8; 32]>) -> (res: Result<Password, NoRandomness>)
        requires
            password.spec_bytes().len() <= u32::MAX,
        ensures
            res is Err <==> salt is None,
            res matches Ok(p) ==> salt == Some(p.salt),
            res matches Ok(p) ==> p.hash@ == argon2_hash(password.spec_bytes(), p.salt@, vault_kdf_params_spec()),
            res matches Ok(p) ==> p.hash@ == derived_key(password.spec_bytes(), p.salt@),
            res matches Ok(p) ==> p.hash@.len() == HASH_LEN,
            res matches Ok(p) ==> password_check(p.salt@ + p.hash@, password.spec_bytes()) == Ok::<(), PasswordError>(()),
    {
        match salt {
            Some(s) => Ok(Self::new_with_salt(password, &s)),
            None => Err(NoRandomness),
        }
    }

    /// Hashes `password` under the given salt; the record of the result
    /// accepts the same password.
    pub fn new_with_salt(password: &str, salt: &[u8; 32]) -> (p: Password)
        requires
            password.spec_bytes().len() <= u32::MAX,
        ensures
            p.salt@ == salt@,
            p.hash@ == derived_key(password.spec_bytes(), salt@),
            p.hash@ == argon2_hash(password.spec_bytes(), salt@, vault_kdf_params_spec()),
            p.hash@.len() == HASH_LEN,
            password_check(p.salt@ + p.hash@, password.spec_bytes()) == Ok::<(), PasswordError>(()),
    {
        let hash = derive_key(password, salt.as_slice());
        let p = Password { hash, salt: *salt };
        assert((p.salt@ + p.hash@).subrange(0, 32) =~= p.salt@);
        assert((p.salt@ + p.hash@).subrange(32, 64) =~= p.hash@);
        p
    }

    /// The bytes stored for this password: the salt, then the hash.
    pub fn record(&self) -> (r: Vec<u8>)
        ensures
            r@ == self.salt@ + self.hash@,
    {
        let mut r = vstd::slice::slice_to_vec(self.salt.as_slice());
        let mut i: usize = 0;
        while i < self.hash.len()
            invariant
                i <= self.hash@.len(),
                r@ == self.salt@ + self.hash@.subrange(0, i as int),
            decreases self.hash@.len() - i,
        {
            r.push(self.hash[i]);
            i = i + 1;
            assert(self.hash@.subrange(0, i as int) =~= self.hash@.subrange(0, i - 1).push(self.hash@[i - 1]));
        }
        assert(self.hash@.subrange(0, i as int) =~= self.hash@);
        r
    }
}

/// Whether two byte strings are equal.
pub fn bytes_equal(a: &[u8], b: &[u8]) -> (eq: bool)
    ensures
        eq == (a@ == b@),
{
    if a.len() != b.len() {
        return false;
    }
    let mut i: usize = 0;
    while i < a.len()
        invariant
            a@.len() == b@.len(),
            i <= a@.len(),
            forall|j: int| 0 <= j < i ==> a@[j] == b@[j],
        decreases a@.len() - i,
    {
        if a[i] != b[i] {
            return false;
        }
        i = i + 1;
    }
    assert(a@ =~= b@);
    true
}

/// Checks `password` against a stored record (a salt, then a hash), as
/// `password_check` says.
pub fn test_password(record: &[u8], password: &str) -> (res: Result<(), PasswordError>)
    requires
        record@.len() >= SALT_LEN + HASH_LEN ==> password.spec_bytes().len() <= u32::MAX,
    ensures
        res == password_check(record@, password.spec_bytes()),
{
    if record.len() < SALT_LEN {
        return Err(PasswordError::SaltMissing);
    }
    if record.len() < SALT_LEN + HASH_LEN {
        return Err(PasswordError::HashMissing);
    }
    let salt = vstd::slice::slice_subrange(record, 0, SALT_LEN);
    let stored = vstd::slice::slice_subrange(record, SALT_LEN, SALT_LEN + HASH_LEN);
    let key = derive_key(password, salt);
    if bytes_equal(key.as_slice(), stored) {
        Ok(())
    } else {
        Err(PasswordError::WrongPassword)
    }
}


/// The key and the stored hash are the Argon2id hash of every byte of the
/// password under the salt: 32 bytes, 8 lanes, 16 MiB, 8 passes.
pub proof fn lemma_derived_key_is_argon2id(password: Seq<u8>, salt: Seq<u8>)
    ensures
        derived_key(password, salt) == argon2_hash(
            password,
            salt,
            (KdfParams { variant: KdfVariant::Argon2id, hash_length: 32, lanes: 8, mem_cost: 16384, time_cost: 8 }),
        ),
{
}

/// A password record (32 bytes of salt, then 32 bytes of hash) accepts a
/// password exactly when the Argon2id hash of the whole password under the
/// salt is the stored hash; a record too short for its salt or its hash
/// refuses every password with the matching error.
pub proof fn lemma_password_check_compares_hashes(record: Seq<u8>, password: Seq<u8>)
    ensures
        record.len() < 32 ==> password_check(record, password) == Err::<(), PasswordError>(PasswordError::SaltMissing),
        32 <= record.len() < 64 ==> password_check(record, password) == Err::<(), PasswordError>(PasswordError::HashMissing),
        record.len() >= 64 ==> (password_check(record, password) is Ok <==> argon2_hash(
            password,
            record.subrange(0, 32),
            (KdfParams { variant: KdfVariant::Argon2id, hash_length: 32, lanes: 8, mem_cost: 16384, time_cost: 8 }),
        ) == record.subrange(32, 64)),
        record.len() >= 64 && !(password_check(record, password) is Ok) ==> password_check(record, password)
            == Err::<(), PasswordError>(PasswordError::WrongPassword),
{
}

/// The record made from one password refuses any other password whose hash
/// under the same salt differs, with `WrongPassword`.
pub proof fn lemma_record_refuses_other_password(made_from: Seq<u8>, tried: Seq<u8>, salt: Seq<u8>)
    requires
        salt.len() == 32,
    ensures
        ({
            let params = KdfParams { variant: KdfVariant::Argon2id, hash_length: 32, lanes: 8, mem_cost: 16384, time_cost: 8 };
            let stored = argon2_hash(made_from, salt, params);
            (stored.len() == 32 && argon2_hash(tried, salt, params) != stored) ==> password_check(salt + stored, tried)
                == Err::<(), PasswordError>(PasswordError::WrongPassword)
        }),
{
    let params = KdfParams { variant: KdfVariant::Argon2id, hash_length: 32, lanes: 8, mem_cost: 16384, time_cost: 8 };
    let stored = argon2_hash(made_from, salt, params);
    let record = salt + stored;
    if stored.len() == 32 {
        assert(record.subrange(0, 32) =~= salt);
        assert(record.subrange(32, 64) =~= stored);
    }
}

} // verus!
