//! Password hashing in GRUB's `grub.pbkdf2.sha512` format, password
//! verification, random passwords, rescue-key tokens and integrity hashes.
use rand::Rng;
use sha2::{Digest, Sha512};
use subtle::ConstantTimeEq;
use vstd::prelude::*;
use vstd::utf8::encode_utf8;
use crate::hexcodec::{
    hex_decodable, hex_decode, hex_decoded, hex_encode, hex_lower, hex_upper,
    lemma_decode_upper_hex, lemma_hex_digit_props, lemma_upper_of_lower_hex, upper_hex_chars,
};
use crate::text::{
    chars_eq, chars_of, decimal, decimal_chars, extend_chars, is_sep,
    lemma_decimal_parses, lemma_split_concat, lemma_split_no_sep, lemma_split_piece_len,
    lemma_utf8_len_bound, lemma_utf8_len_is_encoding_len, parse_unsigned, parse_unsigned_chars,
    push_char, split_chars, split_on, string_from_chars, views, Separator,
};

verus! {

broadcast use vstd::string::group_string_axioms;

/// Number of PBKDF2 iterations (the default of `grub-mkpasswd-pbkdf2`).
pub const PBKDF2_ITERATIONS: u32 = 10000;

/// Salt length in bytes.
pub const SALT_LENGTH: usize = 64;

/// Derived key length in bytes.
pub const KEY_LENGTH: usize = 64;

/// The largest output the PBKDF2 wrapper accepts: beyond it the 32-bit block
/// counter of the `pbkdf2` crate overflows.
pub const MAX_DERIVED_LENGTH: u64 = 274877906880;

// ───────────────────────────── outside primitives ─────────────────────────────

/// The SHA-512 digest of `data`.
pub uninterp spec fn sha512(data: Seq<u8>) -> Seq<u8>;

/// PBKDF2 with HMAC-SHA512 over `password` and `salt`, `rounds` iterations,
/// `len` output bytes.
pub uninterp spec fn pbkdf2_hmac_sha512(
    password: Seq<u8>,
    salt: Seq<u8>,
    rounds: u32,
    len: nat,
) -> Seq<u8>;

/// `sha2::Sha512::digest`: the result is the digest of `data`, named
/// [`sha512`]; it is 64 bytes long.
#[verifier::external_body]
fn sha512_digest(data: &[u8]) -> (r: Vec<u8>)
    ensures
        r@ == sha512(data@),
        r@.len() == 64,
{
    Sha512::digest(data).to_vec()
}

/// `pbkdf2::pbkdf2_hmac::<Sha512>` filling a buffer of `len` bytes: the result
/// is named [`pbkdf2_hmac_sha512`] of the arguments and has `len` bytes.
#[verifier::external_body]
fn pbkdf2_sha512(password: &[u8], salt: &[u8], rounds: u32, len: usize) -> (r: Vec<u8>)
    requires
        len as nat <= MAX_DERIVED_LENGTH as nat,
    ensures
        r@ == pbkdf2_hmac_sha512(password@, salt@, rounds, len as nat),
        r@.len() == len,
{
    let mut key = vec![0u8; len];
    pbkdf2::pbkdf2_hmac::<Sha512>(password, salt, rounds, &mut key);
    key
}

/// `subtle::ConstantTimeEq::ct_eq` on byte slices, turned into a `bool`: true
/// exactly when both slices have the same length and the same bytes.
#[verifier::external_body]
fn constant_time_eq(a: &[u8], b: &[u8]) -> (r: bool)
    ensures
        r == (a@ == b@),
{
    bool::from(a.ct_eq(b))
}

/// `rand::Rng::gen_range(0..bound)` on the thread-local generator: some index
/// below `bound`. Which one is left to chance. (`rand::thread_rng` panics
/// only when the operating system's random source cannot seed it.)
#[verifier::external_body]
fn random_index(bound: usize) -> (r: usize)
    requires
        bound > 0,
    ensures
        r < bound,
{
    rand::thread_rng().gen_range(0..bound)
}

/// `rand::Rng::gen::<u8>()` on the thread-local generator: a random byte.
/// Nothing is stated of its value. (`rand::thread_rng` panics only when the
/// operating system's random source cannot seed it.)
#[verifier::external_body]
fn random_byte() -> u8 {
    rand::thread_rng().gen::<u8>()
}

// ───────────────────────────── random passwords and salts ─────────────────────────────

/// The characters a generated password draws from.
pub open spec fn password_charset() -> Seq<char> {
    "ABCDEFGHIJKLMNOPQRSTUVWXYZabcdefghijklmnopqrstuvwxyz0123456789!@#$%^&*()-_=+[]{}|;:,.<>?"@
}

/// The password spelled by indices into [`password_charset`].
pub fn password_from_indices(indices: &Vec<usize>) -> (r: String)
    requires
        forall|i: int| 0 <= i < indices@.len() ==> #[trigger] indices@[i] < password_charset().len(),
    ensures
        r@ == Seq::new(indices@.len(), |i: int| password_charset()[indices@[i] as int]),
{
    let charset = chars_of(
        "ABCDEFGHIJKLMNOPQRSTUVWXYZabcdefghijklmnopqrstuvwxyz0123456789!@#$%^&*()-_=+[]{}|;:,.<>?",
    );
    let mut out = String::new();
    let mut i: usize = 0;
    while i < indices.len()
        invariant
            charset@ == password_charset(),
            forall|k: int| 0 <= k < indices@.len() ==> #[trigger] indices@[k] < password_charset().len(),
            i <= indices@.len(),
            out@ == Seq::new(i as nat, |k: int| password_charset()[indices@[k] as int]),
        decreases indices.len() - i,
    {
        let c = charset[indices[i]];
        push_char(&mut out, c);
        i = i + 1;
        assert(out@ =~= Seq::new(i as nat, |k: int| password_charset()[indices@[k] as int]));
    }
    out
}

/// Generates a random password of `length` characters: `length` indices are
/// drawn at random below the size of [`password_charset`] and spelled out by
/// [`password_from_indices`].
pub fn generate_random_password(length: usize) -> (r: String)
    ensures
        r@.len() == length,
        exists|indices: Seq<usize>|
            #![trigger indices.len()]
            indices.len() == length && (forall|i: int|
                0 <= i < length ==> #[trigger] indices[i] < password_charset().len()) && r@
                == Seq::new(length as nat, |i: int| password_charset()[indices[i] as int]),
{
    proof {
        reveal_strlit(
            "ABCDEFGHIJKLMNOPQRSTUVWXYZabcdefghijklmnopqrstuvwxyz0123456789!@#$%^&*()-_=+[]{}|;:,.<>?",
        );
    }
    let size = chars_of(
        "ABCDEFGHIJKLMNOPQRSTUVWXYZabcdefghijklmnopqrstuvwxyz0123456789!@#$%^&*()-_=+[]{}|;:,.<>?",
    ).len();
    let mut indices: Vec<usize> = Vec::new();
    let mut i: usize = 0;
    while i < length
        invariant
            size == password_charset().len(),
            size > 0,
            i <= length,
            indices@.len() == i,
            forall|k: int| 0 <= k < i ==> #[trigger] indices@[k] < password_charset().len(),
        decreases length - i,
    {
        indices.push(random_index(size));
        i = i + 1;
    }
    let r = password_from_indices(&indices);
    assert(indices@.len() == length);
    r
}

/// Generates a random salt of [`SALT_LENGTH`] bytes.
fn generate_salt() -> (r: Vec<u8>)
    ensures
        r@.len() == SALT_LENGTH,
{
    let mut salt: Vec<u8> = Vec::new();
    let mut i: usize = 0;
    while i < SALT_LENGTH
        invariant
            i <= SALT_LENGTH,
            salt@.len() == i,
        decreases SALT_LENGTH - i,
    {
        salt.push(random_byte());
        i = i + 1;
    }
    salt
}

// ───────────────────────────── GRUB password hashes ─────────────────────────────

/// The GRUB hash line for a salt and a derived key:
/// `grub.pbkdf2.sha512.ITERATIONS.SALT_HEX.HASH_HEX`, hexadecimal in upper case.
pub open spec fn grub_hash_string(salt: Seq<u8>, key: Seq<u8>) -> Seq<char> {
    "grub.pbkdf2.sha512."@ + decimal(PBKDF2_ITERATIONS as nat) + "."@ + hex_upper(salt) + "."@
        + hex_upper(key)
}

/// The key that PBKDF2-HMAC-SHA512 derives from the UTF-8 bytes of `password`
/// with `salt`, [`PBKDF2_ITERATIONS`] rounds and [`KEY_LENGTH`] bytes.
pub open spec fn derived_key(password: Seq<char>, salt: Seq<u8>) -> Seq<u8> {
    pbkdf2_hmac_sha512(encode_utf8(password), salt, PBKDF2_ITERATIONS, KEY_LENGTH as nat)
}

/// `h` is the GRUB hash line of `password` with `salt`.
pub open spec fn is_hash_of(h: Seq<char>, password: Seq<char>, salt: Seq<u8>) -> bool {
    &&& derived_key(password, salt).len() == KEY_LENGTH
    &&& h == grub_hash_string(salt, derived_key(password, salt))
}

/// The upper-case hexadecimal of `data`, as characters.
fn upper_hex_of(data: &[u8]) -> (r: Vec<char>)
    ensures
        r@ == hex_upper(data@),
{
    let lower = hex_encode(data);
    let cs = chars_of(lower.as_str());
    proof {
        lemma_upper_of_lower_hex(data@);
    }
    upper_hex_chars(cs.as_slice())
}

/// Writes the GRUB hash line for a salt and a derived key:
/// `grub.pbkdf2.sha512.ITERATIONS.SALT_HEX.HASH_HEX`, hexadecimal in upper case.
pub fn format_grub_hash(salt: &[u8], key: &[u8]) -> (r: String)
    ensures
        r@ == grub_hash_string(salt@, key@),
{
    let mut out = chars_of("grub.pbkdf2.sha512.");
    let iterations = decimal_chars(PBKDF2_ITERATIONS as u64);
    extend_chars(&mut out, iterations.as_slice());
    out.push('.');
    let salt_hex = upper_hex_of(salt);
    extend_chars(&mut out, salt_hex.as_slice());
    out.push('.');
    let key_hex = upper_hex_of(key);
    extend_chars(&mut out, key_hex.as_slice());
    proof {
        reveal_strlit(".");
        assert(out@ =~= grub_hash_string(salt@, key@));
    }
    string_from_chars(out.as_slice())
}

/// Hashes `password` with the given salt into GRUB's PBKDF2 format.
pub fn hash_password_with_salt(password: &str, salt: &[u8]) -> (r: String)
    ensures
        is_hash_of(r@, password@, salt@),
        r@ == line_of(
            PBKDF2_ITERATIONS,
            salt@,
            pbkdf2_hmac_sha512(encode_utf8(password@), salt@, PBKDF2_ITERATIONS, KEY_LENGTH as nat),
        ),
        pbkdf2_hmac_sha512(encode_utf8(password@), salt@, PBKDF2_ITERATIONS, KEY_LENGTH as nat).len()
            == KEY_LENGTH,
{
    let key = pbkdf2_sha512(password.as_bytes(), salt, PBKDF2_ITERATIONS, KEY_LENGTH);
    format_grub_hash(salt, key.as_slice())
}

/// Hashes `password` with a fresh random salt of [`SALT_LENGTH`] bytes into
/// GRUB's format `grub.pbkdf2.sha512.ITERATIONS.SALT_HEX.HASH_HEX`.
pub fn hash_password_pbkdf2(password: &str) -> (r: String)
    ensures
        exists|salt: Seq<u8>| salt.len() == SALT_LENGTH && #[trigger] is_hash_of(r@, password@, salt),
        exists|salt: Seq<u8>|
            salt.len() == SALT_LENGTH && r@ == #[trigger] line_of(
                PBKDF2_ITERATIONS,
                salt,
                pbkdf2_hmac_sha512(encode_utf8(password@), salt, PBKDF2_ITERATIONS, KEY_LENGTH as nat),
            ),
        r@.len() == 282,
{
    let salt = generate_salt();
    let r = hash_password_with_salt(password, salt.as_slice());
    assert(is_hash_of(r@, password@, salt@));
    proof {
        reveal_strlit("grub.pbkdf2.sha512.");
        reveal_strlit(".");
        assert(decimal(10000).len() == 5) by {
            reveal_with_fuel(decimal, 5);
        }
    }
    r
}

/// The UTF-8 bytes of a character sequence, with an explicit bound on their
/// number.
fn utf8_bytes_of(cs: &[char]) -> (r: Vec<u8>)
    ensures
        r@ == encode_utf8(cs@),
        r@.len() <= 4 * cs@.len(),
{
    let s = string_from_chars(cs);
    proof {
        lemma_utf8_len_is_encoding_len(cs@);
        lemma_utf8_len_bound(cs@);
    }
    let b = s.as_str().as_bytes();
    let mut v: Vec<u8> = Vec::new();
    v.extend_from_slice(b);
    assert(v@ =~= b@);
    v
}

/// The fields of a GRUB hash line, when it is well formed: the line splits at
/// `.` into six fields `grub`, `pbkdf2`, `sha512`, a decimal iteration count
/// that fits in `u32`, the salt in hexadecimal and the expected key in
/// hexadecimal, which may not be empty. The result is the count, the salt and
/// the key.
pub open spec fn grub_hash_fields(hash: Seq<char>) -> Option<(u32, Seq<u8>, Seq<u8>)> {
    let parts = split_on(hash, Separator::Char('.'));
    if parts.len() == 6 && parts[0] == "grub"@ && parts[1] == "pbkdf2"@ && parts[2] == "sha512"@
        && parse_unsigned(parts[3], u32::MAX as nat) is Some && parts[5].len() > 0 && hex_decodable(
        encode_utf8(parts[4]),
    ) && hex_decodable(encode_utf8(parts[5])) {
        Some(
            (
                parse_unsigned(parts[3], u32::MAX as nat).unwrap() as u32,
                hex_decoded(encode_utf8(parts[4])),
                hex_decoded(encode_utf8(parts[5])),
            ),
        )
    } else {
        None
    }
}

/// What [`verify_password_pbkdf2`] answers: the line is well formed (see
/// [`grub_hash_fields`]) and deriving a key of the expected key's length from
/// the password's UTF-8 bytes with that salt and count gives the expected key.
pub open spec fn verify_spec(password: Seq<char>, hash: Seq<char>) -> bool {
    match grub_hash_fields(hash) {
        Some((iterations, salt, key)) => pbkdf2_hmac_sha512(
            encode_utf8(password),
            salt,
            iterations,
            key.len(),
        ) == key,
        None => false,
    }
}

/// Reads the iteration count, the salt and the expected key out of a GRUB
/// hash line; `None` when the line is not well formed.
pub fn parse_grub_hash(hash_string: &str) -> (r: Option<(u32, Vec<u8>, Vec<u8>)>)
    ensures
        r is None <==> grub_hash_fields(hash_string@) is None,
        r matches Some((n, salt, key)) ==> grub_hash_fields(hash_string@) == Some(
            (n, salt@, key@),
        ),
{
    let hs = chars_of(hash_string);
    let parts = split_chars(hs.as_slice(), Separator::Char('.'));
    let ghost ps = split_on(hash_string@, Separator::Char('.'));
    if parts.len() != 6 {
        return None;
    }
    assert(parts[0]@ == ps[0] && parts[1]@ == ps[1] && parts[2]@ == ps[2]);
    assert(parts[3]@ == ps[3] && parts[4]@ == ps[4] && parts[5]@ == ps[5]);
    let grub = chars_of("grub");
    let pbkdf2 = chars_of("pbkdf2");
    let sha512 = chars_of("sha512");
    if !chars_eq(parts[0].as_slice(), grub.as_slice()) || !chars_eq(
        parts[1].as_slice(),
        pbkdf2.as_slice(),
    ) || !chars_eq(parts[2].as_slice(), sha512.as_slice()) {
        return None;
    }
    if parts[5].len() == 0 {
        return None;
    }
    let iterations: u32 = match parse_unsigned_chars(parts[3].as_slice(), 0xffff_ffff) {
        Some(v) => v as u32,
        None => return None,
    };
    let salt_bytes = utf8_bytes_of(parts[4].as_slice());
    let salt = match hex_decode(salt_bytes.as_slice()) {
        Ok(v) => v,
        Err(_) => return None,
    };
    let key_bytes = utf8_bytes_of(parts[5].as_slice());
    let key = match hex_decode(key_bytes.as_slice()) {
        Ok(v) => v,
        Err(_) => return None,
    };
    Some((iterations, salt, key))
}

/// Verifies a password against a GRUB PBKDF2 hash line.
pub fn verify_password_pbkdf2(password: &str, hash_string: &str) -> (r: bool)
    requires
        hash_string@.len() <= MAX_DERIVED_LENGTH as nat / 2,
    ensures
        r == verify_spec(password@, hash_string@),
{
    let (iterations, stored_salt, stored_hash) = match parse_grub_hash(hash_string) {
        Some(fields) => fields,
        None => return false,
    };
    proof {
        let ps = split_on(hash_string@, Separator::Char('.'));
        lemma_split_piece_len(hash_string@, Separator::Char('.'));
        assert(ps[5].len() <= hash_string@.len());
        lemma_utf8_len_is_encoding_len(ps[5]);
        lemma_utf8_len_bound(ps[5]);
    }
    let computed_key = pbkdf2_sha512(
        password.as_bytes(),
        stored_salt.as_slice(),
        iterations,
        stored_hash.len(),
    );
    constant_time_eq(computed_key.as_slice(), stored_hash.as_slice())
}

/// The characters of a hash line are dot-free within each field.
proof fn lemma_hex_dot_free(data: Seq<u8>)
    ensures
        forall|i: int|
            0 <= i < hex_upper(data).len() ==> !is_sep(
                #[trigger] hex_upper(data)[i],
                Separator::Char('.'),
            ),
{
    assert forall|i: int| 0 <= i < hex_upper(data).len() implies !is_sep(
        #[trigger] hex_upper(data)[i],
        Separator::Char('.'),
    ) by {
        let n = if i % 2 == 0 {
            (data[i / 2] / 16) as int
        } else {
            (data[i / 2] % 16) as int
        };
        lemma_hex_digit_props(n, true);
    }
}

/// The hash line with iteration count `n`, salt `salt` and key `key`, written
/// out field by field.
pub open spec fn line_of(n: u32, salt: Seq<u8>, key: Seq<u8>) -> Seq<char> {
    "grub.pbkdf2.sha512."@ + decimal(n as nat) + "."@ + hex_upper(salt) + "."@ + hex_upper(key)
}

/// A line written with any count, salt and non-empty key reads back as
/// exactly that count, salt and key.
pub proof fn lemma_line_fields(n: u32, salt: Seq<u8>, key: Seq<u8>)
    requires
        key.len() > 0,
    ensures
        grub_hash_fields(line_of(n, salt, key)) == Some((n, salt, key)),
{
    let h = line_of(n, salt, key);
    let sep = Separator::Char('.');
    let dec = decimal(n as nat);
    let u1 = hex_upper(salt);
    let u2 = hex_upper(key);
    reveal_strlit("grub.pbkdf2.sha512.");
    reveal_strlit(".");
    reveal_strlit("grub");
    reveal_strlit("pbkdf2");
    reveal_strlit("sha512");
    let g = "grub"@;
    let p = "pbkdf2"@;
    let s = "sha512"@;
    let d = seq!['.'];
    assert(h =~= g + d + (p + d + (s + d + (dec + d + (u1 + d + u2)))));
    lemma_decimal_parses(n as nat);
    assert forall|i: int| 0 <= i < dec.len() implies !is_sep(#[trigger] dec[i], sep) by {
        assert(crate::text::is_digit(dec[i]));
    }
    lemma_hex_dot_free(salt);
    lemma_hex_dot_free(key);
    assert forall|i: int| 0 <= i < g.len() implies !is_sep(#[trigger] g[i], sep) by {}
    assert forall|i: int| 0 <= i < p.len() implies !is_sep(#[trigger] p[i], sep) by {}
    assert forall|i: int| 0 <= i < s.len() implies !is_sep(#[trigger] s[i], sep) by {}
    lemma_split_no_sep(g, sep);
    lemma_split_no_sep(p, sep);
    lemma_split_no_sep(s, sep);
    lemma_split_no_sep(dec, sep);
    lemma_split_no_sep(u1, sep);
    lemma_split_no_sep(u2, sep);
    lemma_split_concat(u1, '.', u2, sep);
    lemma_split_concat(dec, '.', u1 + d + u2, sep);
    lemma_split_concat(s, '.', dec + d + (u1 + d + u2), sep);
    lemma_split_concat(p, '.', s + d + (dec + d + (u1 + d + u2)), sep);
    lemma_split_concat(g, '.', p + d + (s + d + (dec + d + (u1 + d + u2))), sep);
    let parts = split_on(h, sep);
    assert(parts =~= seq![g, p, s, dec, u1, u2]);
    lemma_decode_upper_hex(salt);
    lemma_decode_upper_hex(key);
    assert(parse_unsigned(dec, u32::MAX as nat) == Some(n as nat));
    assert(u2.len() == 2 * key.len());
}

/// Verification rederives the key from the password with the salt and the
/// count that the line itself holds: a line with count `n`, salt `salt` and a
/// non-empty key accepts `password` exactly when the key is
/// PBKDF2-HMAC-SHA512 of the password's UTF-8 bytes with that salt, `n`
/// rounds and the key's length.
pub proof fn lemma_verify_uses_line_salt(password: Seq<char>, n: u32, salt: Seq<u8>, key: Seq<u8>)
    requires
        key.len() > 0,
    ensures
        verify_spec(password, line_of(n, salt, key)) <==> key == pbkdf2_hmac_sha512(
            encode_utf8(password),
            salt,
            n,
            key.len(),
        ),
{
    lemma_line_fields(n, salt, key);
}

/// A password is accepted by the hash line made from it: whatever the salt,
/// [`verify_password_pbkdf2`] answers `true` for the password and the line
/// that [`hash_password_pbkdf2`] (or [`hash_password_with_salt`]) produced.
pub proof fn lemma_hash_then_verify(password: Seq<char>, salt: Seq<u8>, h: Seq<char>)
    requires
        is_hash_of(h, password, salt),
    ensures
        verify_spec(password, h),
{
    let key = derived_key(password, salt);
    assert(h == line_of(PBKDF2_ITERATIONS, salt, key));
    lemma_line_fields(PBKDF2_ITERATIONS, salt, key);
}

/// Every line [`hash_password_with_salt`] writes with a salt verifies for its
/// password: for all passwords and salts, the line holding the salt, the
/// standard count and PBKDF2-HMAC-SHA512 of the password with that salt is
/// accepted.
pub proof fn lemma_salted_line_verifies(password: Seq<char>, salt: Seq<u8>)
    requires
        pbkdf2_hmac_sha512(encode_utf8(password), salt, PBKDF2_ITERATIONS, KEY_LENGTH as nat).len()
            == KEY_LENGTH,
    ensures
        verify_spec(
            password,
            line_of(
                PBKDF2_ITERATIONS,
                salt,
                pbkdf2_hmac_sha512(encode_utf8(password), salt, PBKDF2_ITERATIONS, KEY_LENGTH as nat),
            ),
        ),
{
    let key = pbkdf2_hmac_sha512(encode_utf8(password), salt, PBKDF2_ITERATIONS, KEY_LENGTH as nat);
    lemma_verify_uses_line_salt(password, PBKDF2_ITERATIONS, salt, key);
}

// ───────────────────────────── tokens and integrity hashes ─────────────────────────────

/// The rescue-key token for a password and a machine fingerprint: the
/// lower-case hexadecimal SHA-512 of the password's UTF-8 bytes, the bytes of
/// `::GRUBST_AUTH::`, and the fingerprint's UTF-8 bytes.
pub open spec fn auth_token_spec(random_password: Seq<char>, machine_fingerprint: Seq<char>) -> Seq<
    char,
> {
    hex_lower(
        sha512(
            encode_utf8(random_password) + encode_utf8("::GRUBST_AUTH::"@) + encode_utf8(
                machine_fingerprint,
            ),
        ),
    )
}

/// Generates the authentication token that binds a password to a machine.
pub fn generate_auth_token(random_password: &str, machine_fingerprint: &str) -> (r: String)
    ensures
        r@ == auth_token_spec(random_password@, machine_fingerprint@),
        r@.len() == 128,
{
    let mut data: Vec<u8> = Vec::new();
    data.extend_from_slice(random_password.as_bytes());
    data.extend_from_slice("::GRUBST_AUTH::".as_bytes());
    data.extend_from_slice(machine_fingerprint.as_bytes());
    assert(data@ =~= encode_utf8(random_password@) + encode_utf8("::GRUBST_AUTH::"@) + encode_utf8(
        machine_fingerprint@,
    ));
    let digest = sha512_digest(data.as_slice());
    hex_encode(digest.as_slice())
}

/// The integrity hash of `data`: lower-case hexadecimal SHA-512.
pub open spec fn integrity_hash_spec(data: Seq<u8>) -> Seq<char> {
    hex_lower(sha512(data))
}

/// Generates a SHA-512 integrity hash (lower-case hexadecimal) of `data`.
pub fn integrity_hash(data: &[u8]) -> (r: String)
    ensures
        r@ == integrity_hash_spec(data@),
        r@.len() == 128,
{
    sha512_hex(data)
}

/// Lower-case hexadecimal SHA-512 of `data`.
pub(crate) fn sha512_hex(data: &[u8]) -> (r: String)
    ensures
        r@ == hex_lower(sha512(data@)),
        r@.len() == 128,
{
    let digest = sha512_digest(data);
    hex_encode(digest.as_slice())
}

} // verus!
