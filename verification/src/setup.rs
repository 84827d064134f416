use vstd::prelude::*;
use vstd::utf8::*;
use crate::text::string_from_utf8;

verus! {

/// Where the login flow stands.
#[derive(Debug, PartialEq, Eq, Clone, Copy, Structural)]
pub enum SetupState {
    /// No configuration on disk: the next line typed is the user name.
    SetupUsername,
    /// The user name is known: the next line typed is the root password.
    SetupPassword,
    /// `adm` was typed: the next line typed is checked against the root password.
    AuthAdmin,
    /// Setup is done: lines typed are shell commands.
    Complete,
}

/// The logged-in user and the login flow's state.
pub struct UserSession {
    pub state: SetupState,
    pub username: String,
    pub password_hash: u64,
    pub is_admin: bool,
}

/// The abstract value of a session.
pub struct SessionView {
    pub state: SetupState,
    pub username: Seq<char>,
    pub password_hash: u64,
    pub is_admin: bool,
}

impl View for UserSession {
    type V = SessionView;

    open spec fn view(&self) -> SessionView {
        SessionView {
            state: self.state,
            username: self.username@,
            password_hash: self.password_hash,
            is_admin: self.is_admin,
        }
    }
}

impl UserSession {
    /// A session that starts the setup dialog.
    pub fn new() -> (s: Self)
        ensures
            s.state == SetupState::SetupUsername,
            s.username@ == Seq::<char>::empty(),
            s.password_hash == 0,
            !s.is_admin,
    {
        UserSession {
            state: SetupState::SetupUsername,
            username: String::new(),
            password_hash: 0,
            is_admin: false,
        }
    }
}

/// Size of an ATA sector in bytes.
pub const SECTOR_SIZE: usize = 512;

/// Offset of the user name in the configuration sector.
pub const NAME_OFFSET: usize = 5;

/// Offset of the password hash in the configuration sector.
pub const HASH_OFFSET: usize = 40;

/// 2^64, the modulus of `u64` arithmetic.
pub open spec fn u64_modulus() -> int {
    0x1_0000_0000_0000_0000
}

/// The djb2 hash of `s`: start at 5381, then for each byte multiply by 33 and add the byte,
/// modulo 2^64.
pub open spec fn djb2(s: Seq<u8>) -> u64
    decreases s.len(),
{
    if s.len() == 0 {
        5381
    } else {
        ((djb2(s.drop_last()) as int * 33 + s.last() as int) % u64_modulus()) as u64
    }
}

proof fn lemma_djb2_step(h: u64, b: u8)
    ensures
        h.wrapping_mul(33).wrapping_add(b as u64) == ((h as int * 33 + b as int)
            % u64_modulus()) as u64,
{
    let m = u64_modulus();
    let p = h as int * 33;
    let w = h.wrapping_mul(33);
    assert(w as int == p % m);
    vstd::arithmetic::div_mod::lemma_add_mod_noop(p, b as int, m);
    vstd::arithmetic::div_mod::lemma_small_mod(b as nat, m as nat);
    let s = w as int + b as int;
    if s >= m {
        vstd::arithmetic::div_mod::lemma_mod_sub_multiples_vanish(s, m);
        vstd::arithmetic::div_mod::lemma_small_mod((s - m) as nat, m as nat);
    } else {
        vstd::arithmetic::div_mod::lemma_small_mod(s as nat, m as nat);
    }
}

/// Hashes a password with djb2 (wrapping `u64` arithmetic).
pub fn hash_password(password: &[u8]) -> (hash: u64)
    ensures
        hash == djb2(password@),
{
    let mut hash: u64 = 5381;
    let mut i: usize = 0;
    while i < password.len()
        invariant
            i <= password@.len(),
            hash == djb2(password@.subrange(0, i as int)),
        decreases password@.len() - i,
    {
        let byte = password[i];
        proof {
            lemma_djb2_step(hash, byte);
            let s = password@.subrange(0, i as int + 1);
            assert(s.drop_last() =~= password@.subrange(0, i as int));
        }
        hash = hash.wrapping_mul(33).wrapping_add(byte as u64);
        i = i + 1;
    }
    assert(password@.subrange(0, password@.len() as int) =~= password@);
    hash
}

/// Byte `k` of `h` in little-endian order.
pub open spec fn le_byte(h: u64, k: int) -> u8 {
    ((h >> ((8 * k) as u64)) & 0xff) as u8
}

/// The `u64` stored little-endian in `s` at `off .. off + 8`.
pub open spec fn le_u64(s: Seq<u8>, off: int) -> u64 {
    (s[off] as u64) | ((s[off + 1] as u64) << 8u64) | ((s[off + 2] as u64) << 16u64) | ((s[off
        + 3] as u64) << 24u64) | ((s[off + 4] as u64) << 32u64) | ((s[off + 5] as u64) << 40u64)
        | ((s[off + 6] as u64) << 48u64) | ((s[off + 7] as u64) << 56u64)
}

/// The signature `HAY1` that marks sector 0 as holding a configuration.
pub open spec fn signature_byte(i: int) -> u8 {
    if i == 0 {
        72
    } else if i == 1 {
        65
    } else if i == 2 {
        89
    } else {
        49
    }
}

/// Whether a sector starts with the signature `HAY1`.
pub open spec fn has_signature(s: Seq<u8>) -> bool {
    s[0] == 72 && s[1] == 65 && s[2] == 89 && s[3] == 49
}

/// The configuration sector for a user name (its bytes) and a password hash: the signature,
/// the name's length in one byte (truncated), the name from offset 5, the hash little-endian
/// at 40..48 (written last, so it wins where a long name reaches it), zeros elsewhere.
pub open spec fn config_sector(name: Seq<u8>, h: u64) -> Seq<u8> {
    Seq::new(
        512,
        |i: int|
            if i < 4 {
                signature_byte(i)
            } else if i == 4 {
                name.len() as u8
            } else if 40 <= i < 48 {
                le_byte(h, i - 40)
            } else if i < 5 + name.len() {
                name[i - 5]
            } else {
                0u8
            },
    )
}

/// The bytes of the user name that a configuration sector holds.
pub open spec fn stored_name(s: Seq<u8>) -> Seq<u8> {
    s.subrange(5, 5 + s[4] as int)
}

/// Builds the image of sector 0 that stores `username` and `password_hash`; the caller writes
/// it to the disk.
pub fn save_user_config(username: &str, password_hash: u64) -> (sector: [u8; 512])
    requires
        encode_utf8(username@).len() <= 507,
    ensures
        sector@ == config_sector(encode_utf8(username@), password_hash),
{
    let mut sector = [0u8; 512];
    sector[0] = 72;
    sector[1] = 65;
    sector[2] = 89;
    sector[3] = 49;
    let uname_bytes = username.as_bytes();
    sector[4] = uname_bytes.len() as u8;
    let ghost name = encode_utf8(username@);
    let mut i: usize = 0;
    while i < uname_bytes.len()
        invariant
            i <= name.len() <= 507,
            uname_bytes@ == name,
            sector@.len() == 512,
            forall|j: int| 0 <= j < 4 ==> sector@[j] == signature_byte(j),
            sector@[4] == name.len() as u8,
            forall|j: int| 5 <= j < 5 + i ==> sector@[j] == name[j - 5],
            forall|j: int| 5 + i <= j < 512 ==> sector@[j] == 0,
        decreases name.len() - i,
    {
        sector[5 + i] = uname_bytes[i];
        i = i + 1;
    }
    let mut k: usize = 0;
    while k < 8
        invariant
            k <= 8,
            sector@.len() == 512,
            forall|j: int| 0 <= j < 4 ==> sector@[j] == signature_byte(j),
            sector@[4] == name.len() as u8,
            forall|j: int|
                4 < j < 512 && !(40 <= j < 40 + k) ==> sector@[j] == (if j < 5 + name.len() {
                    name[j - 5]
                } else {
                    0u8
                }),
            forall|j: int| 40 <= j < 40 + k ==> sector@[j] == le_byte(password_hash, j - 40),
        decreases 8 - k,
    {
        sector[40 + k] = ((password_hash >> (8 * k as u64)) & 0xff) as u8;
        k = k + 1;
    }
    assert(sector@ =~= config_sector(name, password_hash));
    sector
}

/// Loads the stored configuration into the session. With the signature, the session takes the
/// stored hash and state `Complete`, and the stored name where its bytes are valid UTF-8 (else
/// it keeps its name); without it, the session goes to `SetupUsername`.
pub fn initalize_auth(session: &mut UserSession, sector: &[u8; 512])
    ensures
        has_signature(sector@) ==> {
            &&& final(session).state == SetupState::Complete
            &&& final(session).password_hash == le_u64(sector@, 40)
            &&& final(session).username@ == if valid_utf8(stored_name(sector@)) {
                decode_utf8(stored_name(sector@))
            } else {
                old(session).username@
            }
        },
        !has_signature(sector@) ==> {
            &&& final(session).state == SetupState::SetupUsername
            &&& final(session).password_hash == old(session).password_hash
            &&& final(session).username@ == old(session).username@
        },
        final(session).is_admin == old(session).is_admin,
{
    if sector[0] == 72 && sector[1] == 65 && sector[2] == 89 && sector[3] == 49 {
        let uname_len = sector[4] as usize;
        let mut name: Vec<u8> = Vec::new();
        let mut i: usize = 0;
        while i < uname_len
            invariant
                i <= uname_len,
                uname_len == sector@[4],
                name@ == sector@.subrange(5, 5 + i),
            decreases uname_len - i,
        {
            name.push(sector[5 + i]);
            i = i + 1;
            assert(name@ =~= sector@.subrange(5, 5 + i));
        }
        if let Some(s) = string_from_utf8(name) {
            session.username = s;
        }
        session.password_hash = (sector[40] as u64) | ((sector[41] as u64) << 8u64) | ((
        sector[42] as u64) << 16u64) | ((sector[43] as u64) << 24u64) | ((sector[44] as u64)
            << 32u64) | ((sector[45] as u64) << 40u64) | ((sector[46] as u64) << 48u64) | ((
        sector[47] as u64) << 56u64);
        session.state = SetupState::Complete;
    } else {
        session.state = SetupState::SetupUsername;
    }
}

pub proof fn lemma_le_bytes_round_trip(h: u64)
    ensures
        h == (le_byte(h, 0) as u64) | ((le_byte(h, 1) as u64) << 8u64) | ((le_byte(h, 2) as u64)
            << 16u64) | ((le_byte(h, 3) as u64) << 24u64) | ((le_byte(h, 4) as u64) << 32u64)
            | ((le_byte(h, 5) as u64) << 40u64) | ((le_byte(h, 6) as u64) << 48u64) | ((le_byte(
            h,
            7,
        ) as u64) << 56u64),
{
    assert(h == ((((h >> 0u64) & 0xff) as u8) as u64) | (((((h >> 8u64) & 0xff) as u8) as u64)
        << 8u64) | (((((h >> 16u64) & 0xff) as u8) as u64) << 16u64) | (((((h >> 24u64) & 0xff)
        as u8) as u64) << 24u64) | (((((h >> 32u64) & 0xff) as u8) as u64) << 32u64) | (((((h
        >> 40u64) & 0xff) as u8) as u64) << 40u64) | (((((h >> 48u64) & 0xff) as u8) as u64)
        << 48u64) | (((((h >> 56u64) & 0xff) as u8) as u64) << 56u64)) by (bit_vector);
}

/// What is saved is what is loaded back: a configuration sector built from a name of at most
/// 35 bytes carries the signature, gives back the name's bytes (valid UTF-8, decoding to the
/// name) and the password hash.
pub proof fn lemma_config_round_trip(name: Seq<char>, h: u64)
    requires
        encode_utf8(name).len() <= 35,
    ensures
        has_signature(config_sector(encode_utf8(name), h)),
        stored_name(config_sector(encode_utf8(name), h)) == encode_utf8(name),
        valid_utf8(stored_name(config_sector(encode_utf8(name), h))),
        decode_utf8(stored_name(config_sector(encode_utf8(name), h))) == name,
        le_u64(config_sector(encode_utf8(name), h), 40) == h,
{
    let b = encode_utf8(name);
    let s = config_sector(b, h);
    assert(s[4] as int == b.len());
    assert(stored_name(s) =~= b);
    encode_utf8_valid_utf8(name);
    encode_utf8_decode_utf8(name);
    lemma_le_bytes_round_trip(h);
    assert(s[40] == le_byte(h, 0));
    assert(s[41] == le_byte(h, 1));
    assert(s[42] == le_byte(h, 2));
    assert(s[43] == le_byte(h, 3));
    assert(s[44] == le_byte(h, 4));
    assert(s[45] == le_byte(h, 5));
    assert(s[46] == le_byte(h, 6));
    assert(s[47] == le_byte(h, 7));
}

} // verus!
