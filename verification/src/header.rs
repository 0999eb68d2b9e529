//! Bit-exact codec for the file header: magic, version, cipher tags, a
//! zero-padded nonce, and a fixed table of two 96-byte key slots. The
//! serialized prefix is always exactly 228 bytes; absent slots are
//! all-zero blocks, and parsing refuses non-zero padding.

use vstd::prelude::*;

use crate::error::Error;
use crate::primitives::{Algorithm, HashingAlgorithm, Mode, spec_nonce_len};

verus! {

/// Leading bytes of every encrypted file.
pub const MAGIC_BYTES: [u8; 6] = [0x08, 0xFF, 0x55, 0x32, 0x58, 0x1A];

/// Version tag of the outer header.
#[derive(Clone, Copy, Debug, PartialEq, Eq, Structural)]
pub enum FileHeaderVersion {
    V1,
}

/// Version tag of a key slot.
#[derive(Clone, Copy, Debug, PartialEq, Eq, Structural)]
pub enum FileKeyslotVersion {
    V1,
}

/// A password-protected copy of the master key: the parameters needed to
/// re-derive the slot key, and the master key encrypted under it.
#[derive(Debug)]
pub struct FileKeyslot {
    pub version: FileKeyslotVersion,
    pub algorithm: Algorithm,
    pub hashing_algorithm: HashingAlgorithm,
    pub mode: Mode,
    pub salt: [u8; 16],
    pub nonce: Vec<u8>,
    pub master_key: [u8; 48],
}

/// The self-describing prefix of an encrypted file.
#[derive(Debug)]
pub struct FileHeader {
    pub version: FileHeaderVersion,
    pub algorithm: Algorithm,
    pub mode: Mode,
    pub nonce: Vec<u8>,
    pub keyslots: Vec<FileKeyslot>,
}

pub open spec fn spec_magic() -> Seq<u8> {
    seq![0x08u8, 0xFFu8, 0x55u8, 0x32u8, 0x58u8, 0x1Au8]
}

pub open spec fn spec_header_version_bytes(v: FileHeaderVersion) -> Seq<u8> {
    seq![0x0Au8, 0x01u8]
}

pub open spec fn spec_keyslot_version_bytes(v: FileKeyslotVersion) -> Seq<u8> {
    seq![0x0Du8, 0x01u8]
}

pub open spec fn spec_algorithm_bytes(a: Algorithm) -> Seq<u8> {
    match a {
        Algorithm::XChaCha20Poly1305 => seq![0x0Bu8, 0x01u8],
        Algorithm::Aes256Gcm => seq![0x0Bu8, 0x02u8],
    }
}

pub open spec fn spec_mode_bytes(m: Mode) -> Seq<u8> {
    match m {
        Mode::Stream => seq![0x0Cu8, 0x01u8],
        Mode::Memory => seq![0x0Cu8, 0x02u8],
    }
}

/// `n` zero bytes.
pub open spec fn zero_bytes(n: int) -> Seq<u8> {
    Seq::new(n as nat, |i: int| 0u8)
}

/// A slot's nonce must have the length its own algorithm and mode demand.
pub open spec fn keyslot_wf(k: FileKeyslot) -> bool {
    k.nonce@.len() == spec_nonce_len(k.algorithm, k.mode)
}

/// The header's nonce obeys the body policy, and at most two well-formed
/// slots are carried.
pub open spec fn header_wf(h: FileHeader) -> bool {
    &&& h.nonce@.len() == spec_nonce_len(h.algorithm, h.mode)
    &&& h.keyslots@.len() <= 2
    &&& forall|i: int| 0 <= i < h.keyslots@.len() ==> keyslot_wf(#[trigger] h.keyslots@[i])
}

/// The 96-byte serialization of one key slot. The hashing algorithm is
/// not serialized: at slot version one it is fixed, so the layout pins it.
pub open spec fn spec_keyslot_bytes(k: FileKeyslot) -> Seq<u8> {
    spec_keyslot_version_bytes(k.version) + spec_algorithm_bytes(k.algorithm)
        + spec_mode_bytes(k.mode) + k.salt@ + k.master_key@ + k.nonce@
        + zero_bytes(26 - k.nonce@.len())
}

/// Bytes of slot table entry `i`: the slot's record when occupied, an
/// all-zero block when absent.
pub open spec fn spec_slot_table_bytes(h: FileHeader, i: int) -> Seq<u8> {
    if i < h.keyslots@.len() {
        spec_keyslot_bytes(h.keyslots@[i])
    } else {
        zero_bytes(96)
    }
}

/// The exact 228-byte serialization of a well-formed header.
pub open spec fn spec_header_bytes(h: FileHeader) -> Seq<u8> {
    spec_magic() + spec_header_version_bytes(h.version) + spec_algorithm_bytes(h.algorithm)
        + spec_mode_bytes(h.mode) + h.nonce@ + zero_bytes(24 - h.nonce@.len())
        + spec_slot_table_bytes(h, 0) + spec_slot_table_bytes(h, 1)
}

pub proof fn lemma_keyslot_bytes_len(k: FileKeyslot)
    requires
        keyslot_wf(k),
    ensures
        spec_keyslot_bytes(k).len() == 96,
{
}

pub proof fn lemma_header_bytes_len(h: FileHeader)
    requires
        header_wf(h),
    ensures
        spec_header_bytes(h).len() == 228,
{
    if 0 < h.keyslots@.len() {
        lemma_keyslot_bytes_len(h.keyslots@[0]);
    }
    if 1 < h.keyslots@.len() {
        lemma_keyslot_bytes_len(h.keyslots@[1]);
    }
}

/// Append every byte of `data` to `out`.
pub fn push_bytes(out: &mut Vec<u8>, data: &[u8])
    ensures
        final(out)@ == old(out)@ + data@,
{
    let mut i: usize = 0;
    while i < data.len()
        invariant
            0 <= i <= data@.len(),
            out@ == old(out)@ + data@.subrange(0, i as int),
        decreases data@.len() - i,
    {
        out.push(data[i]);
        i = i + 1;
        proof {
            assert(data@.subrange(0, i as int)
                == data@.subrange(0, i - 1) + seq![data@[i - 1]]);
        }
    }
    proof {
        assert(data@.subrange(0, data@.len() as int) == data@);
    }
}

/// Append `n` zero bytes to `out`.
pub fn push_zero_bytes(out: &mut Vec<u8>, n: usize)
    ensures
        final(out)@ == old(out)@ + zero_bytes(n as int),
{
    let mut i: usize = 0;
    while i < n
        invariant
            0 <= i <= n,
            out@ == old(out)@ + zero_bytes(i as int),
        decreases n - i,
    {
        out.push(0u8);
        i = i + 1;
        proof {
            assert(zero_bytes(i as int) == zero_bytes(i - 1) + seq![0u8]);
        }
    }
}

impl FileHeaderVersion {
    pub fn serialize(&self) -> (r: [u8; 2])
        ensures
            r@ == spec_header_version_bytes(*self),
    {
        let r = match self {
            FileHeaderVersion::V1 => [0x0A, 0x01],
        };
        proof {
            assert(r@ =~= spec_header_version_bytes(*self));
        }
        r
    }
}

impl FileKeyslotVersion {
    pub fn serialize(&self) -> (r: [u8; 2])
        ensures
            r@ == spec_keyslot_version_bytes(*self),
    {
        let r = match self {
            FileKeyslotVersion::V1 => [0x0D, 0x01],
        };
        proof {
            assert(r@ =~= spec_keyslot_version_bytes(*self));
        }
        r
    }
}

impl Algorithm {
    pub fn serialize(&self) -> (r: [u8; 2])
        ensures
            r@ == spec_algorithm_bytes(*self),
    {
        let r = match self {
            Algorithm::XChaCha20Poly1305 => [0x0B, 0x01],
            Algorithm::Aes256Gcm => [0x0B, 0x02],
        };
        proof {
            assert(r@ =~= spec_algorithm_bytes(*self));
        }
        r
    }
}

impl Mode {
    pub fn serialize(&self) -> (r: [u8; 2])
        ensures
            r@ == spec_mode_bytes(*self),
    {
        let r = match self {
            Mode::Stream => [0x0C, 0x01],
            Mode::Memory => [0x0C, 0x02],
        };
        proof {
            assert(r@ =~= spec_mode_bytes(*self));
        }
        r
    }
}

impl FileKeyslot {
    pub fn serialize(&self) -> (r: Vec<u8>)
        requires
            keyslot_wf(*self),
        ensures
            r@ == spec_keyslot_bytes(*self),
            r@.len() == 96,
    {
        let mut out: Vec<u8> = Vec::new();
        let version = self.version.serialize();
        push_bytes(&mut out, &version);
        let algorithm = self.algorithm.serialize();
        push_bytes(&mut out, &algorithm);
        let mode = self.mode.serialize();
        push_bytes(&mut out, &mode);
        push_bytes(&mut out, &self.salt);
        push_bytes(&mut out, &self.master_key);
        push_bytes(&mut out, self.nonce.as_slice());
        push_zero_bytes(&mut out, 26 - self.nonce.len());
        proof {
            lemma_keyslot_bytes_len(*self);
        }
        out
    }
}

impl FileHeader {
    pub fn serialize(&self) -> (r: Vec<u8>)
        requires
            header_wf(*self),
        ensures
            r@ == spec_header_bytes(*self),
            r@.len() == 228,
    {
        let mut out: Vec<u8> = Vec::new();
        push_bytes(&mut out, &MAGIC_BYTES);
        proof {
            assert(MAGIC_BYTES@ =~= spec_magic());
        }
        let version = self.version.serialize();
        push_bytes(&mut out, &version);
        let algorithm = self.algorithm.serialize();
        push_bytes(&mut out, &algorithm);
        let mode = self.mode.serialize();
        push_bytes(&mut out, &mode);
        push_bytes(&mut out, self.nonce.as_slice());
        push_zero_bytes(&mut out, 24 - self.nonce.len());
        if self.keyslots.len() > 0 {
            let slot = self.keyslots[0].serialize();
            push_bytes(&mut out, slot.as_slice());
        } else {
            push_zero_bytes(&mut out, 96);
        }
        if self.keyslots.len() > 1 {
            let slot = self.keyslots[1].serialize();
            push_bytes(&mut out, slot.as_slice());
        } else {
            push_zero_bytes(&mut out, 96);
        }
        proof {
            lemma_header_bytes_len(*self);
        }
        out
    }
}

/// The algorithm encoded by a two-byte tag, if any.
pub open spec fn spec_parse_algorithm(b0: u8, b1: u8) -> Option<Algorithm> {
    if b0 == 0x0B && b1 == 0x01 {
        Some(Algorithm::XChaCha20Poly1305)
    } else if b0 == 0x0B && b1 == 0x02 {
        Some(Algorithm::Aes256Gcm)
    } else {
        None
    }
}

/// The mode encoded by a two-byte tag, if any.
pub open spec fn spec_parse_mode(b0: u8, b1: u8) -> Option<Mode> {
    if b0 == 0x0C && b1 == 0x01 {
        Some(Mode::Stream)
    } else if b0 == 0x0C && b1 == 0x02 {
        Some(Mode::Memory)
    } else {
        None
    }
}

/// Every byte of `d` in `[a, b)` is zero.
pub open spec fn region_zero(d: Seq<u8>, a: int, b: int) -> bool {
    forall|i: int| a <= i < b ==> #[trigger] d[i] == 0
}

/// The check chain run on one occupied 96-byte slot record: version,
/// algorithm tag, mode tag, then the nonce padding.
pub open spec fn spec_slot_check(s: Seq<u8>) -> Result<(), Error> {
    if !(s[0] == 0x0D && s[1] == 0x01) {
        Err(Error::UnsupportedVersion)
    } else {
        match spec_parse_algorithm(s[2], s[3]) {
            None => Err(Error::InvalidTag),
            Some(alg) => match spec_parse_mode(s[4], s[5]) {
                None => Err(Error::InvalidTag),
                Some(mode) => if !region_zero(s, 70 + spec_nonce_len(alg, mode), 96) {
                    Err(Error::NonZeroPadding)
                } else {
                    Ok(())
                },
            },
        }
    }
}

/// A slot table entry passes when it is absent (all zero) or parses.
pub open spec fn spec_slot_entry_check(s: Seq<u8>) -> Result<(), Error> {
    if region_zero(s, 0, 96) {
        Ok(())
    } else {
        spec_slot_check(s)
    }
}

/// The first six bytes are the magic sequence.
pub open spec fn spec_magic_ok(d: Seq<u8>) -> bool {
    &&& d[0] == 0x08
    &&& d[1] == 0xFF
    &&& d[2] == 0x55
    &&& d[3] == 0x32
    &&& d[4] == 0x58
    &&& d[5] == 0x1A
}

/// The full check chain run on a candidate header of at least 228 bytes,
/// in the order parsing performs it; the result is the first failure.
pub open spec fn spec_header_check(d: Seq<u8>) -> Result<(), Error> {
    if !spec_magic_ok(d) {
        Err(Error::InvalidMagic)
    } else if !(d[6] == 0x0A && d[7] == 0x01) {
        Err(Error::UnsupportedVersion)
    } else {
        match spec_parse_algorithm(d[8], d[9]) {
            None => Err(Error::InvalidTag),
            Some(alg) => match spec_parse_mode(d[10], d[11]) {
                None => Err(Error::InvalidTag),
                Some(mode) => if !region_zero(d, 12 + spec_nonce_len(alg, mode), 36) {
                    Err(Error::NonZeroPadding)
                } else {
                    match spec_slot_entry_check(d.subrange(36, 132)) {
                        Err(e) => Err(e),
                        Ok(u) => spec_slot_entry_check(d.subrange(132, 228)),
                    }
                },
            },
        }
    }
}

/// Slot table entry `i` of `d` is occupied.
pub open spec fn spec_slot_present(d: Seq<u8>, i: int) -> bool {
    !region_zero(d, 36 + 96 * i, 132 + 96 * i)
}

/// `k` holds exactly the fields encoded in the occupied slot record `s`.
pub open spec fn spec_parsed_slot(k: FileKeyslot, s: Seq<u8>) -> bool {
    &&& k.version == FileKeyslotVersion::V1
    &&& k.hashing_algorithm == HashingAlgorithm::Argon2id
    &&& Some(k.algorithm) == spec_parse_algorithm(s[2], s[3])
    &&& Some(k.mode) == spec_parse_mode(s[4], s[5])
    &&& k.salt@ == s.subrange(6, 22)
    &&& k.master_key@ == s.subrange(22, 70)
    &&& k.nonce@ == s.subrange(70, 70 + spec_nonce_len(k.algorithm, k.mode))
}

/// `h` holds exactly the fields encoded in `d`, its occupied slots in
/// table order.
pub open spec fn spec_parsed_header(h: FileHeader, d: Seq<u8>) -> bool {
    &&& h.version == FileHeaderVersion::V1
    &&& Some(h.algorithm) == spec_parse_algorithm(d[8], d[9])
    &&& Some(h.mode) == spec_parse_mode(d[10], d[11])
    &&& h.nonce@ == d.subrange(12, 12 + spec_nonce_len(h.algorithm, h.mode))
    &&& h.keyslots@.len() == (if spec_slot_present(d, 0) { 1int } else { 0int })
        + (if spec_slot_present(d, 1) { 1int } else { 0int })
    &&& spec_slot_present(d, 0) ==> spec_parsed_slot(h.keyslots@[0], d.subrange(36, 132))
    &&& spec_slot_present(d, 1) ==> spec_parsed_slot(
        h.keyslots@[if spec_slot_present(d, 0) { 1int } else { 0int }],
        d.subrange(132, 228),
    )
}

/// Report whether every byte of `s` in `[a, b)` is zero.
fn check_region_zero(s: &[u8], a: usize, b: usize) -> (r: bool)
    requires
        a <= b <= s@.len(),
    ensures
        r == region_zero(s@, a as int, b as int),
{
    let mut i: usize = a;
    while i < b
        invariant
            a <= i <= b <= s@.len(),
            region_zero(s@, a as int, i as int),
        decreases b - i,
    {
        if s[i] != 0 {
            return false;
        }
        i = i + 1;
    }
    true
}

/// Copy `s[from..from + 16]` into a fresh salt array.
fn read_salt(s: &[u8], from: usize) -> (r: [u8; 16])
    requires
        from + 16 <= s@.len(),
    ensures
        r@ == s@.subrange(from as int, from + 16),
{
    let n = s.len();
    let mut out = [0u8; 16];
    let mut i: usize = 0;
    while i < 16
        invariant
            0 <= i <= 16,
            n == s@.len(),
            from + 16 <= n,
            forall|j: int| 0 <= j < i ==> out@[j] == s@[from + j],
        decreases 16 - i,
    {
        out[i] = s[from + i];
        i = i + 1;
    }
    proof {
        assert(out@ =~= s@.subrange(from as int, from + 16));
    }
    out
}

/// Copy `s[from..from + 48]` into a fresh wrapped-master-key array.
fn read_master_key(s: &[u8], from: usize) -> (r: [u8; 48])
    requires
        from + 48 <= s@.len(),
    ensures
        r@ == s@.subrange(from as int, from + 48),
{
    let n = s.len();
    let mut out = [0u8; 48];
    let mut i: usize = 0;
    while i < 48
        invariant
            0 <= i <= 48,
            n == s@.len(),
            from + 48 <= n,
            forall|j: int| 0 <= j < i ==> out@[j] == s@[from + j],
        decreases 48 - i,
    {
        out[i] = s[from + i];
        i = i + 1;
    }
    proof {
        assert(out@ =~= s@.subrange(from as int, from + 48));
    }
    out
}

impl FileKeyslot {
    /// Parse one occupied 96-byte slot record, with the same strictness
    /// as the outer header. Succeeds exactly when the check chain does,
    /// and then returns the slot whose serialization is `s` itself.
    pub fn parse(s: &[u8]) -> (r: Result<FileKeyslot, Error>)
        requires
            s@.len() == 96,
        ensures
            match r {
                Ok(k) => {
                    &&& spec_slot_check(s@) is Ok
                    &&& keyslot_wf(k)
                    &&& spec_parsed_slot(k, s@)
                    &&& spec_keyslot_bytes(k) == s@
                },
                Err(e) => spec_slot_check(s@) == Err::<(), Error>(e),
            },
    {
        if !(s[0] == 0x0D && s[1] == 0x01) {
            return Err(Error::UnsupportedVersion);
        }
        let algorithm = if s[2] == 0x0B && s[3] == 0x01 {
            Algorithm::XChaCha20Poly1305
        } else if s[2] == 0x0B && s[3] == 0x02 {
            Algorithm::Aes256Gcm
        } else {
            return Err(Error::InvalidTag);
        };
        let mode = if s[4] == 0x0C && s[5] == 0x01 {
            Mode::Stream
        } else if s[4] == 0x0C && s[5] == 0x02 {
            Mode::Memory
        } else {
            return Err(Error::InvalidTag);
        };
        let nl = algorithm.nonce_len(mode);
        if !check_region_zero(s, 70 + nl, 96) {
            return Err(Error::NonZeroPadding);
        }
        let salt = read_salt(s, 6);
        let master_key = read_master_key(s, 22);
        let nonce = vstd::slice::slice_to_vec(vstd::slice::slice_subrange(s, 70, 70 + nl));
        let k = FileKeyslot {
            version: FileKeyslotVersion::V1,
            algorithm,
            hashing_algorithm: HashingAlgorithm::Argon2id,
            mode,
            salt,
            nonce,
            master_key,
        };
        proof {
            assert(spec_keyslot_bytes(k) =~= s@);
        }
        Ok(k)
    }
}


/// Zero-ness of a region is the same seen through a subrange.
proof fn lemma_region_zero_shift(d: Seq<u8>, a: int, b: int)
    requires
        0 <= a <= b <= d.len(),
    ensures
        region_zero(d.subrange(a, b), 0, b - a) <==> region_zero(d, a, b),
{
    if region_zero(d.subrange(a, b), 0, b - a) {
        assert forall|i: int| a <= i < b implies #[trigger] d[i] == 0 by {
            assert(d[i] == d.subrange(a, b)[i - a]);
        }
    }
    if region_zero(d, a, b) {
        assert forall|i: int| 0 <= i < b - a implies #[trigger] d.subrange(a, b)[i] == 0 by {
            assert(d.subrange(a, b)[i] == d[a + i]);
        }
    }
}

impl FileHeader {
    /// Parse the 228-byte prefix of `data`. Succeeds exactly when the
    /// check chain does; the returned header re-serializes to the very
    /// bytes that were read.
    #[verifier::rlimit(60)]
    pub fn parse(data: &[u8]) -> (r: Result<FileHeader, Error>)
        requires
            data@.len() >= 228,
        ensures
            match r {
                Ok(h) => {
                    &&& spec_header_check(data@) is Ok
                    &&& header_wf(h)
                    &&& spec_parsed_header(h, data@)
                    &&& (spec_slot_present(data@, 1) ==> spec_slot_present(data@, 0))
                        ==> spec_header_bytes(h) == data@.subrange(0, 228)
                },
                Err(e) => spec_header_check(data@) == Err::<(), Error>(e),
            },
    {
        if !(data[0] == 0x08 && data[1] == 0xFF && data[2] == 0x55 && data[3] == 0x32
            && data[4] == 0x58 && data[5] == 0x1A) {
            return Err(Error::InvalidMagic);
        }
        if !(data[6] == 0x0A && data[7] == 0x01) {
            return Err(Error::UnsupportedVersion);
        }
        let algorithm = if data[8] == 0x0B && data[9] == 0x01 {
            Algorithm::XChaCha20Poly1305
        } else if data[8] == 0x0B && data[9] == 0x02 {
            Algorithm::Aes256Gcm
        } else {
            return Err(Error::InvalidTag);
        };
        let mode = if data[10] == 0x0C && data[11] == 0x01 {
            Mode::Stream
        } else if data[10] == 0x0C && data[11] == 0x02 {
            Mode::Memory
        } else {
            return Err(Error::InvalidTag);
        };
        let nl = algorithm.nonce_len(mode);
        if !check_region_zero(data, 12 + nl, 36) {
            return Err(Error::NonZeroPadding);
        }
        let nonce = vstd::slice::slice_to_vec(vstd::slice::slice_subrange(data, 12, 12 + nl));
        let slot0 = vstd::slice::slice_subrange(data, 36, 132);
        let slot1 = vstd::slice::slice_subrange(data, 132, 228);
        let mut keyslots: Vec<FileKeyslot> = Vec::new();
        if !check_region_zero(slot0, 0, 96) {
            match FileKeyslot::parse(slot0) {
                Ok(k) => { keyslots.push(k); }
                Err(e) => { return Err(e); }
            }
        }
        if !check_region_zero(slot1, 0, 96) {
            match FileKeyslot::parse(slot1) {
                Ok(k) => { keyslots.push(k); }
                Err(e) => { return Err(e); }
            }
        }
        let h = FileHeader {
            version: FileHeaderVersion::V1,
            algorithm,
            mode,
            nonce,
            keyslots,
        };
        proof {
            lemma_region_zero_shift(data@, 36, 132);
            lemma_region_zero_shift(data@, 132, 228);
            if spec_slot_present(data@, 1) ==> spec_slot_present(data@, 0) {
                lemma_header_bytes_len(h);
                assert(data@.subrange(0, 228).subrange(0, 12)
                    =~= (spec_magic() + spec_header_version_bytes(h.version)
                        + spec_algorithm_bytes(h.algorithm) + spec_mode_bytes(h.mode)));
                assert(data@.subrange(0, 228).subrange(12, 36)
                    =~= h.nonce@ + zero_bytes(24 - h.nonce@.len()));
                assert(data@.subrange(0, 228).subrange(36, 132) =~= slot0@);
                assert(data@.subrange(0, 228).subrange(132, 228) =~= slot1@);
                if h.keyslots@.len() == 0 {
                    assert(spec_slot_table_bytes(h, 0) =~= slot0@);
                    assert(spec_slot_table_bytes(h, 1) =~= slot1@);
                } else if h.keyslots@.len() == 1 && spec_slot_present(data@, 0) {
                    assert(spec_slot_table_bytes(h, 1) =~= slot1@);
                }
                lemma_header_assemble(h, data@.subrange(0, 228));
            }
        }
        Ok(h)
    }
}

/// Serializing a well-formed header and parsing the bytes back yields a
/// structurally equal header: the check chain accepts the bytes, and any
/// well-formed header that those bytes encode agrees with the original,
/// field for field and slot for slot.
pub proof fn lemma_header_round_trip(h: FileHeader)
    requires
        header_wf(h),
    ensures
        spec_header_check(spec_header_bytes(h)) is Ok,
        spec_parsed_header(h, spec_header_bytes(h)),
        forall|g: FileHeader| header_wf(g) && spec_parsed_header(g, spec_header_bytes(h))
            ==> header_eq(g, h),
{
    let d = spec_header_bytes(h);
    lemma_header_bytes_len(h);
    lemma_header_bytes_fields(h);
    let s0 = d.subrange(36, 132);
    let s1 = d.subrange(132, 228);
    lemma_slot_round_trip_entry(h, 0, s0);
    lemma_slot_round_trip_entry(h, 1, s1);
    let nl = spec_nonce_len(h.algorithm, h.mode);
    assert(spec_slot_entry_check(s0) is Ok);
    assert(spec_slot_entry_check(s1) is Ok);
    assert(spec_header_check(d) is Ok);
    assert(spec_slot_present(d, 0) <==> 0 < h.keyslots@.len());
    assert(spec_slot_present(d, 1) <==> 1 < h.keyslots@.len());
    assert(spec_parsed_header(h, d));
    assert forall|g: FileHeader|
        header_wf(g) && spec_parsed_header(g, d) implies header_eq(g, h) by {
        assert(g.algorithm == h.algorithm);
        assert(g.mode == h.mode);
        assert(g.nonce@ == h.nonce@);
        assert(g.keyslots@.len() == h.keyslots@.len());
        if 0 < h.keyslots@.len() {
            lemma_parsed_slot_eq(g.keyslots@[0], h.keyslots@[0], s0);
        }
        if 1 < h.keyslots@.len() {
            lemma_parsed_slot_eq(g.keyslots@[1], h.keyslots@[1], s1);
        }
    }
}

/// Paste: a 228-byte sequence that agrees with a well-formed header on
/// each of its four regions is that header's serialization.
proof fn lemma_header_assemble(h: FileHeader, d: Seq<u8>)
    requires
        header_wf(h),
        d.len() == 228,
        d.subrange(0, 12) == spec_magic() + spec_header_version_bytes(h.version)
            + spec_algorithm_bytes(h.algorithm) + spec_mode_bytes(h.mode),
        d.subrange(12, 36) == h.nonce@ + zero_bytes(24 - h.nonce@.len()),
        d.subrange(36, 132) == spec_slot_table_bytes(h, 0),
        d.subrange(132, 228) == spec_slot_table_bytes(h, 1),
    ensures
        d == spec_header_bytes(h),
{
    lemma_header_bytes_len(h);
    if 0 < h.keyslots@.len() {
        lemma_keyslot_bytes_len(h.keyslots@[0]);
    }
    if 1 < h.keyslots@.len() {
        lemma_keyslot_bytes_len(h.keyslots@[1]);
    }
    assert forall|i: int| 0 <= i < 228 implies d[i] == spec_header_bytes(h)[i] by {
        if i < 12 {
            assert(d[i] == d.subrange(0, 12)[i]);
        } else if i < 36 {
            assert(d[i] == d.subrange(12, 36)[i - 12]);
        } else if i < 132 {
            assert(d[i] == d.subrange(36, 132)[i - 36]);
        } else {
            assert(d[i] == d.subrange(132, 228)[i - 132]);
        }
    }
    assert(d =~= spec_header_bytes(h));
}

/// What a well-formed header's serialization shows at each offset.
#[verifier::rlimit(60)]
proof fn lemma_header_bytes_fields(h: FileHeader)
    requires
        header_wf(h),
    ensures
        spec_header_bytes(h).len() == 228,
        spec_magic_ok(spec_header_bytes(h)),
        spec_header_bytes(h)[6] == 0x0A,
        spec_header_bytes(h)[7] == 0x01,
        spec_parse_algorithm(spec_header_bytes(h)[8], spec_header_bytes(h)[9])
            == Some(h.algorithm),
        spec_parse_mode(spec_header_bytes(h)[10], spec_header_bytes(h)[11]) == Some(h.mode),
        spec_header_bytes(h).subrange(12, 12 + spec_nonce_len(h.algorithm, h.mode))
            == h.nonce@,
        region_zero(
            spec_header_bytes(h),
            12 + spec_nonce_len(h.algorithm, h.mode),
            36,
        ),
        spec_header_bytes(h).subrange(36, 132) == spec_slot_table_bytes(h, 0),
        spec_header_bytes(h).subrange(132, 228) == spec_slot_table_bytes(h, 1),
{
    let d = spec_header_bytes(h);
    let nl = spec_nonce_len(h.algorithm, h.mode);
    lemma_header_bytes_len(h);
    if 0 < h.keyslots@.len() {
        lemma_keyslot_bytes_len(h.keyslots@[0]);
    }
    if 1 < h.keyslots@.len() {
        lemma_keyslot_bytes_len(h.keyslots@[1]);
    }
    assert(d.subrange(12, 12 + nl) =~= h.nonce@);
    assert forall|i: int| 12 + nl <= i < 36 implies #[trigger] d[i] == 0 by {
        assert(d[i] == zero_bytes(24 - nl)[i - 12 - nl]);
    }
    assert(d.subrange(36, 132) =~= spec_slot_table_bytes(h, 0));
    assert(d.subrange(132, 228) =~= spec_slot_table_bytes(h, 1));
}

/// Field-wise structural equality of two headers.
pub open spec fn header_eq(a: FileHeader, b: FileHeader) -> bool {
    &&& a.version == b.version
    &&& a.algorithm == b.algorithm
    &&& a.mode == b.mode
    &&& a.nonce@ == b.nonce@
    &&& a.keyslots@.len() == b.keyslots@.len()
    &&& forall|i: int| 0 <= i < a.keyslots@.len()
        ==> keyslot_eq(#[trigger] a.keyslots@[i], b.keyslots@[i])
}

/// Field-wise structural equality of two key slots.
pub open spec fn keyslot_eq(a: FileKeyslot, b: FileKeyslot) -> bool {
    &&& a.version == b.version
    &&& a.algorithm == b.algorithm
    &&& a.hashing_algorithm == b.hashing_algorithm
    &&& a.mode == b.mode
    &&& a.salt@ == b.salt@
    &&& a.nonce@ == b.nonce@
    &&& a.master_key@ == b.master_key@
}

/// An occupied slot's serialization is itself occupied, passes the slot
/// checks, and pins every field a parse can extract; an absent entry is
/// all zero.
proof fn lemma_slot_round_trip_entry(h: FileHeader, i: int, s: Seq<u8>)
    requires
        header_wf(h),
        i == 0 || i == 1,
        s == spec_slot_table_bytes(h, i),
    ensures
        i < h.keyslots@.len() ==> {
            &&& !region_zero(s, 0, 96)
            &&& spec_slot_check(s) is Ok
            &&& spec_parsed_slot_matches(h.keyslots@[i], s)
        },
        i >= h.keyslots@.len() ==> region_zero(s, 0, 96),
{
    if i < h.keyslots@.len() {
        let k = h.keyslots@[i];
        lemma_keyslot_bytes_len(k);
        assert(s[0] == 0x0D);
        assert(s[1] == 0x01);
        assert(spec_algorithm_bytes(k.algorithm).len() == 2);
        assert(s[2] == spec_algorithm_bytes(k.algorithm)[0]);
        assert(s[3] == spec_algorithm_bytes(k.algorithm)[1]);
        assert(s[4] == spec_mode_bytes(k.mode)[0]);
        assert(s[5] == spec_mode_bytes(k.mode)[1]);
        assert(spec_parse_algorithm(s[2], s[3]) == Some(k.algorithm));
        assert(spec_parse_mode(s[4], s[5]) == Some(k.mode));
        let nl = spec_nonce_len(k.algorithm, k.mode);
        assert forall|j: int| 70 + nl <= j < 96 implies #[trigger] s[j] == 0 by {
            assert(s[j] == zero_bytes(26 - k.nonce@.len())[j - 70 - k.nonce@.len()]);
        }
        assert(k.salt@ =~= s.subrange(6, 22));
        assert(k.master_key@ =~= s.subrange(22, 70));
        assert(k.nonce@ =~= s.subrange(70, 70 + nl));
        assert(spec_slot_check(s) is Ok);
    } else {
        assert forall|j: int| 0 <= j < 96 implies #[trigger] s[j] == 0 by {
            assert(s[j] == zero_bytes(96)[j]);
        }
    }
}

/// What `spec_parsed_slot` pins of a slot parsed back from `s`, phrased
/// against the original slot's fields.
pub open spec fn spec_parsed_slot_matches(k: FileKeyslot, s: Seq<u8>) -> bool {
    &&& Some(k.algorithm) == spec_parse_algorithm(s[2], s[3])
    &&& Some(k.mode) == spec_parse_mode(s[4], s[5])
    &&& k.salt@ == s.subrange(6, 22)
    &&& k.master_key@ == s.subrange(22, 70)
    &&& k.nonce@ == s.subrange(70, 70 + spec_nonce_len(k.algorithm, k.mode))
}

/// Two slots that both encode the occupied record `s` agree field-wise.
proof fn lemma_parsed_slot_eq(g: FileKeyslot, k: FileKeyslot, s: Seq<u8>)
    requires
        spec_parsed_slot(g, s),
        spec_parsed_slot_matches(k, s),
        k.version == FileKeyslotVersion::V1,
        k.hashing_algorithm == HashingAlgorithm::Argon2id,
    ensures
        keyslot_eq(g, k),
{
    assert(g.algorithm == k.algorithm);
    assert(g.mode == k.mode);
    assert(g.salt@ =~= k.salt@);
    assert(g.master_key@ =~= k.master_key@);
    assert(g.nonce@ =~= k.nonce@);
}

/// Two well-formed headers that both parse out of the same bytes agree
/// field for field and slot for slot.
pub proof fn lemma_parsed_header_unique(g: FileHeader, h: FileHeader, d: Seq<u8>)
    requires
        spec_parsed_header(g, d),
        spec_parsed_header(h, d),
    ensures
        header_eq(g, h),
{
    assert(g.algorithm == h.algorithm);
    assert(g.mode == h.mode);
    assert(g.keyslots@.len() == h.keyslots@.len());
    if spec_slot_present(d, 0) {
        lemma_parsed_slot_unique(g.keyslots@[0], h.keyslots@[0], d.subrange(36, 132));
    }
    if spec_slot_present(d, 1) {
        let i = if spec_slot_present(d, 0) { 1int } else { 0int };
        lemma_parsed_slot_unique(g.keyslots@[i], h.keyslots@[i], d.subrange(132, 228));
    }
    assert forall|i: int| 0 <= i < g.keyslots@.len()
        implies keyslot_eq(#[trigger] g.keyslots@[i], h.keyslots@[i]) by {
    }
}

/// Two key slots that both parse out of the same record agree field for
/// field.
proof fn lemma_parsed_slot_unique(a: FileKeyslot, b: FileKeyslot, s: Seq<u8>)
    requires
        spec_parsed_slot(a, s),
        spec_parsed_slot(b, s),
    ensures
        keyslot_eq(a, b),
{
    assert(a.algorithm == b.algorithm);
    assert(a.mode == b.mode);
}

/// A byte sequence whose 228-byte prefix is a well-formed header's
/// serialization passes the header checks and parses to that header.
pub proof fn lemma_header_ext(h: FileHeader, e: Seq<u8>)
    requires
        header_wf(h),
        e.len() >= 228,
        e.subrange(0, 228) == spec_header_bytes(h),
    ensures
        spec_header_check(e) is Ok,
        spec_parsed_header(h, e),
{
    let d = spec_header_bytes(h);
    lemma_header_bytes_len(h);
    lemma_header_round_trip(h);
    assert forall|i: int| 0 <= i < 228 implies #[trigger] e[i] == d[i] by {
        assert(e[i] == e.subrange(0, 228)[i]);
    }
    let nl = spec_nonce_len(h.algorithm, h.mode);
    assert(e.subrange(12, 12 + nl) =~= d.subrange(12, 12 + nl));
    assert(e.subrange(36, 132) =~= d.subrange(36, 132));
    assert(e.subrange(132, 228) =~= d.subrange(132, 228));
    assert(region_zero(e, 12 + nl, 36) <==> region_zero(d, 12 + nl, 36));
    assert(spec_slot_present(e, 0) <==> spec_slot_present(d, 0)) by {
        assert forall|i: int| 36 <= i < 132 implies (#[trigger] e[i] == 0 <==> d[i] == 0) by {}
    }
    assert(spec_slot_present(e, 1) <==> spec_slot_present(d, 1)) by {
        assert forall|i: int| 132 <= i < 228 implies (#[trigger] e[i] == 0 <==> d[i] == 0) by {}
    }
    assert(spec_header_check(e) is Ok);
    assert(spec_parsed_header(h, e));
}

} // verus!
