//! Codes, keys and seals: the cryptography that bundles and signatures rest on.

use aes_gcm::aead::{Aead, KeyInit};
use aes_gcm::{Aes256Gcm, Nonce};
use base64::engine::general_purpose::STANDARD;
use base64::Engine;
use hmac::{Hmac, Mac};
use sha2::Sha256;
use vstd::prelude::*;
use vstd::utf8::{encode_utf8, valid_utf8};

use crate::text::{
    byte_count, byte_len, char_bytes, char_len, chars_of, decimal, decimal_seq, is_space, join,
    join3, lemma_byte_count_step, lemma_char_bytes, trim, trim_seq,
};

verus! {

/// The name of the HMAC-SHA256 of some data under a key.
pub uninterp spec fn hmac_sha256_of(key: Seq<u8>, data: Seq<u8>) -> Seq<u8>;

/// The name of the 32 bytes that PBKDF2 with HMAC-SHA256 derives from a password.
pub uninterp spec fn pbkdf2_of(password: Seq<u8>, salt: Seq<u8>, rounds: u32) -> Seq<u8>;

/// The name of what AES-256-GCM seals a text as.
pub uninterp spec fn aes_sealed(key: Seq<u8>, nonce: Seq<u8>, plain: Seq<u8>) -> Option<Seq<u8>>;

/// The name of what AES-256-GCM finds in a sealed text.
pub uninterp spec fn aes_opened(key: Seq<u8>, nonce: Seq<u8>, sealed: Seq<u8>) -> Option<Seq<u8>>;

/// The name of the standard Base64 text of some bytes.
pub uninterp spec fn base64_of(bytes: Seq<u8>) -> Seq<char>;

/// The name of what standard Base64 reads from a text: bytes, or what is wrong with it.
pub uninterp spec fn base64_read(text: Seq<char>) -> Result<Seq<u8>, Seq<char>>;

/// The name of what is wrong with bytes that are no UTF-8.
pub uninterp spec fn utf8_flaw(bytes: Seq<u8>) -> Seq<char>;

/// HMAC-SHA256 (`hmac::Hmac` over `sha2::Sha256`), which takes a key of any length. Its 32 bytes
/// depend on key and data alone.
#[verifier::external_body]
pub(crate) fn hmac_sha256(key: &[u8], data: &[u8]) -> (r: Vec<u8>)
    ensures
        r@ == hmac_sha256_of(key@, data@),
        r@.len() == 32,
{
    let mut mac = <Hmac<Sha256> as Mac>::new_from_slice(key).expect("any length of key will do");
    mac.update(data);
    mac.finalize().into_bytes().to_vec()
}

/// `pbkdf2::pbkdf2_hmac` over SHA-256, 32 bytes of it. They depend on the arguments alone.
#[verifier::external_body]
pub(crate) fn derive_key(password: &[u8], salt: &[u8], rounds: u32) -> (r: Vec<u8>)
    ensures
        r@ == pbkdf2_of(password@, salt@, rounds),
        r@.len() == 32,
{
    let mut key = [0u8; 32];
    pbkdf2::pbkdf2_hmac::<Sha256>(password, salt, rounds, &mut key);
    key.to_vec()
}

/// `Aead::encrypt` of `aes_gcm::Aes256Gcm` without associated data: refuses a text of more than
/// 2^36 bytes, else seals it with 16 bytes more, and `decrypt` under the same key and nonce finds
/// the text in it again. The last 32 lengths that are not refused run out of the key stream, and the
/// call does not return.
#[verifier::external_body]
pub(crate) fn aes_seal(key: &[u8], nonce: &[u8], plain: &[u8]) -> (r: Option<Vec<u8>>)
    requires
        key@.len() == 32,
        nonce@.len() == 12,
        plain@.len() <= 68719476704 || plain@.len() > 68719476736,
    ensures
        match r {
            Some(sealed) => {
                &&& aes_sealed(key@, nonce@, plain@) == Some(sealed@)
                &&& aes_opened(key@, nonce@, sealed@) == Some(plain@)
                &&& sealed@.len() == plain@.len() + 16
                &&& plain@.len() <= 68719476736
            },
            None => aes_sealed(key@, nonce@, plain@) is None && plain@.len() > 68719476736,
        },
{
    let cipher = Aes256Gcm::new_from_slice(key).ok()?;
    cipher.encrypt(Nonce::from_slice(nonce), plain).ok()
}

/// `Aead::decrypt` of `aes_gcm::Aes256Gcm` without associated data: the text that was sealed under
/// this key and nonce, 16 bytes shorter, or nothing where the seal is not right.
#[verifier::external_body]
pub(crate) fn aes_open(key: &[u8], nonce: &[u8], sealed: &[u8]) -> (r: Option<Vec<u8>>)
    requires
        key@.len() == 32,
        nonce@.len() == 12,
        sealed@.len() <= 68719476720,
    ensures
        match r {
            Some(plain) => {
                &&& aes_opened(key@, nonce@, sealed@) == Some(plain@)
                &&& plain@.len() + 16 == sealed@.len()
            },
            None => aes_opened(key@, nonce@, sealed@) is None,
        },
{
    let cipher = Aes256Gcm::new_from_slice(key).ok()?;
    cipher.decrypt(Nonce::from_slice(nonce), sealed).ok()
}

/// `Engine::encode` of the standard Base64 engine. `Engine::decode` reads the same bytes from its
/// text.
#[verifier::external_body]
pub(crate) fn base64_encode(bytes: &[u8]) -> (r: String)
    ensures
        r@ == base64_of(bytes@),
        base64_read(r@) is Ok && base64_read(r@)->Ok_0 == bytes@,
{
    STANDARD.encode(bytes)
}

/// `Engine::decode` of the standard Base64 engine; on failure hands out the message of its error.
/// Both depend on the text alone.
#[verifier::external_body]
pub(crate) fn base64_decode(text: &str) -> (r: Result<Vec<u8>, String>)
    ensures
        match r {
            Ok(bytes) => base64_read(text@) == Ok::<Seq<u8>, Seq<char>>(bytes@),
            Err(e) => base64_read(text@) == Err::<Seq<u8>, Seq<char>>(e@),
        },
{
    STANDARD.decode(text).map_err(|e| e.to_string())
}

/// `n` bytes from `getrandom::getrandom`, or the message of its error. Which bytes come, and whether
/// any come, is left to the system.
#[verifier::external_body]
pub(crate) fn random_bytes(n: usize) -> (r: Result<Vec<u8>, String>)
    ensures
        r is Ok ==> r->Ok_0@.len() == n,
{
    let mut bytes = vec![0u8; n];
    match getrandom::getrandom(&mut bytes) {
        Ok(_) => Ok(bytes),
        Err(e) => Err(e.to_string()),
    }
}

/// `String::from_utf8`: the text that some bytes encode, or the message of its error where they
/// are no UTF-8.
#[verifier::external_body]
pub(crate) fn utf8_text(bytes: Vec<u8>) -> (r: Result<String, String>)
    ensures
        match r {
            Ok(s) => encode_utf8(s@) == bytes@,
            Err(e) => !valid_utf8(bytes@) && e@ == utf8_flaw(bytes@),
        },
{
    String::from_utf8(bytes).map_err(|e| e.to_string())
}

/// The lower case hexadecimal digit of a number below 16.
pub open spec fn hex_digit(n: int) -> char {
    if n < 10 {
        ('0' as u32 + n) as char
    } else {
        ('a' as u32 + n - 10) as char
    }
}

/// Two hexadecimal digits for each byte.
pub open spec fn hex_of(bytes: Seq<u8>) -> Seq<char> {
    Seq::new(
        2 * bytes.len(),
        |i: int|
            if i % 2 == 0 {
                hex_digit(bytes[i / 2] as int / 16)
            } else {
                hex_digit(bytes[i / 2] as int % 16)
            },
    )
}

fn hex_digit_char(n: u8) -> (c: char)
    requires
        n < 16,
    ensures
        c == hex_digit(n as int),
{
    if n < 10 {
        (48u8 + n) as char
    } else {
        (97u8 + (n - 10)) as char
    }
}

/// Two hexadecimal digits for each byte.
pub fn hex_text(bytes: &[u8]) -> (r: String)
    ensures
        r@ == hex_of(bytes@),
{
    let mut out: String = String::new();
    let mut i: usize = 0;
    assert(hex_of(bytes@).take(0) =~= Seq::<char>::empty());
    while i < bytes.len()
        invariant
            i <= bytes@.len(),
            out@ == hex_of(bytes@).take(2 * i),
        decreases bytes@.len() - i,
    {
        let b: u8 = bytes[i];
        let ghost before = out@;
        assert(hex_of(bytes@)[2 * i] == hex_digit(b as int / 16));
        assert(hex_of(bytes@)[2 * i + 1] == hex_digit(b as int % 16));
        out.push(hex_digit_char(b / 16));
        out.push(hex_digit_char(b % 16));
        assert(out@ =~= hex_of(bytes@).take(2 * (i + 1)));
        i += 1;
    }
    assert(hex_of(bytes@).take(2 * i) =~= hex_of(bytes@));
    out
}

/// The last `width` hexadecimal digits of a number.
pub open spec fn fixed_hex(n: nat, width: nat) -> Seq<char>
    decreases width,
{
    if width == 0 {
        Seq::empty()
    } else {
        fixed_hex(n / 16, (width - 1) as nat).push(hex_digit((n % 16) as int))
    }
}

/// The last `width` hexadecimal digits of a number.
pub fn hex_padded(n: u64, width: usize) -> (r: String)
    ensures
        r@ == fixed_hex(n as nat, width as nat),
    decreases width,
{
    if width == 0 {
        let r: String = String::new();
        assert(r@ =~= Seq::<char>::empty());
        return r;
    }
    let mut r: String = hex_padded(n / 16, width - 1);
    r.push(hex_digit_char((n % 16) as u8));
    r
}

/// The hexadecimal digits of a number.
pub open spec fn hex_seq(n: nat) -> Seq<char>
    decreases n,
{
    if n < 16 {
        seq![hex_digit(n as int)]
    } else {
        hex_seq(n / 16).push(hex_digit((n % 16) as int))
    }
}

/// The hexadecimal digits of a number.
pub fn hex_number(n: u64) -> (r: String)
    ensures
        r@ == hex_seq(n as nat),
    decreases n,
{
    let mut out: String = if n < 16 {
        String::new()
    } else {
        hex_number(n / 16)
    };
    out.push(hex_digit_char((n % 16) as u8));
    assert(n < 16 ==> out@ =~= seq![hex_digit(n as int)]);
    out
}

/// The value of a hexadecimal digit.
pub open spec fn hex_value(c: char) -> Option<int> {
    if '0' <= c <= '9' {
        Some(c as u32 - '0' as u32)
    } else if 'a' <= c <= 'f' {
        Some(c as u32 - 'a' as u32 + 10)
    } else if 'A' <= c <= 'F' {
        Some(c as u32 - 'A' as u32 + 10)
    } else {
        None
    }
}

/// The byte that two characters stand for: two digits, or a plus sign and a digit.
pub open spec fn hex_pair(a: char, b: char) -> Option<int> {
    match (hex_value(a), hex_value(b)) {
        (Some(x), Some(y)) => Some(16 * x + y),
        (None, Some(y)) => if a == '+' {
            Some(y)
        } else {
            None
        },
        _ => None,
    }
}

/// Whether a text, read by twos of its bytes, comes apart between its characters as far as it is
/// read: up to its end or to the first two bytes that are no number.
pub open spec fn comes_apart_by_twos(s: Seq<char>) -> bool
    decreases s.len(),
{
    if s.len() == 0 {
        true
    } else if char_bytes(s[0]) == 1 {
        s.len() >= 2 && char_bytes(s[1]) == 1 && (hex_pair(s[0], s[1]) is Some ==> comes_apart_by_twos(
            s.skip(2),
        ))
    } else {
        char_bytes(s[0]) == 2
    }
}

/// A text without its spaces.
pub open spec fn unspaced(s: Seq<char>) -> Seq<char>
    decreases s.len(),
{
    if s.len() == 0 {
        s
    } else if s.last() == ' ' {
        unspaced(s.drop_last())
    } else {
        unspaced(s.drop_last()).push(s.last())
    }
}

/// A text without its spaces.
fn without_spaces(s: &str) -> (r: String)
    ensures
        r@ == unspaced(s@),
{
    let cs: Vec<char> = chars_of(s);
    let mut out: String = String::new();
    let mut i: usize = 0;
    assert(cs@.take(0) =~= Seq::<char>::empty());
    while i < cs.len()
        invariant
            i <= cs@.len(),
            out@ == unspaced(cs@.take(i as int)),
        decreases cs@.len() - i,
    {
        assert(cs@.take(i + 1).drop_last() =~= cs@.take(i as int));
        if cs[i] != ' ' {
            out.push(cs[i]);
        }
        i += 1;
    }
    assert(cs@.take(i as int) =~= cs@);
    out
}

proof fn lemma_unspaced(s: Seq<char>)
    requires
        forall|i: int| 0 <= i < s.len() ==> #[trigger] s[i] != ' ',
    ensures
        unspaced(s) == s,
    decreases s.len(),
{
    if s.len() > 0 {
        assert forall|i: int| 0 <= i < s.len() - 1 implies #[trigger] s.drop_last()[i] != ' ' by {
            assert(s[i] != ' ');
        }
        lemma_unspaced(s.drop_last());
        assert(s.drop_last().push(s.last()) =~= s);
    }
}

/// The digits in a text: without white space around it and spaces in it.
pub open spec fn digits_in(s: Seq<char>) -> Seq<char> {
    unspaced(trim_seq(s))
}

/// Whether a text can be read as hexadecimal digits, or else refused.
pub open spec fn hex_readable(s: Seq<char>) -> bool {
    byte_count(digits_in(s)) % 2 == 0 ==> comes_apart_by_twos(digits_in(s))
}

/// The bytes in a text of hexadecimal digits, which begins at byte `at` of a longer one.
pub open spec fn hex_bytes(s: Seq<char>, at: nat) -> Result<Seq<u8>, Seq<char>>
    decreases s.len(),
{
    if s.len() == 0 {
        Ok(Seq::empty())
    } else if s.len() >= 2 && hex_pair(s[0], s[1]) is Some {
        match hex_bytes(s.skip(2), at + 2) {
            Ok(rest) => Ok(seq![hex_pair(s[0], s[1])->0 as u8] + rest),
            Err(e) => Err(e),
        }
    } else {
        Err("hex parse at "@ + decimal_seq(at) + ": invalid digit found in string"@)
    }
}

/// The bytes in a text of hexadecimal digits, white space around it and spaces in it aside.
pub open spec fn hex_read(s: Seq<char>) -> Result<Seq<u8>, Seq<char>> {
    let t = digits_in(s);
    if byte_count(t) % 2 != 0 {
        Err("hex string odd length: "@ + decimal_seq(byte_count(t)))
    } else {
        hex_bytes(t, 0)
    }
}

fn hex_digit_value(c: char) -> (r: Option<u8>)
    ensures
        match r {
            Some(v) => hex_value(c) == Some(v as int) && v < 16,
            None => hex_value(c) is None,
        },
{
    if '0' <= c && c <= '9' {
        Some((c as u32 - '0' as u32) as u8)
    } else if 'a' <= c && c <= 'f' {
        Some((c as u32 - 'a' as u32 + 10) as u8)
    } else if 'A' <= c && c <= 'F' {
        Some((c as u32 - 'A' as u32 + 10) as u8)
    } else {
        None
    }
}

fn hex_pair_value(a: char, b: char) -> (r: Option<u8>)
    ensures
        match r {
            Some(v) => hex_pair(a, b) == Some(v as int),
            None => hex_pair(a, b) is None,
        },
{
    match (hex_digit_value(a), hex_digit_value(b)) {
        (Some(x), Some(y)) => Some(16 * x + y),
        (None, Some(y)) => if a == '+' {
            Some(y)
        } else {
            None
        },
        _ => None,
    }
}

/// Whether a text can be read as hexadecimal digits, or else refused.
pub fn is_hex_readable(s: &str) -> (r: bool)
    ensures
        r == hex_readable(s@),
{
    let text: String = without_spaces(trim(s));
    let t: &str = text.as_str();
    if byte_len(t) % 2 != 0 {
        return true;
    }
    let cs: Vec<char> = chars_of(t);
    let n: usize = cs.len();
    let mut i: usize = 0;
    assert(cs@.skip(0) =~= cs@);
    while i < n
        invariant
            n == cs@.len(),
            i <= n,
            cs@ == digits_in(s@),
            byte_count(digits_in(s@)) % 2 == 0,
            comes_apart_by_twos(cs@) == comes_apart_by_twos(cs@.skip(i as int)),
        decreases n - i,
    {
        let ghost rest = cs@.skip(i as int);
        assert(rest[0] == cs@[i as int]);
        if char_len(cs[i]) != 1 {
            return char_len(cs[i]) == 2;
        }
        if n - i < 2 {
            return false;
        }
        assert(rest[1] == cs@[i + 1]);
        if char_len(cs[i + 1]) != 1 {
            return false;
        }
        assert(rest.skip(2) =~= cs@.skip(i + 2));
        if hex_pair_value(cs[i], cs[i + 1]).is_none() {
            return true;
        }
        i += 2;
    }
    true
}

/// The bytes in a text of hexadecimal digits, white space around it and spaces in it aside.
pub fn decode_hex(s: &str) -> (r: Result<Vec<u8>, String>)
    requires
        hex_readable(s@),
    ensures
        match (r, hex_read(s@)) {
            (Ok(bytes), Ok(want)) => bytes@ == want,
            (Err(e), Err(want)) => e@ == want,
            _ => false,
        },
{
    let text: String = without_spaces(trim(s));
    let t: &str = text.as_str();
    let len: usize = byte_len(t);
    if len % 2 != 0 {
        return Err(join("hex string odd length: ", decimal(len as u64).as_str()));
    }
    let cs: Vec<char> = chars_of(t);
    let n: usize = cs.len();
    let mut out: Vec<u8> = Vec::new();
    let mut i: usize = 0;
    assert(cs@.skip(0) =~= cs@);
    while i < n
        invariant
            n == cs@.len(),
            i <= n,
            cs@ == digits_in(s@),
            byte_count(digits_in(s@)) % 2 == 0,
            match hex_bytes(cs@.skip(i as int), i as nat) {
                Ok(rest) => hex_bytes(cs@, 0) == Ok::<Seq<u8>, Seq<char>>(out@ + rest),
                Err(e) => hex_bytes(cs@, 0) == Err::<Seq<u8>, Seq<char>>(e),
            },
        decreases n - i,
    {
        let ghost rest = cs@.skip(i as int);
        let ghost before = out@;
        assert(rest[0] == cs@[i as int]);
        if n - i < 2 {
            return Err(
                join3("hex parse at ", decimal(i as u64).as_str(), ": invalid digit found in string"),
            );
        }
        assert(rest[1] == cs@[i + 1]);
        assert(rest.skip(2) =~= cs@.skip(i + 2));
        match hex_pair_value(cs[i], cs[i + 1]) {
            Some(v) => {
                out.push(v);
                proof {
                    match hex_bytes(cs@.skip(i + 2), (i + 2) as nat) {
                        Ok(tail) => {
                            assert(before + (seq![v] + tail) =~= out@ + tail);
                        },
                        Err(_) => {},
                    }
                }
            },
            None => {
                return Err(
                    join3("hex parse at ", decimal(i as u64).as_str(), ": invalid digit found in string"),
                );
            },
        }
        i += 2;
    }
    assert(cs@.skip(i as int).len() == 0);
    assert(out@ + Seq::<u8>::empty() =~= out@);
    Ok(out)
}

proof fn lemma_hex_of_digits(n: int)
    requires
        0 <= n < 16,
    ensures
        hex_value(hex_digit(n)) == Some(n),
        char_bytes(hex_digit(n)) == 1,
        !is_space(hex_digit(n)),
{
    lemma_char_bytes(hex_digit(n));
}

proof fn lemma_hex_read_back(bytes: Seq<u8>, at: nat)
    ensures
        hex_bytes(hex_of(bytes), at) == Ok::<Seq<u8>, Seq<char>>(bytes),
        comes_apart_by_twos(hex_of(bytes)),
    decreases bytes.len(),
{
    let s = hex_of(bytes);
    if bytes.len() > 0 {
        let b = bytes[0] as int;
        lemma_hex_of_digits(b / 16);
        lemma_hex_of_digits(b % 16);
        assert(s[0] == hex_digit(b / 16));
        assert(s[1] == hex_digit(b % 16));
        assert(16 * (b / 16) + b % 16 == b);
        assert forall|i: int| 0 <= i < 2 * (bytes.len() - 1) implies #[trigger] s.skip(2)[i] == hex_of(
            bytes.drop_first(),
        )[i] by {
            assert(bytes[(i + 2) / 2] == bytes.drop_first()[i / 2]);
        }
        assert(s.skip(2) =~= hex_of(bytes.drop_first()));
        lemma_hex_read_back(bytes.drop_first(), at + 2);
        assert(seq![bytes[0]] + bytes.drop_first() =~= bytes);
    } else {
        assert(s =~= Seq::<char>::empty());
        assert(bytes =~= Seq::<u8>::empty());
    }
}

proof fn lemma_ascii_byte_count(s: Seq<char>)
    requires
        forall|i: int| 0 <= i < s.len() ==> char_bytes(#[trigger] s[i]) == 1,
    ensures
        byte_count(s) == s.len(),
    decreases s.len(),
{
    if s.len() > 0 {
        lemma_byte_count_step(s, s.len() - 1);
        assert(s.take(s.len() as int) =~= s);
        assert(s.take(s.len() - 1) =~= s.drop_last());
        lemma_ascii_byte_count(s.drop_last());
    }
}

/// Hexadecimal digits read back as the bytes that they were written for.
pub proof fn hex_reads_back(bytes: Seq<u8>)
    ensures
        hex_readable(hex_of(bytes)),
        hex_read(hex_of(bytes)) == Ok::<Seq<u8>, Seq<char>>(bytes),
{
    let s = hex_of(bytes);
    assert forall|i: int| 0 <= i < s.len() implies char_bytes(#[trigger] s[i]) == 1 && !is_space(
        s[i],
    ) by {
        let b = bytes[i / 2] as int;
        lemma_hex_of_digits(b / 16);
        lemma_hex_of_digits(b % 16);
    }
    lemma_ascii_byte_count(s);
    if s.len() > 0 {
        assert(!is_space(s[0]));
        assert(!is_space(s[s.len() - 1]));
    }
    assert(trim_seq(s) == s);
    assert forall|i: int| 0 <= i < s.len() implies #[trigger] s[i] != ' ' by {
        assert(!is_space(s[i]));
    }
    lemma_unspaced(s);
    lemma_hex_read_back(bytes, 0);
}

} // verus!
