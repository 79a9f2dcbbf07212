//! Bundles: the whole configuration of alerting in one signed document, sealed where a passphrase is
//! given.

use vstd::prelude::*;
use vstd::utf8::{decode_utf8, encode_utf8, encode_utf8_decode_utf8, encode_utf8_valid_utf8, valid_utf8};

use super::config::endpoint_complaint;
use super::endpoints::{
    endpoint_id, endpoint_row, gen_endpoint_id, list_endpoints, save_endpoint,
    save_endpoint_complaint,
};
use super::ids::{all_uuids, counted_on, gen_event_ids, time_id};
use super::presets::{
    all_presets, list_template_presets, preset_complaint, preset_row, store_user_preset,
};
use super::recipients::{
    list_recipients, recipient_complaint, recipient_kind_complaint, recipient_row,
    store_recipient, validate_recipient_kind,
};
use super::routes::{
    export_routes_yaml, gen_route_id, id_or, route_complaint, route_id, route_made_at, route_row,
    routes_of, save_route,
};
use super::rows::{
    ack_of, ack_row_to_dto, endpoint_of, endpoint_row_to_dto, silence_of, silence_row_to_dto,
};
use super::silences::{
    ack_row, gen_ack_id, gen_silence_id, list_acks, list_silences, save_ack, save_ack_complaint,
    save_silence, silence_complaint, silence_row,
};
use super::storage::{
    RecipientDef, RecipientDefView, Storage, TemplatePreset, TemplatePresetView,
};
use super::store::{
    any_of, by_rank, copy_kept, find_first, first_of, kept, lemma_first_index, rows_view, with_row,
};
use super::types::{
    AckRule, AckRuleRow, AckRuleRowView, AckRuleView, AlertingEndpointRow,
    AlertingEndpointRowView, RouteRule, RouteRuleRow, RouteRuleRowView, RouteRuleView,
    SilenceRule, SilenceRuleRow, SilenceRuleRowView, SilenceRuleView, WebhookEndpoint,
    WebhookEndpointView,
};
use crate::crypt::{
    aes_open, aes_opened, aes_seal, aes_sealed, base64_decode, base64_encode, base64_of,
    base64_read, decode_hex, derive_key, hex_digit, hex_of, hex_read, hex_readable,
    hex_reads_back, hex_text, hmac_sha256, hmac_sha256_of, is_hex_readable, pbkdf2_of,
    random_bytes, utf8_flaw, utf8_text,
};
use crate::json::texts_view;
use crate::text::{
    byte_count, chars_of, complaint, decimal, decimal_seq, is_space, join, join3, matches_at,
    occurs_at, same, slice_text, starts_with, starts_with_seq, trim_end, trim_end_seq, trim_start,
    trim_start_seq,
};

verus! {

/// The version of the bundles that are handed out.
pub const CURRENT_BUNDLE_VERSION: u32 = 1;

/// Whether a line with a signature begins at position `i`.
pub open spec fn signature_line_at(s: Seq<char>, i: int) -> bool {
    occurs_at(s, "signature:"@, i) && (i == 0 || s[i - 1] == '\n')
}

/// The last position up to `i` at which a line with a signature begins.
pub open spec fn last_signature_line(s: Seq<char>, i: int) -> Option<int>
    decreases i + 1,
{
    if i < 0 {
        None
    } else if signature_line_at(s, i) {
        Some(i)
    } else {
        last_signature_line(s, i - 1)
    }
}

/// Whether a signature ends in front of `c`.
pub open spec fn ends_signature(c: char) -> bool {
    c == '"' || c == '\n' || c == ' '
}

/// `s` up to the first character that ends a signature.
pub open spec fn signature_part(s: Seq<char>) -> Seq<char>
    decreases s.len(),
{
    if s.len() == 0 || ends_signature(s[0]) {
        Seq::empty()
    } else {
        seq![s[0]] + signature_part(s.drop_first())
    }
}

/// The signature in what stands behind `signature:`, with or without a quotation mark.
pub open spec fn signature_in(s: Seq<char>) -> Seq<char> {
    let t = trim_start_seq(s);
    if t.len() > 0 && t[0] == '"' {
        signature_part(t.drop_first())
    } else {
        signature_part(t)
    }
}

/// A signed text as what stands in front of its signature line, and the signature.
pub open spec fn parted(s: Seq<char>) -> Result<(Seq<char>, Seq<char>), Seq<char>> {
    match last_signature_line(s, s.len() as int) {
        Some(i) => Ok((s.take(i), signature_in(s.skip(i + 10)))),
        None => Err("bundle missing signature: field"@),
    }
}

fn signature_end(cs: &[char], from: usize) -> (r: usize)
    requires
        from <= cs@.len(),
    ensures
        from <= r <= cs@.len(),
        cs@.subrange(from as int, r as int) == signature_part(cs@.skip(from as int)),
{
    let n: usize = cs.len();
    let mut i: usize = from;
    assert(cs@.subrange(from as int, from as int) =~= Seq::<char>::empty());
    assert(Seq::<char>::empty() + signature_part(cs@.skip(from as int)) =~= signature_part(
        cs@.skip(from as int),
    ));
    while i < n && !(cs[i] == '"' || cs[i] == '\n' || cs[i] == ' ')
        invariant
            n == cs@.len(),
            from <= i <= n,
            signature_part(cs@.skip(from as int)) == cs@.subrange(from as int, i as int) + signature_part(
                cs@.skip(i as int),
            ),
        decreases n - i,
    {
        let ghost rest = cs@.skip(i as int);
        assert(rest.drop_first() =~= cs@.skip(i + 1));
        assert(cs@.subrange(from as int, i as int) + (seq![cs@[i as int]] + signature_part(
            cs@.skip(i + 1),
        )) =~= cs@.subrange(from as int, i + 1) + signature_part(cs@.skip(i + 1)));
        i += 1;
    }
    assert(signature_part(cs@.skip(i as int)) =~= Seq::<char>::empty());
    assert(cs@.subrange(from as int, i as int) + Seq::<char>::empty() =~= cs@.subrange(
        from as int,
        i as int,
    ));
    i
}

/// Parts a signed text into what stands in front of its last signature line, and the signature.
pub fn split_signature(signed: &str) -> (r: Result<(String, String), String>)
    ensures
        match (r, parted(signed@)) {
            (Ok(p), Ok(want)) => (p.0@, p.1@) == want,
            (Err(e), Err(want)) => e@ == want,
            _ => false,
        },
{
    let cs: Vec<char> = chars_of(signed);
    let needle: Vec<char> = chars_of("signature:");
    proof {
        reveal_strlit("signature:");
    }
    let n: usize = cs.len();
    if n < 10 {
        proof {
            lemma_no_signature_line(signed@, n as int);
        }
        return Err("bundle missing signature: field".to_owned());
    }
    let mut i: usize = n - 10;
    proof {
        lemma_room_for_signature(signed@, n as int, i as int);
    }
    loop
        invariant
            n == cs@.len(),
            cs@ == signed@,
            needle@ == "signature:"@,
            needle@.len() == 10,
            i <= n - 10,
            last_signature_line(signed@, n as int) == last_signature_line(signed@, i as int),
        decreases i,
    {
        if matches_at(cs.as_slice(), needle.as_slice(), i) && (i == 0 || cs[i - 1] == '\n') {
            let body: String = slice_text(cs.as_slice(), 0, i);
            assert(body@ =~= signed@.take(i as int));
            let rest: String = slice_text(cs.as_slice(), i + 10, n);
            assert(rest@ =~= signed@.skip(i + 10));
            let trimmed: &str = trim_start(rest.as_str());
            let ts: Vec<char> = chars_of(trimmed);
            let from: usize = if ts.len() > 0 && ts[0] == '"' {
                1
            } else {
                0
            };
            assert(ts@.skip(0) =~= ts@);
            assert(ts@.len() > 0 ==> ts@.skip(1) =~= ts@.drop_first());
            let to: usize = signature_end(ts.as_slice(), from);
            let sig: String = slice_text(ts.as_slice(), from, to);
            return Ok((body, sig));
        }
        if i == 0 {
            return Err("bundle missing signature: field".to_owned());
        }
        i -= 1;
    }
}

proof fn lemma_no_signature_line(s: Seq<char>, i: int)
    requires
        s.len() < 10,
        i <= s.len(),
    ensures
        last_signature_line(s, i) is None,
    decreases i + 1,
{
    reveal_strlit("signature:");
    if i >= 0 {
        lemma_no_signature_line(s, i - 1);
    }
}

proof fn lemma_room_for_signature(s: Seq<char>, i: int, last: int)
    requires
        last == s.len() - 10,
        0 <= last <= i <= s.len(),
    ensures
        last_signature_line(s, i) == last_signature_line(s, last),
    decreases i,
{
    reveal_strlit("signature:");
    if i > last {
        lemma_room_for_signature(s, i - 1, last);
    }
}

/// A text with its signature line: white space at the end of the text gives way to one line end.
pub open spec fn signed_text(body: Seq<char>, secret: Seq<u8>) -> Seq<char> {
    trim_end_seq(body) + "\n"@ + "signature: \""@ + hex_of(hmac_sha256_of(secret, encode_utf8(body)))
        + "\"\n"@
}

/// Signs a text with HMAC-SHA256 under a secret.
pub fn sign_bundle(body: &str, secret: &[u8]) -> (r: String)
    ensures
        r@ == signed_text(body@, secret@),
{
    let mac: Vec<u8> = hmac_sha256(secret, body.as_bytes());
    let head: String = join3(trim_end(body), "\n", "signature: \"");
    join3(head.as_str(), hex_text(mac.as_slice()).as_str(), "\"\n")
}

/// What is wrong with the signature of a text.
pub open spec fn signature_complaint(signed: Seq<char>, secret: Seq<u8>) -> Option<Seq<char>> {
    match parted(signed) {
        Err(e) => Some(e),
        Ok((body, sig)) => match hex_read(sig) {
            Err(e) => Some(e),
            Ok(bytes) => {
                let mac = hmac_sha256_of(secret, encode_utf8(body));
                if bytes.len() != mac.len() {
                    Some("bundle signature length mismatch"@)
                } else if bytes != mac {
                    Some("bundle signature mismatch (content tampered)"@)
                } else {
                    None
                }
            },
        },
    }
}

/// Whether the signature of a text can be read as digits, or else refused.
pub open spec fn signature_readable(signed: Seq<char>) -> bool {
    match parted(signed) {
        Ok((_, sig)) => hex_readable(sig),
        Err(_) => true,
    }
}

/// Whether the signature of a text can be read as digits, or else refused.
pub fn is_signature_readable(signed: &str) -> (r: bool)
    ensures
        r == signature_readable(signed@),
{
    match split_signature(signed) {
        Ok((_, sig)) => is_hex_readable(sig.as_str()),
        Err(_) => true,
    }
}

/// Whether two sequences of the same length are the same, found out in the same time for all.
fn same_bytes(a: &Vec<u8>, b: &Vec<u8>) -> (r: bool)
    requires
        a@.len() == b@.len(),
    ensures
        r == (a@ == b@),
{
    let mut diff: u8 = 0;
    let mut i: usize = 0;
    while i < a.len()
        invariant
            i <= a@.len(),
            a@.len() == b@.len(),
            diff == 0 <==> (forall|k: int| 0 <= k < i ==> #[trigger] a@[k] == b@[k]),
        decreases a@.len() - i,
    {
        let x: u8 = a[i];
        let y: u8 = b[i];
        let before: u8 = diff;
        diff = before | (x ^ y);
        assert(before | (x ^ y) == 0 <==> before == 0 && x == y) by (bit_vector);
        assert(diff == 0 <==> (forall|k: int| 0 <= k < i + 1 ==> #[trigger] a@[k] == b@[k])) by {
            if diff == 0 {
                assert forall|k: int| 0 <= k < i + 1 implies #[trigger] a@[k] == b@[k] by {
                    if k < i {
                    }
                }
            } else if forall|k: int| 0 <= k < i + 1 ==> #[trigger] a@[k] == b@[k] {
                assert(a@[i as int] == b@[i as int]);
                assert forall|k: int| 0 <= k < i implies #[trigger] a@[k] == b@[k] by {}
            }
        }
        i += 1;
    }
    assert(diff == 0 ==> a@ =~= b@);
    diff == 0
}

/// Checks the signature of a text under a secret.
pub fn verify_bundle(signed: &str, secret: &[u8]) -> (r: Result<(), String>)
    requires
        signature_readable(signed@),
    ensures
        complaint(r) == signature_complaint(signed@, secret@),
{
    let (body, sig) = match split_signature(signed) {
        Ok(p) => p,
        Err(e) => {
            return Err(e);
        },
    };
    let expected: Vec<u8> = hmac_sha256(secret, body.as_str().as_bytes());
    let provided: Vec<u8> = match decode_hex(sig.as_str()) {
        Ok(bytes) => bytes,
        Err(e) => {
            return Err(e);
        },
    };
    if provided.len() != expected.len() {
        return Err("bundle signature length mismatch".to_owned());
    }
    if !same_bytes(&expected, &provided) {
        return Err("bundle signature mismatch (content tampered)".to_owned());
    }
    Ok(())
}

/// The text in front of the signature, once the signature has been checked.
pub fn verified_body(signed: &str, secret: &[u8]) -> (r: Result<String, String>)
    requires
        signature_readable(signed@),
    ensures
        complaint(r) == signature_complaint(signed@, secret@),
        r is Ok ==> parted(signed@) is Ok && r->Ok_0@ == parted(signed@)->Ok_0.0,
{
    verify_bundle(signed, secret)?;
    match split_signature(signed) {
        Ok((body, _)) => Ok(body),
        Err(e) => Err(e),
    }
}

proof fn lemma_signature_part(s: Seq<char>, tail: Seq<char>)
    requires
        forall|i: int| 0 <= i < s.len() ==> !ends_signature(#[trigger] s[i]),
        tail.len() > 0,
        ends_signature(tail[0]),
    ensures
        signature_part(s + tail) == s,
    decreases s.len(),
{
    let all = s + tail;
    if s.len() == 0 {
        assert(all[0] == tail[0]);
        assert(signature_part(all) =~= s);
    } else {
        assert(all[0] == s[0]);
        assert(all.drop_first() =~= s.drop_first() + tail);
        assert forall|i: int| 0 <= i < s.drop_first().len() implies !ends_signature(
            #[trigger] s.drop_first()[i],
        ) by {
            assert(!ends_signature(s[i + 1]));
        }
        lemma_signature_part(s.drop_first(), tail);
        assert(seq![s[0]] + s.drop_first() =~= s);
    }
}

proof fn lemma_last_line_found(s: Seq<char>, at: int, i: int)
    requires
        0 <= at <= i,
        signature_line_at(s, at),
        forall|j: int| at < j <= i ==> !signature_line_at(s, j),
    ensures
        last_signature_line(s, i) == Some(at),
    decreases i,
{
    if i > at {
        lemma_last_line_found(s, at, i - 1);
    }
}

/// A text with a signature line behind it that gives `mac`.
pub open spec fn under_signature(body: Seq<char>, mac: Seq<u8>) -> Seq<char> {
    body + "signature: \""@ + hex_of(mac) + "\"\n"@
}

proof fn lemma_under_signature(body: Seq<char>, mac: Seq<u8>)
    requires
        body.len() > 0 ==> body.last() == '\n',
    ensures
        parted(under_signature(body, mac)) == Ok::<(Seq<char>, Seq<char>), Seq<char>>(
            (body, hex_of(mac)),
        ),
        hex_read(hex_of(mac)) == Ok::<Seq<u8>, Seq<char>>(mac),
        signature_readable(under_signature(body, mac)),
{
    reveal_strlit("signature:");
    reveal_strlit("signature: \"");
    reveal_strlit("\n");
    reveal_strlit("\"\n");
    let digits = hex_of(mac);
    let s = under_signature(body, mac);
    let at = body.len() as int;
    let line = "signature: \""@ + digits + "\"\n"@;
    assert(s =~= body + line);
    assert(s.subrange(at, at + 10) =~= "signature:"@) by {
        assert forall|k: int| 0 <= k < 10 implies s[at + k] == #[trigger] "signature:"@[k] by {
            assert(s[at + k] == line[k]);
            assert(line[k] == "signature: \""@[k]);
        }
    }
    if at > 0 {
        assert(s[at - 1] == body[at - 1]);
    }
    assert(signature_line_at(s, at));
    assert forall|k: int| 0 <= k < digits.len() implies !ends_signature(#[trigger] digits[k]) && !is_space(
        digits[k],
    ) by {
        let b = mac[k / 2] as int;
        assert(digits[k] == (if k % 2 == 0 {
            hex_digit(b / 16)
        } else {
            hex_digit(b % 16)
        }));
    }
    assert forall|j: int| at < j <= s.len() implies !signature_line_at(s, j) by {
        if signature_line_at(s, j) {
            assert(s[j - 1] == '\n');
            let k = j - 1 - at;
            assert(line[k] == '\n');
            if k < 12 {
                assert(line[k] == "signature: \""@[k]);
            } else if k < 12 + digits.len() {
                assert(line[k] == digits[k - 12]);
            } else {
                assert(line[k] == "\"\n"@[k - 12 - digits.len()]);
                assert(j == s.len());
            }
        }
    }
    lemma_last_line_found(s, at, s.len() as int);
    assert(s.take(at) =~= body);
    let rest = s.skip(at + 10);
    let want = seq![' ', '"'] + digits + "\"\n"@;
    assert(rest =~= want) by {
        assert forall|k: int| 0 <= k < rest.len() implies rest[k] == #[trigger] want[k] by {
            assert(rest[k] == line[k + 10]);
            if k < 2 {
                assert(line[k + 10] == "signature: \""@[k + 10]);
            }
        }
    }
    assert(rest.drop_first()[0] == '"');
    assert(trim_start_seq(rest.drop_first()) == rest.drop_first());
    assert(trim_start_seq(rest) == rest.drop_first());
    assert(rest.drop_first().drop_first() =~= digits + "\"\n"@);
    lemma_signature_part(digits, "\"\n"@);
    assert(signature_in(rest) == digits);
    hex_reads_back(mac);
}

/// What was signed passes the check, under the same secret, and comes out as it was. This is said of
/// texts that end in one line end behind their last character that is no white space: signing
/// changes the end of any other.
pub proof fn signed_bundle_verifies(body: Seq<char>, secret: Seq<u8>)
    requires
        body == trim_end_seq(body) + "\n"@,
    ensures
        signature_readable(signed_text(body, secret)),
        signature_complaint(signed_text(body, secret), secret) is None,
        parted(signed_text(body, secret)) is Ok,
        parted(signed_text(body, secret))->Ok_0.0 == body,
{
    reveal_strlit("\n");
    let mac = hmac_sha256_of(secret, encode_utf8(body));
    assert(signed_text(body, secret) =~= under_signature(body, mac));
    lemma_under_signature(body, mac);
}

/// A bundle whose text was changed after it was signed, or that is checked under another secret, is
/// refused, unless the code of the one text under the one secret is that of the other text under
/// the other. Where both codes have the same length, it is refused as tampered with.
pub proof fn tampered_bundle_is_refused(
    body: Seq<char>,
    secret: Seq<u8>,
    changed: Seq<char>,
    other: Seq<u8>,
)
    requires
        body == trim_end_seq(body) + "\n"@,
        changed.len() > 0 ==> changed.last() == '\n',
    ensures
        ({
            let mac = hmac_sha256_of(secret, encode_utf8(body));
            let expected = hmac_sha256_of(other, encode_utf8(changed));
            &&& signed_text(body, secret) == under_signature(body, mac)
            &&& signature_readable(under_signature(changed, mac))
            &&& signature_complaint(under_signature(changed, mac), other) is None <==> expected == mac
            &&& expected != mac && expected.len() == mac.len() ==> signature_complaint(
                under_signature(changed, mac),
                other,
            ) == Some("bundle signature mismatch (content tampered)"@)
        }),
{
    reveal_strlit("\n");
    let mac = hmac_sha256_of(secret, encode_utf8(body));
    assert(signed_text(body, secret) =~= under_signature(body, mac));
    lemma_under_signature(changed, mac);
}

/// A text whose signature line is not in it does not pass.
pub proof fn unsigned_bundle_is_refused(body: Seq<char>, secret: Seq<u8>)
    requires
        forall|i: int| 0 <= i <= body.len() ==> !signature_line_at(body, i),
    ensures
        signature_complaint(body, secret) == Some("bundle missing signature: field"@),
{
    lemma_no_line(body, body.len() as int);
}

proof fn lemma_no_line(s: Seq<char>, i: int)
    requires
        forall|j: int| 0 <= j <= i ==> !signature_line_at(s, j),
    ensures
        last_signature_line(s, i) is None,
    decreases i + 1,
{
    if i >= 0 {
        lemma_no_line(s, i - 1);
    }
}

/// A sealed bundle, and what is needed to open it but the passphrase.
#[derive(Debug)]
pub struct EncryptedEnvelope {
    pub version: u32,
    pub algorithm: String,
    pub kdf: String,
    pub iterations: u32,
    /// In Base64, as are the two below.
    pub salt: String,
    pub nonce: String,
    pub ciphertext: String,
}

/// What a [`EncryptedEnvelope`] holds.
pub struct EncryptedEnvelopeView {
    pub version: u32,
    pub algorithm: Seq<char>,
    pub kdf: Seq<char>,
    pub iterations: u32,
    pub salt: Seq<char>,
    pub nonce: Seq<char>,
    pub ciphertext: Seq<char>,
}

impl View for EncryptedEnvelope {
    type V = EncryptedEnvelopeView;

    open spec fn view(&self) -> EncryptedEnvelopeView {
        EncryptedEnvelopeView {
            version: self.version,
            algorithm: self.algorithm@,
            kdf: self.kdf@,
            iterations: self.iterations,
            salt: self.salt@,
            nonce: self.nonce@,
            ciphertext: self.ciphertext@,
        }
    }
}

impl Clone for EncryptedEnvelope {
    fn clone(&self) -> (r: Self)
        ensures
            r@ == self@,
    {
        EncryptedEnvelope {
            version: self.version,
            algorithm: self.algorithm.clone(),
            kdf: self.kdf.clone(),
            iterations: self.iterations,
            salt: self.salt.clone(),
            nonce: self.nonce.clone(),
            ciphertext: self.ciphertext.clone(),
        }
    }
}

/// What comes of opening a sealed bundle with a passphrase.
pub open spec fn bundle_opened(env: EncryptedEnvelopeView, passphrase: Seq<char>) -> Result<
    Seq<char>,
    Seq<char>,
> {
    if env.algorithm != "aes-256-gcm-pbkdf2-sha256"@ {
        Err("unsupported algorithm: "@ + env.algorithm)
    } else {
        match (base64_read(env.salt), base64_read(env.nonce), base64_read(env.ciphertext)) {
            (Err(e), _, _) => Err("salt decode: "@ + e),
            (_, Err(e), _) => Err("nonce decode: "@ + e),
            (_, _, Err(e)) => Err("ciphertext decode: "@ + e),
            (Ok(salt), Ok(nonce), Ok(sealed)) => if nonce.len() != 12 {
                Err("nonce must be 12 bytes"@)
            } else if sealed.len() > 68719476720 {
                Err("decryption failed (wrong passphrase or tampered ciphertext)"@)
            } else {
                match aes_opened(
                    pbkdf2_of(encode_utf8(passphrase), salt, env.iterations),
                    nonce,
                    sealed,
                ) {
                    None => Err("decryption failed (wrong passphrase or tampered ciphertext)"@),
                    Some(plain) => if valid_utf8(plain) {
                        Ok(decode_utf8(plain))
                    } else {
                        Err("decoded not utf8: "@ + utf8_flaw(plain))
                    },
                }
            },
        }
    }
}

/// Opens a sealed bundle with a passphrase.
pub fn decrypt_bundle(env: &EncryptedEnvelope, passphrase: &str) -> (r: Result<String, String>)
    ensures
        match (r, bundle_opened(env@, passphrase@)) {
            (Ok(s), Ok(want)) => s@ == want,
            (Err(e), Err(want)) => e@ == want,
            _ => false,
        },
{
    if !same(env.algorithm.as_str(), "aes-256-gcm-pbkdf2-sha256") {
        return Err(join("unsupported algorithm: ", env.algorithm.as_str()));
    }
    let salt: Vec<u8> = match base64_decode(env.salt.as_str()) {
        Ok(b) => b,
        Err(e) => {
            return Err(join("salt decode: ", e.as_str()));
        },
    };
    let nonce: Vec<u8> = match base64_decode(env.nonce.as_str()) {
        Ok(b) => b,
        Err(e) => {
            return Err(join("nonce decode: ", e.as_str()));
        },
    };
    let sealed: Vec<u8> = match base64_decode(env.ciphertext.as_str()) {
        Ok(b) => b,
        Err(e) => {
            return Err(join("ciphertext decode: ", e.as_str()));
        },
    };
    if nonce.len() != 12 {
        return Err("nonce must be 12 bytes".to_owned());
    }
    if sealed.len() as u64 > 68719476720 {
        return Err("decryption failed (wrong passphrase or tampered ciphertext)".to_owned());
    }
    let key: Vec<u8> = derive_key(passphrase.as_bytes(), salt.as_slice(), env.iterations);
    let plain: Vec<u8> = match aes_open(key.as_slice(), nonce.as_slice(), sealed.as_slice()) {
        Some(p) => p,
        None => {
            return Err("decryption failed (wrong passphrase or tampered ciphertext)".to_owned());
        },
    };
    match utf8_text(plain) {
        Ok(s) => {
            proof {
                encode_utf8_valid_utf8(s@);
                encode_utf8_decode_utf8(s@);
            }
            Ok(s)
        },
        Err(e) => Err(join("decoded not utf8: ", e.as_str())),
    }
}

/// A sealed bundle, from its parts.
pub open spec fn envelope_from(salt: Seq<u8>, nonce: Seq<u8>, sealed: Seq<u8>) -> EncryptedEnvelopeView {
    EncryptedEnvelopeView {
        version: 1,
        algorithm: "aes-256-gcm-pbkdf2-sha256"@,
        kdf: "pbkdf2-sha256"@,
        iterations: 100000,
        salt: base64_of(salt),
        nonce: base64_of(nonce),
        ciphertext: base64_of(sealed),
    }
}

/// What comes of sealing a text with a passphrase.
pub open spec fn bundle_sealed(signed: Seq<char>, passphrase: Seq<char>, salt: Seq<u8>, nonce: Seq<u8>) -> Result<
    EncryptedEnvelopeView,
    Seq<char>,
> {
    if passphrase.len() == 0 {
        Err("passphrase must not be empty"@)
    } else {
        match aes_sealed(
            pbkdf2_of(encode_utf8(passphrase), salt, 100000),
            nonce,
            encode_utf8(signed),
        ) {
            Some(sealed) => Ok(envelope_from(salt, nonce, sealed)),
            None => Err("aes encrypt: aead::Error"@),
        }
    }
}

/// Whether a text can be sealed or else refused: the cipher gives out within the last bytes of its
/// longest text.
pub open spec fn sealable(signed: Seq<char>) -> bool {
    byte_count(signed) <= 68719476704 || byte_count(signed) > 68719476736
}

/// Seals a text with a passphrase, this salt and this nonce. What is sealed opens again with the
/// same passphrase.
pub fn seal_bundle(signed: &str, passphrase: &str, salt: &[u8], nonce: &[u8]) -> (r: Result<
    EncryptedEnvelope,
    String,
>)
    requires
        nonce@.len() == 12,
        sealable(signed@),
    ensures
        match (r, bundle_sealed(signed@, passphrase@, salt@, nonce@)) {
            (Ok(env), Ok(want)) => env@ == want,
            (Err(e), Err(want)) => e@ == want,
            _ => false,
        },
        r is Ok <==> passphrase@.len() > 0 && byte_count(signed@) <= 68719476704,
        r is Ok ==> bundle_opened(r->Ok_0@, passphrase@) == Ok::<Seq<char>, Seq<char>>(signed@),
{
    if passphrase.is_empty() {
        return Err("passphrase must not be empty".to_owned());
    }
    let key: Vec<u8> = derive_key(passphrase.as_bytes(), salt, 100000);
    let plain: &[u8] = signed.as_bytes();
    let sealed: Vec<u8> = match aes_seal(key.as_slice(), nonce, plain) {
        Some(s) => s,
        None => {
            return Err("aes encrypt: aead::Error".to_owned());
        },
    };
    proof {
        encode_utf8_valid_utf8(signed@);
        encode_utf8_decode_utf8(signed@);
    }
    Ok(
        EncryptedEnvelope {
            version: 1,
            algorithm: "aes-256-gcm-pbkdf2-sha256".to_owned(),
            kdf: "pbkdf2-sha256".to_owned(),
            iterations: 100000,
            salt: base64_encode(salt),
            nonce: base64_encode(nonce),
            ciphertext: base64_encode(sealed.as_slice()),
        },
    )
}

/// Seals a text with a passphrase, a random salt and a random nonce. What is sealed opens again with
/// the same passphrase. Whether random bytes are to be had is up to the system.
pub fn encrypt_bundle(signed: &str, passphrase: &str) -> (r: Result<EncryptedEnvelope, String>)
    requires
        sealable(signed@),
    ensures
        passphrase@.len() == 0 <==> r is Err && r->Err_0@ == "passphrase must not be empty"@,
        passphrase@.len() > 0 && r is Err ==> {
            ||| starts_with_seq(r->Err_0@, "getrandom salt: "@)
            ||| starts_with_seq(r->Err_0@, "getrandom nonce: "@)
            ||| byte_count(signed@) > 68719476736 && r->Err_0@ == "aes encrypt: aead::Error"@
        },
        r is Ok ==> exists|salt: Seq<u8>, nonce: Seq<u8>|
            salt.len() == 16 && nonce.len() == 12 && Ok::<EncryptedEnvelopeView, Seq<char>>(r->Ok_0@)
                == #[trigger] bundle_sealed(signed@, passphrase@, salt, nonce),
        r is Ok ==> bundle_opened(r->Ok_0@, passphrase@) == Ok::<Seq<char>, Seq<char>>(signed@),
{
    if passphrase.is_empty() {
        return Err("passphrase must not be empty".to_owned());
    }
    proof {
        reveal_strlit("passphrase must not be empty");
        reveal_strlit("getrandom salt: ");
        reveal_strlit("getrandom nonce: ");
        reveal_strlit("aes encrypt: aead::Error");
        assert("aes encrypt: aead::Error"@.len() != "passphrase must not be empty"@.len());
    }
    let salt: Vec<u8> = match random_bytes(16) {
        Ok(b) => b,
        Err(e) => {
            proof {
                assert(("getrandom salt: "@ + e@).take(16) =~= "getrandom salt: "@);
                assert(("getrandom salt: "@ + e@)[0] == 'g');
            }
            return Err(join("getrandom salt: ", e.as_str()));
        },
    };
    let nonce: Vec<u8> = match random_bytes(12) {
        Ok(b) => b,
        Err(e) => {
            proof {
                assert(("getrandom nonce: "@ + e@).take(17) =~= "getrandom nonce: "@);
                assert(("getrandom nonce: "@ + e@)[0] == 'g');
            }
            return Err(join("getrandom nonce: ", e.as_str()));
        },
    };
    seal_bundle(signed, passphrase, salt.as_slice(), nonce.as_slice())
}

/// The signed text in some input: the input itself, unless it was read as a sealed bundle, which
/// takes a passphrase to open.
pub open spec fn decoded_input(input: Seq<char>, envelope: Option<EncryptedEnvelopeView>, passphrase: Option<
    Seq<char>,
>) -> Result<Seq<char>, Seq<char>> {
    if starts_with_seq(trim_start_seq(input), "{"@) && envelope is Some && starts_with_seq(
        envelope->0.algorithm,
        "aes-256-gcm"@,
    ) {
        match passphrase {
            Some(p) => bundle_opened(envelope->0, p),
            None => Err("this bundle is passphrase-encrypted; please provide passphrase"@),
        }
    } else {
        Ok(input)
    }
}

/// The signed text in some input. `envelope` is what the input was read as, where it is a sealed
/// bundle.
pub fn decode_bundle_input(input: &str, envelope: Option<&EncryptedEnvelope>, passphrase: Option<&str>) -> (r:
    Result<String, String>)
    ensures
        match (r, decoded_input(
            input@,
            match envelope {
                Some(e) => Some(e@),
                None => None,
            },
            match passphrase {
                Some(p) => Some(p@),
                None => None,
            },
        )) {
            (Ok(s), Ok(want)) => s@ == want,
            (Err(e), Err(want)) => e@ == want,
            _ => false,
        },
{
    let trimmed: &str = trim_start(input);
    if starts_with(trimmed, "{") {
        if let Some(env) = envelope {
            if starts_with(env.algorithm.as_str(), "aes-256-gcm") {
                return match passphrase {
                    Some(p) => decrypt_bundle(env, p),
                    None => Err(
                        "this bundle is passphrase-encrypted; please provide passphrase".to_owned(),
                    ),
                };
            }
        }
    }
    Ok(input.to_owned())
}

/// The secret that bundles are signed with; empty while it has not been loaded.
pub struct SecretBuffer {
    pub bytes: Vec<u8>,
}

impl SecretBuffer {
    /// No secret yet.
    pub fn new() -> (r: Self)
        ensures
            r.bytes@ == Seq::<u8>::empty(),
    {
        SecretBuffer { bytes: Vec::new() }
    }
}

/// Loads the secret where that has not been done: from the keychain, or else from the file. What
/// each of them had to give is handed in.
pub fn ensure_secret_loaded(
    secret: &mut SecretBuffer,
    keychain: Result<Vec<u8>, String>,
    file: Result<Vec<u8>, String>,
) -> (r: Result<(), String>)
    ensures
        old(secret).bytes@.len() > 0 ==> r is Ok && final(secret).bytes@ == old(secret).bytes@,
        old(secret).bytes@.len() == 0 ==> match (keychain, file) {
            (Ok(bytes), _) => r is Ok && final(secret).bytes@ == bytes@,
            (Err(_), Ok(bytes)) => r is Ok && final(secret).bytes@ == bytes@,
            (Err(_), Err(e)) => r is Err && r->Err_0@ == e@ && final(secret).bytes@ == old(
                secret,
            ).bytes@,
        },
{
    if secret.bytes.len() > 0 {
        return Ok(());
    }
    match keychain {
        Ok(bytes) => {
            secret.bytes = bytes;
            Ok(())
        },
        Err(_) => match file {
            Ok(bytes) => {
                secret.bytes = bytes;
                Ok(())
            },
            Err(e) => Err(e),
        },
    }
}

/// A copy of the secret.
pub fn current_secret_bytes(secret: &SecretBuffer) -> (r: Vec<u8>)
    ensures
        r@ == secret.bytes@,
{
    let mut out: Vec<u8> = Vec::new();
    let mut i: usize = 0;
    while i < secret.bytes.len()
        invariant
            i <= secret.bytes@.len(),
            out@ == secret.bytes@.take(i as int),
        decreases secret.bytes@.len() - i,
    {
        out.push(secret.bytes[i]);
        assert(secret.bytes@.take(i + 1) =~= secret.bytes@.take(i as int).push(secret.bytes@[i as int]));
        i += 1;
    }
    assert(secret.bytes@.take(i as int) =~= secret.bytes@);
    out
}

/// Takes `bytes` for the secret from now on.
pub fn rotate_bundle_secret(secret: &mut SecretBuffer, bytes: Vec<u8>)
    ensures
        final(secret).bytes@ == bytes@,
{
    secret.bytes = bytes;
}

/// Forgets the secret, so that it is loaded again.
pub fn reset_secret_buffer_for_test(secret: &mut SecretBuffer)
    ensures
        final(secret).bytes@ == Seq::<u8>::empty(),
{
    secret.bytes = Vec::new();
}

/// 32 random bytes to take for a secret.
pub fn new_secret() -> (r: Result<Vec<u8>, String>)
    ensures
        r is Ok ==> r->Ok_0@.len() == 32,
        r is Err ==> starts_with_seq(r->Err_0@, "getrandom: "@),
{
    match random_bytes(32) {
        Ok(b) => Ok(b),
        Err(e) => {
            proof {
                reveal_strlit("getrandom: ");
                assert(("getrandom: "@ + e@).take(11) =~= "getrandom: "@);
            }
            Err(join("getrandom: ", e.as_str()))
        },
    }
}

/// The secret in what the keychain holds: 32 bytes in Base64.
pub open spec fn keychain_secret_of(text: Seq<char>) -> Result<Seq<u8>, Seq<char>> {
    match base64_read(text) {
        Ok(bytes) => if bytes.len() != 32 {
            Err("keychain secret length "@ + decimal_seq(bytes.len()) + " != 32"@)
        } else {
            Ok(bytes)
        },
        Err(e) => Err("base64 decode secret: "@ + e),
    }
}

/// The secret in what the keychain holds: 32 bytes in Base64.
pub fn keychain_secret(text: &str) -> (r: Result<Vec<u8>, String>)
    ensures
        match (r, keychain_secret_of(text@)) {
            (Ok(b), Ok(want)) => b@ == want,
            (Err(e), Err(want)) => e@ == want,
            _ => false,
        },
{
    match base64_decode(text) {
        Ok(bytes) => if bytes.len() != 32 {
            Err(join3("keychain secret length ", decimal(bytes.len() as u64).as_str(), " != 32"))
        } else {
            Ok(bytes)
        },
        Err(e) => Err(join("base64 decode secret: ", e.as_str())),
    }
}

/// What the keychain is to hold for a secret. It is read as the same secret again.
pub fn keychain_text(secret: &[u8]) -> (r: String)
    ensures
        r@ == base64_of(secret@),
        secret@.len() == 32 ==> keychain_secret_of(r@) == Ok::<Seq<u8>, Seq<char>>(secret@),
{
    base64_encode(secret)
}

/// The secret in a file: its 32 bytes.
pub fn file_secret(bytes: Vec<u8>) -> (r: Result<Vec<u8>, String>)
    ensures
        bytes@.len() == 32 ==> r is Ok && r->Ok_0@ == bytes@,
        bytes@.len() != 32 ==> r is Err && r->Err_0@ == "fallback secret length "@ + decimal_seq(
            bytes@.len(),
        ) + " != 32"@,
{
    if bytes.len() != 32 {
        return Err(
            join3("fallback secret length ", decimal(bytes.len() as u64).as_str(), " != 32"),
        );
    }
    Ok(bytes)
}

/// The whole configuration of alerting. Of the presets, only those of users are in it.
pub struct AlertingBundleDoc {
    pub version: u32,
    pub exported_at: u64,
    pub endpoints: Vec<WebhookEndpoint>,
    pub routes: Vec<RouteRule>,
    pub presets: Vec<TemplatePreset>,
    pub silences: Vec<SilenceRule>,
    pub acks: Vec<AckRule>,
    pub recipients: Vec<RecipientDef>,
}

/// How much of each kind a bundle brought.
#[derive(Debug, Clone, Copy, PartialEq, Eq, Structural)]
pub struct BundleImportSummary {
    pub endpoints: usize,
    pub routes: usize,
    pub presets: usize,
    pub silences: usize,
    pub acks: usize,
    pub recipients: usize,
    pub total: usize,
}

/// Endpoints as users edit them.
pub open spec fn endpoints_of(rows: Seq<AlertingEndpointRowView>) -> Seq<WebhookEndpointView> {
    Seq::new(rows.len(), |i: int| endpoint_of(rows[i]))
}

/// Silences as users edit them.
pub open spec fn silences_of(rows: Seq<SilenceRuleRowView>) -> Seq<SilenceRuleView> {
    Seq::new(rows.len(), |i: int| silence_of(rows[i]))
}

/// What is left of acknowledgements at time `now`.
pub open spec fn acks_of(rows: Seq<AckRuleRowView>, now: u64) -> Seq<AckRuleView> {
    Seq::new(rows.len(), |i: int| ack_of(rows[i], now))
}

fn endpoint_dtos(rows: &Vec<AlertingEndpointRow>) -> (r: Vec<WebhookEndpoint>)
    ensures
        rows_view(r@) == endpoints_of(rows_view(rows@)),
{
    let mut out: Vec<WebhookEndpoint> = Vec::new();
    let mut i: usize = 0;
    while i < rows.len()
        invariant
            i <= rows@.len(),
            out@.len() == i,
            forall|k: int| 0 <= k < i ==> (#[trigger] out@[k])@ == endpoint_of(rows@[k]@),
        decreases rows@.len() - i,
    {
        out.push(endpoint_row_to_dto(&rows[i]));
        i += 1;
    }
    assert(rows_view(out@) =~= endpoints_of(rows_view(rows@)));
    out
}

fn silence_dtos(rows: &Vec<SilenceRuleRow>) -> (r: Vec<SilenceRule>)
    ensures
        rows_view(r@) == silences_of(rows_view(rows@)),
{
    let mut out: Vec<SilenceRule> = Vec::new();
    let mut i: usize = 0;
    while i < rows.len()
        invariant
            i <= rows@.len(),
            out@.len() == i,
            forall|k: int| 0 <= k < i ==> (#[trigger] out@[k])@ == silence_of(rows@[k]@),
        decreases rows@.len() - i,
    {
        out.push(silence_row_to_dto(&rows[i]));
        i += 1;
    }
    assert(rows_view(out@) =~= silences_of(rows_view(rows@)));
    out
}

fn ack_dtos(rows: &Vec<AckRuleRow>, now: u64) -> (r: Vec<AckRule>)
    ensures
        rows_view(r@) == acks_of(rows_view(rows@), now),
{
    let mut out: Vec<AckRule> = Vec::new();
    let mut i: usize = 0;
    while i < rows.len()
        invariant
            i <= rows@.len(),
            out@.len() == i,
            forall|k: int| 0 <= k < i ==> (#[trigger] out@[k])@ == ack_of(rows@[k]@, now),
        decreases rows@.len() - i,
    {
        out.push(ack_row_to_dto(&rows[i], now));
        i += 1;
    }
    assert(rows_view(out@) =~= acks_of(rows_view(rows@), now));
    out
}

/// Whether a bundle is the whole configuration of alerting, at time `now`.
pub open spec fn bundle_handed_out(store: Storage, now: u64, r: AlertingBundleDoc) -> bool {
    &&& r.version == CURRENT_BUNDLE_VERSION
    &&& r.exported_at == now
    &&& rows_view(r.endpoints@) == endpoints_of(by_rank::<AlertingEndpointRow>(store.endpoints@))
    &&& rows_view(r.routes@) == routes_of(by_rank::<RouteRuleRow>(store.routes@))
    &&& rows_view(r.presets@) == kept(all_presets(store), |p: TemplatePresetView| !p.builtin)
    &&& rows_view(r.silences@) == silences_of(by_rank::<SilenceRuleRow>(store.silences@))
    &&& rows_view(r.acks@) == acks_of(by_rank::<AckRuleRow>(store.acks@), now)
    &&& rows_view(r.recipients@) == by_rank::<RecipientDef>(store.recipients@)
}

/// The whole configuration of alerting, at time `now`.
pub fn export_alerting_bundle(store: &Storage, now: u64) -> (r: AlertingBundleDoc)
    ensures
        bundle_handed_out(*store, now, r),
{
    let ghost of_users = |p: TemplatePresetView| !p.builtin;
    let test = |row: &TemplatePreset| -> (b: bool)
        ensures
            b == !row@.builtin,
    { !row.builtin };
    AlertingBundleDoc {
        version: CURRENT_BUNDLE_VERSION,
        exported_at: now,
        endpoints: endpoint_dtos(&list_endpoints(store)),
        routes: export_routes_yaml(store).rules,
        presets: copy_kept(&list_template_presets(store), test, Ghost(of_users)),
        silences: silence_dtos(&list_silences(store)),
        acks: ack_dtos(&list_acks(store), now),
        recipients: list_recipients(store),
    }
}

/// An endpoint of a bundle as it is taken in: under the id of the endpoint with its name, where there
/// is one.
pub open spec fn bundled_endpoint(rows: Seq<AlertingEndpointRowView>, ep: WebhookEndpointView) -> WebhookEndpointView {
    match first_of(rows, |e: AlertingEndpointRowView| e.name == ep.name) {
        Some(known) => WebhookEndpointView { id: known.id, ..ep },
        None => ep,
    }
}

/// Where names are told apart, an endpoint of a bundle that has the name of another one takes its
/// place, and its name does not stand in the way.
pub proof fn known_name_keeps_its_id(rows: Seq<AlertingEndpointRowView>, ep: WebhookEndpointView, k: int)
    requires
        0 <= k < rows.len(),
        rows[k].name == ep.name,
        forall|i: int, j: int|
            0 <= i < j < rows.len() ==> (#[trigger] rows[i]).name != (#[trigger] rows[j]).name,
    ensures
        bundled_endpoint(rows, ep).id == rows[k].id,
        save_endpoint_complaint(rows, bundled_endpoint(rows, ep)) == endpoint_complaint(
            bundled_endpoint(rows, ep),
        ),
{
    lemma_first_index(rows, |e: AlertingEndpointRowView| e.name == ep.name);
    let id = bundled_endpoint(rows, ep).id;
    let other = |e: AlertingEndpointRowView| e.name == ep.name && e.id != id;
    if any_of(rows, other) {
        let p = choose|p: int| 0 <= p < rows.len() && other(#[trigger] rows[p]);
        assert(p == k);
    }
}

fn under_known_id(rows: &Vec<AlertingEndpointRow>, ep: WebhookEndpoint) -> (r: WebhookEndpoint)
    ensures
        r@ == bundled_endpoint(rows_view(rows@), ep@),
{
    let ghost of_that_name = |e: AlertingEndpointRowView| e.name == ep@.name;
    let test = |row: &AlertingEndpointRow| -> (b: bool)
        ensures
            b == (row@.name == ep@.name),
    { same(row.name.as_str(), ep.name.as_str()) };
    let known: Option<usize> = find_first(rows, test, Ghost(of_that_name));
    let mut r: WebhookEndpoint = ep;
    if let Some(i) = known {
        assert(rows_view(rows@)[i as int] == rows@[i as int]@);
        r.id = rows[i].id.clone();
    }
    r
}

/// The endpoints after those of a bundle were taken in, from number `i` on, and what is wrong with the
/// first that cannot be.
pub open spec fn endpoints_in(
    rows: Seq<AlertingEndpointRowView>,
    items: Seq<WebhookEndpointView>,
    nanos: u64,
    counter: u64,
    now: u64,
    i: int,
) -> (Seq<AlertingEndpointRowView>, Option<Seq<char>>)
    decreases items.len() - i,
{
    if i < 0 || i >= items.len() {
        (rows, None)
    } else {
        let ep = bundled_endpoint(rows, items[i]);
        match save_endpoint_complaint(rows, ep) {
            Some(m) => (rows, Some("bundle endpoint: "@ + m)),
            None => endpoints_in(
                with_row::<AlertingEndpointRow>(rows, endpoint_row(rows, ep, endpoint_id(nanos, counted_on(counter, i)), now)),
                items,
                nanos, counter, now,
                i + 1,
            ),
        }
    }
}

#[verifier::spinoff_prover]
#[verifier::rlimit(60)]
fn take_endpoints_in(
    store: &mut Storage,
    items: &Vec<WebhookEndpoint>,
    nanos: u64,
    counter: u64,
    now: u64,
) -> (r: Result<(), String>)
    ensures
        *final(store) == (Storage { endpoints: final(store).endpoints, ..*old(store) }),
        (final(store).endpoints@, complaint(r)) == endpoints_in(
            old(store).endpoints@,
            rows_view(items@),
            nanos, counter, now,
            0,
        ),
{
    let ghost all = rows_view(items@);
    let ghost start = store.endpoints@;
    let mut i: usize = 0;
    let mut n: u64 = counter;
    while i < items.len()
        invariant
            i <= items@.len(),
            all == rows_view(items@),
            start == old(store).endpoints@,
            n == counted_on(counter, i as int),
            *store == (Storage { endpoints: store.endpoints, ..*old(store) }),
            endpoints_in(start, all, nanos, counter, now, 0) == endpoints_in(store.endpoints@, all, nanos, counter, now, i as int),
        decreases items@.len() - i,
    {
        assert(all[i as int] == items@[i as int]@);
        let id: String = gen_endpoint_id(nanos, n);
        let ghost here = store.endpoints@;
        let ep: WebhookEndpoint = under_known_id(store.endpoints.rows(), items[i].clone());
        assert(ep@ == bundled_endpoint(here, all[i as int]));
        match save_endpoint(store, ep, id.as_str(), now) {
            Ok(_) => {},
            Err(e) => {
                return Err(join("bundle endpoint: ", e.as_str()));
            },
        }
        n = n.wrapping_add(1);
        i += 1;
    }
    Ok(())
}

/// The routes after those of a bundle were taken in, from number `i` on, and what is wrong with the
/// first that cannot be.
pub open spec fn routes_in(
    rows: Seq<RouteRuleRowView>,
    items: Seq<RouteRuleView>,
    nanos: u64,
    counter: u64,
    now: u64,
    i: int,
) -> (Seq<RouteRuleRowView>, Option<Seq<char>>)
    decreases items.len() - i,
{
    if i < 0 || i >= items.len() {
        (rows, None)
    } else {
        match route_complaint(items[i]) {
            Some(m) => (rows, Some("bundle route: "@ + m)),
            None => routes_in(
                with_row::<RouteRuleRow>(rows, route_row(
                    items[i],
                    id_or(items[i].id, route_id(nanos, counted_on(counter, i))),
                    route_made_at(rows, id_or(items[i].id, route_id(nanos, counted_on(counter, i))), now),
                )),
                items,
                nanos, counter, now,
                i + 1,
            ),
        }
    }
}

#[verifier::spinoff_prover]
#[verifier::rlimit(60)]
fn take_routes_in(
    store: &mut Storage,
    items: &Vec<RouteRule>,
    nanos: u64,
    counter: u64,
    now: u64,
) -> (r: Result<(), String>)
    ensures
        *final(store) == (Storage { routes: final(store).routes, ..*old(store) }),
        (final(store).routes@, complaint(r)) == routes_in(
            old(store).routes@,
            rows_view(items@),
            nanos, counter, now,
            0,
        ),
{
    let ghost all = rows_view(items@);
    let ghost start = store.routes@;
    let mut i: usize = 0;
    let mut n: u64 = counter;
    while i < items.len()
        invariant
            i <= items@.len(),
            all == rows_view(items@),
            start == old(store).routes@,
            n == counted_on(counter, i as int),
            *store == (Storage { routes: store.routes, ..*old(store) }),
            routes_in(start, all, nanos, counter, now, 0) == routes_in(store.routes@, all, nanos, counter, now, i as int),
        decreases items@.len() - i,
    {
        assert(all[i as int] == items@[i as int]@);
        let id: String = gen_route_id(nanos, n);
        match save_route(store, items[i].clone(), id.as_str(), now) {
            Ok(_) => {},
            Err(e) => {
                return Err(join("bundle route: ", e.as_str()));
            },
        }
        n = n.wrapping_add(1);
        i += 1;
    }
    Ok(())
}

/// A preset of a bundle as it is stored: never as one that comes along, and with `fresh` for an id and
/// a kind made of its id where it has none.
pub open spec fn bundled_preset(p: TemplatePresetView, fresh: Seq<char>) -> TemplatePresetView {
    let id = if p.id.len() == 0 {
        fresh
    } else {
        p.id
    };
    TemplatePresetView {
        id,
        kind: if p.kind.len() == 0 {
            "user:"@ + id
        } else {
            p.kind
        },
        builtin: false,
        ..p
    }
}

/// The presets after those of a bundle were taken in, from number `i` on, and what is wrong with the
/// first that cannot be.
pub open spec fn presets_in(
    rows: Seq<TemplatePresetView>,
    items: Seq<TemplatePresetView>,
    fresh: Seq<Seq<char>>,
    now: u64,
    i: int,
) -> (Seq<TemplatePresetView>, Option<Seq<char>>)
    decreases items.len() - i,
{
    if i < 0 || i >= items.len() {
        (rows, None)
    } else {
        match preset_complaint(bundled_preset(items[i], fresh[i])) {
            Some(m) => (rows, Some("bundle preset: "@ + m)),
            None => presets_in(
                with_row::<TemplatePreset>(rows, preset_row(rows, bundled_preset(items[i], fresh[i]), fresh[i], now)),
                items,
                fresh, now,
                i + 1,
            ),
        }
    }
}

#[verifier::spinoff_prover]
#[verifier::rlimit(60)]
fn take_presets_in(
    store: &mut Storage,
    items: &Vec<TemplatePreset>,
    fresh: &Vec<String>,
    now: u64,
) -> (r: Result<(), String>)
    requires
        fresh@.len() == items@.len(),
    ensures
        *final(store) == (Storage { presets: final(store).presets, ..*old(store) }),
        (final(store).presets@, complaint(r)) == presets_in(
            old(store).presets@,
            rows_view(items@),
            texts_view(fresh@), now,
            0,
        ),
{
    let ghost all = rows_view(items@);
    let ghost start = store.presets@;
    let mut i: usize = 0;
    while i < items.len()
        invariant
            i <= items@.len(),
            all == rows_view(items@),
            start == old(store).presets@,
            fresh@.len() == items@.len(),
            *store == (Storage { presets: store.presets, ..*old(store) }),
            presets_in(start, all, texts_view(fresh@), now, 0) == presets_in(store.presets@, all, texts_view(fresh@), now, i as int),
        decreases items@.len() - i,
    {
        assert(all[i as int] == items@[i as int]@);
        assert(texts_view(fresh@)[i as int] == fresh@[i as int]@);
        let mut p: TemplatePreset = items[i].clone();
        p.builtin = false;
        if p.id.as_str().is_empty() {
            p.id = fresh[i].clone();
        }
        if p.kind.as_str().is_empty() {
            p.kind = join("user:", p.id.as_str());
        }
        match store_user_preset(store, &p, fresh[i].as_str(), now) {
            Ok(_) => {},
            Err(e) => {
                return Err(join("bundle preset: ", e.as_str()));
            },
        }
        i += 1;
    }
    Ok(())
}

/// The silences after those of a bundle were taken in, from number `i` on, and what is wrong with the
/// first that cannot be.
pub open spec fn silences_in(
    rows: Seq<SilenceRuleRowView>,
    items: Seq<SilenceRuleView>,
    nanos: u64,
    counter: u64,
    now: u64,
    i: int,
) -> (Seq<SilenceRuleRowView>, Option<Seq<char>>)
    decreases items.len() - i,
{
    if i < 0 || i >= items.len() {
        (rows, None)
    } else {
        match silence_complaint(items[i]) {
            Some(m) => (rows, Some("bundle silence: "@ + m)),
            None => silences_in(
                with_row::<SilenceRuleRow>(rows, silence_row(rows, items[i], time_id("sil-"@, nanos, counted_on(counter, i)), now)),
                items,
                nanos, counter, now,
                i + 1,
            ),
        }
    }
}

#[verifier::spinoff_prover]
#[verifier::rlimit(60)]
fn take_silences_in(
    store: &mut Storage,
    items: &Vec<SilenceRule>,
    nanos: u64,
    counter: u64,
    now: u64,
) -> (r: Result<(), String>)
    ensures
        *final(store) == (Storage { silences: final(store).silences, ..*old(store) }),
        (final(store).silences@, complaint(r)) == silences_in(
            old(store).silences@,
            rows_view(items@),
            nanos, counter, now,
            0,
        ),
{
    let ghost all = rows_view(items@);
    let ghost start = store.silences@;
    let mut i: usize = 0;
    let mut n: u64 = counter;
    while i < items.len()
        invariant
            i <= items@.len(),
            all == rows_view(items@),
            start == old(store).silences@,
            n == counted_on(counter, i as int),
            *store == (Storage { silences: store.silences, ..*old(store) }),
            silences_in(start, all, nanos, counter, now, 0) == silences_in(store.silences@, all, nanos, counter, now, i as int),
        decreases items@.len() - i,
    {
        assert(all[i as int] == items@[i as int]@);
        let id: String = gen_silence_id(nanos, n);
        match save_silence(store, items[i].clone(), id.as_str(), now) {
            Ok(_) => {},
            Err(e) => {
                return Err(join("bundle silence: ", e.as_str()));
            },
        }
        n = n.wrapping_add(1);
        i += 1;
    }
    Ok(())
}

/// The acknowledgements after those of a bundle were taken in, from number `i` on, and what is wrong with the
/// first that cannot be.
pub open spec fn acks_in(
    rows: Seq<AckRuleRowView>,
    items: Seq<AckRuleView>,
    nanos: u64,
    counter: u64,
    now: u64,
    i: int,
) -> (Seq<AckRuleRowView>, Option<Seq<char>>)
    decreases items.len() - i,
{
    if i < 0 || i >= items.len() {
        (rows, None)
    } else {
        match save_ack_complaint(items[i]) {
            Some(m) => (rows, Some("bundle ack: "@ + m)),
            None => acks_in(
                with_row::<AckRuleRow>(rows, ack_row(
                    items[i].kind_pattern,
                    items[i].window_secs,
                    time_id("ack-"@, nanos, counted_on(counter, i)),
                    now,
                )),
                items,
                nanos, counter, now,
                i + 1,
            ),
        }
    }
}

#[verifier::spinoff_prover]
#[verifier::rlimit(60)]
fn take_acks_in(
    store: &mut Storage,
    items: &Vec<AckRule>,
    nanos: u64,
    counter: u64,
    now: u64,
) -> (r: Result<(), String>)
    ensures
        *final(store) == (Storage { acks: final(store).acks, ..*old(store) }),
        (final(store).acks@, complaint(r)) == acks_in(
            old(store).acks@,
            rows_view(items@),
            nanos, counter, now,
            0,
        ),
{
    let ghost all = rows_view(items@);
    let ghost start = store.acks@;
    let mut i: usize = 0;
    let mut n: u64 = counter;
    while i < items.len()
        invariant
            i <= items@.len(),
            all == rows_view(items@),
            start == old(store).acks@,
            n == counted_on(counter, i as int),
            *store == (Storage { acks: store.acks, ..*old(store) }),
            acks_in(start, all, nanos, counter, now, 0) == acks_in(store.acks@, all, nanos, counter, now, i as int),
        decreases items@.len() - i,
    {
        assert(all[i as int] == items@[i as int]@);
        let id: String = gen_ack_id(nanos, n);
        match save_ack(store, items[i].clone(), id.as_str(), now) {
            Ok(_) => {},
            Err(e) => {
                return Err(join("bundle ack: ", e.as_str()));
            },
        }
        n = n.wrapping_add(1);
        i += 1;
    }
    Ok(())
}

/// The recipients after those of a bundle were taken in, from number `i` on, and what is wrong with the
/// first that cannot be.
pub open spec fn recipients_in(
    rows: Seq<RecipientDefView>,
    items: Seq<RecipientDefView>,
    fresh: Seq<Seq<char>>,
    now: u64,
    i: int,
) -> (Seq<RecipientDefView>, Option<Seq<char>>)
    decreases items.len() - i,
{
    if i < 0 || i >= items.len() {
        (rows, None)
    } else {
        match recipient_complaint(rows, items[i], fresh[i]) {
            Some(m) => (rows, Some(if recipient_kind_complaint(items[i].kind) is Some { m } else { "bundle recipient: "@ + m })),
            None => recipients_in(
                with_row::<RecipientDef>(rows, recipient_row(items[i], fresh[i], now)),
                items,
                fresh, now,
                i + 1,
            ),
        }
    }
}

#[verifier::spinoff_prover]
#[verifier::rlimit(60)]
fn take_recipients_in(
    store: &mut Storage,
    items: &Vec<RecipientDef>,
    fresh: &Vec<String>,
    now: u64,
) -> (r: Result<(), String>)
    requires
        fresh@.len() == items@.len(),
    ensures
        *final(store) == (Storage { recipients: final(store).recipients, ..*old(store) }),
        (final(store).recipients@, complaint(r)) == recipients_in(
            old(store).recipients@,
            rows_view(items@),
            texts_view(fresh@), now,
            0,
        ),
{
    let ghost all = rows_view(items@);
    let ghost start = store.recipients@;
    let mut i: usize = 0;
    while i < items.len()
        invariant
            i <= items@.len(),
            all == rows_view(items@),
            start == old(store).recipients@,
            fresh@.len() == items@.len(),
            *store == (Storage { recipients: store.recipients, ..*old(store) }),
            recipients_in(start, all, texts_view(fresh@), now, 0) == recipients_in(store.recipients@, all, texts_view(fresh@), now, i as int),
        decreases items@.len() - i,
    {
        assert(all[i as int] == items@[i as int]@);
        assert(texts_view(fresh@)[i as int] == fresh@[i as int]@);
        match validate_recipient_kind(items[i].kind.as_str()) {
            Ok(_) => {},
            Err(e) => {
                return Err(e);
            },
        }
        match store_recipient(store, items[i].clone(), fresh[i].as_str(), now) {
            Ok(_) => {},
            Err(e) => {
                return Err(join("bundle recipient: ", e.as_str()));
            },
        }
        i += 1;
    }
    Ok(())
}

/// The tables that a bundle fills.
pub struct BundleRows {
    pub endpoints: Seq<AlertingEndpointRowView>,
    pub routes: Seq<RouteRuleRowView>,
    pub presets: Seq<TemplatePresetView>,
    pub silences: Seq<SilenceRuleRowView>,
    pub acks: Seq<AckRuleRowView>,
    pub recipients: Seq<RecipientDefView>,
}

/// The tables of a store that a bundle fills.
pub open spec fn bundle_rows(store: Storage) -> BundleRows {
    BundleRows {
        endpoints: store.endpoints@,
        routes: store.routes@,
        presets: store.presets@,
        silences: store.silences@,
        acks: store.acks@,
        recipients: store.recipients@,
    }
}

/// What is wrong with the version of a bundle.
pub open spec fn bundle_version_complaint(version: u32) -> Option<Seq<char>> {
    if version > CURRENT_BUNDLE_VERSION {
        Some(
            "bundle version "@ + decimal_seq(version as nat) + " is newer than current "@ + decimal_seq(
                CURRENT_BUNDLE_VERSION as nat,
            ) + "; refusing to import future schema"@,
        )
    } else {
        None
    }
}

/// The tables after a bundle was taken in, and what stopped it: section by section, up to the first
/// part that cannot be taken in; what came before that stays.
pub open spec fn bundle_taken_in(
    b: BundleRows,
    doc: AlertingBundleDoc,
    nanos: u64,
    counter: u64,
    preset_ids: Seq<Seq<char>>,
    recipient_ids: Seq<Seq<char>>,
    now: u64,
) -> (BundleRows, Option<Seq<char>>) {
    if bundle_version_complaint(doc.version) is Some {
        (b, bundle_version_complaint(doc.version))
    } else {
        let (endpoints, e0) = endpoints_in(
            b.endpoints,
            rows_view(doc.endpoints@),
            nanos,
            counter,
            now,
            0,
        );
        let b = BundleRows { endpoints, ..b };
        if e0 is Some {
            (b, e0)
        } else {
            let (routes, e1) = routes_in(b.routes, rows_view(doc.routes@), nanos, counter, now, 0);
            let b = BundleRows { routes, ..b };
            if e1 is Some {
                (b, e1)
            } else {
                let (presets, e2) = presets_in(
                    b.presets,
                    rows_view(doc.presets@),
                    preset_ids,
                    now,
                    0,
                );
                let b = BundleRows { presets, ..b };
                if e2 is Some {
                    (b, e2)
                } else {
                    rest_taken_in(b, doc, nanos, counter, recipient_ids, now)
                }
            }
        }
    }
}

/// The tables after the sections of a bundle behind its presets were taken in.
pub open spec fn rest_taken_in(
    b: BundleRows,
    doc: AlertingBundleDoc,
    nanos: u64,
    counter: u64,
    recipient_ids: Seq<Seq<char>>,
    now: u64,
) -> (BundleRows, Option<Seq<char>>) {
    let (silences, e3) = silences_in(b.silences, rows_view(doc.silences@), nanos, counter, now, 0);
    let b = BundleRows { silences, ..b };
    if e3 is Some {
        (b, e3)
    } else {
        let (acks, e4) = acks_in(b.acks, rows_view(doc.acks@), nanos, counter, now, 0);
        let b = BundleRows { acks, ..b };
        if e4 is Some {
            (b, e4)
        } else {
            let (recipients, e5) = recipients_in(
                b.recipients,
                rows_view(doc.recipients@),
                recipient_ids,
                now,
                0,
            );
            (BundleRows { recipients, ..b }, e5)
        }
    }
}

/// How much a bundle holds.
pub open spec fn bundle_size(doc: AlertingBundleDoc) -> nat {
    doc.endpoints@.len() + doc.routes@.len() + doc.presets@.len() + doc.silences@.len() + doc.acks@.len()
        + doc.recipients@.len()
}

/// Takes in a bundle, section by section, up to the first part that cannot be taken in. Parts without
/// an id get one: endpoints, routes, silences and acknowledgements one made of `nanos` and their
/// number, counted from `counter`, presets and recipients one of the lists.
pub fn take_in_bundle(
    store: &mut Storage,
    doc: &AlertingBundleDoc,
    nanos: u64,
    counter: u64,
    preset_ids: &Vec<String>,
    recipient_ids: &Vec<String>,
    now: u64,
) -> (r: Result<BundleImportSummary, String>)
    requires
        bundle_size(*doc) <= usize::MAX,
        preset_ids@.len() == doc.presets@.len(),
        recipient_ids@.len() == doc.recipients@.len(),
    ensures
        (bundle_rows(*final(store)), complaint(r)) == bundle_taken_in(
            bundle_rows(*old(store)),
            *doc,
            nanos,
            counter,
            texts_view(preset_ids@),
            texts_view(recipient_ids@),
            now,
        ),
        *final(store) == (Storage {
            endpoints: final(store).endpoints,
            routes: final(store).routes,
            presets: final(store).presets,
            silences: final(store).silences,
            acks: final(store).acks,
            recipients: final(store).recipients,
            ..*old(store)
        }),
        r is Ok ==> r->Ok_0 == (BundleImportSummary {
            endpoints: doc.endpoints@.len() as usize,
            routes: doc.routes@.len() as usize,
            presets: doc.presets@.len() as usize,
            silences: doc.silences@.len() as usize,
            acks: doc.acks@.len() as usize,
            recipients: doc.recipients@.len() as usize,
            total: bundle_size(*doc) as usize,
        }),
{
    if doc.version > CURRENT_BUNDLE_VERSION {
        let head: String = join3(
            "bundle version ",
            decimal(doc.version as u64).as_str(),
            " is newer than current ",
        );
        return Err(
            join3(
                head.as_str(),
                decimal(CURRENT_BUNDLE_VERSION as u64).as_str(),
                "; refusing to import future schema",
            ),
        );
    }
    match take_endpoints_in(store, &doc.endpoints, nanos, counter, now) {
        Ok(_) => {},
        Err(e) => {
            return Err(e);
        },
    }
    match take_routes_in(store, &doc.routes, nanos, counter, now) {
        Ok(_) => {},
        Err(e) => {
            return Err(e);
        },
    }
    match take_presets_in(store, &doc.presets, preset_ids, now) {
        Ok(_) => {},
        Err(e) => {
            return Err(e);
        },
    }
    match take_silences_in(store, &doc.silences, nanos, counter, now) {
        Ok(_) => {},
        Err(e) => {
            return Err(e);
        },
    }
    match take_acks_in(store, &doc.acks, nanos, counter, now) {
        Ok(_) => {},
        Err(e) => {
            return Err(e);
        },
    }
    match take_recipients_in(store, &doc.recipients, recipient_ids, now) {
        Ok(_) => {},
        Err(e) => {
            return Err(e);
        },
    }
    let total: usize = doc.endpoints.len() + doc.routes.len() + doc.presets.len() + doc.silences.len()
        + doc.acks.len() + doc.recipients.len();
    Ok(
        BundleImportSummary {
            endpoints: doc.endpoints.len(),
            routes: doc.routes.len(),
            presets: doc.presets.len(),
            silences: doc.silences.len(),
            acks: doc.acks.len(),
            recipients: doc.recipients.len(),
            total,
        },
    )
}

/// Takes in a bundle, section by section, up to the first part that cannot be taken in. Presets and
/// recipients without an id get a random one.
pub fn import_alerting_bundle(
    store: &mut Storage,
    doc: &AlertingBundleDoc,
    nanos: u64,
    counter: u64,
    now: u64,
) -> (r: Result<BundleImportSummary, String>)
    requires
        bundle_size(*doc) <= usize::MAX,
    ensures
        exists|preset_ids: Seq<Seq<char>>, recipient_ids: Seq<Seq<char>>|
            all_uuids(preset_ids) && all_uuids(recipient_ids) && preset_ids.len() == doc.presets@.len()
                && recipient_ids.len() == doc.recipients@.len() && (
                bundle_rows(*final(store)),
                complaint(r),
            ) == #[trigger] bundle_taken_in(
                bundle_rows(*old(store)),
                *doc,
                nanos,
                counter,
                preset_ids,
                recipient_ids,
                now,
            ),
        *final(store) == (Storage {
            endpoints: final(store).endpoints,
            routes: final(store).routes,
            presets: final(store).presets,
            silences: final(store).silences,
            acks: final(store).acks,
            recipients: final(store).recipients,
            ..*old(store)
        }),
        r is Ok ==> r->Ok_0 == (BundleImportSummary {
            endpoints: doc.endpoints@.len() as usize,
            routes: doc.routes@.len() as usize,
            presets: doc.presets@.len() as usize,
            silences: doc.silences@.len() as usize,
            acks: doc.acks@.len() as usize,
            recipients: doc.recipients@.len() as usize,
            total: bundle_size(*doc) as usize,
        }),
{
    let preset_ids: Vec<String> = gen_event_ids(doc.presets.len());
    let recipient_ids: Vec<String> = gen_event_ids(doc.recipients.len());
    take_in_bundle(store, doc, nanos, counter, &preset_ids, &recipient_ids, now)
}

} // verus!
