//! How bundles are signed, sealed and opened, and what they hold, said of the operations and in no terms
//! of how they come to their results.

use vstd::prelude::*;
use vstd::utf8::encode_utf8;

use super::bundle::{
    acks_in, bundle_rows, bundle_size, bundled_endpoint, bundled_preset, decode_bundle_input,
    decrypt_bundle, endpoints_in, ensure_secret_loaded, export_alerting_bundle, file_secret,
    keychain_secret, keychain_text, presets_in, recipients_in, routes_in, seal_bundle, sign_bundle,
    signature_readable, signed_bundle_verifies, silences_in, take_in_bundle,
    tampered_bundle_is_refused, under_signature, verified_body, verify_bundle, AlertingBundleDoc,
    BundleImportSummary, EncryptedEnvelope, SecretBuffer,
};
use super::endpoints::{endpoint_id, endpoint_row};
use super::ids::{counted_on, time_id};
use super::laws::is_hex_of;
use super::presets::preset_row;
use super::recipients::recipient_row;
use super::routes::{id_or, route_id, route_made_at, route_row};
use super::silences::{ack_row, silence_row};
use super::rule_laws::lemma_kept_members;
use super::storage::{
    RecipientDef, RecipientDefView, Storage, TemplatePreset, TemplatePresetView,
};
use super::store::{
    by_rank, lemma_position_of, listing_is_sorted_and_complete, rows_view, with_row, Row,
};
use super::types::{
    AckRuleRow, AckRuleRowView, AckRuleView, AlertingEndpointRow, AlertingEndpointRowView,
    RouteRuleRow, RouteRuleRowView, RouteRuleView, SilenceRuleRow, SilenceRuleRowView,
    SilenceRuleView, WebhookEndpointView,
};
use crate::crypt::{hex_digit, hmac_sha256_of};
use crate::text::{byte_count, is_space, trim_end_seq, trim_start_seq};

verus! {

/// Whether a text is one that can be signed and comes back unchanged: it ends in one line end, with
/// something else than white space before that.
pub open spec fn ends_in_one_line_end(body: Seq<char>) -> bool {
    &&& body.len() > 0
    &&& body.last() == '\n'
    &&& body.len() > 1 ==> !is_space(body[body.len() - 2])
}

proof fn lemma_one_line_end(body: Seq<char>)
    requires
        ends_in_one_line_end(body),
    ensures
        trim_end_seq(body) == body.drop_last(),
        body == trim_end_seq(body) + "\n"@,
{
    reveal_strlit("\n");
    let front = body.drop_last();
    assert(trim_end_seq(body) == trim_end_seq(front));
    if front.len() > 0 {
        assert(front.last() == body[body.len() - 2]);
    }
    assert(body =~= front + "\n"@);
}

/// The line that signs a text: the HMAC-SHA256 of the text under the secret, in hexadecimal digits.
pub open spec fn is_signature_line(line: Seq<char>, body: Seq<char>, secret: Seq<u8>) -> bool {
    let mac = hmac_sha256_of(secret, encode_utf8(body));
    &&& line.len() == 14 + 2 * mac.len()
    &&& line.take(12) == "signature: \""@
    &&& line.skip(12 + 2 * mac.len() as int) == "\"\n"@
    &&& forall|i: int|
        0 <= i < mac.len() ==> is_hex_of(line[12 + 2 * i], line[13 + 2 * i], #[trigger] mac[i])
}

/// A signed bundle is the text and, in its last line, the signature of the text under the secret.
pub proof fn bundles_are_signed_in_their_last_line(body: &str, secret: &[u8], line: Seq<char>, r: String)
    requires
        call_ensures(sign_bundle, (body, secret), r),
        ends_in_one_line_end(body@),
        r@ == body@ + line,
    ensures
        is_signature_line(line, body@, secret@),
{
    reveal_strlit("\n");
    reveal_strlit("signature: \"");
    reveal_strlit("\"\n");
    lemma_one_line_end(body@);
    let mac = hmac_sha256_of(secret@, encode_utf8(body@));
    let want = "signature: \""@ + crate::crypt::hex_of(mac) + "\"\n"@;
    assert(r@ =~= body@ + want);
    assert(line =~= r@.skip(body@.len() as int));
    assert(line =~= want);
    assert(line.take(12) =~= "signature: \""@);
    assert(line.skip(12 + 2 * mac.len() as int) =~= "\"\n"@);
    assert forall|i: int| 0 <= i < mac.len() implies is_hex_of(line[12 + 2 * i], line[13 + 2 * i], #[trigger] mac[i]) by {
        let b = mac[i] as int;
        assert((2 * i) / 2 == i && (2 * i) % 2 == 0 && (2 * i + 1) / 2 == i && (2 * i + 1) % 2 == 1);
        assert(line[12 + 2 * i] == hex_digit(b / 16));
        assert(line[13 + 2 * i] == hex_digit(b % 16));
    }
}

/// What was signed is accepted under the same secret, and its text comes back.
pub proof fn signed_bundles_are_accepted(
    body: &str,
    secret: &[u8],
    text: String,
    signed: &str,
    r: Result<(), String>,
    back: Result<String, String>,
)
    requires
        call_ensures(sign_bundle, (body, secret), text),
        ends_in_one_line_end(body@),
        signed@ == text@,
        call_ensures(verify_bundle, (signed, secret), r),
        call_ensures(verified_body, (signed, secret), back),
    ensures
        signature_readable(signed@),
        r is Ok,
        back is Ok,
        back->Ok_0@ == body@,
{
    lemma_one_line_end(body@);
    signed_bundle_verifies(body@, secret@);
}

/// Under a line that signs a text, another text is accepted, or under another secret, only where it has
/// the same code.
pub proof fn changed_bundles_are_refused(
    body: &str,
    secret: &[u8],
    text: String,
    line: Seq<char>,
    changed: Seq<char>,
    signed: &str,
    other: &[u8],
    r: Result<(), String>,
)
    requires
        call_ensures(sign_bundle, (body, secret), text),
        ends_in_one_line_end(body@),
        text@ == body@ + line,
        changed.len() > 0 ==> changed.last() == '\n',
        signed@ == changed + line,
        call_ensures(verify_bundle, (signed, other), r),
    ensures
        signature_readable(signed@),
        r is Ok == (hmac_sha256_of(other@, encode_utf8(changed)) == hmac_sha256_of(
            secret@,
            encode_utf8(body@),
        )),
{
    lemma_one_line_end(body@);
    tampered_bundle_is_refused(body@, secret@, changed, other@);
    let mac = hmac_sha256_of(secret@, encode_utf8(body@));
    let tail = "signature: \""@ + crate::crypt::hex_of(mac) + "\"\n"@;
    assert(text@ =~= body@ + tail) by {
        assert(text@ == under_signature(body@, mac));
    }
    assert(line =~= text@.skip(body@.len() as int));
    assert(line =~= tail);
    assert(signed@ =~= under_signature(changed, mac));
}

/// What was sealed with a passphrase opens with the same passphrase to the same text; nothing is sealed
/// without one. The cipher is AES-256 in Galois counter mode, under a key derived in a hundred thousand
/// rounds.
pub proof fn sealed_bundles_open_again(
    text: &str,
    passphrase: &str,
    salt: &[u8],
    nonce: &[u8],
    r: Result<EncryptedEnvelope, String>,
    envelope: &EncryptedEnvelope,
    back: Result<String, String>,
)
    requires
        nonce@.len() == 12,
        byte_count(text@) <= 68719476704,
        call_ensures(seal_bundle, (text, passphrase, salt, nonce), r),
        r is Ok ==> *envelope == r->Ok_0,
        call_ensures(decrypt_bundle, (envelope, passphrase), back),
    ensures
        r is Ok == (passphrase@.len() > 0),
        r is Ok ==> back is Ok && back->Ok_0@ == text@,
        r is Ok ==> envelope@.algorithm == "aes-256-gcm-pbkdf2-sha256"@ && envelope@.kdf
            == "pbkdf2-sha256"@ && envelope@.iterations == 100000 && envelope@.version == 1,
{
}

/// A sealed bundle is opened with the passphrase, and refused where there is none; what is not sealed is
/// taken as it is.
pub proof fn sealed_input_asks_for_the_passphrase(
    input: &str,
    envelope: &EncryptedEnvelope,
    passphrase: &str,
    opened: Result<String, String>,
    with: Result<String, String>,
    without: Result<String, String>,
    plain: Result<String, String>,
)
    requires
        call_ensures(decrypt_bundle, (envelope, passphrase), opened),
        call_ensures(decode_bundle_input, (input, Some(envelope), Some(passphrase)), with),
        call_ensures(decode_bundle_input, (input, Some(envelope), None::<&str>), without),
        call_ensures(decode_bundle_input, (input, None::<&EncryptedEnvelope>, Some(passphrase)), plain),
        envelope@.algorithm == "aes-256-gcm-pbkdf2-sha256"@,
    ensures
        input@.len() > 0 && input@[0] == '{' ==> {
            &&& with is Ok == opened is Ok
            &&& with is Ok ==> with->Ok_0@ == opened->Ok_0@
            &&& without is Err
        },
        input@.len() > 0 && input@[0] != '{' && !is_space(input@[0]) ==> with is Ok && with->Ok_0@ == input@
            && without is Ok && without->Ok_0@ == input@,
        plain is Ok && plain->Ok_0@ == input@,
{
    reveal_strlit("{");
    reveal_strlit("aes-256-gcm");
    reveal_strlit("aes-256-gcm-pbkdf2-sha256");
    assert(envelope@.algorithm.subrange(0, 11) =~= "aes-256-gcm"@);
    if input@.len() > 0 && !is_space(input@[0]) {
        assert(trim_start_seq(input@) == input@);
        assert(input@.subrange(0, 1)[0] == input@[0]);
        if input@[0] == '{' {
            assert(input@.subrange(0, 1) =~= "{"@);
        }
    }
    if input@.len() > 0 && input@[0] == '{' {
        assert(!is_space('{'));
    }
}

/// A secret that is there is kept; else it comes from the keychain, and from the file only where the
/// keychain fails.
pub proof fn secrets_are_loaded_once(
    secret: &mut SecretBuffer,
    keychain: Result<Vec<u8>, String>,
    file: Result<Vec<u8>, String>,
    r: Result<(), String>,
)
    requires
        call_ensures(ensure_secret_loaded, (secret, keychain, file), r),
    ensures
        old(secret).bytes@.len() > 0 ==> r is Ok && final(secret).bytes@ == old(secret).bytes@,
        old(secret).bytes@.len() == 0 && keychain is Ok ==> r is Ok && final(secret).bytes@ == keychain->Ok_0@,
        old(secret).bytes@.len() == 0 && keychain is Err && file is Ok ==> r is Ok && final(secret).bytes@
            == file->Ok_0@,
        old(secret).bytes@.len() == 0 && keychain is Err && file is Err ==> r is Err
            && final(secret).bytes@.len() == 0,
{
}

/// A secret of 32 bytes comes back from the keychain and from the file; one of another length from neither.
pub proof fn secrets_have_thirty_two_bytes(
    secret: &[u8],
    text: String,
    kept: &str,
    r: Result<Vec<u8>, String>,
    bytes: Vec<u8>,
    from_file: Result<Vec<u8>, String>,
    any: &str,
    found: Result<Vec<u8>, String>,
)
    requires
        call_ensures(keychain_text, (secret,), text),
        kept@ == text@,
        call_ensures(keychain_secret, (kept,), r),
        call_ensures(file_secret, (bytes,), from_file),
        call_ensures(keychain_secret, (any,), found),
    ensures
        secret@.len() == 32 ==> r is Ok && r->Ok_0@ == secret@,
        bytes@.len() == 32 ==> from_file is Ok && from_file->Ok_0@ == bytes@,
        bytes@.len() != 32 ==> from_file is Err,
        found is Ok ==> found->Ok_0@.len() == 32,
{
}

/// A bundle holds every endpoint, route, silence, acknowledgement and recipient that is stored, and every
/// preset that did not come along.
pub proof fn bundles_hold_all_that_is_stored(store: &Storage, now: u64, r: AlertingBundleDoc, i: int)
    requires
        call_ensures(export_alerting_bundle, (store, now), r),
    ensures
        r.version == 1,
        r.exported_at == now,
        r.endpoints@.len() == store.endpoints@.len(),
        r.routes@.len() == store.routes@.len(),
        r.silences@.len() == store.silences@.len(),
        r.acks@.len() == store.acks@.len(),
        rows_view(r.recipients@).to_multiset() == store.recipients@.to_multiset(),
        0 <= i < store.endpoints@.len() ==> exists|k: int|
            0 <= k < r.endpoints@.len() && {
                let a = (#[trigger] r.endpoints@[k])@;
                let b = store.endpoints@[i];
                a.id == b.id && a.name == b.name && a.url == b.url && a.secret == b.secret && a.enabled
                    == b.enabled && a.template == b.template && a.schema_version == b.schema_version
            },
        0 <= i < store.routes@.len() ==> exists|k: int|
            0 <= k < r.routes@.len() && {
                let a = (#[trigger] r.routes@[k])@;
                let b = store.routes@[i];
                a.id == b.id && a.name == b.name && a.priority == b.priority && a.enabled == b.enabled
                    && a.kind_pattern == b.kind_pattern && a.target_endpoint_ids == b.target_endpoint_ids
                    && a.recipients == b.recipients
            },
        0 <= i < store.presets@.len() && !store.presets@[i].builtin ==> rows_view(r.presets@).contains(
            store.presets@[i],
        ),
        forall|k: int| 0 <= k < r.presets@.len() ==> !(#[trigger] r.presets@[k])@.builtin,
{
    let endpoints = by_rank::<AlertingEndpointRow>(store.endpoints@);
    let routes = by_rank::<RouteRuleRow>(store.routes@);
    listing_is_sorted_and_complete::<AlertingEndpointRow>(store.endpoints@);
    listing_is_sorted_and_complete::<RouteRuleRow>(store.routes@);
    listing_is_sorted_and_complete::<super::types::SilenceRuleRow>(store.silences@);
    listing_is_sorted_and_complete::<super::types::AckRuleRow>(store.acks@);
    listing_is_sorted_and_complete::<super::storage::RecipientDef>(store.recipients@);
    assert(rows_view(r.endpoints@).len() == r.endpoints@.len());
    assert(rows_view(r.routes@).len() == r.routes@.len());
    assert(rows_view(r.silences@).len() == r.silences@.len());
    assert(rows_view(r.acks@).len() == r.acks@.len());
    if 0 <= i < store.endpoints@.len() {
        assert(store.endpoints@.contains(store.endpoints@[i]));
        super::rule_laws::lemma_member::<AlertingEndpointRow>(store.endpoints@, store.endpoints@[i]);
        assert(endpoints.contains(store.endpoints@[i]));
        let k = choose|k: int| 0 <= k < endpoints.len() && endpoints[k] == store.endpoints@[i];
        assert(rows_view(r.endpoints@)[k] == r.endpoints@[k]@);
    }
    if 0 <= i < store.routes@.len() {
        assert(store.routes@.contains(store.routes@[i]));
        super::rule_laws::lemma_member::<RouteRuleRow>(store.routes@, store.routes@[i]);
        assert(routes.contains(store.routes@[i]));
        let k = choose|k: int| 0 <= k < routes.len() && routes[k] == store.routes@[i];
        assert(rows_view(r.routes@)[k] == r.routes@[k]@);
    }
    let own = |p: TemplatePresetView| !p.builtin;
    let listed = super::presets::all_presets(*store);
    lemma_kept_members(listed, own);
    if 0 <= i < store.presets@.len() && !store.presets@[i].builtin {
        let users = by_rank::<TemplatePreset>(store.presets@);
        assert(store.presets@.contains(store.presets@[i]));
        super::rule_laws::lemma_member::<TemplatePreset>(store.presets@, store.presets@[i]);
        let k = choose|k: int| 0 <= k < users.len() && users[k] == store.presets@[i];
        assert(listed[super::presets::builtins().len() + k] == users[k]);
        assert(listed.contains(users[k]));
    }
    assert forall|k: int| 0 <= k < r.presets@.len() implies !(#[trigger] r.presets@[k])@.builtin by {
        assert(rows_view(r.presets@)[k] == r.presets@[k]@);
        assert(rows_view(r.presets@).contains(r.presets@[k]@));
        assert(own(r.presets@[k]@));
    }
}

proof fn lemma_put_len<R: Row>(rows: Seq<R::V>, row: R::V)
    ensures
        with_row::<R>(rows, row).len() >= rows.len(),
{
    lemma_position_of::<R>(rows, R::key(row));
}

proof fn lemma_endpoints_stay(rows: Seq<AlertingEndpointRowView>, items: Seq<WebhookEndpointView>, nanos: u64, counter: u64, now: u64, i: int)
    ensures
        endpoints_in(rows, items, nanos, counter, now, i).0.len() >= rows.len(),
    decreases items.len() - i,
{
    if 0 <= i < items.len() {
        let ep = bundled_endpoint(rows, items[i]);
        let row = endpoint_row(rows, ep, endpoint_id(nanos, counted_on(counter, i)), now);
        lemma_put_len::<AlertingEndpointRow>(rows, row);
        lemma_endpoints_stay(with_row::<AlertingEndpointRow>(rows, row), items, nanos, counter, now, i + 1);
    }
}

proof fn lemma_routes_stay(rows: Seq<RouteRuleRowView>, items: Seq<RouteRuleView>, nanos: u64, counter: u64, now: u64, i: int)
    ensures
        routes_in(rows, items, nanos, counter, now, i).0.len() >= rows.len(),
    decreases items.len() - i,
{
    if 0 <= i < items.len() {
        let id = id_or(items[i].id, route_id(nanos, counted_on(counter, i)));
        let row = route_row(items[i], id, route_made_at(rows, id, now));
        lemma_put_len::<RouteRuleRow>(rows, row);
        lemma_routes_stay(with_row::<RouteRuleRow>(rows, row), items, nanos, counter, now, i + 1);
    }
}

proof fn lemma_presets_stay(rows: Seq<TemplatePresetView>, items: Seq<TemplatePresetView>, fresh: Seq<Seq<char>>, now: u64, i: int)
    ensures
        presets_in(rows, items, fresh, now, i).0.len() >= rows.len(),
    decreases items.len() - i,
{
    if 0 <= i < items.len() {
        let row = preset_row(rows, bundled_preset(items[i], fresh[i]), fresh[i], now);
        lemma_put_len::<TemplatePreset>(rows, row);
        lemma_presets_stay(with_row::<TemplatePreset>(rows, row), items, fresh, now, i + 1);
    }
}

proof fn lemma_silences_stay(rows: Seq<SilenceRuleRowView>, items: Seq<SilenceRuleView>, nanos: u64, counter: u64, now: u64, i: int)
    ensures
        silences_in(rows, items, nanos, counter, now, i).0.len() >= rows.len(),
    decreases items.len() - i,
{
    if 0 <= i < items.len() {
        let row = silence_row(rows, items[i], time_id("sil-"@, nanos, counted_on(counter, i)), now);
        lemma_put_len::<SilenceRuleRow>(rows, row);
        lemma_silences_stay(with_row::<SilenceRuleRow>(rows, row), items, nanos, counter, now, i + 1);
    }
}

proof fn lemma_acks_stay(rows: Seq<AckRuleRowView>, items: Seq<AckRuleView>, nanos: u64, counter: u64, now: u64, i: int)
    ensures
        acks_in(rows, items, nanos, counter, now, i).0.len() >= rows.len(),
    decreases items.len() - i,
{
    if 0 <= i < items.len() {
        let row = ack_row(
            items[i].kind_pattern,
            items[i].window_secs,
            time_id("ack-"@, nanos, counted_on(counter, i)),
            now,
        );
        lemma_put_len::<AckRuleRow>(rows, row);
        lemma_acks_stay(with_row::<AckRuleRow>(rows, row), items, nanos, counter, now, i + 1);
    }
}

proof fn lemma_recipients_stay(rows: Seq<RecipientDefView>, items: Seq<RecipientDefView>, fresh: Seq<Seq<char>>, now: u64, i: int)
    ensures
        recipients_in(rows, items, fresh, now, i).0.len() >= rows.len(),
    decreases items.len() - i,
{
    if 0 <= i < items.len() {
        let row = recipient_row(items[i], fresh[i], now);
        lemma_put_len::<RecipientDef>(rows, row);
        lemma_recipients_stay(with_row::<RecipientDef>(rows, row), items, fresh, now, i + 1);
    }
}

/// A bundle of a newer version is refused and changes nothing. One that is taken in adds to what is stored
/// and takes nothing away, and says how much there was of each.
pub proof fn bundles_take_nothing_away(
    store: &mut Storage,
    doc: &AlertingBundleDoc,
    nanos: u64,
    counter: u64,
    preset_ids: &Vec<String>,
    recipient_ids: &Vec<String>,
    now: u64,
    r: Result<BundleImportSummary, String>,
)
    requires
        call_ensures(
            take_in_bundle,
            (store, doc, nanos, counter, preset_ids, recipient_ids, now),
            r,
        ),
        bundle_size(*doc) <= usize::MAX,
    ensures
        doc.version > 1 ==> r is Err && bundle_rows(*final(store)) == bundle_rows(*old(store)),
        final(store).endpoints@.len() >= old(store).endpoints@.len(),
        final(store).routes@.len() >= old(store).routes@.len(),
        final(store).presets@.len() >= old(store).presets@.len(),
        final(store).silences@.len() >= old(store).silences@.len(),
        final(store).acks@.len() >= old(store).acks@.len(),
        final(store).recipients@.len() >= old(store).recipients@.len(),
        r is Ok ==> r->Ok_0.endpoints == doc.endpoints@.len() && r->Ok_0.routes == doc.routes@.len()
            && r->Ok_0.presets == doc.presets@.len() && r->Ok_0.silences == doc.silences@.len() && r->Ok_0.acks
            == doc.acks@.len() && r->Ok_0.recipients == doc.recipients@.len(),
{
    let b = bundle_rows(*old(store));
    lemma_endpoints_stay(b.endpoints, rows_view(doc.endpoints@), nanos, counter, now, 0);
    lemma_routes_stay(b.routes, rows_view(doc.routes@), nanos, counter, now, 0);
    lemma_presets_stay(b.presets, rows_view(doc.presets@), crate::json::texts_view(preset_ids@), now, 0);
    lemma_silences_stay(b.silences, rows_view(doc.silences@), nanos, counter, now, 0);
    lemma_acks_stay(b.acks, rows_view(doc.acks@), nanos, counter, now, 0);
    lemma_recipients_stay(
        b.recipients,
        rows_view(doc.recipients@),
        crate::json::texts_view(recipient_ids@),
        now,
        0,
    );
    let after = bundle_rows(*final(store));
    assert(after.endpoints == final(store).endpoints@ && after.routes == final(store).routes@
        && after.presets == final(store).presets@ && after.silences == final(store).silences@ && after.acks
        == final(store).acks@ && after.recipients == final(store).recipients@);
}

} // verus!
