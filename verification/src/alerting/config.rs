//! The rules on webhook settings and endpoints, and the severity that an endpoint asks for.

use vstd::prelude::*;

use super::store::{any_of, first_index, first_of, lemma_first_index};
use super::types::{
    overrides_view, pairs_view, Severity, WebhookConfig, WebhookConfigView, WebhookEndpoint,
    WebhookEndpointView,
};
use super::util::{kind_fits, kind_matches};
use crate::json::texts_view;
use crate::text::{
    byte_count, byte_len, complaint, contains, contains_seq, decimal, decimal_seq, has_char, is_blank,
    is_blank_seq, join, join3, lower_ascii_seq, same, starts_with, starts_with_seq, to_lower_ascii, trim, trim_seq,
};

verus! {

/// What is wrong with a webhook address.
pub open spec fn url_complaint(url: Seq<char>) -> Option<Seq<char>> {
    if url.len() == 0 {
        Some("url is required when webhook is enabled"@)
    } else if byte_count(url) > 2048 {
        Some("url too long (max 2048 chars)"@)
    } else if !starts_with_seq(lower_ascii_seq(url), "https://"@) && !starts_with_seq(
        lower_ascii_seq(url),
        "http://"@,
    ) {
        Some("url must start with http:// or https://"@)
    } else if url.contains('\n') || url.contains('\r') || url.contains('\0') {
        Some("url contains invalid control characters"@)
    } else if contains_seq(url, ".."@) {
        Some("url must not contain .."@)
    } else {
        None
    }
}

/// Checks a webhook address.
pub fn validate_url(url: &str) -> (r: Result<(), String>)
    ensures
        complaint(r) == url_complaint(url@),
{
    if url.is_empty() {
        return Err("url is required when webhook is enabled".to_owned());
    }
    if byte_len(url) > 2048 {
        return Err("url too long (max 2048 chars)".to_owned());
    }
    let lower: String = to_lower_ascii(url);
    if !starts_with(lower.as_str(), "https://") && !starts_with(lower.as_str(), "http://") {
        return Err("url must start with http:// or https://".to_owned());
    }
    if has_char(url, '\n') || has_char(url, '\r') || has_char(url, '\0') {
        return Err("url contains invalid control characters".to_owned());
    }
    if contains(url, "..") {
        return Err("url must not contain ..".to_owned());
    }
    Ok(())
}

/// Whether a header name is empty or would break the line.
pub open spec fn header_name_bad(name: Seq<char>) -> bool {
    name.len() == 0 || name.contains('\n') || name.contains('\r')
}

/// Whether any of `headers` has a bad name.
fn any_bad_header(headers: &Vec<(String, String)>) -> (r: bool)
    ensures
        r == any_of(pairs_view(headers@), |h: (Seq<char>, Seq<char>)| header_name_bad(h.0)),
{
    let ghost bad = |h: (Seq<char>, Seq<char>)| header_name_bad(h.0);
    let ghost all = pairs_view(headers@);
    let mut i: usize = 0;
    while i < headers.len()
        invariant
            i <= headers@.len(),
            all == pairs_view(headers@),
            bad == (|h: (Seq<char>, Seq<char>)| header_name_bad(h.0)),
            forall|k: int| 0 <= k < i ==> !bad(#[trigger] all[k]),
        decreases headers@.len() - i,
    {
        let name: &str = headers[i].0.as_str();
        assert(all[i as int].0 == name@);
        if name.is_empty() || has_char(name, '\n') || has_char(name, '\r') {
            assert(bad(all[i as int]));
            return true;
        }
        assert(!bad(all[i as int]));
        i += 1;
    }
    false
}

/// What is wrong with webhook settings. Where the webhook is off, nothing is.
pub open spec fn config_complaint(cfg: WebhookConfigView) -> Option<Seq<char>> {
    if !cfg.enabled {
        None
    } else if url_complaint(cfg.url) is Some {
        url_complaint(cfg.url)
    } else if cfg.min_interval_secs > 3600 {
        Some("min_interval_secs out of range (0..=3600): "@ + decimal_seq(cfg.min_interval_secs as nat))
    } else if any_of(cfg.custom_headers, |h: (Seq<char>, Seq<char>)| header_name_bad(h.0)) {
        Some("custom header name invalid"@)
    } else {
        None
    }
}

/// Checks webhook settings.
pub fn validate(cfg: &WebhookConfig) -> (r: Result<(), String>)
    ensures
        complaint(r) == config_complaint(cfg@),
{
    if !cfg.enabled {
        return Ok(());
    }
    validate_url(cfg.url.as_str())?;
    if cfg.min_interval_secs > 3600 {
        let n: String = decimal(cfg.min_interval_secs as u64);
        return Err(join("min_interval_secs out of range (0..=3600): ", n.as_str()));
    }
    if any_bad_header(&cfg.custom_headers) {
        return Err("custom header name invalid".to_owned());
    }
    Ok(())
}

/// The sources that alerts come from.
pub open spec fn known_source(s: Seq<char>) -> bool {
    ||| s == "plugin.metrics.exceeded"@
    ||| s == "capability.sla.violated"@
    ||| s == "plugin.kill_switch.enabled"@
    ||| s == "plugin.lifecycle.crashed"@
}

/// Whether `s` is a source that alerts come from.
pub fn is_known_source(s: &str) -> (r: bool)
    ensures
        r == known_source(s@),
{
    same(s, "plugin.metrics.exceeded") || same(s, "capability.sla.violated") || same(
        s,
        "plugin.kill_switch.enabled",
    ) || same(s, "plugin.lifecycle.crashed")
}

/// What is wrong with the overrides from number `i` on.
pub open spec fn overrides_complaint(overrides: Seq<(Seq<char>, Severity)>, i: int) -> Option<Seq<char>>
    decreases overrides.len() - i,
{
    if i < 0 || i >= overrides.len() {
        None
    } else if is_blank_seq(overrides[i].0) {
        Some("severity_overrides["@ + decimal_seq(i as nat) + "]: source is required"@)
    } else if byte_count(overrides[i].0) > 256 {
        Some("severity_overrides["@ + decimal_seq(i as nat) + "]: source too long (max 256 chars)"@)
    } else {
        overrides_complaint(overrides, i + 1)
    }
}

/// What is wrong with an endpoint.
pub open spec fn endpoint_complaint(ep: WebhookEndpointView) -> Option<Seq<char>> {
    if is_blank_seq(ep.name) {
        Some("endpoint name is required"@)
    } else if byte_count(trim_seq(ep.name)) > 128 {
        Some("endpoint name too long (max 128 chars)"@)
    } else if url_complaint(ep.url) is Some {
        url_complaint(ep.url)
    } else if any_of(ep.headers, |h: (Seq<char>, Seq<char>)| header_name_bad(h.0)) {
        Some("endpoint header name invalid"@)
    } else if byte_count(ep.secret) > 1024 {
        Some("endpoint secret too long (max 1024 chars)"@)
    } else if any_of(ep.source_filter, |s: Seq<char>| !known_source(s)) {
        Some("unknown source filter: "@ + first_of(ep.source_filter, |s: Seq<char>| !known_source(s))->0)
    } else {
        overrides_complaint(ep.severity_overrides, 0)
    }
}

/// The first source of a filter that alerts do not come from.
fn first_unknown_source(filter: &Vec<String>) -> (r: Option<usize>)
    ensures
        match r {
            Some(i) => first_index(texts_view(filter@), |s: Seq<char>| !known_source(s)) == Some(i as int)
                && i < filter@.len(),
            None => first_index(texts_view(filter@), |s: Seq<char>| !known_source(s)) is None,
        },
{
    let ghost unknown = |s: Seq<char>| !known_source(s);
    let ghost all = texts_view(filter@);
    proof {
        lemma_first_index(all, unknown);
    }
    let mut i: usize = 0;
    while i < filter.len()
        invariant
            i <= filter@.len(),
            all == texts_view(filter@),
            unknown == (|s: Seq<char>| !known_source(s)),
            forall|k: int| 0 <= k < i ==> !unknown(#[trigger] all[k]),
        decreases filter@.len() - i,
    {
        assert(all[i as int] == filter@[i as int]@);
        if !is_known_source(filter[i].as_str()) {
            proof {
                lemma_first_index(all, unknown);
                assert(unknown(all[i as int]));
            }
            return Some(i);
        }
        i += 1;
    }
    None
}

/// Checks an endpoint.
pub fn validate_endpoint(ep: &WebhookEndpoint) -> (r: Result<(), String>)
    ensures
        complaint(r) == endpoint_complaint(ep@),
{
    let name: &str = trim(ep.name.as_str());
    if name.is_empty() {
        return Err("endpoint name is required".to_owned());
    }
    if byte_len(name) > 128 {
        return Err("endpoint name too long (max 128 chars)".to_owned());
    }
    validate_url(ep.url.as_str())?;
    if any_bad_header(&ep.headers) {
        return Err("endpoint header name invalid".to_owned());
    }
    if byte_len(ep.secret.as_str()) > 1024 {
        return Err("endpoint secret too long (max 1024 chars)".to_owned());
    }
    proof {
        lemma_first_index(ep@.source_filter, |s: Seq<char>| !known_source(s));
    }
    if let Some(i) = first_unknown_source(&ep.source_filter) {
        return Err(join("unknown source filter: ", ep.source_filter[i].as_str()));
    }
    let ghost all = ep@.severity_overrides;
    let mut i: usize = 0;
    while i < ep.severity_overrides.len()
        invariant
            i <= ep.severity_overrides@.len(),
            all == overrides_view(ep.severity_overrides@),
            endpoint_complaint(ep@) == overrides_complaint(all, i as int),
        decreases ep.severity_overrides@.len() - i,
    {
        let source: &str = ep.severity_overrides[i].0.as_str();
        assert(all[i as int].0 == source@);
        if is_blank(source) {
            let n: String = decimal(i as u64);
            return Err(join3("severity_overrides[", n.as_str(), "]: source is required"));
        }
        if byte_len(source) > 256 {
            let n: String = decimal(i as u64);
            return Err(join3("severity_overrides[", n.as_str(), "]: source too long (max 256 chars)"));
        }
        i += 1;
    }
    Ok(())
}

/// The severity that overrides give to a source: that of the first pattern that fits.
pub open spec fn override_for(source: Seq<char>, overrides: Seq<(Seq<char>, Severity)>) -> Option<Severity> {
    match first_of(overrides, |o: (Seq<char>, Severity)| kind_fits(o.0, source)) {
        Some(o) => Some(o.1),
        None => None,
    }
}

/// The position of the first override whose pattern fits `source`.
pub fn override_index(source: &str, overrides: &[(String, Severity)]) -> (r: Option<usize>)
    ensures
        match r {
            Some(i) => first_index(
                overrides_view(overrides@),
                |o: (Seq<char>, Severity)| kind_fits(o.0, source@),
            ) == Some(i as int) && i < overrides@.len(),
            None => first_index(
                overrides_view(overrides@),
                |o: (Seq<char>, Severity)| kind_fits(o.0, source@),
            ) is None,
        },
{
    let ghost fits = |o: (Seq<char>, Severity)| kind_fits(o.0, source@);
    let ghost all = overrides_view(overrides@);
    proof {
        lemma_first_index(all, fits);
    }
    let mut i: usize = 0;
    while i < overrides.len()
        invariant
            i <= overrides@.len(),
            all == overrides_view(overrides@),
            fits == (|o: (Seq<char>, Severity)| kind_fits(o.0, source@)),
            forall|k: int| 0 <= k < i ==> !fits(#[trigger] all[k]),
        decreases overrides@.len() - i,
    {
        assert(all[i as int].0 == overrides@[i as int].0@);
        if kind_matches(overrides[i].0.as_str(), source) {
            proof {
                lemma_first_index(all, fits);
                assert(fits(all[i as int]));
            }
            return Some(i);
        }
        i += 1;
    }
    None
}

/// The severity that overrides give to a source; the first pattern that fits wins.
pub fn endpoint_severity_override_for(source: &str, overrides: &[(String, Severity)]) -> (r: Option<
    Severity,
>)
    ensures
        r == override_for(source@, overrides_view(overrides@)),
{
    match override_index(source, overrides) {
        Some(i) => Some(overrides[i].1),
        None => None,
    }
}

/// Lets the overrides of an endpoint replace the severity of an envelope.
pub fn apply_endpoint_severity_override(
    envelope_severity: &mut Severity,
    source: &str,
    overrides: &[(String, Severity)],
)
    ensures
        *final(envelope_severity) == (match override_for(source@, overrides_view(overrides@)) {
            Some(s) => s,
            None => *old(envelope_severity),
        }),
{
    if let Some(s) = endpoint_severity_override_for(source, overrides) {
        *envelope_severity = s;
    }
}

/// The first pattern that fits decides: patterns behind it change nothing.
pub proof fn first_override_wins(
    source: Seq<char>,
    before: Seq<(Seq<char>, Severity)>,
    hit: (Seq<char>, Severity),
    behind: Seq<(Seq<char>, Severity)>,
)
    requires
        forall|i: int| 0 <= i < before.len() ==> !kind_fits(#[trigger] before[i].0, source),
        kind_fits(hit.0, source),
    ensures
        override_for(source, before + seq![hit] + behind) == Some(hit.1),
{
    let all = before + seq![hit] + behind;
    let fits = |o: (Seq<char>, Severity)| kind_fits(o.0, source);
    lemma_first_index(all, fits);
    assert(all[before.len() as int] == hit);
    assert(fits(all[before.len() as int]));
    let at = first_index(all, fits)->0;
    if at < before.len() {
        assert(all[at] == before[at]);
        assert(!kind_fits(before[at].0, source));
    }
}

} // verus!
