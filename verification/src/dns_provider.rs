//! Publishing DNS-01 records through a DNS provider. The one provider is
//! Hurricane Electric's dynamic DNS: an update posts the record name, the key
//! and the TXT value, and the service answers in plain text. Here stand the
//! choice of provider by name, the check of its key, the form of each update
//! and the judgement of the reply; the HTTP exchange belongs to the caller.
use crate::text::{chars_of, starts_with, starts_with_chars, to_lowercase, trim, trim_str, unicode_lower};
use vstd::prelude::*;

verus! {

/// What a provider needs to publish, or remove, one challenge record.
pub struct DnsProviderContext {
    pub record_name: String,
    pub txt_value: String,
    pub identifier: String,
}

/// Why no provider could be made.
#[derive(Debug, PartialEq, Eq)]
pub enum DnsProviderError {
    /// No provider has this name.
    UnknownProvider(String),
    /// The Hurricane Electric provider was given no usable key.
    MissingKey,
}

impl DnsProviderError {
    /// The error as the operator reads it.
    pub fn message(&self) -> (m: String)
        ensures
            m@ == (match *self {
                DnsProviderError::UnknownProvider(name) => "Unknown DNS provider: "@ + name@,
                DnsProviderError::MissingKey => "DNS provider 'he' requires a non-empty 'ddnsKey' in providerConfig"@,
            }),
    {
        match self {
            DnsProviderError::UnknownProvider(name) => {
                let mut m = String::new();
                m.append("Unknown DNS provider: ");
                m.append(name.as_str());
                m
            },
            DnsProviderError::MissingKey => "DNS provider 'he' requires a non-empty 'ddnsKey' in providerConfig".to_owned(),
        }
    }
}

/// The Hurricane Electric provider, holding its dynamic-DNS key (trimmed, never empty).
pub struct HeProvider {
    ddns_key: String,
}

impl View for HeProvider {
    type V = Seq<char>;

    closed spec fn view(&self) -> Seq<char> {
        self.ddns_key@
    }
}

/// One update to post: the form fields `hostname`, `password` and `txt`.
pub struct HeUpdate {
    pub hostname: String,
    pub password: String,
    pub txt: String,
}

impl HeProvider {
    /// Makes the provider from the `ddnsKey` of its configuration: the key,
    /// trimmed, where it holds more than white space.
    pub fn new(ddns_key: Option<&str>) -> (r: Result<HeProvider, DnsProviderError>)
        ensures
            match ddns_key {
                Some(k) if trim(k@).len() > 0 => r matches Ok(p) && p@ == trim(k@),
                _ => r == Err::<HeProvider, DnsProviderError>(DnsProviderError::MissingKey),
            },
    {
        match ddns_key {
            Some(k) => {
                let t = trim_str(k);
                if t.as_str().unicode_len() > 0 {
                    Ok(HeProvider { ddns_key: t })
                } else {
                    Err(DnsProviderError::MissingKey)
                }
            },
            None => Err(DnsProviderError::MissingKey),
        }
    }

    /// The update that publishes the challenge record.
    pub fn create_request(&self, ctx: &DnsProviderContext) -> (u: HeUpdate)
        ensures
            u.hostname@ == ctx.record_name@,
            u.password@ == self@,
            u.txt@ == ctx.txt_value@,
    {
        HeUpdate { hostname: ctx.record_name.clone(), password: self.ddns_key.clone(), txt: ctx.txt_value.clone() }
    }

    /// The update that clears the challenge record (its TXT value becomes `empty`).
    pub fn cleanup_request(&self, ctx: &DnsProviderContext) -> (u: HeUpdate)
        ensures
            u.hostname@ == ctx.record_name@,
            u.password@ == self@,
            u.txt@ == "empty"@,
    {
        HeUpdate { hostname: ctx.record_name.clone(), password: self.ddns_key.clone(), txt: "empty".to_owned() }
    }
}

/// Makes the provider named in the configuration (only `he` exists).
pub fn create_provider(name: &str, ddns_key: Option<&str>) -> (r: Result<HeProvider, DnsProviderError>)
    ensures
        name@ == "he"@ ==> match ddns_key {
            Some(k) if trim(k@).len() > 0 => r matches Ok(p) && p@ == trim(k@),
            _ => r == Err::<HeProvider, DnsProviderError>(DnsProviderError::MissingKey),
        },
        name@ != "he"@ ==> (r matches Err(DnsProviderError::UnknownProvider(n)) && n@ == name@),
{
    let he = "he".to_owned();
    let given = name.to_owned();
    if given == he {
        HeProvider::new(ddns_key)
    } else {
        Err(DnsProviderError::UnknownProvider(given))
    }
}

/// Whether an HTTP status is a success (200 to 299).
pub open spec fn http_success(status: u16) -> bool {
    200 <= status <= 299
}

/// Whether the service accepted the update: its reply, trimmed and in lower
/// case, starts with `good` or `nochg`.
pub open spec fn update_accepted(body: Seq<char>) -> bool {
    let n = unicode_lower(trim(body));
    starts_with(n, "good"@) || starts_with(n, "nochg"@)
}

/// Judges the service's reply to an update of `record_name`: success needs a
/// 2xx status and an accepting reply; otherwise the error names the status
/// (as `status_line`, such as "500 Internal Server Error") or the record,
/// followed by the reply.
pub fn update_result(status: u16, status_line: &str, record_name: &str, body: &str) -> (r: Result<(), String>)
    ensures
        !http_success(status) ==> (r matches Err(m) && m@ == "dns.he.net update failed with HTTP "@ + status_line@ + ": "@ + body@),
        http_success(status) && update_accepted(body@) ==> r is Ok,
        http_success(status) && !update_accepted(body@) ==> (r matches Err(m) && m@ == "dns.he.net update rejected for "@
            + record_name@ + ": "@ + body@),
{
    if !(200 <= status && status <= 299) {
        let mut m = String::new();
        m.append("dns.he.net update failed with HTTP ");
        m.append(status_line);
        m.append(": ");
        m.append(body);
        return Err(m);
    }
    let t = trim_str(body);
    let n = to_lowercase(t.as_str());
    let nc = chars_of(n.as_str());
    let good = chars_of("good");
    let nochg = chars_of("nochg");
    if starts_with_chars(nc.as_slice(), good.as_slice()) || starts_with_chars(nc.as_slice(), nochg.as_slice()) {
        Ok(())
    } else {
        let mut m = String::new();
        m.append("dns.he.net update rejected for ");
        m.append(record_name);
        m.append(": ");
        m.append(body);
        Err(m)
    }
}

/// A CA's (or an assignment's) settings for one validation method; the
/// provider's configuration is kept as JSON text.
pub struct ValidationMethodConfig {
    pub provider: Option<String>,
    pub provider_config: Option<String>,
    pub propagation_delay_seconds: Option<u64>,
}

/// The dns-01 settings an issuance uses.
pub struct DnsValidationConfig {
    pub provider: Option<String>,
    pub provider_config: Option<String>,
    pub propagation_delay_seconds: Option<u64>,
}

/// The first present of an override and a default.
pub open spec fn override_or<T>(o: Option<T>, d: Option<T>) -> Option<T> {
    match o {
        Some(v) => Some(v),
        None => d,
    }
}

fn pick_text(o: &Option<ValidationMethodConfig>, d: &Option<ValidationMethodConfig>, provider: bool) -> (r: Option<String>)
    ensures
        r == (if provider {
            override_or(
                match *o {
                    Some(c) => c.provider,
                    None => None,
                },
                match *d {
                    Some(c) => c.provider,
                    None => None,
                },
            )
        } else {
            override_or(
                match *o {
                    Some(c) => c.provider_config,
                    None => None,
                },
                match *d {
                    Some(c) => c.provider_config,
                    None => None,
                },
            )
        }),
{
    let own = match o {
        Some(c) => if provider { crate::types::copy_opt_string(&c.provider) } else { crate::types::copy_opt_string(&c.provider_config) },
        None => None,
    };
    match own {
        Some(v) => Some(v),
        None => match d {
            Some(c) => if provider { crate::types::copy_opt_string(&c.provider) } else { crate::types::copy_opt_string(&c.provider_config) },
            None => None,
        },
    }
}

/// The dns-01 settings of an issuance: none where neither the CA's defaults
/// nor the assignment's override name any; otherwise each setting from the
/// override, else from the CA.
pub fn resolve_dns_validation_config(
    ca_default: &Option<ValidationMethodConfig>,
    assignment_override: &Option<ValidationMethodConfig>,
) -> (r: Option<DnsValidationConfig>)
    ensures
        (ca_default is None && assignment_override is None) ==> r is None,
        !(ca_default is None && assignment_override is None) ==> (r matches Some(c) && c.provider == override_or(
            match *assignment_override {
                Some(o) => o.provider,
                None => None,
            },
            match *ca_default {
                Some(d) => d.provider,
                None => None,
            },
        ) && c.provider_config == override_or(
            match *assignment_override {
                Some(o) => o.provider_config,
                None => None,
            },
            match *ca_default {
                Some(d) => d.provider_config,
                None => None,
            },
        ) && c.propagation_delay_seconds == override_or(
            match *assignment_override {
                Some(o) => o.propagation_delay_seconds,
                None => None,
            },
            match *ca_default {
                Some(d) => d.propagation_delay_seconds,
                None => None,
            },
        )),
{
    if ca_default.is_none() && assignment_override.is_none() {
        return None;
    }
    let provider = pick_text(assignment_override, ca_default, true);
    let provider_config = pick_text(assignment_override, ca_default, false);
    let own_delay = match assignment_override {
        Some(o) => o.propagation_delay_seconds,
        None => None,
    };
    let propagation_delay_seconds = match own_delay {
        Some(v) => Some(v),
        None => match ca_default {
            Some(d) => d.propagation_delay_seconds,
            None => None,
        },
    };
    Some(DnsValidationConfig { provider, provider_config, propagation_delay_seconds })
}

/// The DNS provider a dns-01 challenge of `domain` uses, which the settings
/// must name.
pub fn dns01_provider_name(cert_name: &str, domain: &str, settings: &Option<DnsValidationConfig>) -> (r: Result<String, String>)
    ensures
        match *settings {
            Some(c) if c.provider is Some => r == Ok::<String, String>(c.provider->Some_0),
            _ => r matches Err(m) && m@ == "dns-01 for '"@ + cert_name@ + "/"@ + domain@
                + "': missing validation.dns-01.provider in CA config"@,
        },
{
    match settings {
        Some(c) => match &c.provider {
            Some(p) => return Ok(crate::types::copy_string(p)),
            None => {},
        },
        None => {},
    }
    let mut m = String::new();
    m.append("dns-01 for '");
    m.append(cert_name);
    m.append("/");
    m.append(domain);
    m.append("': missing validation.dns-01.provider in CA config");
    Err(m)
}

} // verus!
