//! What the configuration files decide once read: Vigil's CA, issuance
//! policy, RBAC identities and ACME challenge settings with their defaults,
//! and Shepherd's TLS, signing-key and log-level settings with their
//! fallbacks. Reading the files and the environment, and resolving paths
//! against the base directory, are the caller's.
use crate::fleet::LogLevel;
use crate::policy::IssuancePolicyConfig;
use crate::text::{string_from_chars, trim, trim_str};
use crate::types::{copy_string, Role};
use vstd::prelude::*;

verus! {

/// Decimal digit `d` (below ten).
pub open spec fn dec_digit(d: nat) -> char {
    (48 + d) as char
}

/// Decimal text of `n`, without leading zeros.
pub open spec fn spec_decimal(n: nat) -> Seq<char>
    decreases n,
{
    if n < 10 {
        seq![dec_digit(n)]
    } else {
        spec_decimal(n / 10).push(dec_digit(n % 10))
    }
}

pub fn decimal(n: u64) -> (res: String)
    ensures
        res@ == spec_decimal(n as nat),
    decreases n,
{
    let d = n % 10;
    let c: char = ((48 + d) as u8) as char;
    assert(c == dec_digit(d as nat));
    let one: Vec<char> = vec![c];
    assert(one@ =~= seq![c]);
    if n < 10 {
        string_from_chars(one.as_slice())
    } else {
        let mut out = decimal(n / 10);
        out.append(string_from_chars(one.as_slice()).as_str());
        out
    }
}

/// Where Vigil listens: the configured port, else 7020; the configured
/// address, else `127.0.0.1`.
pub fn vigil_listen(port: Option<u16>, bind: Option<String>) -> (r: (u16, String))
    ensures
        r.0 == (match port {
            Some(p) => p,
            None => 7020u16,
        }),
        r.1@ == (match bind {
            Some(b) => b@,
            None => "127.0.0.1"@,
        }),
{
    let p = match port {
        Some(p) => p,
        None => 7020,
    };
    let b = match bind {
        Some(b) => b,
        None => "127.0.0.1".to_owned(),
    };
    (p, b)
}

/// The TLS files Vigil serves with, before they are resolved against the
/// base directory.
pub struct TlsConfig {
    pub key_path: String,
    pub cert_path: String,
    pub client_ca_path: String,
}

/// Vigil's TLS files: each as configured, else `./certs/privkey.pem`,
/// `./certs/fullchain.pem` and `./certs/root-ca.cert.pem`.
pub fn vigil_tls_config(key_path: Option<String>, cert_path: Option<String>, client_ca_path: Option<String>) -> (t: TlsConfig)
    ensures
        t.key_path@ == (match key_path {
            Some(p) => p@,
            None => "./certs/privkey.pem"@,
        }),
        t.cert_path@ == (match cert_path {
            Some(p) => p@,
            None => "./certs/fullchain.pem"@,
        }),
        t.client_ca_path@ == (match client_ca_path {
            Some(p) => p@,
            None => "./certs/root-ca.cert.pem"@,
        }),
{
    TlsConfig {
        key_path: match key_path {
            Some(p) => p,
            None => "./certs/privkey.pem".to_owned(),
        },
        cert_path: match cert_path {
            Some(p) => p,
            None => "./certs/fullchain.pem".to_owned(),
        },
        client_ca_path: match client_ca_path {
            Some(p) => p,
            None => "./certs/root-ca.cert.pem".to_owned(),
        },
    }
}

/// Vigil's CA settings.
pub struct VigilCaSettings {
    pub curve: String,
    pub cert_default_days: u32,
    pub crl_next_update_hours: u32,
    pub ocsp_max_age_seconds: u32,
}

/// The CA settings, each taken from the file where given: curve `P-384`,
/// certificates for 365 days, CRLs valid 24 hours, OCSP answers 60 seconds.
pub fn ca_settings(
    curve: Option<String>,
    cert_default_days: Option<u32>,
    crl_next_update_hours: Option<u32>,
    ocsp_max_age_seconds: Option<u32>,
) -> (s: VigilCaSettings)
    ensures
        s.curve@ == match curve {
            Some(c) => c@,
            None => "P-384"@,
        },
        s.cert_default_days == match cert_default_days {
            Some(d) => d,
            None => 365u32,
        },
        s.crl_next_update_hours == match crl_next_update_hours {
            Some(d) => d,
            None => 24u32,
        },
        s.ocsp_max_age_seconds == match ocsp_max_age_seconds {
            Some(d) => d,
            None => 60u32,
        },
{
    proof {
        reveal_strlit("P-384");
    }
    VigilCaSettings {
        curve: match curve {
            Some(c) => c,
            None => String::from_str("P-384"),
        },
        cert_default_days: match cert_default_days {
            Some(d) => d,
            None => 365,
        },
        crl_next_update_hours: match crl_next_update_hours {
            Some(d) => d,
            None => 24,
        },
        ocsp_max_age_seconds: match ocsp_max_age_seconds {
            Some(d) => d,
            None => 60,
        },
    }
}

/// The issuance policy, each setting from the file where given: no DNS
/// suffix or URI prefix restriction, subdomains and bare suffixes allowed, IP
/// SANs refused.
pub fn issuance_policy_from(
    allowed_dns_suffixes: Option<Vec<String>>,
    allow_subdomains: Option<bool>,
    allow_bare_suffix: Option<bool>,
    allowed_identity_uri_prefixes: Option<Vec<String>>,
    allow_ip_sans: Option<bool>,
) -> (p: IssuancePolicyConfig)
    ensures
        p.allowed_dns_suffixes@ == match allowed_dns_suffixes {
            Some(v) => v@,
            None => Seq::empty(),
        },
        p.allow_subdomains == match allow_subdomains {
            Some(b) => b,
            None => true,
        },
        p.allow_bare_suffix == match allow_bare_suffix {
            Some(b) => b,
            None => true,
        },
        p.allowed_identity_uri_prefixes@ == match allowed_identity_uri_prefixes {
            Some(v) => v@,
            None => Seq::empty(),
        },
        p.allow_ip_sans == match allow_ip_sans {
            Some(b) => b,
            None => false,
        },
{
    IssuancePolicyConfig {
        allowed_dns_suffixes: match allowed_dns_suffixes {
            Some(v) => v,
            None => Vec::new(),
        },
        allow_subdomains: match allow_subdomains {
            Some(b) => b,
            None => true,
        },
        allow_bare_suffix: match allow_bare_suffix {
            Some(b) => b,
            None => true,
        },
        allowed_identity_uri_prefixes: match allowed_identity_uri_prefixes {
            Some(v) => v,
            None => Vec::new(),
        },
        allow_ip_sans: match allow_ip_sans {
            Some(b) => b,
            None => false,
        },
    }
}

/// An identity granted a role over Vigil's API.
pub struct RbacIdentityConfig {
    pub uri: String,
    pub role: Role,
    pub name: Option<String>,
}

/// Reads entry `index` of `rbacIdentities`: its URI must be present and not
/// blank (it is kept trimmed); a blank name counts as none.
pub fn rbac_identity(index: u64, uri: Option<String>, role: Role, name: Option<String>) -> (res: Result<RbacIdentityConfig, String>)
    ensures
        match uri {
            Some(u) if trim(u@).len() > 0 => res matches Ok(r) && r.uri@ == trim(u@) && r.role == role && r.name == match name {
                Some(n) => if trim(n@).len() > 0 {
                    Some(n)
                } else {
                    None
                },
                None => None,
            },
            _ => res matches Err(m) && m@ == "rbacIdentities["@ + spec_decimal(index as nat) + "].uri must be a non-empty string"@,
        },
{
    let u = match uri {
        Some(u) => u,
        None => {
            let mut m = String::from_str("rbacIdentities[");
            m.append(decimal(index).as_str());
            m.append("].uri must be a non-empty string");
            return Err(m);
        },
    };
    let t = trim_str(u.as_str());
    if t.unicode_len() == 0 {
        let mut m = String::from_str("rbacIdentities[");
        m.append(decimal(index).as_str());
        m.append("].uri must be a non-empty string");
        return Err(m);
    }
    let kept = match name {
        Some(n) => if trim_str(n.as_str()).unicode_len() > 0 {
            Some(n)
        } else {
            None
        },
        None => None,
    };
    Ok(RbacIdentityConfig { uri: t, role, name: kept })
}

/// Vigil's ACME challenge settings.
pub struct ChallengeSettings {
    pub allow_none_validation: bool,
    pub allowed_http_challenge_ports: Vec<u16>,
    pub challenge_check_count: u32,
    pub challenge_check_interval_secs: u64,
}

/// The challenge settings, each from the file where given: none-01 refused,
/// http-01 on port 80 only, five checks a minute apart.
pub fn challenge_settings(
    allow_none_validation: Option<bool>,
    allowed_http_challenge_ports: Option<Vec<u16>>,
    challenge_check_count: Option<u32>,
    challenge_check_interval_secs: Option<u64>,
) -> (s: ChallengeSettings)
    ensures
        s.allow_none_validation == match allow_none_validation {
            Some(b) => b,
            None => false,
        },
        s.allowed_http_challenge_ports@ == match allowed_http_challenge_ports {
            Some(v) => v@,
            None => seq![80u16],
        },
        s.challenge_check_count == match challenge_check_count {
            Some(c) => c,
            None => 5u32,
        },
        s.challenge_check_interval_secs == match challenge_check_interval_secs {
            Some(c) => c,
            None => 60u64,
        },
{
    let ports = match allowed_http_challenge_ports {
        Some(v) => v,
        None => {
            let v: Vec<u16> = vec![80u16];
            assert(v@ =~= seq![80u16]);
            v
        },
    };
    ChallengeSettings {
        allow_none_validation: match allow_none_validation {
            Some(b) => b,
            None => false,
        },
        allowed_http_challenge_ports: ports,
        challenge_check_count: match challenge_check_count {
            Some(c) => c,
            None => 5,
        },
        challenge_check_interval_secs: match challenge_check_interval_secs {
            Some(c) => c,
            None => 60,
        },
    }
}

/// Shepherd's log level by name: `fatal`, `warn`, `debug`, anything else
/// (or none) `info`.
pub fn log_level_named(name: Option<&str>) -> (l: LogLevel)
    ensures
        l == match name {
            Some(n) => if n@ == "fatal"@ {
                LogLevel::Fatal
            } else if n@ == "warn"@ {
                LogLevel::Warn
            } else if n@ == "debug"@ {
                LogLevel::Debug
            } else {
                LogLevel::Info
            },
            None => LogLevel::Info,
        },
{
    match name {
        None => LogLevel::Info,
        Some(n) => {
            let t = n.to_owned();
            if t == "fatal".to_owned() {
                LogLevel::Fatal
            } else if t == "warn".to_owned() {
                LogLevel::Warn
            } else if t == "debug".to_owned() {
                LogLevel::Debug
            } else {
                LogLevel::Info
            }
        },
    }
}

/// The `tls` block of Shepherd's configuration as read.
pub struct ShepherdRawTls {
    pub cert_path: Option<String>,
    pub key_path: Option<String>,
    pub client_ca_path: Option<String>,
    pub ca: Option<String>,
    pub ca_path: Option<String>,
    pub bootstrap_cert_path: Option<String>,
    pub bootstrap_key_path: Option<String>,
}

/// The TLS files Shepherd serves with, before they are resolved against the
/// base directory.
pub struct ShepherdTlsPaths {
    pub cert_path: String,
    pub key_path: String,
    pub client_ca_path: String,
    pub bootstrap_cert_path: Option<String>,
    pub bootstrap_key_path: Option<String>,
}

/// The first of two optional texts that is present.
pub open spec fn either(a: Option<String>, b: Option<String>) -> Option<String> {
    match a {
        Some(x) => Some(x),
        None => b,
    }
}

fn either_exec(a: &Option<String>, b: &Option<String>) -> (r: Option<String>)
    ensures
        r == either(*a, *b),
{
    match a {
        Some(x) => Some(copy_string(x)),
        None => crate::types::copy_opt_string(b),
    }
}

/// A field of the `tls` block, where the block is present.
pub open spec fn tls_field(tls: Option<ShepherdRawTls>, f: spec_fn(ShepherdRawTls) -> Option<String>) -> Option<String> {
    match tls {
        Some(t) => f(t),
        None => None,
    }
}

/// Shepherd's TLS files, in order of precedence: `tls.certPath`, else
/// `tlsCert`; `tls.keyPath`, else `tlsKey`; `tls.clientCaPath`, `tls.caPath`,
/// `tls.ca`, else `tlsClientCaPath`, else `clientCa`. Each of the three is
/// required, the first missing one named in the error.
pub fn shepherd_tls_paths(
    tls: &Option<ShepherdRawTls>,
    tls_cert: &Option<String>,
    tls_key: &Option<String>,
    tls_client_ca_path: &Option<String>,
    client_ca: &Option<String>,
) -> (res: Result<ShepherdTlsPaths, String>)
    ensures
        ({
            let cert = either(tls_field(*tls, |t: ShepherdRawTls| t.cert_path), *tls_cert);
            let key = either(tls_field(*tls, |t: ShepherdRawTls| t.key_path), *tls_key);
            let ca = either(
                either(
                    either(tls_field(*tls, |t: ShepherdRawTls| t.client_ca_path), tls_field(*tls, |t: ShepherdRawTls| t.ca_path)),
                    tls_field(*tls, |t: ShepherdRawTls| t.ca),
                ),
                either(*tls_client_ca_path, *client_ca),
            );
            if cert is None {
                res matches Err(m) && m@ == "Config missing tls.certPath"@
            } else if key is None {
                res matches Err(m) && m@ == "Config missing tls.keyPath"@
            } else if ca is None {
                res matches Err(m) && m@ == "Config missing tls.clientCaPath (required \u{2014} mTLS client CA must be configured)"@
            } else {
                res matches Ok(p) && Some(p.cert_path) == cert && Some(p.key_path) == key && Some(p.client_ca_path) == ca
                    && p.bootstrap_cert_path == tls_field(*tls, |t: ShepherdRawTls| t.bootstrap_cert_path)
                    && p.bootstrap_key_path == tls_field(*tls, |t: ShepherdRawTls| t.bootstrap_key_path)
            }
        }),
{
    let none: Option<String> = None;
    let (b_cert, b_key, b_client, b_ca_path, b_ca, b_boot_cert, b_boot_key) = match tls {
        Some(t) => (
            crate::types::copy_opt_string(&t.cert_path),
            crate::types::copy_opt_string(&t.key_path),
            crate::types::copy_opt_string(&t.client_ca_path),
            crate::types::copy_opt_string(&t.ca_path),
            crate::types::copy_opt_string(&t.ca),
            crate::types::copy_opt_string(&t.bootstrap_cert_path),
            crate::types::copy_opt_string(&t.bootstrap_key_path),
        ),
        None => (None, None, None, None, None, None, None),
    };
    let cert = either_exec(&b_cert, tls_cert);
    let key = either_exec(&b_key, tls_key);
    let inner = either_exec(&b_client, &b_ca_path);
    let block = either_exec(&inner, &b_ca);
    let top = either_exec(tls_client_ca_path, client_ca);
    let ca = either_exec(&block, &top);
    proof {
        reveal_strlit("Config missing tls.certPath");
        reveal_strlit("Config missing tls.keyPath");
        reveal_strlit("Config missing tls.clientCaPath (required \u{2014} mTLS client CA must be configured)");
    }
    let cert_path = match cert {
        Some(c) => c,
        None => return Err(String::from_str("Config missing tls.certPath")),
    };
    let key_path = match key {
        Some(c) => c,
        None => return Err(String::from_str("Config missing tls.keyPath")),
    };
    let client_ca_path = match ca {
        Some(c) => c,
        None => return Err(String::from_str("Config missing tls.clientCaPath (required \u{2014} mTLS client CA must be configured)")),
    };
    Ok(ShepherdTlsPaths {
        cert_path,
        key_path,
        client_ca_path,
        bootstrap_cert_path: b_boot_cert,
        bootstrap_key_path: b_boot_key,
    })
}

/// Shepherd's JWT signing key path, which is required.
pub fn jwt_signing_key_path(configured: Option<String>) -> (res: Result<String, String>)
    ensures
        match configured {
            Some(p) => res == Ok::<String, String>(p),
            None => res matches Err(m) && m@ == "Config missing auth.jwtSigningKeyPath"@,
        },
{
    proof {
        reveal_strlit("Config missing auth.jwtSigningKeyPath");
    }
    match configured {
        Some(p) => Ok(p),
        None => Err(String::from_str("Config missing auth.jwtSigningKeyPath")),
    }
}

} // verus!
