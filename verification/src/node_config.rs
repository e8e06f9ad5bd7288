//! What Shepherd's node file (`shepherd.corgis.json`) and CA file
//! (`shepherd.ca.json`) decide once read: each node's mTLS files, with the
//! file's defaults as fallback, and each CA's TLS files and validation
//! methods. Paths are kept as written; resolving them against the file's
//! directory is the caller's.
use crate::types::{copy_opt_string, copy_string};
use vstd::prelude::*;

verus! {

/// An `mtls` block as read (every field optional).
pub struct RawMtls {
    pub cert_path: Option<String>,
    pub key_path: Option<String>,
    pub ca_path: Option<String>,
    pub bootstrap_cert_path: Option<String>,
    pub bootstrap_key_path: Option<String>,
}

/// The `defaults` block of the node file.
pub struct RawCorgiDefaults {
    pub mtls: RawMtls,
    pub insecure_skip_verify: Option<bool>,
}

/// One node of the node file as read.
pub struct RawCorgi {
    pub name: String,
    pub url: String,
    pub identity_uri: Option<String>,
    pub mtls: RawMtls,
    pub insecure_skip_verify: Option<bool>,
    pub http_challenge_port: Option<u16>,
}

/// The mTLS files Shepherd uses towards a node.
pub struct CorgiMtlsConfig {
    pub cert_path: String,
    pub key_path: String,
    pub ca_path: Option<String>,
    pub bootstrap_cert_path: Option<String>,
    pub bootstrap_key_path: Option<String>,
}

/// A node Shepherd manages.
pub struct CorgiNodeConfig {
    pub name: String,
    pub url: String,
    pub identity_uri: Option<String>,
    pub mtls: CorgiMtlsConfig,
    pub insecure_skip_verify: bool,
    pub http_challenge_port: Option<u16>,
}

/// The node's own value, else the default's.
pub open spec fn with_default(own: Option<String>, defaults: Option<RawCorgiDefaults>, f: spec_fn(RawMtls) -> Option<String>) -> Option<String> {
    match own {
        Some(v) => Some(v),
        None => match defaults {
            Some(d) => f(d.mtls),
            None => None,
        },
    }
}

fn default_field(own: &Option<String>, defaults: &Option<RawCorgiDefaults>, pick: u8) -> (r: Option<String>)
    requires
        pick < 5,
    ensures
        r == with_default(
            *own,
            *defaults,
            |m: RawMtls|
                if pick == 0 {
                    m.cert_path
                } else if pick == 1 {
                    m.key_path
                } else if pick == 2 {
                    m.ca_path
                } else if pick == 3 {
                    m.bootstrap_cert_path
                } else {
                    m.bootstrap_key_path
                },
        ),
{
    match own {
        Some(v) => Some(copy_string(v)),
        None => match defaults {
            Some(d) => {
                let m = &d.mtls;
                if pick == 0 {
                    copy_opt_string(&m.cert_path)
                } else if pick == 1 {
                    copy_opt_string(&m.key_path)
                } else if pick == 2 {
                    copy_opt_string(&m.ca_path)
                } else if pick == 3 {
                    copy_opt_string(&m.bootstrap_cert_path)
                } else {
                    copy_opt_string(&m.bootstrap_key_path)
                }
            },
            None => None,
        },
    }
}

/// Why a node cannot be built: its certificate, or else its key, is named
/// neither by the node nor by the defaults.
pub open spec fn node_error(raw: RawCorgi, defaults: Option<RawCorgiDefaults>) -> Option<Seq<char>> {
    if with_default(raw.mtls.cert_path, defaults, |m: RawMtls| m.cert_path) is None {
        Some("Corgi '"@ + raw.name@ + "': missing mtls.certPath"@)
    } else if with_default(raw.mtls.key_path, defaults, |m: RawMtls| m.key_path) is None {
        Some("Corgi '"@ + raw.name@ + "': missing mtls.keyPath"@)
    } else {
        None
    }
}

/// Builds a node's configuration: each mTLS file is the node's own, else the
/// default's; the certificate and key are required (the error names the node
/// and the first one missing); TLS checks are skipped only where the node, or
/// else the defaults, say so.
pub fn corgi_node_config(raw: &RawCorgi, defaults: &Option<RawCorgiDefaults>) -> (r: Result<CorgiNodeConfig, String>)
    ensures
        ({
            let cert = with_default(raw.mtls.cert_path, *defaults, |m: RawMtls| m.cert_path);
            let key = with_default(raw.mtls.key_path, *defaults, |m: RawMtls| m.key_path);
            if cert is None {
                r matches Err(m) && m@ == "Corgi '"@ + raw.name@ + "': missing mtls.certPath"@
            } else if key is None {
                r matches Err(m) && m@ == "Corgi '"@ + raw.name@ + "': missing mtls.keyPath"@
            } else {
                r matches Ok(c) && c.name == raw.name && c.url == raw.url && c.identity_uri == raw.identity_uri
                    && Some(c.mtls.cert_path) == cert && Some(c.mtls.key_path) == key
                    && c.mtls.ca_path == with_default(raw.mtls.ca_path, *defaults, |m: RawMtls| m.ca_path)
                    && c.mtls.bootstrap_cert_path == with_default(raw.mtls.bootstrap_cert_path, *defaults, |m: RawMtls| m.bootstrap_cert_path)
                    && c.mtls.bootstrap_key_path == with_default(raw.mtls.bootstrap_key_path, *defaults, |m: RawMtls| m.bootstrap_key_path)
                    && c.insecure_skip_verify == match raw.insecure_skip_verify {
                        Some(b) => b,
                        None => match *defaults {
                            Some(d) => d.insecure_skip_verify == Some(true),
                            None => false,
                        },
                    }
                    && c.http_challenge_port == raw.http_challenge_port
            }
        }),
{
    let cert = default_field(&raw.mtls.cert_path, defaults, 0);
    let key = default_field(&raw.mtls.key_path, defaults, 1);
    let ca = default_field(&raw.mtls.ca_path, defaults, 2);
    let bs_cert = default_field(&raw.mtls.bootstrap_cert_path, defaults, 3);
    let bs_key = default_field(&raw.mtls.bootstrap_key_path, defaults, 4);
    proof {
        assert(with_default(raw.mtls.cert_path, *defaults, |m: RawMtls| m.cert_path) == cert);
        assert(with_default(raw.mtls.key_path, *defaults, |m: RawMtls| m.key_path) == key);
        assert(with_default(raw.mtls.ca_path, *defaults, |m: RawMtls| m.ca_path) == ca);
        assert(with_default(raw.mtls.bootstrap_cert_path, *defaults, |m: RawMtls| m.bootstrap_cert_path) == bs_cert);
        assert(with_default(raw.mtls.bootstrap_key_path, *defaults, |m: RawMtls| m.bootstrap_key_path) == bs_key);
    }
    let cert_path = match cert {
        Some(c) => c,
        None => {
            let mut m = String::new();
            m.append("Corgi '");
            m.append(raw.name.as_str());
            m.append("': missing mtls.certPath");
            return Err(m);
        },
    };
    let key_path = match key {
        Some(k) => k,
        None => {
            let mut m = String::new();
            m.append("Corgi '");
            m.append(raw.name.as_str());
            m.append("': missing mtls.keyPath");
            return Err(m);
        },
    };
    let insecure = match raw.insecure_skip_verify {
        Some(b) => b,
        None => match defaults {
            Some(d) => d.insecure_skip_verify == Some(true),
            None => false,
        },
    };
    Ok(CorgiNodeConfig {
        name: copy_string(&raw.name),
        url: copy_string(&raw.url),
        identity_uri: copy_opt_string(&raw.identity_uri),
        mtls: CorgiMtlsConfig { cert_path, key_path, ca_path: ca, bootstrap_cert_path: bs_cert, bootstrap_key_path: bs_key },
        insecure_skip_verify: insecure,
        http_challenge_port: raw.http_challenge_port,
    })
}

/// Builds every node of the node file, in order; the first node that cannot
/// be built gives the error.
pub fn corgi_node_configs(raws: &Vec<RawCorgi>, defaults: &Option<RawCorgiDefaults>) -> (r: Result<Vec<CorgiNodeConfig>, String>)
    ensures
        match r {
            Ok(v) => v@.len() == raws@.len() && (forall|i: int| 0 <= i < raws@.len() ==> node_error(#[trigger] raws@[i], *defaults) is None)
                && forall|i: int| 0 <= i < raws@.len() ==> (#[trigger] raws@[i]).name == v@[i].name && raws@[i].url == v@[i].url,
            Err(m) => exists|i: int|
                0 <= i < raws@.len() && node_error(#[trigger] raws@[i], *defaults) == Some(m@) && forall|j: int|
                    0 <= j < i ==> node_error(#[trigger] raws@[j], *defaults) is None,
        },
{
    let mut out: Vec<CorgiNodeConfig> = Vec::new();
    let mut i: usize = 0;
    while i < raws.len()
        invariant
            i <= raws@.len(),
            out@.len() == i,
            forall|k: int| 0 <= k < i ==> node_error(#[trigger] raws@[k], *defaults) is None,
            forall|k: int| 0 <= k < i ==> (#[trigger] raws@[k]).name == out@[k].name && raws@[k].url == out@[k].url,
        decreases raws@.len() - i,
    {
        match corgi_node_config(&raws[i], defaults) {
            Ok(c) => out.push(c),
            Err(e) => {
                assert(node_error(raws@[i as int], *defaults) == Some(e@));
                return Err(e);
            },
        }
        i = i + 1;
    }
    Ok(out)
}

/// The nested `tls` block of an ACME CA entry.
pub struct RawTlsBlock {
    pub cert_path: Option<String>,
    pub key_path: Option<String>,
    pub ca_path: Option<String>,
}

/// The TLS files Shepherd presents to, and trusts from, an ACME CA.
pub struct AcmeTlsConfig {
    pub cert_path: Option<String>,
    pub key_path: Option<String>,
    pub ca_path: Option<String>,
}

/// The first present of a nested field and its flat alternatives.
pub open spec fn nested_or(nested: Option<RawTlsBlock>, f: spec_fn(RawTlsBlock) -> Option<String>, flat: Option<String>) -> Option<String> {
    match nested {
        Some(t) if f(t) is Some => f(t),
        _ => flat,
    }
}

/// The first of two optional texts that is present.
pub open spec fn first_of(a: Option<String>, b: Option<String>) -> Option<String> {
    match a {
        Some(x) => Some(x),
        None => b,
    }
}

/// An ACME CA's TLS files: the nested block's, else the flat fields
/// (`tlsCert`, `tlsKey`, and `caPath` before `ca`); none at all where no file
/// is named.
pub fn acme_tls_config(
    nested: &Option<RawTlsBlock>,
    tls_cert: &Option<String>,
    tls_key: &Option<String>,
    ca: &Option<String>,
    ca_path: &Option<String>,
) -> (r: Option<AcmeTlsConfig>)
    ensures
        ({
            let cert = nested_or(*nested, |t: RawTlsBlock| t.cert_path, *tls_cert);
            let key = nested_or(*nested, |t: RawTlsBlock| t.key_path, *tls_key);
            let trust = nested_or(*nested, |t: RawTlsBlock| t.ca_path, first_of(*ca_path, *ca));
            if cert is None && key is None && trust is None {
                r is None
            } else {
                r matches Some(c) && c.cert_path == cert && c.key_path == key && c.ca_path == trust
            }
        }),
{
    let (n_cert, n_key, n_ca) = match nested {
        Some(t) => (copy_opt_string(&t.cert_path), copy_opt_string(&t.key_path), copy_opt_string(&t.ca_path)),
        None => (None, None, None),
    };
    let cert = match n_cert {
        Some(c) => Some(c),
        None => copy_opt_string(tls_cert),
    };
    let key = match n_key {
        Some(k) => Some(k),
        None => copy_opt_string(tls_key),
    };
    let trust = match n_ca {
        Some(c) => Some(c),
        None => match ca_path {
            Some(p) => Some(copy_string(p)),
            None => copy_opt_string(ca),
        },
    };
    if cert.is_none() && key.is_none() && trust.is_none() {
        None
    } else {
        Some(AcmeTlsConfig { cert_path: cert, key_path: key, ca_path: trust })
    }
}

/// The validation methods an ACME CA offers (by default `none-01`, `dns-01`,
/// `http-01`) and the one used when an assignment names none (as configured,
/// else the first offered, else `dns-01`).
pub fn validation_methods(supported: Option<Vec<String>>, default: Option<String>) -> (r: (Vec<String>, String))
    ensures
        r.0@.len() == (match supported {
            Some(v) => v@.len(),
            None => 3,
        }),
        supported matches Some(v) ==> r.0@ == v@,
        supported is None ==> r.0@[0]@ == "none-01"@ && r.0@[1]@ == "dns-01"@ && r.0@[2]@ == "http-01"@,
        r.1@ == (match default {
            Some(d) => d@,
            None => if r.0@.len() > 0 {
                r.0@[0]@
            } else {
                "dns-01"@
            },
        }),
{
    let list = match supported {
        Some(v) => v,
        None => {
            let mut v: Vec<String> = Vec::new();
            v.push("none-01".to_owned());
            v.push("dns-01".to_owned());
            v.push("http-01".to_owned());
            v
        },
    };
    let chosen = match default {
        Some(d) => d,
        None => if list.len() > 0 {
            copy_string(&list[0])
        } else {
            "dns-01".to_owned()
        },
    };
    (list, chosen)
}

/// An ACME CA entry may only use the `acme` protocol.
pub fn check_ca_protocol(name: &str, protocol: &str) -> (r: Result<(), String>)
    ensures
        protocol@ == "acme"@ ==> r is Ok,
        protocol@ != "acme"@ ==> (r matches Err(m) && m@ == "CA '"@ + name@ + "' uses unsupported protocol '"@ + protocol@ + "'"@),
{
    let acme = "acme".to_owned();
    let given = protocol.to_owned();
    if given == acme {
        Ok(())
    } else {
        let mut m = String::new();
        m.append("CA '");
        m.append(name);
        m.append("' uses unsupported protocol '");
        m.append(protocol);
        m.append("'");
        Err(m)
    }
}

/// An ACME CA's external account binding.
pub struct ExternalAccountBinding {
    pub kid: String,
    pub hmac_key: String,
}

/// The `config` of an ACME CA entry as read (the renewal threshold, a
/// fractional number of days, and the per-method validation settings are
/// read by the caller).
pub struct RawAcmeConfig {
    pub directory_url: String,
    pub account_email: Option<String>,
    pub account_key_path: String,
    pub days: Option<u32>,
    pub external_account_binding: Option<ExternalAccountBinding>,
    pub supported_validations: Option<Vec<String>>,
    pub default_validation: Option<String>,
    pub tls: Option<RawTlsBlock>,
    pub tls_cert: Option<String>,
    pub tls_key: Option<String>,
    pub ca: Option<String>,
    pub ca_path: Option<String>,
    pub insecure_skip_verify: Option<bool>,
}

/// An ACME CA Shepherd issues through.
pub struct AcmeCaConfig {
    pub directory_url: String,
    pub account_email: Option<String>,
    pub account_key_path: String,
    pub days: Option<u32>,
    pub eab: Option<ExternalAccountBinding>,
    pub supported_validations: Vec<String>,
    pub default_validation: String,
    pub tls: Option<AcmeTlsConfig>,
    pub insecure_skip_verify: bool,
}

/// A CA entry of the CA file.
pub struct CaConfig {
    pub name: String,
    pub protocol: String,
    pub provider: String,
    pub config: AcmeCaConfig,
}

/// Builds a CA entry: only the `acme` protocol is accepted; its TLS files
/// and validation methods as `acme_tls_config` and `validation_methods` say;
/// TLS checks are kept unless the entry skips them.
pub fn parse_ca_entry(name: &str, protocol: &str, provider: String, raw: RawAcmeConfig) -> (r: Result<CaConfig, String>)
    ensures
        protocol@ != "acme"@ ==> (r matches Err(m) && m@ == "CA '"@ + name@ + "' uses unsupported protocol '"@ + protocol@ + "'"@),
        protocol@ == "acme"@ ==> (r matches Ok(c) && c.name@ == name@ && c.protocol@ == "acme"@ && c.provider == provider
            && c.config.directory_url == raw.directory_url && c.config.account_email == raw.account_email
            && c.config.account_key_path == raw.account_key_path && c.config.days == raw.days
            && c.config.eab == raw.external_account_binding && c.config.insecure_skip_verify == (raw.insecure_skip_verify
            == Some(true)) && (match raw.supported_validations {
                Some(v) => c.config.supported_validations@ == v@,
                None => c.config.supported_validations@.len() == 3 && c.config.supported_validations@[0]@ == "none-01"@
                    && c.config.supported_validations@[1]@ == "dns-01"@ && c.config.supported_validations@[2]@ == "http-01"@,
            }) && c.config.default_validation@ == (match raw.default_validation {
                Some(d) => d@,
                None => if c.config.supported_validations@.len() > 0 {
                    c.config.supported_validations@[0]@
                } else {
                    "dns-01"@
                },
            }) && ({
                let cert = nested_or(raw.tls, |t: RawTlsBlock| t.cert_path, raw.tls_cert);
                let key = nested_or(raw.tls, |t: RawTlsBlock| t.key_path, raw.tls_key);
                let trust = nested_or(raw.tls, |t: RawTlsBlock| t.ca_path, first_of(raw.ca_path, raw.ca));
                if cert is None && key is None && trust is None {
                    c.config.tls is None
                } else {
                    c.config.tls matches Some(t) && t.cert_path == cert && t.key_path == key && t.ca_path == trust
                }
            })),
{
    match check_ca_protocol(name, protocol) {
        Err(m) => return Err(m),
        Ok(()) => {},
    }
    let tls = acme_tls_config(&raw.tls, &raw.tls_cert, &raw.tls_key, &raw.ca, &raw.ca_path);
    let (supported, default) = validation_methods(raw.supported_validations, raw.default_validation);
    Ok(CaConfig {
        name: name.to_owned(),
        protocol: "acme".to_owned(),
        provider,
        config: AcmeCaConfig {
            directory_url: raw.directory_url,
            account_email: raw.account_email,
            account_key_path: raw.account_key_path,
            days: raw.days,
            eab: raw.external_account_binding,
            supported_validations: supported,
            default_validation: default,
            tls,
            insecure_skip_verify: raw.insecure_skip_verify == Some(true),
        },
    })
}

} // verus!
