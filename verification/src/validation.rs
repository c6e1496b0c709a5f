use crate::config::ServerConfig;
use crate::types::{decimal, decimal_string};
use vstd::prelude::*;

verus! {

/// A configuration error.
#[derive(Debug, Clone)]
pub enum ValidationError {
    MissingTlsCert,
    MissingTlsKey,
    InvalidMaxDepth,
    InvalidSlip,
    MinTtlExceedsMax { min: u32, max: u32 },
    UnknownAclGroup(String),
    InvalidIpv4Prefix(u8),
    InvalidIpv6Prefix(u8),
}

pub enum ValidationErrorV {
    MissingTlsCert,
    MissingTlsKey,
    InvalidMaxDepth,
    InvalidSlip,
    MinTtlExceedsMax { min: u32, max: u32 },
    UnknownAclGroup(Seq<char>),
    InvalidIpv4Prefix(u8),
    InvalidIpv6Prefix(u8),
}

impl View for ValidationError {
    type V = ValidationErrorV;

    open spec fn view(&self) -> ValidationErrorV {
        match self {
            ValidationError::MissingTlsCert => ValidationErrorV::MissingTlsCert,
            ValidationError::MissingTlsKey => ValidationErrorV::MissingTlsKey,
            ValidationError::InvalidMaxDepth => ValidationErrorV::InvalidMaxDepth,
            ValidationError::InvalidSlip => ValidationErrorV::InvalidSlip,
            ValidationError::MinTtlExceedsMax { min, max } => ValidationErrorV::MinTtlExceedsMax { min: *min, max: *max },
            ValidationError::UnknownAclGroup(g) => ValidationErrorV::UnknownAclGroup(g@),
            ValidationError::InvalidIpv4Prefix(p) => ValidationErrorV::InvalidIpv4Prefix(*p),
            ValidationError::InvalidIpv6Prefix(p) => ValidationErrorV::InvalidIpv6Prefix(*p),
        }
    }
}

/// The message of an error.
pub open spec fn error_message(e: ValidationErrorV) -> Seq<char> {
    match e {
        ValidationErrorV::MissingTlsCert => "TLS cert_path is required when DoT or DoH listeners are configured"@,
        ValidationErrorV::MissingTlsKey => "TLS key_path is required when DoT or DoH listeners are configured"@,
        ValidationErrorV::InvalidMaxDepth => "recursion.max_depth must be > 0"@,
        ValidationErrorV::InvalidSlip => "rrl.slip must be >= 1"@,
        ValidationErrorV::MinTtlExceedsMax { min, max } =>
            "cache.min_ttl ("@ + decimal(min as nat) + ") must be <= cache.max_ttl ("@ + decimal(max as nat) + ")"@,
        ValidationErrorV::UnknownAclGroup(g) => "policy.allow_recursion references unknown ACL group: "@ + g,
        ValidationErrorV::InvalidIpv4Prefix(p) => "ipv4_prefix_length must be <= 32, got "@ + decimal(p as nat),
        ValidationErrorV::InvalidIpv6Prefix(p) => "ipv6_prefix_length must be <= 128, got "@ + decimal(p as nat),
    }
}

impl ValidationError {
    /// The message that describes the error.
    pub fn message(&self) -> (r: String)
        ensures
            r@ == error_message(self@),
    {
        match self {
            ValidationError::MissingTlsCert => "TLS cert_path is required when DoT or DoH listeners are configured".to_owned(),
            ValidationError::MissingTlsKey => "TLS key_path is required when DoT or DoH listeners are configured".to_owned(),
            ValidationError::InvalidMaxDepth => "recursion.max_depth must be > 0".to_owned(),
            ValidationError::InvalidSlip => "rrl.slip must be >= 1".to_owned(),
            ValidationError::MinTtlExceedsMax { min, max } => {
                let mut s = "cache.min_ttl (".to_owned();
                s.append(decimal_string(*min as u64).as_str());
                s.append(") must be <= cache.max_ttl (");
                s.append(decimal_string(*max as u64).as_str());
                s.append(")");
                s
            },
            ValidationError::UnknownAclGroup(g) => {
                let mut s = "policy.allow_recursion references unknown ACL group: ".to_owned();
                s.append(g.as_str());
                s
            },
            ValidationError::InvalidIpv4Prefix(p) => {
                let mut s = "ipv4_prefix_length must be <= 32, got ".to_owned();
                s.append(decimal_string(*p as u64).as_str());
                s
            },
            ValidationError::InvalidIpv6Prefix(p) => {
                let mut s = "ipv6_prefix_length must be <= 128, got ".to_owned();
                s.append(decimal_string(*p as u64).as_str());
                s
            },
        }
    }
}

/// The configuration has an ACL group called `name`.
pub open spec fn has_acl(c: ServerConfig, name: Seq<char>) -> bool {
    exists|i: int| 0 <= i < c.acls@.len() && (#[trigger] c.acls@[i]).name@ == name
}

/// The errors of a configuration, in the order they are checked.
pub open spec fn config_errors(c: ServerConfig) -> Seq<ValidationErrorV> {
    let needs_tls = c.server.listen_dot@.len() > 0 || c.server.listen_doh@.len() > 0;
    let e1 = if needs_tls && c.tls.cert_path is None { seq![ValidationErrorV::MissingTlsCert] } else { Seq::empty() };
    let e2 = if needs_tls && c.tls.key_path is None { seq![ValidationErrorV::MissingTlsKey] } else { Seq::empty() };
    let e3 = if c.recursion.max_depth == 0 { seq![ValidationErrorV::InvalidMaxDepth] } else { Seq::empty() };
    let e4 = if c.rrl.enabled && c.rrl.slip < 1 { seq![ValidationErrorV::InvalidSlip] } else { Seq::empty() };
    let e5 = if c.cache.min_ttl > c.cache.max_ttl {
        seq![ValidationErrorV::MinTtlExceedsMax { min: c.cache.min_ttl, max: c.cache.max_ttl }]
    } else {
        Seq::empty()
    };
    let p = c.policy.allow_recursion@;
    let e6 = if p != "any"@ && p != "none"@ && !has_acl(c, p) { seq![ValidationErrorV::UnknownAclGroup(p)] } else { Seq::empty() };
    let e7 = if c.rrl.ipv4_prefix_length > 32 { seq![ValidationErrorV::InvalidIpv4Prefix(c.rrl.ipv4_prefix_length)] } else { Seq::empty() };
    let e8 = if c.rrl.ipv6_prefix_length > 128 { seq![ValidationErrorV::InvalidIpv6Prefix(c.rrl.ipv6_prefix_length)] } else { Seq::empty() };
    e1 + e2 + e3 + e4 + e5 + e6 + e7 + e8
}

pub open spec fn errors_view(v: Seq<ValidationError>) -> Seq<ValidationErrorV> {
    v.map_values(|e: ValidationError| e@)
}

fn push_error(errors: &mut Vec<ValidationError>, e: ValidationError)
    ensures
        errors_view(final(errors)@) == errors_view(old(errors)@) + seq![e@],
{
    let ghost before = errors_view(errors@);
    errors.push(e);
    assert(errors_view(errors@) =~= before + seq![e@]);
}

fn acl_exists(c: &ServerConfig, name: &String) -> (r: bool)
    ensures
        r == has_acl(*c, name@),
{
    let mut i: usize = 0;
    while i < c.acls.len()
        invariant
            i <= c.acls@.len(),
            forall|j: int| 0 <= j < i ==> (#[trigger] c.acls@[j]).name@ != name@,
        decreases c.acls@.len() - i,
    {
        if c.acls[i].name == *name {
            return true;
        }
        i = i + 1;
    }
    false
}

/// Check a configuration: `Ok` exactly when it has no error, else all its
/// errors in the order they are checked.
pub fn validate(config: &ServerConfig) -> (r: Result<(), Vec<ValidationError>>)
    ensures
        r is Ok <==> config_errors(*config).len() == 0,
        r matches Err(es) ==> errors_view(es@) == config_errors(*config),
{
    let mut errors: Vec<ValidationError> = Vec::new();
    let ghost c = *config;
    assert(errors_view(errors@) =~= Seq::<ValidationErrorV>::empty());
    let needs_tls = config.server.listen_dot.len() > 0 || config.server.listen_doh.len() > 0;
    if needs_tls && config.tls.cert_path.is_none() {
        push_error(&mut errors, ValidationError::MissingTlsCert);
    }
    if needs_tls && config.tls.key_path.is_none() {
        push_error(&mut errors, ValidationError::MissingTlsKey);
    }
    if config.recursion.max_depth == 0 {
        push_error(&mut errors, ValidationError::InvalidMaxDepth);
    }
    if config.rrl.enabled && config.rrl.slip < 1 {
        push_error(&mut errors, ValidationError::InvalidSlip);
    }
    if config.cache.min_ttl > config.cache.max_ttl {
        push_error(&mut errors, ValidationError::MinTtlExceedsMax { min: config.cache.min_ttl, max: config.cache.max_ttl });
    }
    let policy_ref = &config.policy.allow_recursion;
    let any = "any".to_string();
    let none = "none".to_string();
    if *policy_ref != any && *policy_ref != none && !acl_exists(config, policy_ref) {
        push_error(&mut errors, ValidationError::UnknownAclGroup(policy_ref.clone()));
    }
    if config.rrl.ipv4_prefix_length > 32 {
        push_error(&mut errors, ValidationError::InvalidIpv4Prefix(config.rrl.ipv4_prefix_length));
    }
    if config.rrl.ipv6_prefix_length > 128 {
        push_error(&mut errors, ValidationError::InvalidIpv6Prefix(config.rrl.ipv6_prefix_length));
    }
    assert(errors_view(errors@) =~= config_errors(c));
    if errors.len() == 0 {
        Ok(())
    } else {
        Err(errors)
    }
}

/// The default configuration has no error.
pub proof fn lemma_default_config_valid(c: ServerConfig)
    requires
        crate::config::is_default_config(c),
    ensures
        config_errors(c).len() == 0,
{
    reveal_strlit("none");
    reveal_strlit("any");
    assert("none"@.len() == 4);
    assert("any"@.len() == 3);
    assert(c.policy.allow_recursion@ == "none"@);
    assert(config_errors(c) =~= Seq::<ValidationErrorV>::empty());
}

} // verus!
