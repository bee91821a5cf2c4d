//! Bearer-token authorization with per-namespace read and write grants.

use crate::server::{ApiError, ApiErrorView, RequestHeaders, error_view};
use crate::text::{all_components_plain, plain_components, str_bytes, string_bytes, utf8};
use vstd::prelude::*;

verus! {

/// One configured token and the namespace patterns it may read and write.
#[derive(Clone, Debug)]
pub struct TokenGrant {
    pub token: String,
    pub read: Vec<String>,
    pub write: Vec<String>,
}

/// The configured grants, and whether requests without a token are served
/// when no grant is configured.
#[derive(Clone)]
pub struct Authorizer {
    grants: Vec<TokenGrant>,
    allow_anonymous: bool,
}

/// The kind of access a request needs.
#[derive(Clone, Copy, Debug, PartialEq, Eq, Structural)]
pub enum Access {
    Read,
    Write,
}

/// A namespace byte: ASCII letter, digit, `-`, `_`, `.` or `/`.
pub open spec fn is_namespace_byte(b: u8) -> bool {
    crate::text::is_ascii_alnum(b) || b == 0x2d || b == 0x5f || b == 0x2e || b == 0x2f
}

/// A namespace is 1 to 255 bytes of letters, digits, `-`, `_`, `.` and `/`,
/// and each of its `/`-separated components is neither empty, `.` nor `..`.
pub open spec fn namespace_valid(ns: Seq<u8>) -> bool {
    &&& ns.len() != 0
    &&& ns.len() <= 255
    &&& forall|i: int| 0 <= i < ns.len() ==> is_namespace_byte(#[trigger] ns[i])
    &&& plain_components(ns)
}

/// Whether `namespace` is a valid namespace (see `namespace_valid`).
pub fn valid_namespace(value: &str) -> (r: bool)
    ensures
        r == namespace_valid(utf8(value@)),
{
    let bytes = str_bytes(value);
    if bytes.len() == 0 || bytes.len() > 255 {
        return false;
    }
    let mut i: usize = 0;
    while i < bytes.len()
        invariant
            bytes@ == utf8(value@),
            i <= bytes@.len(),
            forall|j: int| 0 <= j < i ==> is_namespace_byte(#[trigger] bytes@[j]),
        decreases bytes@.len() - i,
    {
        let b = bytes[i];
        if !((0x30 <= b && b <= 0x39) || (0x41 <= b && b <= 0x5a) || (0x61 <= b && b <= 0x7a) || b
            == 0x2d || b == 0x5f || b == 0x2e || b == 0x2f) {
            return false;
        }
        i = i + 1;
    }
    all_components_plain(bytes)
}

/// A pattern grants a namespace when it is `*`, when it is the namespace
/// itself, or when it is `prefix/*` and the namespace lies strictly under
/// `prefix/`.
pub open spec fn namespace_matches(pattern: Seq<u8>, ns: Seq<u8>) -> bool {
    ||| pattern == seq![0x2au8]
    ||| pattern == ns
    ||| {
        let n = pattern.len() as int;
        let prefix = pattern.subrange(0, n - 2);
        &&& n >= 2
        &&& pattern[n - 2] == 0x2f
        &&& pattern[n - 1] == 0x2a
        &&& ns.len() > prefix.len()
        &&& ns.subrange(0, prefix.len() as int) == prefix
        &&& ns[prefix.len() as int] == 0x2f
    }
}

/// Whether `pattern` grants `namespace` (see `namespace_matches`).
pub fn matches_namespace(pattern: &str, namespace: &str) -> (r: bool)
    ensures
        r == namespace_matches(utf8(pattern@), utf8(namespace@)),
{
    let p = str_bytes(pattern);
    let ns = str_bytes(namespace);
    if p.len() == 1 && p[0] == 0x2a {
        proof {
            assert(p@ =~= seq![0x2au8]);
        }
        return true;
    }
    proof {
        if p@ == seq![0x2au8] {
            assert(p@.len() == 1 && p@[0] == 0x2a);
        }
    }
    if crate::text::bytes_equal(p, ns) {
        return true;
    }
    let n = p.len();
    if n < 2 || p[n - 2] != 0x2f || p[n - 1] != 0x2a {
        return false;
    }
    let prefix_len = n - 2;
    if ns.len() <= prefix_len {
        return false;
    }
    let mut i: usize = 0;
    while i < prefix_len
        invariant
            p@ == utf8(pattern@),
            ns@ == utf8(namespace@),
            p@ != seq![0x2au8],
            p@ != ns@,
            p@[prefix_len as int] == 0x2f,
            p@[prefix_len + 1] == 0x2a,
            prefix_len < ns@.len(),
            prefix_len + 2 == p@.len(),
            i <= prefix_len,
            forall|j: int| 0 <= j < i ==> ns@[j] == p@[j],
        decreases prefix_len - i,
    {
        if ns[i] != p[i] {
            proof {
                assert(ns@.subrange(0, prefix_len as int)[i as int] != p@.subrange(
                    0,
                    prefix_len as int,
                )[i as int]);
            }
            return false;
        }
        i = i + 1;
    }
    proof {
        assert(ns@.subrange(0, prefix_len as int) =~= p@.subrange(0, prefix_len as int));
    }
    ns[prefix_len] == 0x2f
}

/// Compares two byte strings in time that depends only on their lengths.
pub fn constant_time_eq(left: &[u8], right: &[u8]) -> (r: bool)
    ensures
        r == (left@ == right@),
{
    if left.len() != right.len() {
        return false;
    }
    let mut diff: u8 = 0;
    let mut i: usize = 0;
    while i < left.len()
        invariant
            left@.len() == right@.len(),
            i <= left@.len(),
            (diff == 0) == (forall|j: int| 0 <= j < i ==> left@[j] == right@[j]),
        decreases left@.len() - i,
    {
        let a = left[i];
        let b = right[i];
        assert(((diff | (a ^ b)) == 0) == (diff == 0 && a == b)) by (bit_vector);
        diff = diff | (a ^ b);
        proof {
            if diff == 0 {
                assert forall|j: int| 0 <= j < i + 1 implies left@[j] == right@[j] by {
                    if j < i {
                    }
                }
            }
        }
        i = i + 1;
    }
    proof {
        if diff == 0 {
            assert(left@ =~= right@);
        }
    }
    diff == 0
}

/// The bytes `Bearer ` that open an authorization header.
pub open spec fn bearer_prefix() -> Seq<u8> {
    seq![0x42u8, 0x65u8, 0x61u8, 0x72u8, 0x65u8, 0x72u8, 0x20u8]
}

/// The token of an authorization header, when it opens with `Bearer `.
pub open spec fn bearer_token(header: Seq<u8>) -> Option<Seq<u8>> {
    if header.len() >= 7 && header.subrange(0, 7) == bearer_prefix() {
        Some(header.subrange(7, header.len() as int))
    } else {
        None
    }
}

/// The first grant whose token is `token`.
pub open spec fn grant_for_token(grants: Seq<TokenGrant>, token: Seq<u8>) -> Option<TokenGrant>
    decreases grants.len(),
{
    if grants.len() == 0 {
        None
    } else if utf8(grants[0].token@) == token {
        Some(grants[0])
    } else {
        grant_for_token(grants.drop_first(), token)
    }
}

/// The patterns a grant holds for an access.
pub open spec fn grant_patterns(grant: TokenGrant, access: Access) -> Seq<String> {
    match access {
        Access::Read => grant.read@,
        Access::Write => grant.write@,
    }
}

/// Some pattern of the list grants the namespace.
pub open spec fn patterns_grant(patterns: Seq<String>, ns: Seq<u8>) -> bool {
    exists|i: int| 0 <= i < patterns.len() && namespace_matches(utf8((#[trigger] patterns[i])@), ns)
}

/// The text `1`, the only protocol version served.
pub open spec fn protocol_one() -> Seq<char> {
    seq!['1']
}

/// The bytes of `*`, the pattern that grants every namespace.
proof fn lemma_star_bytes()
    ensures
        utf8(seq!['*']) == seq![0x2au8],
{
    let s = seq!['*'];
    assert(vstd::utf8::is_ascii_chars(s)) by {
        assert forall|i: int| 0 <= i < s.len() implies '\0' <= #[trigger] s[i] <= '\u{7f}' by {
            assert(s[i] == '*');
        }
    }
    vstd::utf8::is_ascii_chars_encode_utf8(s);
    assert(utf8(s)[0] == s[0] as u8);
    assert(utf8(s) =~= seq![0x2au8]);
}

/// The pattern `*` grants every namespace, whatever bytes it holds.
pub proof fn law_star_matches_every_namespace(ns: Seq<u8>)
    ensures
        namespace_matches(utf8(seq!['*']), ns),
{
    lemma_star_bytes();
}

/// A pattern equal to the namespace grants it.
pub proof fn law_exact_pattern_matches(ns: Seq<u8>)
    ensures
        namespace_matches(ns, ns),
{
}

/// A pattern `prefix/*` grants every namespace below `prefix`: the prefix,
/// a `/`, and any rest.
pub proof fn law_prefix_pattern_matches(prefix: Seq<u8>, rest: Seq<u8>)
    ensures
        namespace_matches(prefix + seq![0x2fu8, 0x2au8], prefix + seq![0x2fu8] + rest),
{
    let pattern = prefix + seq![0x2fu8, 0x2au8];
    let ns = prefix + seq![0x2fu8] + rest;
    let n = pattern.len() as int;
    assert(pattern.subrange(0, n - 2) =~= prefix);
    assert(ns.subrange(0, prefix.len() as int) =~= prefix);
    assert(pattern[n - 2] == 0x2f);
    assert(pattern[n - 1] == 0x2a);
    assert(ns[prefix.len() as int] == 0x2f);
}

/// A pattern `prefix/*` grants no namespace outside `prefix/`: neither the
/// prefix itself nor a name that merely starts with its text.
pub proof fn law_prefix_pattern_stays_below(prefix: Seq<u8>, ns: Seq<u8>)
    requires
        prefix + seq![0x2fu8, 0x2au8] != ns,
        namespace_matches(prefix + seq![0x2fu8, 0x2au8], ns),
    ensures
        ns.len() > prefix.len(),
        ns.subrange(0, prefix.len() as int) == prefix,
        ns[prefix.len() as int] == 0x2f,
{
    let pattern = prefix + seq![0x2fu8, 0x2au8];
    assert(pattern != seq![0x2au8]) by {
        assert(pattern.len() >= 2);
    }
    let n = pattern.len() as int;
    assert(pattern.subrange(0, n - 2) =~= prefix);
}

/// A pattern that is neither `*` nor ends in `/*` grants exactly the
/// namespace it names.
pub proof fn law_plain_pattern_matches_only_itself(pattern: Seq<u8>, ns: Seq<u8>)
    requires
        pattern != seq![0x2au8],
        !(pattern.len() >= 2 && pattern[pattern.len() - 2] == 0x2f && pattern[pattern.len() - 1] == 0x2a),
    ensures
        namespace_matches(pattern, ns) == (pattern == ns),
{
}

/// A bearer token whose grant holds `*` for an access is authorized for that
/// access on every valid namespace.
pub proof fn law_star_grant_authorizes(
    auth: Authorizer,
    headers: RequestHeaders,
    access: Access,
    token: Seq<u8>,
    grant: TokenGrant,
    i: int,
)
    requires
        headers.protocol matches Some(p) && p@ == protocol_one(),
        headers.namespace matches Some(n) && namespace_valid(utf8(n@)),
        headers.authorization matches Some(h) && bearer_token(utf8(h@)) == Some(token),
        grant_for_token(auth.grants(), token) == Some(grant),
        0 <= i < grant_patterns(grant, access).len(),
        grant_patterns(grant, access)[i]@ == seq!['*'],
    ensures
        auth.decision(headers, access) == Ok::<Seq<char>, ApiErrorView>(headers.namespace.unwrap()@),
{
    lemma_star_bytes();
    let ns = utf8(headers.namespace.unwrap()@);
    assert(namespace_matches(utf8(grant_patterns(grant, access)[i]@), ns));
}

/// Authorization is deny-by-default: a request is granted only when it
/// speaks protocol version 1, names a valid namespace, and either anonymous
/// access is enabled with no grant configured, or it carries the bearer token
/// of a grant one of whose patterns for the access matches the namespace.
pub proof fn law_deny_by_default(auth: Authorizer, headers: RequestHeaders, access: Access)
    ensures
        auth.decision(headers, access) matches Ok(ns) ==> {
            &&& headers.protocol matches Some(p) && p@ == protocol_one()
            &&& headers.namespace matches Some(n) && n@ == ns && namespace_valid(utf8(ns))
            &&& (auth.anonymous() && auth.grants().len() == 0) || (
            headers.authorization matches Some(h) && bearer_token(utf8(h@)) matches Some(token)
                && grant_for_token(auth.grants(), token) matches Some(grant) && patterns_grant(
                grant_patterns(grant, access),
                utf8(ns),
            ))
        },
{
}

impl Authorizer {
    /// The configured grants.
    pub closed spec fn grants(&self) -> Seq<TokenGrant> {
        self.grants@
    }

    /// Whether anonymous access is enabled.
    pub closed spec fn anonymous(&self) -> bool {
        self.allow_anonymous
    }

    /// What a request with these headers is answered: the namespace it may
    /// use, or the error it gets.
    pub open spec fn decision(&self, headers: RequestHeaders, access: Access) -> Result<
        Seq<char>,
        ApiErrorView,
    > {
        if !(headers.protocol matches Some(p) && p@ == protocol_one()) {
            Err(ApiError::upgrade_required_view())
        } else if !(headers.namespace matches Some(ns) && namespace_valid(utf8(ns@))) {
            Err(error_view(400, "a valid Mise-Cache-Namespace header is required"@))
        } else if self.anonymous() && self.grants().len() == 0 {
            Ok(headers.namespace.unwrap()@)
        } else if !(headers.authorization matches Some(h) && bearer_token(utf8(h@)) is Some) {
            Err(error_view(401, "a bearer token is required"@))
        } else {
            let ns = headers.namespace.unwrap()@;
            let token = bearer_token(utf8(headers.authorization.unwrap()@)).unwrap();
            match grant_for_token(self.grants(), token) {
                None => Err(error_view(401, "invalid bearer token"@)),
                Some(grant) => if patterns_grant(grant_patterns(grant, access), utf8(ns)) {
                    Ok(ns)
                } else {
                    Err(error_view(403, "token is not authorized for this namespace"@))
                },
            }
        }
    }

    /// An authorizer over the given grants; no grants at all when `None`.
    pub fn new(grants: Option<Vec<TokenGrant>>, allow_anonymous: bool) -> (r: Self)
        ensures
            r.grants() == (match grants {
                Some(g) => g@,
                None => Seq::<TokenGrant>::empty(),
            }),
            r.anonymous() == allow_anonymous,
    {
        let grants = match grants {
            Some(grants) => grants,
            None => Vec::new(),
        };
        Authorizer { grants, allow_anonymous }
    }

    /// Checks the protocol version, the namespace and the bearer token of a
    /// request, and returns the namespace it may use for `access`.
    #[verifier::loop_isolation(false)]
    pub fn authorize(&self, headers: &RequestHeaders, access: Access) -> (r: Result<
        String,
        ApiError,
    >)
        ensures
            match (r, self.decision(*headers, access)) {
                (Ok(ns), Ok(expected)) => ns@ == expected,
                (Err(e), Err(expected)) => e@ == expected,
                _ => false,
            },
    {
        proof {
            reveal_strlit("1");
            assert("1"@ =~= protocol_one());
        }
        let protocol_ok = match &headers.protocol {
            Some(p) => crate::text::same_text(p.as_str(), "1"),
            None => false,
        };
        if !protocol_ok {
            return Err(ApiError::upgrade_required());
        }
        let namespace = match &headers.namespace {
            Some(ns) => ns,
            None => {
                return Err(ApiError::bad_request("a valid Mise-Cache-Namespace header is required"));
            },
        };
        if !valid_namespace(namespace.as_str()) {
            return Err(ApiError::bad_request("a valid Mise-Cache-Namespace header is required"));
        }
        if self.allow_anonymous && self.grants.len() == 0 {
            return Ok(namespace.clone());
        }
        let header = match &headers.authorization {
            Some(h) => string_bytes(h),
            None => {
                return Err(ApiError::unauthorized("a bearer token is required"));
            },
        };
        if !(header.len() >= 7 && header[0] == 0x42 && header[1] == 0x65 && header[2] == 0x61
            && header[3] == 0x72 && header[4] == 0x65 && header[5] == 0x72 && header[6] == 0x20) {
            proof {
                if header@.len() >= 7 && header@.subrange(0, 7) == bearer_prefix() {
                    assert(header@.subrange(0, 7)[0] == header@[0]);
                    assert(header@.subrange(0, 7)[1] == header@[1]);
                    assert(header@.subrange(0, 7)[2] == header@[2]);
                    assert(header@.subrange(0, 7)[3] == header@[3]);
                    assert(header@.subrange(0, 7)[4] == header@[4]);
                    assert(header@.subrange(0, 7)[5] == header@[5]);
                    assert(header@.subrange(0, 7)[6] == header@[6]);
                }
            }
            return Err(ApiError::unauthorized("a bearer token is required"));
        }
        proof {
            assert(header@.subrange(0, 7) =~= bearer_prefix());
        }
        let (_, token) = header.split_at(7);
        let ghost all = self.grants@;
        proof {
            assert(all.subrange(0, all.len() as int) =~= all);
        }
        let mut i: usize = 0;
        while i < self.grants.len()
            invariant
                all == self.grants@,
                i <= all.len(),
                grant_for_token(all, token@) == grant_for_token(
                    all.subrange(i as int, all.len() as int),
                    token@,
                ),
            decreases all.len() - i,
        {
            let grant = &self.grants[i];
            if constant_time_eq(string_bytes(&grant.token), token) {
                break;
            }
            proof {
                assert(all.subrange(i as int, all.len() as int).drop_first() =~= all.subrange(
                    i + 1,
                    all.len() as int,
                ));
            }
            i = i + 1;
        }
        if i == self.grants.len() {
            proof {
                assert(all.subrange(i as int, all.len() as int) =~= Seq::<TokenGrant>::empty());
            }
            return Err(ApiError::unauthorized("invalid bearer token"));
        }
        let grant = &self.grants[i];
        proof {
            let rest = all.subrange(i as int, all.len() as int);
            assert(rest[0] == all[i as int]);
            assert(grant_for_token(all, token@) == Some(*grant));
        }
        let patterns = match access {
            Access::Read => &grant.read,
            Access::Write => &grant.write,
        };
        let mut j: usize = 0;
        while j < patterns.len()
            invariant
                j <= patterns@.len(),
                forall|k: int|
                    0 <= k < j ==> !namespace_matches(
                        utf8((#[trigger] patterns@[k])@),
                        utf8(namespace@),
                    ),
            decreases patterns@.len() - j,
        {
            if matches_namespace(patterns[j].as_str(), namespace.as_str()) {
                proof {
                    assert(patterns@ == grant_patterns(*grant, access));
                    assert(patterns_grant(patterns@, utf8(namespace@)));
                }
                return Ok(namespace.clone());
            }
            j = j + 1;
        }
        proof {
            assert(patterns@ == grant_patterns(*grant, access));
            assert(!patterns_grant(patterns@, utf8(namespace@)));
        }
        Err(ApiError::forbidden("token is not authorized for this namespace"))
    }
}

} // verus!
