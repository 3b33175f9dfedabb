//! The CORS pre-flight policy: decides, from a pre-flight request and
//! the adapter's configuration, whether the call is allowed and which
//! `Access-Control-*` headers to answer with. The policy is pure: it
//! reads the request and produces a decision, nothing else.

use vstd::prelude::*;

use crate::bytes::{spec_find, lemma_find_take, find_byte_from, bytes_eq, copy_range, views_of};
use crate::headers::{spec_content_type_name, content_type_name, spec_x_grpc_web_name,
    x_grpc_web_name, spec_grpc_timeout_name, grpc_timeout_name, spec_star_value, star_value};

verus! {

/// ASCII `/`.
pub const SLASH: u8 = 47;

/// ASCII `.`.
pub const DOT: u8 = 46;

/// The path shape of a gRPC method, `/package.Service/Method`: two
/// nonempty segments, the first holding a `.`.
pub open spec fn is_grpc_path(p: Seq<u8>) -> bool {
    &&& p.len() >= 1
    &&& p[0] == SLASH
    &&& match spec_find(p.skip(1), SLASH) {
        Some(i) => {
            &&& i > 0
            &&& 1 + i + 1 < p.len()
            &&& spec_find(p.skip(1 + i + 1), SLASH) is None
            &&& spec_find(p.skip(1).take(i), DOT) is Some
        },
        None => false,
    }
}

/// Whether `p` has the `/package.Service/Method` shape.
pub fn check_grpc_path(p: &Vec<u8>) -> (r: bool)
    ensures
        r == is_grpc_path(p@),
{
    if p.len() == 0 {
        return false;
    }
    if p[0] != SLASH {
        return false;
    }
    let k = match find_byte_from(p, SLASH, 1) {
        None => {
            return false;
        },
        Some(k) => k,
    };
    if k <= 1 {
        proof {
            assert(p@.skip(1)[k - 1] == p@[k as int]);
        }
        return false;
    }
    if k + 1 >= p.len() {
        return false;
    }
    match find_byte_from(p, SLASH, k + 1) {
        Some(_) => {
            proof {
                assert(p@.skip(1 + (k - 1) + 1) =~= p@.skip(k + 1));
            }
            return false;
        },
        None => {},
    }
    proof {
        assert(p@.skip(1 + (k - 1) + 1) =~= p@.skip(k + 1));
    }
    let d = match find_byte_from(p, DOT, 1) {
        None => {
            proof {
                lemma_find_take(p@.skip(1), DOT, k - 1);
            }
            return false;
        },
        Some(d) => d,
    };
    proof {
        lemma_find_take(p@.skip(1), DOT, k - 1);
    }
    d < k
}

/// An origin policy: a pure predicate over the `Origin` header value,
/// supplied by the embedder at construction and applied to every
/// pre-flight.
pub trait OriginDecider: Sized {
    /// What the predicate holds of an origin.
    spec fn allows_spec(&self, origin: Seq<u8>) -> bool;

    /// Applies the predicate.
    fn allows(&self, origin: &Vec<u8>) -> (r: bool)
        ensures
            r == self.allows_spec(origin@),
    ;
}

/// The default origin policy: every calling site is allowed, and the
/// answer is the wildcard origin.
#[derive(Debug, Clone, Copy, PartialEq, Eq, Structural)]
pub struct AllowAllOrigins;

impl OriginDecider for AllowAllOrigins {
    open spec fn allows_spec(&self, origin: Seq<u8>) -> bool {
        true
    }

    fn allows(&self, origin: &Vec<u8>) -> (r: bool) {
        true
    }
}

/// An origin policy that admits exactly the origins of a fixed list,
/// byte for byte.
pub struct AllowListOrigins {
    pub allowed: Vec<Vec<u8>>,
}

impl OriginDecider for AllowListOrigins {
    open spec fn allows_spec(&self, origin: Seq<u8>) -> bool {
        views_of(self.allowed@).contains(origin)
    }

    fn allows(&self, origin: &Vec<u8>) -> (r: bool) {
        list_contains(&self.allowed, origin)
    }
}

/// The policy's configuration: an optional allow-list of request
/// header names (wildcard when absent) and whether pre-flights are
/// honoured only for paths of gRPC shape.
pub struct CorsConfig {
    pub allowed_request_headers: Option<Vec<Vec<u8>>>,
    pub cors_for_registered_endpoints_only: bool,
}

/// What a pre-flight request carries: the requested path, the calling
/// site's origin, and the header names the browser asks to send.
pub struct PreflightRequest {
    pub path: Vec<u8>,
    pub origin: Option<Vec<u8>>,
    pub requested_headers: Vec<Vec<u8>>,
}

/// The policy's answer. A denied pre-flight keeps every allow field
/// empty: the response simply omits the `Access-Control-Allow-*`
/// headers and the browser enforces the denial.
pub struct CorsDecision {
    pub allowed: bool,
    pub allow_origin: Option<Vec<u8>>,
    pub allow_headers: Option<Vec<Vec<u8>>>,
    pub allow_credentials: bool,
}

/// The mathematical shape of a decision.
#[verifier::ext_equal]
pub struct CorsDecisionModel {
    pub allowed: bool,
    pub allow_origin: Option<Seq<u8>>,
    pub allow_headers: Option<Seq<Seq<u8>>>,
    pub allow_credentials: bool,
}

impl View for CorsDecision {
    type V = CorsDecisionModel;

    open spec fn view(&self) -> CorsDecisionModel {
        CorsDecisionModel {
            allowed: self.allowed,
            allow_origin: match self.allow_origin {
                None => None,
                Some(o) => Some(o@),
            },
            allow_headers: match self.allow_headers {
                None => None,
                Some(l) => Some(views_of(l@)),
            },
            allow_credentials: self.allow_credentials,
        }
    }
}

/// The header names every gRPC-Web call needs, allowed whatever the
/// configured allow-list says.
pub open spec fn spec_reserved_headers() -> Seq<Seq<u8>> {
    seq![spec_content_type_name(), spec_x_grpc_web_name(), spec_grpc_timeout_name()]
}

/// The requested names that the allow-list admits, in request order.
pub open spec fn spec_intersect(requested: Seq<Seq<u8>>, list: Seq<Seq<u8>>) -> Seq<Seq<u8>>
    decreases requested.len(),
{
    if requested.len() == 0 {
        seq![]
    } else if list.contains(requested[0]) {
        seq![requested[0]] + spec_intersect(requested.drop_first(), list)
    } else {
        spec_intersect(requested.drop_first(), list)
    }
}

/// Intersection distributes over concatenation of the requested list.
pub proof fn lemma_intersect_append(a: Seq<Seq<u8>>, b: Seq<Seq<u8>>, list: Seq<Seq<u8>>)
    ensures
        spec_intersect(a + b, list) == spec_intersect(a, list) + spec_intersect(b, list),
    decreases a.len(),
{
    if a.len() == 0 {
        assert(a + b =~= b);
        assert(seq![] + spec_intersect(b, list) =~= spec_intersect(b, list));
    } else {
        assert((a + b)[0] == a[0]);
        assert((a + b).drop_first() =~= a.drop_first() + b);
        lemma_intersect_append(a.drop_first(), b, list);
        if list.contains(a[0]) {
            assert(seq![a[0]] + (spec_intersect(a.drop_first(), list) + spec_intersect(b, list))
                =~= (seq![a[0]] + spec_intersect(a.drop_first(), list)) + spec_intersect(b, list));
        }
    }
}

/// The headers a decision grants: the requested set verbatim under a
/// wildcard configuration, else the admitted ones followed by the
/// reserved gRPC names.
pub open spec fn spec_allowed_headers(
    requested: Seq<Seq<u8>>,
    list: Option<Seq<Seq<u8>>>,
) -> Seq<Seq<u8>> {
    match list {
        None => requested,
        Some(l) => spec_intersect(requested, l) + spec_reserved_headers(),
    }
}

/// Whether `h` occurs in `list`, as byte-for-byte equality.
fn list_contains(list: &Vec<Vec<u8>>, h: &Vec<u8>) -> (r: bool)
    ensures
        r == views_of(list@).contains(h@),
{
    let ghost m = views_of(list@);
    let mut i: usize = 0;
    while i < list.len()
        invariant
            i <= list@.len(),
            list@.len() == list.len(),
            m == views_of(list@),
            forall|k: int| 0 <= k < i ==> m[k] != h@,
        decreases list@.len() - i,
    {
        if bytes_eq(&list[i], h) {
            proof {
                assert(m[i as int] == h@);
            }
            return true;
        }
        i += 1;
    }
    proof {
        if m.contains(h@) {
            let w = choose|w: int| 0 <= w < m.len() && m[w] == h@;
            assert(m[w] != h@);
        }
    }
    false
}

/// A fresh copy of one byte vector.
fn copy_bytes(b: &Vec<u8>) -> (r: Vec<u8>)
    ensures
        r@ == b@,
{
    let r = copy_range(b, 0, b.len());
    proof {
        assert(b@.subrange(0, b@.len() as int) =~= b@);
    }
    r
}

/// A fresh copy of a list of names.
fn copy_list(l: &Vec<Vec<u8>>) -> (r: Vec<Vec<u8>>)
    ensures
        views_of(r@) == views_of(l@),
{
    let mut r: Vec<Vec<u8>> = Vec::new();
    let mut i: usize = 0;
    while i < l.len()
        invariant
            i <= l@.len(),
            l@.len() == l.len(),
            r@.len() == i,
            forall|j: int| 0 <= j < i ==> r@[j]@ == l@[j]@,
        decreases l@.len() - i,
    {
        let c = copy_bytes(&l[i]);
        r.push(c);
        i += 1;
    }
    proof {
        assert forall|j: int| 0 <= j < l@.len() implies #[trigger] views_of(r@)[j]
            == views_of(l@)[j] by {
            assert(r@[j]@ == l@[j]@);
        }
        assert(views_of(r@) =~= views_of(l@));
    }
    r
}

/// The admitted requested names followed by the reserved gRPC names.
fn intersect_headers(requested: &Vec<Vec<u8>>, list: &Vec<Vec<u8>>) -> (r: Vec<Vec<u8>>)
    ensures
        views_of(r@) == spec_intersect(
            views_of(requested@),
            views_of(list@),
        ) + spec_reserved_headers(),
{
    let ghost rm = views_of(requested@);
    let ghost lm = views_of(list@);
    let mut r: Vec<Vec<u8>> = Vec::new();
    let mut i: usize = 0;
    proof {
        assert(rm.take(0) =~= Seq::<Seq<u8>>::empty());
        assert(spec_intersect(Seq::<Seq<u8>>::empty(), lm) == Seq::<Seq<u8>>::empty());
        assert(views_of(r@) =~= Seq::<Seq<u8>>::empty());
    }
    while i < requested.len()
        invariant
            i <= requested@.len(),
            requested@.len() == requested.len(),
            rm == views_of(requested@),
            lm == views_of(list@),
            views_of(r@) == spec_intersect(rm.take(i as int), lm),
        decreases requested@.len() - i,
    {
        let ghost before = views_of(r@);
        let keep = list_contains(list, &requested[i]);
        if keep {
            let c = copy_bytes(&requested[i]);
            r.push(c);
        }
        proof {
            assert(rm.take(i + 1) =~= rm.take(i as int) + seq![rm[i as int]]);
            lemma_intersect_append(rm.take(i as int), seq![rm[i as int]], lm);
            assert(seq![rm[i as int]].drop_first() =~= Seq::<Seq<u8>>::empty());
            assert(spec_intersect(Seq::<Seq<u8>>::empty(), lm) == Seq::<Seq<u8>>::empty());
            if lm.contains(rm[i as int]) {
                assert(spec_intersect(seq![rm[i as int]], lm) =~= seq![rm[i as int]]);
                assert(views_of(r@) =~= before + seq![rm[i as int]]);
            } else {
                assert(spec_intersect(seq![rm[i as int]], lm) =~= Seq::<Seq<u8>>::empty());
                assert(before + Seq::<Seq<u8>>::empty() =~= before);
            }
            assert(spec_intersect(rm.take(i + 1), lm) =~= spec_intersect(rm.take(i as int), lm)
                + spec_intersect(seq![rm[i as int]], lm));
        }
        i += 1;
    }
    proof {
        assert(rm.take(rm.len() as int) =~= rm);
    }
    r.push(content_type_name());
    r.push(x_grpc_web_name());
    r.push(grpc_timeout_name());
    proof {
        assert(views_of(r@) =~= spec_intersect(rm, lm)
            + spec_reserved_headers());
    }
    r
}

/// What a correct decision says, given the configuration, whether an
/// origin filter is installed and what it answered, and the request:
/// the path gate first, then the origin predicate; the granted headers
/// echo the request under a wildcard configuration, else the admitted
/// intersection plus the reserved gRPC names; a specific origin is
/// echoed, and credentials granted, exactly when a filter admitted it,
/// while the default policy answers the wildcard origin.
pub open spec fn spec_decision_ok(
    registered_only: bool,
    allow_list: Option<Seq<Seq<u8>>>,
    has_filter: bool,
    origin_ok: bool,
    path: Seq<u8>,
    origin: Option<Seq<u8>>,
    requested: Seq<Seq<u8>>,
    d: CorsDecisionModel,
) -> bool {
    let path_ok = !registered_only || is_grpc_path(path);
    &&& d.allowed == (path_ok && origin_ok)
    &&& !d.allowed ==> d.allow_origin is None && d.allow_headers is None && !d.allow_credentials
    &&& d.allowed ==> d.allow_origin == (if has_filter {
        origin
    } else {
        Some(spec_star_value())
    })
    &&& d.allowed ==> d.allow_headers == Some(spec_allowed_headers(requested, allow_list))
    &&& d.allow_credentials == (d.allowed && has_filter)
}

/// What the configured origin policy holds of the request's origin:
/// no filter admits everything; a filter must see an origin and accept
/// it.
pub open spec fn spec_origin_ok<F: OriginDecider>(
    filter: Option<&F>,
    origin: Option<Seq<u8>>,
) -> bool {
    match filter {
        None => true,
        Some(f) => match origin {
            Some(o) => f.allows_spec(o),
            None => false,
        },
    }
}

/// The view of an optional byte vector.
pub open spec fn view_opt(o: Option<Vec<u8>>) -> Option<Seq<u8>> {
    match o {
        None => None,
        Some(v) => Some(v@),
    }
}

/// The view of an optional name list.
pub open spec fn view_opt_list(o: Option<Vec<Vec<u8>>>) -> Option<Seq<Seq<u8>>> {
    match o {
        None => None,
        Some(l) => Some(views_of(l@)),
    }
}

/// Evaluates one pre-flight request against the configuration and the
/// origin policy.
pub fn evaluate<F: OriginDecider>(
    config: &CorsConfig,
    filter: Option<&F>,
    req: &PreflightRequest,
) -> (d: CorsDecision)
    ensures
        spec_decision_ok(
            config.cors_for_registered_endpoints_only,
            view_opt_list(config.allowed_request_headers),
            filter is Some,
            spec_origin_ok(filter, view_opt(req.origin)),
            req.path@,
            view_opt(req.origin),
            views_of(req.requested_headers@),
            d@,
        ),
{
    let denied = CorsDecision {
        allowed: false,
        allow_origin: None,
        allow_headers: None,
        allow_credentials: false,
    };
    if config.cors_for_registered_endpoints_only && !check_grpc_path(&req.path) {
        return denied;
    }
    let (origin_echo, credentials): (Option<Vec<u8>>, bool) = match filter {
        None => (Some(star_value()), false),
        Some(f) => {
            match &req.origin {
                None => {
                    return denied;
                },
                Some(o) => {
                    if f.allows(o) {
                        (Some(copy_bytes(o)), true)
                    } else {
                        return denied;
                    }
                },
            }
        },
    };
    let headers = match &config.allowed_request_headers {
        None => copy_list(&req.requested_headers),
        Some(list) => intersect_headers(&req.requested_headers, list),
    };
    CorsDecision {
        allowed: true,
        allow_origin: origin_echo,
        allow_headers: Some(headers),
        allow_credentials: credentials,
    }
}

} // verus!
