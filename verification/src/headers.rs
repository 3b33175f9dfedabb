//! Header and trailer mapping between the two dialects: the ordered,
//! name-case-normalized header list, the `name: value\r\n` trailer
//! block carried inside a trailer frame, content-type rewriting in
//! both directions, and the stripping of transport-specific
//! pseudo-headers.

use vstd::prelude::*;

use crate::AdapterError;
use crate::bytes::{is_prefix_of, spec_find, lemma_find_unique, starts_with, bytes_eq, extend,
    copy_range, find_byte_from, spec_ct_grpc, spec_ct_grpc_web, ct_grpc, ct_grpc_web};

verus! {

/// ASCII bytes the wire format gives a meaning here.
pub const COLON: u8 = 58;

pub const SPACE: u8 = 32;

pub const CR: u8 = 13;

pub const LF: u8 = 10;

/// One header or trailer field. Names are kept in their normalized
/// lower-case form, as HTTP/2 requires on the wire.
#[derive(Debug, Clone, PartialEq, Eq)]
pub struct HeaderField {
    pub name: Vec<u8>,
    pub value: Vec<u8>,
}

/// The mathematical shape of a field.
#[verifier::ext_equal]
pub struct HeaderFieldModel {
    pub name: Seq<u8>,
    pub value: Seq<u8>,
}

impl View for HeaderField {
    type V = HeaderFieldModel;

    open spec fn view(&self) -> HeaderFieldModel {
        HeaderFieldModel { name: self.name@, value: self.value@ }
    }
}

/// An ordered list of fields. A name may occur several times; the
/// order of its values is preserved.
#[derive(Debug, Clone, PartialEq, Eq)]
pub struct HeaderList {
    pub fields: Vec<HeaderField>,
}

impl View for HeaderList {
    type V = Seq<HeaderFieldModel>;

    open spec fn view(&self) -> Seq<HeaderFieldModel> {
        self.fields@.map_values(|f: HeaderField| f@)
    }
}

/// A byte allowed in a normalized field name: lower-case letters,
/// digits, `-`, `_` and `.`.
pub open spec fn wf_name_byte(b: u8) -> bool {
    (97 <= b <= 122) || (48 <= b <= 57) || b == 45 || b == 95 || b == 46
}

/// A well-formed field name: nonempty and made of name bytes only.
pub open spec fn wf_name(n: Seq<u8>) -> bool {
    n.len() > 0 && forall|i: int| 0 <= i < n.len() ==> wf_name_byte(n[i])
}

/// A well-formed field value: free of the CR and LF that delimit
/// trailer-block lines.
pub open spec fn wf_value(v: Seq<u8>) -> bool {
    forall|i: int| 0 <= i < v.len() ==> v[i] != CR && v[i] != LF
}

/// A field fit for serialization into a trailer block.
pub open spec fn wf_field(f: HeaderFieldModel) -> bool {
    wf_name(f.name) && wf_value(f.value)
}

/// Every field of the list is fit for serialization.
pub open spec fn wf_fields(fs: Seq<HeaderFieldModel>) -> bool {
    forall|i: int| 0 <= i < fs.len() ==> wf_field(fs[i])
}

/// The value of the first field named `name`, if any.
pub open spec fn spec_get(fs: Seq<HeaderFieldModel>, name: Seq<u8>) -> Option<Seq<u8>>
    decreases fs.len(),
{
    if fs.len() == 0 {
        None
    } else if fs[0].name == name {
        Some(fs[0].value)
    } else {
        spec_get(fs.drop_first(), name)
    }
}

/// One serialized trailer line, `name: value` followed by CR LF.
pub open spec fn spec_encode_field(f: HeaderFieldModel) -> Seq<u8> {
    f.name + seq![COLON, SPACE] + f.value + seq![CR, LF]
}

/// The trailer block: every field's line, in order.
pub open spec fn spec_encode_trailers(fs: Seq<HeaderFieldModel>) -> Seq<u8>
    decreases fs.len(),
{
    if fs.len() == 0 {
        seq![]
    } else {
        spec_encode_field(fs[0]) + spec_encode_trailers(fs.drop_first())
    }
}

/// An ASCII upper-case letter folded to lower case; anything else
/// unchanged.
pub open spec fn spec_lower_byte(b: u8) -> u8 {
    if 65 <= b <= 90 {
        (b + 32) as u8
    } else {
        b
    }
}

/// A byte sequence with its ASCII letters folded to lower case.
pub open spec fn spec_lower(s: Seq<u8>) -> Seq<u8> {
    s.map_values(|b: u8| spec_lower_byte(b))
}

/// Folding changes nothing on an already-normalized name.
pub proof fn lemma_lower_of_wf_name(n: Seq<u8>)
    requires
        wf_name(n),
    ensures
        spec_lower(n) == n,
{
    assert forall|i: int| 0 <= i < n.len() implies #[trigger] spec_lower(n)[i] == n[i] by {
        assert(wf_name_byte(n[i]));
    }
    assert(spec_lower(n) =~= n);
}

/// Folds a byte vector's ASCII letters to lower case.
pub fn lower_bytes(v: &Vec<u8>) -> (r: Vec<u8>)
    ensures
        r@ == spec_lower(v@),
{
    let mut r: Vec<u8> = Vec::new();
    let mut i: usize = 0;
    while i < v.len()
        invariant
            i <= v@.len(),
            v@.len() == v.len(),
            r@.len() == i,
            forall|j: int| 0 <= j < i ==> r@[j] == spec_lower_byte(v@[j]),
        decreases v@.len() - i,
    {
        let b = v[i];
        if 65 <= b && b <= 90 {
            r.push(b + 32);
        } else {
            r.push(b);
        }
        i += 1;
    }
    proof {
        assert forall|j: int| 0 <= j < v@.len() implies #[trigger] spec_lower(v@)[j] == r@[j] by {
        }
        assert(r@ =~= spec_lower(v@));
    }
    r
}

/// Parses a trailer block back into its fields — names folded to
/// their normalized lower case — or nothing if the block is not well
/// formed.
pub open spec fn spec_parse_trailers(b: Seq<u8>) -> Option<Seq<HeaderFieldModel>>
    decreases b.len(),
{
    if b.len() == 0 {
        Some(seq![])
    } else {
        match spec_find(b, COLON) {
            None => None,
            Some(i) => {
                if !(0 <= i && i + 2 <= b.len()) {
                    None
                } else if !wf_name(spec_lower(b.subrange(0, i))) {
                    None
                } else if b[i + 1] != SPACE {
                    None
                } else {
                    match spec_find(b.skip(i + 2), CR) {
                        None => None,
                        Some(j) => {
                            if !(0 <= j && i + 2 + j + 2 <= b.len()) {
                                None
                            } else if b[i + 2 + j + 1] != LF {
                                None
                            } else {
                                let f = HeaderFieldModel {
                                    name: spec_lower(b.subrange(0, i)),
                                    value: b.subrange(i + 2, i + 2 + j),
                                };
                                match spec_parse_trailers(b.skip(i + 2 + j + 2)) {
                                    None => None,
                                    Some(fs) => Some(seq![f] + fs),
                                }
                            }
                        },
                    }
                }
            },
        }
    }
}

/// Round trip of the trailer block: serializing well-formed fields and
/// parsing the block back reproduces them exactly, order included.
pub proof fn lemma_trailer_round_trip(fs: Seq<HeaderFieldModel>)
    requires
        wf_fields(fs),
    ensures
        spec_parse_trailers(spec_encode_trailers(fs)) == Some(fs),
    decreases fs.len(),
{
    if fs.len() > 0 {
        let f = fs[0];
        let name = f.name;
        let value = f.value;
        let e = spec_encode_field(f);
        let rest = spec_encode_trailers(fs.drop_first());
        let b = e + rest;
        assert(spec_encode_trailers(fs) == b);
        assert(wf_field(f));
        let i = name.len() as int;
        assert(b.len() == e.len() + rest.len());
        assert(e.len() == name.len() + 4 + value.len());
        assert(b[i] == COLON);
        assert forall|k: int| 0 <= k < i implies b[k] != COLON by {
            assert(b[k] == name[k]);
            assert(wf_name_byte(name[k]));
        }
        lemma_find_unique(b, COLON, i);
        assert(b.subrange(0, i) =~= name);
        lemma_lower_of_wf_name(name);
        assert(b[i + 1] == SPACE);
        let t = b.skip(i + 2);
        let j = value.len() as int;
        assert(t[j] == b[i + 2 + j]);
        assert(b[i + 2 + j] == CR);
        assert forall|k: int| 0 <= k < j implies t[k] != CR by {
            assert(t[k] == b[i + 2 + k]);
            assert(b[i + 2 + k] == value[k]);
        }
        lemma_find_unique(t, CR, j);
        assert(b[i + 2 + j + 1] == LF);
        assert(b.subrange(i + 2, i + 2 + j) =~= value);
        assert(b.skip(i + 2 + j + 2) =~= rest);
        lemma_trailer_round_trip(fs.drop_first());
        let parsed = HeaderFieldModel {
            name: spec_lower(b.subrange(0, i)),
            value: b.subrange(i + 2, i + 2 + j),
        };
        assert(parsed == f);
        assert(seq![f] + fs.drop_first() =~= fs);
    }
}

/// Serialization distributes over concatenation of field lists.
pub proof fn lemma_encode_trailers_append(a: Seq<HeaderFieldModel>, b: Seq<HeaderFieldModel>)
    ensures
        spec_encode_trailers(a + b) == spec_encode_trailers(a) + spec_encode_trailers(b),
    decreases a.len(),
{
    if a.len() == 0 {
        assert(a + b =~= b);
        assert(seq![] + spec_encode_trailers(b) =~= spec_encode_trailers(b));
    } else {
        assert((a + b)[0] == a[0]);
        assert((a + b).drop_first() =~= a.drop_first() + b);
        lemma_encode_trailers_append(a.drop_first(), b);
        assert(spec_encode_field(a[0]) + (spec_encode_trailers(a.drop_first())
            + spec_encode_trailers(b)) =~= (spec_encode_field(a[0]) + spec_encode_trailers(
            a.drop_first(),
        )) + spec_encode_trailers(b));
    }
}

impl HeaderList {
    /// An empty list.
    pub fn new() -> (r: HeaderList)
        ensures
            r@ == Seq::<HeaderFieldModel>::empty(),
    {
        let r = HeaderList { fields: Vec::new() };
        proof {
            assert(r@ =~= Seq::<HeaderFieldModel>::empty());
        }
        r
    }

    /// Appends one field at the end.
    pub fn push(&mut self, name: Vec<u8>, value: Vec<u8>)
        ensures
            final(self)@ == old(self)@.push(HeaderFieldModel { name: name@, value: value@ }),
    {
        let ghost before = self@;
        let ghost f = HeaderFieldModel { name: name@, value: value@ };
        self.fields.push(HeaderField { name, value });
        proof {
            assert(self@ =~= before.push(f));
        }
    }

    /// The number of fields.
    pub fn len(&self) -> (r: usize)
        ensures
            r == self@.len(),
    {
        self.fields.len()
    }

    /// The value of the first field named `name`, if any.
    pub fn get(&self, name: &Vec<u8>) -> (r: Option<&Vec<u8>>)
        ensures
            match r {
                Some(v) => spec_get(self@, name@) == Some(v@),
                None => spec_get(self@, name@) is None,
            },
    {
        let mut i: usize = 0;
        while i < self.fields.len()
            invariant
                i <= self.fields@.len(),
                self@.len() == self.fields@.len(),
                forall|k: int| 0 <= k < i ==> self@[k].name != name@,
            decreases self.fields@.len() - i,
        {
            if bytes_eq(&self.fields[i].name, name) {
                proof {
                    lemma_get_skip(self@, name@, i as int);
                }
                return Some(&self.fields[i].value);
            }
            i += 1;
        }
        proof {
            lemma_get_skip(self@, name@, self@.len() as int);
            assert(self@.skip(self@.len() as int).len() == 0);
        }
        None
    }
}

/// A lookup may start past any run of fields with other names.
proof fn lemma_get_skip(fs: Seq<HeaderFieldModel>, name: Seq<u8>, i: int)
    requires
        0 <= i <= fs.len(),
        forall|k: int| 0 <= k < i ==> fs[k].name != name,
    ensures
        spec_get(fs, name) == spec_get(fs.skip(i), name),
    decreases i,
{
    if i > 0 {
        assert(fs[0].name != name);
        lemma_get_skip(fs.drop_first(), name, i - 1);
        assert(fs.drop_first().skip(i - 1) =~= fs.skip(i));
    } else {
        assert(fs.skip(0) =~= fs);
    }
}

/// Serializes a trailer set into the body of a trailer frame.
pub fn encode_trailers(t: &HeaderList) -> (r: Vec<u8>)
    ensures
        r@ == spec_encode_trailers(t@),
{
    let mut r: Vec<u8> = Vec::new();
    let mut i: usize = 0;
    proof {
        assert(t@.take(0) =~= Seq::<HeaderFieldModel>::empty());
    }
    while i < t.fields.len()
        invariant
            i <= t.fields@.len(),
            t@.len() == t.fields@.len(),
            r@ == spec_encode_trailers(t@.take(i as int)),
        decreases t.fields@.len() - i,
    {
        let ghost before = r@;
        extend(&mut r, &t.fields[i].name);
        r.push(COLON);
        r.push(SPACE);
        extend(&mut r, &t.fields[i].value);
        r.push(CR);
        r.push(LF);
        proof {
            let f = t@[i as int];
            assert(t@.take(i + 1) =~= t@.take(i as int) + seq![f]);
            lemma_encode_trailers_append(t@.take(i as int), seq![f]);
            assert(seq![f].drop_first() =~= Seq::<HeaderFieldModel>::empty());
            assert(spec_encode_trailers(Seq::<HeaderFieldModel>::empty()) == Seq::<u8>::empty());
            assert(spec_encode_trailers(seq![f]) == spec_encode_field(f) + spec_encode_trailers(
                seq![f].drop_first(),
            ));
            assert(spec_encode_trailers(seq![f]) =~= spec_encode_field(f));
            assert(r@ =~= before + spec_encode_field(f));
        }
        i += 1;
    }
    proof {
        assert(t@.take(t@.len() as int) =~= t@);
    }
    r
}

/// A byte fit for a normalized name, as `wf_name_byte` says.
fn name_byte_ok(b: u8) -> (r: bool)
    ensures
        r == wf_name_byte(b),
{
    (97 <= b && b <= 122) || (48 <= b && b <= 57) || b == 45 || b == 95 || b == 46
}

/// Whether `n` is a well-formed normalized field name.
pub fn check_name(n: &Vec<u8>) -> (r: bool)
    ensures
        r == wf_name(n@),
{
    if n.len() == 0 {
        return false;
    }
    let mut i: usize = 0;
    while i < n.len()
        invariant
            i <= n@.len(),
            n@.len() == n.len(),
            forall|k: int| 0 <= k < i ==> wf_name_byte(n@[k]),
        decreases n.len() - i,
    {
        if !name_byte_ok(n[i]) {
            return false;
        }
        i += 1;
    }
    true
}

/// Parses the body of a trailer frame back into a trailer set;
/// a malformed block is a framing error.
pub fn decode_trailers(b: &Vec<u8>) -> (r: Result<HeaderList, AdapterError>)
    ensures
        match r {
            Ok(t) => spec_parse_trailers(b@) == Some(t@),
            Err(e) => spec_parse_trailers(b@) is None && e == AdapterError::Framing,
        },
{
    let mut pos: usize = 0;
    let mut fields: Vec<HeaderField> = Vec::new();
    proof {
        assert(b@.skip(0) =~= b@);
    }
    while pos < b.len()
        invariant
            pos <= b@.len(),
            b@.len() == b.len(),
            match spec_parse_trailers(b@.skip(pos as int)) {
                Some(fs) => spec_parse_trailers(b@) == Some(
                    fields@.map_values(|f: HeaderField| f@) + fs,
                ),
                None => spec_parse_trailers(b@) is None,
            },
        decreases b@.len() - pos,
    {
        let ghost sp = b@.skip(pos as int);
        let i = match find_byte_from(b, COLON, pos) {
            None => {
                return Err(AdapterError::Framing);
            },
            Some(i) => i,
        };
        let ghost si = i - pos;
        if i + 1 >= b.len() {
            return Err(AdapterError::Framing);
        }
        let name = lower_bytes(&copy_range(b, pos, i));
        proof {
            assert(sp.subrange(0, si as int) =~= b@.subrange(pos as int, i as int));
        }
        if !check_name(&name) {
            return Err(AdapterError::Framing);
        }
        if b[i + 1] != SPACE {
            proof {
                assert(sp[si + 1] == b@[i + 1]);
            }
            return Err(AdapterError::Framing);
        }
        proof {
            assert(sp[si + 1] == b@[i + 1]);
            assert(sp.skip(si + 2) =~= b@.skip(i + 2));
        }
        let k = match find_byte_from(b, CR, i + 2) {
            None => {
                return Err(AdapterError::Framing);
            },
            Some(k) => k,
        };
        let ghost sj = k - (i + 2);
        if k + 1 >= b.len() {
            return Err(AdapterError::Framing);
        }
        if b[k + 1] != LF {
            proof {
                assert(sp[si + 2 + sj + 1] == b@[k + 1]);
            }
            return Err(AdapterError::Framing);
        }
        let value = copy_range(b, i + 2, k);
        proof {
            assert(sp[si + 2 + sj + 1] == b@[k + 1]);
            assert(sp.subrange(si + 2, si + 2 + sj) =~= b@.subrange(i + 2, k as int));
            assert(sp.skip(si + 2 + sj + 2) =~= b@.skip(k + 2));
        }
        let ghost fields_before = fields@;
        let ghost fm = HeaderFieldModel { name: name@, value: value@ };
        fields.push(HeaderField { name, value });
        proof {
            assert(fields@.map_values(|f: HeaderField| f@) =~= fields_before.map_values(
                |f: HeaderField| f@,
            ).push(fm));
            match spec_parse_trailers(b@.skip(k + 2)) {
                Some(fs2) => {
                    assert(spec_parse_trailers(sp) == Some(seq![fm] + fs2));
                    assert(fields_before.map_values(|f: HeaderField| f@) + (seq![fm] + fs2)
                        =~= fields_before.map_values(|f: HeaderField| f@).push(fm) + fs2);
                },
                None => {},
            }
        }
        pos = k + 2;
    }
    proof {
        assert(b@.skip(pos as int) =~= Seq::<u8>::empty());
        assert(spec_parse_trailers(b@.skip(pos as int)) == Some(Seq::<HeaderFieldModel>::empty()));
        let m = fields@.map_values(|f: HeaderField| f@);
        assert(m + Seq::<HeaderFieldModel>::empty() =~= m);
    }
    Ok(HeaderList { fields })
}

/// Rewrites a gRPC-Web content type to its native form, keeping any
/// codec suffix; other values pass through.
pub open spec fn spec_web_to_native_ct(ct: Seq<u8>) -> Seq<u8> {
    if is_prefix_of(spec_ct_grpc_web(), ct) {
        spec_ct_grpc() + ct.skip(spec_ct_grpc_web().len() as int)
    } else {
        ct
    }
}

/// Rewrites a native gRPC content type to its gRPC-Web form, keeping
/// any codec suffix; a value already in web form, or foreign, passes
/// through.
pub open spec fn spec_native_to_web_ct(ct: Seq<u8>) -> Seq<u8> {
    if is_prefix_of(spec_ct_grpc_web(), ct) {
        ct
    } else if is_prefix_of(spec_ct_grpc(), ct) {
        spec_ct_grpc_web() + ct.skip(spec_ct_grpc().len() as int)
    } else {
        ct
    }
}

/// The four bytes of `-web`, the discriminating run between the two
/// content-type prefixes.
pub open spec fn spec_dash_web() -> Seq<u8> {
    seq![45u8, 119u8, 101u8, 98u8]
}

/// Idempotence of the rewrite, web side: rewriting a gRPC-Web content
/// type to native and back yields the original, for every codec
/// suffix that does not itself begin with `-web`.
pub proof fn lemma_ct_round_trip_web(ct: Seq<u8>)
    requires
        is_prefix_of(spec_ct_grpc_web(), ct),
        !is_prefix_of(spec_dash_web(), ct.skip(spec_ct_grpc_web().len() as int)),
    ensures
        spec_native_to_web_ct(spec_web_to_native_ct(ct)) == ct,
{
    let s = ct.skip(20);
    let m = spec_ct_grpc() + s;
    assert(spec_web_to_native_ct(ct) == m);
    assert(!is_prefix_of(spec_ct_grpc_web(), m)) by {
        if is_prefix_of(spec_ct_grpc_web(), m) {
            assert(s.len() >= 4);
            assert forall|k: int| 0 <= k < 4 implies s[k] == spec_dash_web()[k] by {
                assert(m[16 + k] == s[k]);
                assert(m.subrange(0, 20)[16 + k] == m[16 + k]);
                assert(spec_ct_grpc_web()[16 + k] == spec_dash_web()[k]);
            }
            assert(s.subrange(0, 4) =~= spec_dash_web());
        }
    }
    assert(is_prefix_of(spec_ct_grpc(), m)) by {
        assert(m.subrange(0, 16) =~= spec_ct_grpc());
    }
    assert(m.skip(16) =~= s);
    assert(spec_ct_grpc_web() + s =~= ct);
}

/// Idempotence of the rewrite, native side: rewriting a native gRPC
/// content type to web form and back yields the original.
pub proof fn lemma_ct_round_trip_native(ct: Seq<u8>)
    requires
        is_prefix_of(spec_ct_grpc(), ct),
        !is_prefix_of(spec_ct_grpc_web(), ct),
    ensures
        spec_web_to_native_ct(spec_native_to_web_ct(ct)) == ct,
{
    let s = ct.skip(16);
    let m = spec_ct_grpc_web() + s;
    assert(spec_native_to_web_ct(ct) == m);
    assert(is_prefix_of(spec_ct_grpc_web(), m)) by {
        assert(m.subrange(0, 20) =~= spec_ct_grpc_web());
    }
    assert(m.skip(20) =~= s);
    assert(spec_ct_grpc() + s =~= ct);
}

/// Rewrites a content-type value from gRPC-Web form to native form.
pub fn web_to_native_ct(ct: &Vec<u8>) -> (r: Vec<u8>)
    ensures
        r@ == spec_web_to_native_ct(ct@),
{
    let web = ct_grpc_web();
    if starts_with(ct, &web) {
        let mut r = ct_grpc();
        let tail = copy_range(ct, web.len(), ct.len());
        extend(&mut r, &tail);
        proof {
            assert(ct@.subrange(20, ct@.len() as int) =~= ct@.skip(20));
        }
        r
    } else {
        let r = copy_range(ct, 0, ct.len());
        proof {
            assert(ct@.subrange(0, ct@.len() as int) =~= ct@);
        }
        r
    }
}

/// Rewrites a content-type value from native form to gRPC-Web form.
pub fn native_to_web_ct(ct: &Vec<u8>) -> (r: Vec<u8>)
    ensures
        r@ == spec_native_to_web_ct(ct@),
{
    let web = ct_grpc_web();
    let native = ct_grpc();
    if starts_with(ct, &web) {
        let r = copy_range(ct, 0, ct.len());
        proof {
            assert(ct@.subrange(0, ct@.len() as int) =~= ct@);
        }
        r
    } else if starts_with(ct, &native) {
        let mut r = ct_grpc_web();
        let tail = copy_range(ct, native.len(), ct.len());
        extend(&mut r, &tail);
        proof {
            assert(ct@.subrange(16, ct@.len() as int) =~= ct@.skip(16));
        }
        r
    } else {
        let r = copy_range(ct, 0, ct.len());
        proof {
            assert(ct@.subrange(0, ct@.len() as int) =~= ct@);
        }
        r
    }
}

/// ASCII `,`.
pub const COMMA: u8 = 44;

/// One field after the request rewrite: a `content-type` value turned
/// from gRPC-Web form to native form, any other field untouched.
pub open spec fn spec_field_to_native(f: HeaderFieldModel) -> HeaderFieldModel {
    if f.name == spec_content_type_name() {
        HeaderFieldModel { name: f.name, value: spec_web_to_native_ct(f.value) }
    } else {
        f
    }
}

/// One field after the response rewrite, the inverse direction.
pub open spec fn spec_field_to_web(f: HeaderFieldModel) -> HeaderFieldModel {
    if f.name == spec_content_type_name() {
        HeaderFieldModel { name: f.name, value: spec_native_to_web_ct(f.value) }
    } else {
        f
    }
}

/// Every field of the list, rewritten toward native gRPC.
pub open spec fn spec_headers_to_native(fs: Seq<HeaderFieldModel>) -> Seq<HeaderFieldModel> {
    fs.map_values(|f: HeaderFieldModel| spec_field_to_native(f))
}

/// Every field of the list, rewritten toward gRPC-Web.
pub open spec fn spec_headers_to_web(fs: Seq<HeaderFieldModel>) -> Seq<HeaderFieldModel> {
    fs.map_values(|f: HeaderFieldModel| spec_field_to_web(f))
}

/// Rewrites a header list toward native gRPC.
pub fn headers_to_native(h: &HeaderList) -> (r: HeaderList)
    ensures
        r@ == spec_headers_to_native(h@),
{
    let name = content_type_name();
    let mut out = HeaderList::new();
    let mut i: usize = 0;
    while i < h.fields.len()
        invariant
            i <= h.fields@.len(),
            h@.len() == h.fields@.len(),
            name@ == spec_content_type_name(),
            out@ == spec_headers_to_native(h@.take(i as int)),
        decreases h.fields@.len() - i,
    {
        let f = &h.fields[i];
        let n = copy_range(&f.name, 0, f.name.len());
        let v = if bytes_eq(&f.name, &name) {
            web_to_native_ct(&f.value)
        } else {
            copy_range(&f.value, 0, f.value.len())
        };
        out.push(n, v);
        proof {
            assert(f.name@.subrange(0, f.name@.len() as int) =~= f.name@);
            assert(f.value@.subrange(0, f.value@.len() as int) =~= f.value@);
            let fm = h@[i as int];
            assert(fm == f@);
            assert(n@ == fm.name);
            assert(fm.name == spec_content_type_name() ==> v@ == spec_web_to_native_ct(fm.value));
            assert(fm.name != spec_content_type_name() ==> v@ == fm.value);
            assert(HeaderFieldModel { name: n@, value: v@ } =~= spec_field_to_native(fm));
            assert(h@.take(i + 1) =~= h@.take(i as int).push(fm));
            assert(spec_headers_to_native(h@.take(i as int).push(fm)) =~= spec_headers_to_native(
                h@.take(i as int),
            ).push(spec_field_to_native(fm)));
            assert(out@ =~= spec_headers_to_native(h@.take(i + 1)));
        }
        i += 1;
    }
    proof {
        assert(h@.take(h@.len() as int) =~= h@);
    }
    out
}

/// Rewrites a header list toward gRPC-Web.
pub fn headers_to_web(h: &HeaderList) -> (r: HeaderList)
    ensures
        r@ == spec_headers_to_web(h@),
{
    let name = content_type_name();
    let mut out = HeaderList::new();
    let mut i: usize = 0;
    while i < h.fields.len()
        invariant
            i <= h.fields@.len(),
            h@.len() == h.fields@.len(),
            name@ == spec_content_type_name(),
            out@ == spec_headers_to_web(h@.take(i as int)),
        decreases h.fields@.len() - i,
    {
        let f = &h.fields[i];
        let n = copy_range(&f.name, 0, f.name.len());
        let v = if bytes_eq(&f.name, &name) {
            native_to_web_ct(&f.value)
        } else {
            copy_range(&f.value, 0, f.value.len())
        };
        out.push(n, v);
        proof {
            assert(f.name@.subrange(0, f.name@.len() as int) =~= f.name@);
            assert(f.value@.subrange(0, f.value@.len() as int) =~= f.value@);
            let fm = h@[i as int];
            assert(fm == f@);
            assert(HeaderFieldModel { name: n@, value: v@ } =~= spec_field_to_web(fm));
            assert(h@.take(i + 1) =~= h@.take(i as int).push(fm));
            assert(spec_headers_to_web(h@.take(i as int).push(fm)) =~= spec_headers_to_web(
                h@.take(i as int),
            ).push(spec_field_to_web(fm)));
            assert(out@ =~= spec_headers_to_web(h@.take(i + 1)));
        }
        i += 1;
    }
    proof {
        assert(h@.take(h@.len() as int) =~= h@);
    }
    out
}

/// The list with the default native content type appended when none
/// is present; a list that already names one is unchanged.
pub open spec fn spec_with_default_ct(fs: Seq<HeaderFieldModel>) -> Seq<HeaderFieldModel> {
    if spec_get(fs, spec_content_type_name()) is Some {
        fs
    } else {
        fs.push(
            HeaderFieldModel { name: spec_content_type_name(), value: spec_ct_grpc() },
        )
    }
}

/// Appends the default native content type when none is present.
pub fn with_default_ct(h: HeaderList) -> (r: HeaderList)
    ensures
        r@ == spec_with_default_ct(h@),
{
    let mut r = h;
    let name = content_type_name();
    if r.get(&name).is_none() {
        r.push(name, ct_grpc());
    }
    r
}

/// A field that survives the transport strip: anything but an
/// HTTP/2-style pseudo-header, whose name begins with `:`.
pub open spec fn spec_keep_field(f: HeaderFieldModel) -> bool {
    !(f.name.len() > 0 && f.name[0] == COLON)
}

/// The list without its transport-specific pseudo-headers.
pub open spec fn spec_strip_transport(fs: Seq<HeaderFieldModel>) -> Seq<HeaderFieldModel>
    decreases fs.len(),
{
    if fs.len() == 0 {
        seq![]
    } else if spec_keep_field(fs[0]) {
        seq![fs[0]] + spec_strip_transport(fs.drop_first())
    } else {
        spec_strip_transport(fs.drop_first())
    }
}

/// The strip distributes over concatenation.
pub proof fn lemma_strip_append(a: Seq<HeaderFieldModel>, b: Seq<HeaderFieldModel>)
    ensures
        spec_strip_transport(a + b) == spec_strip_transport(a) + spec_strip_transport(b),
    decreases a.len(),
{
    if a.len() == 0 {
        assert(a + b =~= b);
        assert(seq![] + spec_strip_transport(b) =~= spec_strip_transport(b));
    } else {
        assert((a + b)[0] == a[0]);
        assert((a + b).drop_first() =~= a.drop_first() + b);
        lemma_strip_append(a.drop_first(), b);
        if spec_keep_field(a[0]) {
            assert(seq![a[0]] + (spec_strip_transport(a.drop_first()) + spec_strip_transport(b))
                =~= (seq![a[0]] + spec_strip_transport(a.drop_first())) + spec_strip_transport(b));
        }
    }
}

/// Drops the pseudo-headers of the source transport.
pub fn strip_transport_headers(h: &HeaderList) -> (r: HeaderList)
    ensures
        r@ == spec_strip_transport(h@),
{
    let mut out = HeaderList::new();
    let mut i: usize = 0;
    while i < h.fields.len()
        invariant
            i <= h.fields@.len(),
            h@.len() == h.fields@.len(),
            out@ == spec_strip_transport(h@.take(i as int)),
        decreases h.fields@.len() - i,
    {
        let f = &h.fields[i];
        let ghost before = out@;
        if f.name.len() == 0 || f.name[0] != COLON {
            let n = copy_range(&f.name, 0, f.name.len());
            let v = copy_range(&f.value, 0, f.value.len());
            out.push(n, v);
            proof {
                assert(f.name@.subrange(0, f.name@.len() as int) =~= f.name@);
                assert(f.value@.subrange(0, f.value@.len() as int) =~= f.value@);
            }
        }
        proof {
            let fm = h@[i as int];
            assert(h@.take(i + 1) =~= h@.take(i as int) + seq![fm]);
            lemma_strip_append(h@.take(i as int), seq![fm]);
            assert(seq![fm].drop_first() =~= Seq::<HeaderFieldModel>::empty());
            assert(spec_strip_transport(Seq::<HeaderFieldModel>::empty())
                == Seq::<HeaderFieldModel>::empty());
            if spec_keep_field(fm) {
                assert(spec_strip_transport(seq![fm]) =~= seq![fm]);
                assert(out@ =~= before + seq![fm]);
            } else {
                assert(spec_strip_transport(seq![fm]) =~= Seq::<HeaderFieldModel>::empty());
                assert(before + Seq::<HeaderFieldModel>::empty() =~= before);
            }
        }
        i += 1;
    }
    proof {
        assert(h@.take(h@.len() as int) =~= h@);
    }
    out
}

/// Splits a comma-separated header value into its items, order kept;
/// items are not trimmed.
pub open spec fn spec_split_commas(s: Seq<u8>) -> Seq<Seq<u8>>
    decreases s.len(),
{
    if s.len() == 0 {
        seq![]
    } else {
        match spec_find(s, COMMA) {
            None => seq![s],
            Some(i) => {
                if 0 <= i < s.len() {
                    seq![s.subrange(0, i)] + spec_split_commas(s.skip(i + 1))
                } else {
                    seq![s]
                }
            },
        }
    }
}

/// Splits a comma-separated value into its items.
pub fn split_commas(s: &Vec<u8>) -> (r: Vec<Vec<u8>>)
    ensures
        crate::bytes::views_of(r@) == spec_split_commas(s@),
{
    let mut out: Vec<Vec<u8>> = Vec::new();
    let mut pos: usize = 0;
    proof {
        assert(s@.skip(0) =~= s@);
        assert(crate::bytes::views_of(out@) =~= Seq::<Seq<u8>>::empty());
    }
    while pos < s.len()
        invariant
            pos <= s@.len(),
            s@.len() == s.len(),
            crate::bytes::views_of(out@) + spec_split_commas(s@.skip(pos as int))
                == spec_split_commas(s@),
        decreases s@.len() - pos,
    {
        let ghost sp = s@.skip(pos as int);
        let ghost before = crate::bytes::views_of(out@);
        match find_byte_from(s, COMMA, pos) {
            None => {
                let item = copy_range(s, pos, s.len());
                out.push(item);
                proof {
                    assert(sp =~= s@.subrange(pos as int, s@.len() as int));
                    assert(spec_split_commas(sp) == seq![sp]);
                    assert(crate::bytes::views_of(out@) =~= before + seq![sp]);
                    assert(s@.skip(s@.len() as int) =~= Seq::<u8>::empty());
                    assert(spec_split_commas(Seq::<u8>::empty()) == Seq::<Seq<u8>>::empty());
                    assert(before + (seq![sp] + Seq::<Seq<u8>>::empty()) =~= (before + seq![sp])
                        + Seq::<Seq<u8>>::empty());
                    assert(seq![sp] + Seq::<Seq<u8>>::empty() =~= seq![sp]);
                }
                pos = s.len();
            },
            Some(k) => {
                let item = copy_range(s, pos, k);
                out.push(item);
                proof {
                    assert(sp.subrange(0, k - pos) =~= s@.subrange(pos as int, k as int));
                    assert(sp.skip((k - pos) + 1) =~= s@.skip(k + 1));
                    assert(spec_split_commas(sp) == seq![sp.subrange(0, k - pos)]
                        + spec_split_commas(s@.skip(k + 1)));
                    assert(crate::bytes::views_of(out@) =~= before + seq![sp.subrange(
                        0,
                        k - pos,
                    )]);
                    assert(before + (seq![sp.subrange(0, k - pos)] + spec_split_commas(
                        s@.skip(k + 1),
                    )) =~= (before + seq![sp.subrange(0, k - pos)]) + spec_split_commas(
                        s@.skip(k + 1),
                    ));
                }
                pos = k + 1;
            },
        }
    }
    proof {
        assert(s@.skip(pos as int) =~= Seq::<u8>::empty());
        assert(spec_split_commas(Seq::<u8>::empty()) == Seq::<Seq<u8>>::empty());
        assert(crate::bytes::views_of(out@) + Seq::<Seq<u8>>::empty() =~= crate::bytes::views_of(
            out@,
        ));
    }
    out
}

/// The decimal digits of `n`.
pub open spec fn spec_decimal(n: u64) -> Seq<u8>
    decreases n,
{
    if n < 10 {
        seq![(48 + n) as u8]
    } else {
        spec_decimal(n / 10) + seq![(48 + (n % 10)) as u8]
    }
}

/// Writes `n` in decimal ASCII.
pub fn u64_to_decimal(n: u64) -> (r: Vec<u8>)
    ensures
        r@ == spec_decimal(n),
    decreases n,
{
    if n < 10 {
        let mut r: Vec<u8> = Vec::new();
        r.push(48 + (n as u8));
        proof {
            assert(r@ =~= spec_decimal(n));
        }
        r
    } else {
        let mut r = u64_to_decimal(n / 10);
        r.push(48 + ((n % 10) as u8));
        proof {
            assert(r@ =~= spec_decimal(n));
        }
        r
    }
}

/// The trailer set that carries a call status: `grpc-status` with the
/// decimal code, then `grpc-message` if a message is given.
pub fn status_trailers(status: u64, message: Option<&Vec<u8>>) -> (r: HeaderList)
    ensures
        ({
            let head = HeaderFieldModel {
                name: spec_grpc_status_name(),
                value: spec_decimal(status),
            };
            match message {
                None => r@ == seq![head],
                Some(m) => r@ == seq![
                    head,
                    HeaderFieldModel { name: spec_grpc_message_name(), value: m@ },
                ],
            }
        }),
{
    let mut r = HeaderList::new();
    r.push(grpc_status_name(), u64_to_decimal(status));
    match message {
        None => {},
        Some(m) => {
            r.push(grpc_message_name(), copy_range(m, 0, m.len()));
            proof {
                assert(m@.subrange(0, m@.len() as int) =~= m@);
            }
        },
    }
    proof {
        match message {
            None => {
                assert(r@ =~= seq![
                    HeaderFieldModel {
                        name: spec_grpc_status_name(),
                        value: spec_decimal(status),
                    },
                ]);
            },
            Some(m) => {
                assert(r@ =~= seq![
                    HeaderFieldModel {
                        name: spec_grpc_status_name(),
                        value: spec_decimal(status),
                    },
                    HeaderFieldModel { name: spec_grpc_message_name(), value: m@ },
                ]);
            },
        }
    }
    r
}

/// `content-type` as a byte sequence.
pub open spec fn spec_content_type_name() -> Seq<u8> {
    seq![99u8, 111u8, 110u8, 116u8, 101u8, 110u8, 116u8, 45u8, 116u8, 121u8, 112u8, 101u8]
}

/// `content-type` as a byte vector.
pub fn content_type_name() -> (r: Vec<u8>)
    ensures
        r@ == spec_content_type_name(),
{
    let a: [u8; 12] = [99, 111, 110, 116, 101, 110, 116, 45, 116, 121, 112, 101];
    let r = vstd::slice::slice_to_vec(a.as_slice());
    proof {
        assert(r@ =~= spec_content_type_name());
    }
    r
}

/// `x-grpc-web` as a byte sequence.
pub open spec fn spec_x_grpc_web_name() -> Seq<u8> {
    seq![120u8, 45u8, 103u8, 114u8, 112u8, 99u8, 45u8, 119u8, 101u8, 98u8]
}

/// `x-grpc-web` as a byte vector.
pub fn x_grpc_web_name() -> (r: Vec<u8>)
    ensures
        r@ == spec_x_grpc_web_name(),
{
    let a: [u8; 10] = [120, 45, 103, 114, 112, 99, 45, 119, 101, 98];
    let r = vstd::slice::slice_to_vec(a.as_slice());
    proof {
        assert(r@ =~= spec_x_grpc_web_name());
    }
    r
}

/// `grpc-timeout` as a byte sequence.
pub open spec fn spec_grpc_timeout_name() -> Seq<u8> {
    seq![103u8, 114u8, 112u8, 99u8, 45u8, 116u8, 105u8, 109u8, 101u8, 111u8, 117u8, 116u8]
}

/// `grpc-timeout` as a byte vector.
pub fn grpc_timeout_name() -> (r: Vec<u8>)
    ensures
        r@ == spec_grpc_timeout_name(),
{
    let a: [u8; 12] = [103, 114, 112, 99, 45, 116, 105, 109, 101, 111, 117, 116];
    let r = vstd::slice::slice_to_vec(a.as_slice());
    proof {
        assert(r@ =~= spec_grpc_timeout_name());
    }
    r
}

/// `grpc-status` as a byte sequence.
pub open spec fn spec_grpc_status_name() -> Seq<u8> {
    seq![103u8, 114u8, 112u8, 99u8, 45u8, 115u8, 116u8, 97u8, 116u8, 117u8, 115u8]
}

/// `grpc-status` as a byte vector.
pub fn grpc_status_name() -> (r: Vec<u8>)
    ensures
        r@ == spec_grpc_status_name(),
{
    let a: [u8; 11] = [103, 114, 112, 99, 45, 115, 116, 97, 116, 117, 115];
    let r = vstd::slice::slice_to_vec(a.as_slice());
    proof {
        assert(r@ =~= spec_grpc_status_name());
    }
    r
}

/// `grpc-message` as a byte sequence.
pub open spec fn spec_grpc_message_name() -> Seq<u8> {
    seq![103u8, 114u8, 112u8, 99u8, 45u8, 109u8, 101u8, 115u8, 115u8, 97u8, 103u8, 101u8]
}

/// `grpc-message` as a byte vector.
pub fn grpc_message_name() -> (r: Vec<u8>)
    ensures
        r@ == spec_grpc_message_name(),
{
    let a: [u8; 12] = [103, 114, 112, 99, 45, 109, 101, 115, 115, 97, 103, 101];
    let r = vstd::slice::slice_to_vec(a.as_slice());
    proof {
        assert(r@ =~= spec_grpc_message_name());
    }
    r
}

/// `origin` as a byte sequence.
pub open spec fn spec_origin_name() -> Seq<u8> {
    seq![111u8, 114u8, 105u8, 103u8, 105u8, 110u8]
}

/// `origin` as a byte vector.
pub fn origin_name() -> (r: Vec<u8>)
    ensures
        r@ == spec_origin_name(),
{
    let a: [u8; 6] = [111, 114, 105, 103, 105, 110];
    let r = vstd::slice::slice_to_vec(a.as_slice());
    proof {
        assert(r@ =~= spec_origin_name());
    }
    r
}

/// `access-control-request-method` as a byte sequence.
pub open spec fn spec_acr_method_name() -> Seq<u8> {
    seq![97u8, 99u8, 99u8, 101u8, 115u8, 115u8, 45u8, 99u8, 111u8, 110u8, 116u8, 114u8, 111u8, 108u8, 45u8, 114u8, 101u8, 113u8, 117u8, 101u8, 115u8, 116u8, 45u8, 109u8, 101u8, 116u8, 104u8, 111u8, 100u8]
}

/// `access-control-request-method` as a byte vector.
pub fn acr_method_name() -> (r: Vec<u8>)
    ensures
        r@ == spec_acr_method_name(),
{
    let a: [u8; 29] = [97, 99, 99, 101, 115, 115, 45, 99, 111, 110, 116, 114, 111, 108, 45, 114, 101, 113, 117, 101, 115, 116, 45, 109, 101, 116, 104, 111, 100];
    let r = vstd::slice::slice_to_vec(a.as_slice());
    proof {
        assert(r@ =~= spec_acr_method_name());
    }
    r
}

/// `access-control-request-headers` as a byte sequence.
pub open spec fn spec_acr_headers_name() -> Seq<u8> {
    seq![97u8, 99u8, 99u8, 101u8, 115u8, 115u8, 45u8, 99u8, 111u8, 110u8, 116u8, 114u8, 111u8, 108u8, 45u8, 114u8, 101u8, 113u8, 117u8, 101u8, 115u8, 116u8, 45u8, 104u8, 101u8, 97u8, 100u8, 101u8, 114u8, 115u8]
}

/// `access-control-request-headers` as a byte vector.
pub fn acr_headers_name() -> (r: Vec<u8>)
    ensures
        r@ == spec_acr_headers_name(),
{
    let a: [u8; 30] = [97, 99, 99, 101, 115, 115, 45, 99, 111, 110, 116, 114, 111, 108, 45, 114, 101, 113, 117, 101, 115, 116, 45, 104, 101, 97, 100, 101, 114, 115];
    let r = vstd::slice::slice_to_vec(a.as_slice());
    proof {
        assert(r@ =~= spec_acr_headers_name());
    }
    r
}

/// `access-control-allow-origin` as a byte sequence.
pub open spec fn spec_aca_origin_name() -> Seq<u8> {
    seq![97u8, 99u8, 99u8, 101u8, 115u8, 115u8, 45u8, 99u8, 111u8, 110u8, 116u8, 114u8, 111u8, 108u8, 45u8, 97u8, 108u8, 108u8, 111u8, 119u8, 45u8, 111u8, 114u8, 105u8, 103u8, 105u8, 110u8]
}

/// `access-control-allow-origin` as a byte vector.
pub fn aca_origin_name() -> (r: Vec<u8>)
    ensures
        r@ == spec_aca_origin_name(),
{
    let a: [u8; 27] = [97, 99, 99, 101, 115, 115, 45, 99, 111, 110, 116, 114, 111, 108, 45, 97, 108, 108, 111, 119, 45, 111, 114, 105, 103, 105, 110];
    let r = vstd::slice::slice_to_vec(a.as_slice());
    proof {
        assert(r@ =~= spec_aca_origin_name());
    }
    r
}

/// `access-control-allow-headers` as a byte sequence.
pub open spec fn spec_aca_headers_name() -> Seq<u8> {
    seq![97u8, 99u8, 99u8, 101u8, 115u8, 115u8, 45u8, 99u8, 111u8, 110u8, 116u8, 114u8, 111u8, 108u8, 45u8, 97u8, 108u8, 108u8, 111u8, 119u8, 45u8, 104u8, 101u8, 97u8, 100u8, 101u8, 114u8, 115u8]
}

/// `access-control-allow-headers` as a byte vector.
pub fn aca_headers_name() -> (r: Vec<u8>)
    ensures
        r@ == spec_aca_headers_name(),
{
    let a: [u8; 28] = [97, 99, 99, 101, 115, 115, 45, 99, 111, 110, 116, 114, 111, 108, 45, 97, 108, 108, 111, 119, 45, 104, 101, 97, 100, 101, 114, 115];
    let r = vstd::slice::slice_to_vec(a.as_slice());
    proof {
        assert(r@ =~= spec_aca_headers_name());
    }
    r
}

/// `access-control-allow-methods` as a byte sequence.
pub open spec fn spec_aca_methods_name() -> Seq<u8> {
    seq![97u8, 99u8, 99u8, 101u8, 115u8, 115u8, 45u8, 99u8, 111u8, 110u8, 116u8, 114u8, 111u8, 108u8, 45u8, 97u8, 108u8, 108u8, 111u8, 119u8, 45u8, 109u8, 101u8, 116u8, 104u8, 111u8, 100u8, 115u8]
}

/// `access-control-allow-methods` as a byte vector.
pub fn aca_methods_name() -> (r: Vec<u8>)
    ensures
        r@ == spec_aca_methods_name(),
{
    let a: [u8; 28] = [97, 99, 99, 101, 115, 115, 45, 99, 111, 110, 116, 114, 111, 108, 45, 97, 108, 108, 111, 119, 45, 109, 101, 116, 104, 111, 100, 115];
    let r = vstd::slice::slice_to_vec(a.as_slice());
    proof {
        assert(r@ =~= spec_aca_methods_name());
    }
    r
}

/// `access-control-allow-credentials` as a byte sequence.
pub open spec fn spec_aca_credentials_name() -> Seq<u8> {
    seq![97u8, 99u8, 99u8, 101u8, 115u8, 115u8, 45u8, 99u8, 111u8, 110u8, 116u8, 114u8, 111u8, 108u8, 45u8, 97u8, 108u8, 108u8, 111u8, 119u8, 45u8, 99u8, 114u8, 101u8, 100u8, 101u8, 110u8, 116u8, 105u8, 97u8, 108u8, 115u8]
}

/// `access-control-allow-credentials` as a byte vector.
pub fn aca_credentials_name() -> (r: Vec<u8>)
    ensures
        r@ == spec_aca_credentials_name(),
{
    let a: [u8; 32] = [97, 99, 99, 101, 115, 115, 45, 99, 111, 110, 116, 114, 111, 108, 45, 97, 108, 108, 111, 119, 45, 99, 114, 101, 100, 101, 110, 116, 105, 97, 108, 115];
    let r = vstd::slice::slice_to_vec(a.as_slice());
    proof {
        assert(r@ =~= spec_aca_credentials_name());
    }
    r
}

/// `*` as a byte sequence.
pub open spec fn spec_star_value() -> Seq<u8> {
    seq![42u8]
}

/// `*` as a byte vector.
pub fn star_value() -> (r: Vec<u8>)
    ensures
        r@ == spec_star_value(),
{
    let a: [u8; 1] = [42];
    let r = vstd::slice::slice_to_vec(a.as_slice());
    proof {
        assert(r@ =~= spec_star_value());
    }
    r
}

/// `true` as a byte sequence.
pub open spec fn spec_true_value() -> Seq<u8> {
    seq![116u8, 114u8, 117u8, 101u8]
}

/// `true` as a byte vector.
pub fn true_value() -> (r: Vec<u8>)
    ensures
        r@ == spec_true_value(),
{
    let a: [u8; 4] = [116, 114, 117, 101];
    let r = vstd::slice::slice_to_vec(a.as_slice());
    proof {
        assert(r@ =~= spec_true_value());
    }
    r
}

/// `POST` as a byte sequence.
pub open spec fn spec_post_value() -> Seq<u8> {
    seq![80u8, 79u8, 83u8, 84u8]
}

/// `POST` as a byte vector.
pub fn post_value() -> (r: Vec<u8>)
    ensures
        r@ == spec_post_value(),
{
    let a: [u8; 4] = [80, 79, 83, 84];
    let r = vstd::slice::slice_to_vec(a.as_slice());
    proof {
        assert(r@ =~= spec_post_value());
    }
    r
}

} // verus!
