//! Response-header policy for instrumented responses.
//!
//! After a script or document body is rewritten, several upstream
//! headers are stale or wrong: `etag` (replaced by a synthetic content
//! identity), `content-length` (the body changed), `content-encoding`
//! and `transfer-encoding` (the body arrives decoded), and `digest`
//! (its hash no longer matches). `Content-Security-Policy` is handled
//! by resource type: dropped for scripts, sanitised for documents,
//! forwarded for anything else. A synthetic `etag` carrying the source
//! identity is always appended; `content-type` passes through verbatim.

use vstd::prelude::*;

use crate::chars::eq_lower;
use crate::chars::lower_seq;
use crate::chars::str_chars;
use crate::csp::sanitize_csp;
use crate::csp::sanitize_spec;

verus! {

/// A response header as the interception layer sees it.
pub struct HeaderEntry {
    pub name: String,
    pub value: String,
}

/// The resource types the interception layer distinguishes.
#[derive(Clone, Copy, Debug, PartialEq, Eq, Structural)]
pub enum ResourceType {
    Script,
    Document,
    Other,
}

/// A 64-bit content identity for an intercepted script or document.
#[derive(Clone, Copy, Debug, PartialEq, Eq, Structural)]
pub struct SourceId(pub u64);

/// One step of the 64-bit FNV-1a fold.
pub open spec fn hash_step(h: u64, unit: u64) -> u64 {
    vstd::wrapping::u64_specs::wrapping_mul(h ^ unit, 0x100000001b3u64)
}

/// A 64-bit FNV-1a hash over a character sequence, one fold per
/// character's scalar value. Deterministic within and across processes;
/// nothing more is required of it.
pub open spec fn hash_chars(s: Seq<char>) -> u64
    decreases s.len(),
{
    if s.len() == 0 {
        0xcbf29ce484222325u64
    } else {
        hash_step(hash_chars(s.drop_last()), s.last() as u64)
    }
}

impl SourceId {
    /// Hashes a string to a content identity.
    pub fn hash(s: &str) -> (r: SourceId)
        ensures
            r.0 == hash_chars(s@),
    {
        let cs = str_chars(s);
        let n = cs.len();
        let mut h: u64 = 0xcbf29ce484222325;
        let mut i: usize = 0;
        while i < n
            invariant
                n == cs@.len(),
                cs@ == s@,
                0 <= i <= n,
                h == hash_chars(s@.take(i as int)),
            decreases n - i,
        {
            let c = cs[i];
            h = (h ^ (c as u64)).wrapping_mul(0x100000001b3);
            proof {
                assert(s@.take(i + 1).drop_last() =~= s@.take(i as int));
                assert(s@.take(i + 1).last() == s@[i as int]);
            }
            i = i + 1;
        }
        proof {
            assert(s@.take(n as int) =~= s@);
        }
        SourceId(h)
    }
}

/// The index of the first header named `etag`, case-insensitively; the
/// length if there is none.
pub open spec fn find_etag(hs: Seq<HeaderEntry>) -> int
    decreases hs.len(),
{
    if hs.len() == 0 {
        0
    } else if lower_seq(hs[0].name@) == "etag"@ {
        0
    } else {
        1 + find_etag(hs.drop_first())
    }
}

/// The content identity of a response: the hash of its `etag` header
/// value if one is present, otherwise the hash of its body.
pub open spec fn spec_source_id(hs: Seq<HeaderEntry>, body: Seq<char>) -> u64 {
    if find_etag(hs) < hs.len() {
        hash_chars(hs[find_etag(hs)].value@)
    } else {
        hash_chars(body)
    }
}

proof fn lemma_find_etag(hs: Seq<HeaderEntry>)
    ensures
        0 <= find_etag(hs) <= hs.len(),
        forall|j: int| 0 <= j < find_etag(hs) ==> lower_seq(hs[j].name@) != "etag"@,
        find_etag(hs) < hs.len() ==> lower_seq(hs[find_etag(hs)].name@) == "etag"@,
    decreases hs.len(),
{
    if hs.len() > 0 && lower_seq(hs[0].name@) != "etag"@ {
        lemma_find_etag(hs.drop_first());
        assert forall|j: int| 0 <= j < find_etag(hs) implies lower_seq(hs[j].name@)
            != "etag"@ by {
            if j > 0 {
                assert(hs.drop_first()[j - 1] == hs[j]);
            }
        }
        if find_etag(hs) < hs.len() {
            assert(hs.drop_first()[find_etag(hs) - 1] == hs[find_etag(hs)]);
        }
    }
}

/// Derives the content identity of a response from its headers and
/// body; an upstream `etag` wins when present.
pub fn source_id(headers: &Vec<HeaderEntry>, body: &str) -> (r: SourceId)
    ensures
        r.0 == spec_source_id(headers@, body@),
{
    proof {
        lemma_find_etag(headers@);
    }
    let n = headers.len();
    let mut i: usize = 0;
    while i < n
        invariant
            n == headers@.len(),
            0 <= i <= n,
            forall|j: int| 0 <= j < i ==> lower_seq(headers@[j].name@) != "etag"@,
        decreases n - i,
    {
        proof {
            lemma_find_etag_step(headers@, i as int);
        }
        let name = str_chars(headers[i].name.as_str());
        if eq_lower(&name, "etag") {
            return SourceId::hash(headers[i].value.as_str());
        }
        i = i + 1;
    }
    proof {
        lemma_find_etag_step(headers@, n as int);
    }
    SourceId::hash(body)
}

proof fn lemma_find_etag_step(hs: Seq<HeaderEntry>, i: int)
    requires
        0 <= i <= hs.len(),
        forall|j: int| 0 <= j < i ==> lower_seq(hs[j].name@) != "etag"@,
    ensures
        i < hs.len() && lower_seq(hs[i].name@) == "etag"@ ==> find_etag(hs) == i,
        i == hs.len() ==> find_etag(hs) == i,
        i < hs.len() && lower_seq(hs[i].name@) != "etag"@ ==> find_etag(hs) >= i + 1,
    decreases hs.len(),
{
    lemma_find_etag(hs);
    if hs.len() > 0 && lower_seq(hs[0].name@) != "etag"@ && i > 0 {
        lemma_find_etag_step(hs.drop_first(), i - 1);
        assert forall|j: int| 0 <= j < i - 1 implies lower_seq(hs.drop_first()[j].name@)
            != "etag"@ by {
            assert(hs.drop_first()[j] == hs[j + 1]);
        }
        if i < hs.len() {
            assert(hs.drop_first()[i - 1] == hs[i]);
        }
    }
}

/// A header that instrumentation makes stale and that is dropped.
pub open spec fn is_stripped_name(n: Seq<char>) -> bool {
    lower_seq(n) == "etag"@ || lower_seq(n) == "content-length"@ || lower_seq(n)
        == "content-encoding"@ || lower_seq(n) == "transfer-encoding"@ || lower_seq(n)
        == "digest"@
}

/// A `Content-Security-Policy` header, enforcing or report-only.
pub open spec fn is_csp_name(n: Seq<char>) -> bool {
    lower_seq(n) == "content-security-policy"@ || lower_seq(n)
        == "content-security-policy-report-only"@
}

/// The digit character of one decimal digit.
pub open spec fn digit_char(d: int) -> char {
    if d == 0 {
        '0'
    } else if d == 1 {
        '1'
    } else if d == 2 {
        '2'
    } else if d == 3 {
        '3'
    } else if d == 4 {
        '4'
    } else if d == 5 {
        '5'
    } else if d == 6 {
        '6'
    } else if d == 7 {
        '7'
    } else if d == 8 {
        '8'
    } else {
        '9'
    }
}

/// The decimal notation of a number.
pub open spec fn u64_dec(n: int) -> Seq<char>
    decreases n,
{
    if n < 10 {
        seq![digit_char(n)]
    } else {
        u64_dec(n / 10).push(digit_char(n % 10))
    }
}

fn digit_char_exec(d: u64) -> (r: char)
    requires
        d < 10,
    ensures
        r == digit_char(d as int),
{
    match d {
        0 => '0',
        1 => '1',
        2 => '2',
        3 => '3',
        4 => '4',
        5 => '5',
        6 => '6',
        7 => '7',
        8 => '8',
        _ => '9',
    }
}

/// The decimal notation of a number, as characters.
pub fn u64_dec_exec(n: u64) -> (r: Vec<char>)
    ensures
        r@ == u64_dec(n as int),
    decreases n,
{
    if n < 10 {
        let mut v: Vec<char> = Vec::new();
        v.push(digit_char_exec(n));
        proof {
            assert(v@ =~= u64_dec(n as int));
        }
        v
    } else {
        let mut v = u64_dec_exec(n / 10);
        v.push(digit_char_exec(n % 10));
        v
    }
}

/// The headers that survive, before the synthetic `etag` is appended.
pub open spec fn kept_headers(hs: Seq<HeaderEntry>, rt: ResourceType) -> Seq<
    (Seq<char>, Seq<char>),
>
    decreases hs.len(),
{
    if hs.len() == 0 {
        Seq::empty()
    } else {
        let h = hs[0];
        let rest = kept_headers(hs.drop_first(), rt);
        if is_stripped_name(h.name@) {
            rest
        } else if is_csp_name(h.name@) {
            match rt {
                ResourceType::Script => rest,
                ResourceType::Document => match sanitize_spec(h.value@) {
                    Some(v) => seq![(h.name@, v)] + rest,
                    None => rest,
                },
                ResourceType::Other => seq![(h.name@, h.value@)] + rest,
            }
        } else {
            seq![(h.name@, h.value@)] + rest
        }
    }
}

/// The full header list of a fulfilled response: the kept headers plus
/// one synthetic `etag` carrying the source identity, last.
pub open spec fn build_headers_spec(hs: Seq<HeaderEntry>, rt: ResourceType, sid: u64) -> Seq<
    (Seq<char>, Seq<char>),
> {
    kept_headers(hs, rt).push(("etag"@, u64_dec(sid as int)))
}

/// The name/value views of a header list.
pub open spec fn pairs_of(hs: Seq<HeaderEntry>) -> Seq<(Seq<char>, Seq<char>)> {
    hs.map_values(|h: HeaderEntry| (h.name@, h.value@))
}

/// Builds the response headers for a fulfilled request: strips stale
/// headers, applies the resource-type-aware CSP policy, and appends the
/// synthetic `etag`.
pub fn build_response_headers(
    response_headers: &Option<Vec<HeaderEntry>>,
    resource_type: &ResourceType,
    source_id: SourceId,
) -> (r: Vec<HeaderEntry>)
    ensures
        pairs_of(r@) == build_headers_spec(
            match response_headers {
                Some(v) => v@,
                None => Seq::empty(),
            },
            *resource_type,
            source_id.0,
        ),
{
    let mut out: Vec<HeaderEntry> = match response_headers {
        Some(v) => {
            let r = kept_headers_exec(v, 0, resource_type);
            proof {
                assert(v@.skip(0) =~= v@);
            }
            r
        }
        None => {
            let r: Vec<HeaderEntry> = Vec::new();
            proof {
                assert(pairs_of(r@) =~= kept_headers(Seq::empty(), *resource_type));
            }
            r
        }
    };
    let ghost before = pairs_of(out@);
    let digits = u64_dec_exec(source_id.0);
    let value = crate::chars::chars_to_string(&digits);
    out.push(HeaderEntry { name: etag_name(), value });
    proof {
        assert(pairs_of(out@) =~= before.push(("etag"@, u64_dec(source_id.0 as int))));
    }
    out
}

/// The literal header name `etag`.
fn etag_name() -> (r: String)
    ensures
        r@ == "etag"@,
{
    let r: String = String::from_str("etag");
    r
}

/// The kept headers from index `i` on.
fn kept_headers_exec(hs: &Vec<HeaderEntry>, i: usize, rt: &ResourceType) -> (r: Vec<HeaderEntry>)
    requires
        i <= hs@.len(),
    ensures
        pairs_of(r@) == kept_headers(hs@.skip(i as int), *rt),
    decreases hs@.len() - i,
{
    if i == hs.len() {
        let r: Vec<HeaderEntry> = Vec::new();
        proof {
            assert(hs@.skip(i as int) =~= Seq::<HeaderEntry>::empty());
            assert(pairs_of(r@) =~= kept_headers(hs@.skip(i as int), *rt));
        }
        return r;
    }
    proof {
        assert(hs@.skip(i as int)[0] == hs@[i as int]);
        assert(hs@.skip(i as int).drop_first() =~= hs@.skip(i + 1));
    }
    let mut rest = kept_headers_exec(hs, i + 1, rt);
    let name_chars = str_chars(hs[i].name.as_str());
    let stripped = eq_lower(&name_chars, "etag") || eq_lower(&name_chars, "content-length")
        || eq_lower(&name_chars, "content-encoding") || eq_lower(&name_chars, "transfer-encoding")
        || eq_lower(&name_chars, "digest");
    if stripped {
        return rest;
    }
    let csp = eq_lower(&name_chars, "content-security-policy") || eq_lower(
        &name_chars,
        "content-security-policy-report-only",
    );
    let ghost tail = pairs_of(rest@);
    if csp {
        match rt {
            ResourceType::Script => rest,
            ResourceType::Document => {
                match sanitize_csp(hs[i].value.as_str()) {
                    Some(v) => {
                        rest.insert(0, HeaderEntry { name: hs[i].name.clone(), value: v });
                        proof {
                            assert(pairs_of(rest@) =~= kept_headers(hs@.skip(i as int), *rt));
                        }
                        rest
                    }
                    None => rest,
                }
            }
            ResourceType::Other => {
                rest.insert(
                    0,
                    HeaderEntry { name: hs[i].name.clone(), value: hs[i].value.clone() },
                );
                proof {
                    assert(pairs_of(rest@) =~= kept_headers(hs@.skip(i as int), *rt));
                }
                rest
            }
        }
    } else {
        rest.insert(0, HeaderEntry { name: hs[i].name.clone(), value: hs[i].value.clone() });
        proof {
            assert(pairs_of(rest@) =~= kept_headers(hs@.skip(i as int), *rt));
        }
        rest
    }
}

/// The names `etag` and `content-type`, lowered, are themselves; and
/// the name classes are disjoint where the policy needs them to be.
proof fn lemma_name_facts()
    ensures
        lower_seq("etag"@) == "etag"@,
        !is_csp_name("etag"@),
        forall|n: Seq<char>| lower_seq(n) == "content-type"@ ==> !is_stripped_name(n),
        forall|n: Seq<char>| lower_seq(n) == "content-type"@ ==> !is_csp_name(n),
        forall|n: Seq<char>| is_csp_name(n) ==> !is_stripped_name(n),
{
    reveal_strlit("etag");
    reveal_strlit("content-type");
    reveal_strlit("content-length");
    reveal_strlit("content-encoding");
    reveal_strlit("transfer-encoding");
    reveal_strlit("digest");
    reveal_strlit("content-security-policy");
    reveal_strlit("content-security-policy-report-only");
    assert(lower_seq("etag"@) =~= "etag"@) by {
        assert(forall|i: int|
            0 <= i < "etag"@.len() ==> crate::chars::lower(#[trigger] "etag"@[i]) == "etag"@[i]);
    }
    assert(lower_seq("etag"@).len() == 4);
    assert("content-security-policy"@.len() == 23);
    assert("content-security-policy-report-only"@.len() == 35);
    assert("content-type"@.len() == 12);
    assert("etag"@.len() == 4);
    assert("content-length"@.len() == 14);
    assert("content-encoding"@.len() == 16);
    assert("transfer-encoding"@.len() == 17);
    assert("digest"@.len() == 6);
}

/// What the kept headers satisfy, before the synthetic `etag`.
proof fn lemma_kept_headers_props(hs: Seq<HeaderEntry>, rt: ResourceType)
    ensures
        forall|j: int|
            0 <= j < kept_headers(hs, rt).len() ==> !is_stripped_name(
                (#[trigger] kept_headers(hs, rt)[j]).0,
            ),
        forall|i: int|
            0 <= i < hs.len() && lower_seq((#[trigger] hs[i]).name@) == "content-type"@
                ==> kept_headers(hs, rt).contains((hs[i].name@, hs[i].value@)),
        rt is Script ==> forall|j: int|
            0 <= j < kept_headers(hs, rt).len() ==> !is_csp_name(
                (#[trigger] kept_headers(hs, rt)[j]).0,
            ),
        rt is Document ==> forall|i: int|
            0 <= i < hs.len() && is_csp_name((#[trigger] hs[i]).name@) && sanitize_spec(
                hs[i].value@,
            ) is Some ==> kept_headers(hs, rt).contains(
                (hs[i].name@, sanitize_spec(hs[i].value@)->Some_0),
            ),
        rt is Document ==> forall|j: int|
            0 <= j < kept_headers(hs, rt).len() && is_csp_name(
                (#[trigger] kept_headers(hs, rt)[j]).0,
            ) ==> exists|i: int|
                0 <= i < hs.len() && is_csp_name((#[trigger] hs[i]).name@) && hs[i].name@
                    == kept_headers(hs, rt)[j].0 && sanitize_spec(hs[i].value@) == Some(
                    kept_headers(hs, rt)[j].1,
                ),
    decreases hs.len(),
{
    lemma_name_facts();
    if hs.len() > 0 {
        lemma_kept_headers_props(hs.drop_first(), rt);
        let h = hs[0];
        let rest = kept_headers(hs.drop_first(), rt);
        let kept = kept_headers(hs, rt);
        let headed = !is_stripped_name(h.name@) && (!is_csp_name(h.name@) || (rt is Other) || (
        rt is Document && sanitize_spec(h.value@) is Some));
        let ghost head: (Seq<char>, Seq<char>) = if is_csp_name(h.name@) && rt is Document {
            (h.name@, sanitize_spec(h.value@)->Some_0)
        } else {
            (h.name@, h.value@)
        };
        if headed {
            assert(kept == seq![head] + rest);
            assert(kept[0] == head);
            assert(kept.drop_first() =~= rest);
            assert forall|j: int| 0 <= j < kept.len() implies !is_stripped_name(
                (#[trigger] kept[j]).0,
            ) by {
                if j > 0 {
                    assert(kept[j] == rest[j - 1]);
                }
            }
            if rt is Script {
                assert forall|j: int| 0 <= j < kept.len() implies !is_csp_name(
                    (#[trigger] kept[j]).0,
                ) by {
                    if j > 0 {
                        assert(kept[j] == rest[j - 1]);
                    }
                }
            }
        } else {
            assert(kept == rest);
        }
        assert forall|i: int|
            0 <= i < hs.len() && lower_seq((#[trigger] hs[i]).name@) == "content-type"@ implies
            kept.contains((hs[i].name@, hs[i].value@)) by {
            if i == 0 {
                assert(!is_stripped_name(h.name@) && !is_csp_name(h.name@));
                assert(kept[0] == (h.name@, h.value@));
            } else {
                assert(hs.drop_first()[i - 1] == hs[i]);
                assert(rest.contains((hs[i].name@, hs[i].value@)));
                let k = choose|k: int|
                    0 <= k < rest.len() && rest[k] == (hs[i].name@, hs[i].value@);
                if headed {
                    assert(kept[k + 1] == rest[k]);
                } else {
                }
            }
        }
        if rt is Document {
            assert forall|i: int|
                0 <= i < hs.len() && is_csp_name((#[trigger] hs[i]).name@) && sanitize_spec(
                    hs[i].value@,
                ) is Some implies kept.contains(
                (hs[i].name@, sanitize_spec(hs[i].value@)->Some_0),
            ) by {
                if i == 0 {
                    assert(!is_stripped_name(h.name@));
                    assert(kept[0] == (h.name@, sanitize_spec(h.value@)->Some_0));
                } else {
                    assert(hs.drop_first()[i - 1] == hs[i]);
                    let p = (hs[i].name@, sanitize_spec(hs[i].value@)->Some_0);
                    assert(rest.contains(p));
                    let k = choose|k: int| 0 <= k < rest.len() && rest[k] == p;
                    if headed {
                        assert(kept[k + 1] == rest[k]);
                    }
                }
            }
            assert forall|j: int|
                0 <= j < kept.len() && is_csp_name((#[trigger] kept[j]).0) implies exists|i: int|
                0 <= i < hs.len() && is_csp_name((#[trigger] hs[i]).name@) && hs[i].name@
                    == kept[j].0 && sanitize_spec(hs[i].value@) == Some(kept[j].1) by {
                if headed && j == 0 {
                    if is_csp_name(h.name@) {
                        assert(hs[0].name@ == kept[0].0 && sanitize_spec(hs[0].value@) == Some(
                            kept[0].1,
                        ));
                    } else {
                        assert(kept[0].0 == h.name@);
                        assert(false);
                    }
                } else {
                    let j2 = if headed {
                        j - 1
                    } else {
                        j
                    };
                    assert(kept[j] == rest[j2]);
                    let i2 = choose|i2: int|
                        0 <= i2 < hs.drop_first().len() && is_csp_name(
                            (#[trigger] hs.drop_first()[i2]).name@,
                        ) && hs.drop_first()[i2].name@ == rest[j2].0 && sanitize_spec(
                            hs.drop_first()[i2].value@,
                        ) == Some(rest[j2].1);
                    assert(hs[i2 + 1] == hs.drop_first()[i2]);
                }
            }
        }
    }
}

/// The header-policy closure: after building, no surviving entry's name
/// is a stripped one except the final synthetic `etag`; `content-type`
/// is preserved verbatim; and exactly one `etag` entry is present, the
/// synthetic one, carrying the source identity in decimal.
pub proof fn lemma_header_policy(hs: Seq<HeaderEntry>, rt: ResourceType, sid: u64)
    ensures
        build_headers_spec(hs, rt, sid).len() >= 1,
        build_headers_spec(hs, rt, sid).last() == ("etag"@, u64_dec(sid as int)),
        forall|j: int|
            0 <= j < build_headers_spec(hs, rt, sid).len() - 1 ==> !is_stripped_name(
                (#[trigger] build_headers_spec(hs, rt, sid)[j]).0,
            ) && lower_seq(build_headers_spec(hs, rt, sid)[j].0) != "etag"@,
        forall|i: int|
            0 <= i < hs.len() && lower_seq((#[trigger] hs[i]).name@) == "content-type"@
                ==> build_headers_spec(hs, rt, sid).contains((hs[i].name@, hs[i].value@)),
    decreases hs.len(),
{
    lemma_name_facts();
    lemma_kept_headers_props(hs, rt);
    let kept = kept_headers(hs, rt);
    let out = build_headers_spec(hs, rt, sid);
    assert forall|j: int| 0 <= j < out.len() - 1 implies !is_stripped_name(
        (#[trigger] out[j]).0,
    ) && lower_seq(out[j].0) != "etag"@ by {
        assert(out[j] == kept[j]);
    }
    assert forall|i: int|
        0 <= i < hs.len() && lower_seq((#[trigger] hs[i]).name@) == "content-type"@ implies
        out.contains((hs[i].name@, hs[i].value@)) by {
        let k = choose|k: int| 0 <= k < kept.len() && kept[k] == (hs[i].name@, hs[i].value@);
        assert(out[k] == kept[k]);
    }
}

/// The CSP routing law: for a `Script` response no CSP header survives
/// at all; for a `Document` response a CSP header survives exactly when
/// sanitisation left something of it, and then with the sanitised value.
pub proof fn lemma_csp_routing(hs: Seq<HeaderEntry>, rt: ResourceType, sid: u64)
    ensures
        rt is Script ==> forall|j: int|
            0 <= j < build_headers_spec(hs, rt, sid).len() ==> !is_csp_name(
                (#[trigger] build_headers_spec(hs, rt, sid)[j]).0,
            ),
        rt is Document ==> forall|i: int|
            0 <= i < hs.len() && is_csp_name((#[trigger] hs[i]).name@) && sanitize_spec(
                hs[i].value@,
            ) is Some ==> build_headers_spec(hs, rt, sid).contains(
                (hs[i].name@, sanitize_spec(hs[i].value@)->Some_0),
            ),
        rt is Document ==> forall|j: int|
            0 <= j < build_headers_spec(hs, rt, sid).len() && is_csp_name(
                (#[trigger] build_headers_spec(hs, rt, sid)[j]).0,
            ) ==> exists|i: int|
                0 <= i < hs.len() && is_csp_name((#[trigger] hs[i]).name@) && hs[i].name@
                    == build_headers_spec(hs, rt, sid)[j].0 && sanitize_spec(hs[i].value@) == Some(
                    build_headers_spec(hs, rt, sid)[j].1,
                ),
{
    lemma_name_facts();
    lemma_kept_headers_props(hs, rt);
    let kept = kept_headers(hs, rt);
    let out = build_headers_spec(hs, rt, sid);
    if rt is Script {
        assert forall|j: int| 0 <= j < out.len() implies !is_csp_name(
            (#[trigger] out[j]).0,
        ) by {
            if j < out.len() - 1 {
                assert(out[j] == kept[j]);
            } else {
                assert(out[j].0 == "etag"@);
            }
        }
    }
    if rt is Document {
        assert forall|i: int|
            0 <= i < hs.len() && is_csp_name((#[trigger] hs[i]).name@) && sanitize_spec(
                hs[i].value@,
            ) is Some implies out.contains((hs[i].name@, sanitize_spec(hs[i].value@)->Some_0)) by {
            let p = (hs[i].name@, sanitize_spec(hs[i].value@)->Some_0);
            assert(kept.contains(p));
            let k = choose|k: int| 0 <= k < kept.len() && kept[k] == p;
            assert(out[k] == kept[k]);
        }
        assert forall|j: int|
            0 <= j < out.len() && is_csp_name((#[trigger] out[j]).0) implies exists|i: int|
            0 <= i < hs.len() && is_csp_name((#[trigger] hs[i]).name@) && hs[i].name@ == out[j].0
                && sanitize_spec(hs[i].value@) == Some(out[j].1) by {
            if j < out.len() - 1 {
                assert(out[j] == kept[j]);
            } else {
                assert(out[j].0 == "etag"@);
                assert(false);
            }
        }
    }
}

} // verus!
