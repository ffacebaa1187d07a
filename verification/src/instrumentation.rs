//! The decision core of the request-interception pipeline: decoding an
//! intercepted response body, telling HTML documents from other
//! document types, and deciding what to do with each paused request.
//! The protocol traffic itself — pausing, fetching bodies, fulfilling —
//! lives outside the library; it hands plain values in and takes the
//! decision back.

use vstd::prelude::*;

use crate::chars::starts_with;
use crate::chars::str_chars;
use crate::chars::trim_start;
use crate::chars::lower_seq;
use crate::chars::eq_lower;
use crate::headers::HeaderEntry;
use crate::headers::ResourceType;

verus! {

#[verifier::external_type_specification]
#[verifier::external_body]
pub struct ExDecodeError(base64::DecodeError);

#[verifier::external_type_specification]
#[verifier::external_body]
pub struct ExFromUtf8Error(std::string::FromUtf8Error);

/// What the standard base64 alphabet decodes a string to, if anything:
/// a function of the input alone.
pub uninterp spec fn base64_decode_of(s: Seq<char>) -> Option<Seq<u8>>;

/// Relies on `base64`'s standard engine `decode`: the result depends on
/// the input alone, and an error comes exactly when the input is not
/// valid padded standard-alphabet base64.
#[verifier::external_body]
fn base64_decode(s: &str) -> (r: Result<Vec<u8>, base64::DecodeError>)
    ensures
        match r {
            Ok(v) => base64_decode_of(s@) == Some(v@),
            Err(_) => base64_decode_of(s@) is None,
        },
{
    base64::Engine::decode(&base64::prelude::BASE64_STANDARD, s.as_bytes())
}

/// Relies on `String::from_utf8`: succeeds exactly on valid UTF-8 and
/// then returns the decoded characters of those bytes.
#[verifier::external_body]
fn string_from_utf8(v: Vec<u8>) -> (r: Result<String, std::string::FromUtf8Error>)
    ensures
        match r {
            Ok(s) => vstd::utf8::valid_utf8(v@) && s@ == vstd::utf8::decode_utf8(v@),
            Err(_) => !vstd::utf8::valid_utf8(v@),
        },
{
    String::from_utf8(v)
}

/// Why a response body could not be decoded.
#[derive(Clone, Copy, Debug, PartialEq, Eq, Structural)]
pub enum BodyError {
    Base64,
    Utf8,
}

/// The decoded body: the bytes behind an optional base64 transport
/// encoding, read as UTF-8.
pub open spec fn spec_decoded_body(body: Seq<char>, base64_encoded: bool) -> Result<
    Seq<char>,
    BodyError,
> {
    if base64_encoded {
        match base64_decode_of(body) {
            Some(bytes) => if vstd::utf8::valid_utf8(bytes) {
                Ok(vstd::utf8::decode_utf8(bytes))
            } else {
                Err(BodyError::Utf8)
            },
            None => Err(BodyError::Base64),
        }
    } else {
        Ok(body)
    }
}

/// Decodes an intercepted response body: base64 first where the
/// protocol says so, then UTF-8.
pub fn decode_response_body(body: &str, base64_encoded: bool) -> (r: Result<String, BodyError>)
    ensures
        match r {
            Ok(s) => spec_decoded_body(body@, base64_encoded) == Ok::<Seq<char>, BodyError>(s@),
            Err(e) => spec_decoded_body(body@, base64_encoded) == Err::<Seq<char>, BodyError>(e),
        },
{
    if base64_encoded {
        match base64_decode(body) {
            Ok(bytes) => match string_from_utf8(bytes) {
                Ok(s) => Ok(s),
                Err(_) => Err(BodyError::Utf8),
            },
            Err(_) => Err(BodyError::Base64),
        }
    } else {
        let copied: String = body.to_owned();
        Ok(copied)
    }
}

/// The index of the first `content-type` header, or the length.
pub open spec fn find_content_type(hs: Seq<HeaderEntry>) -> int
    decreases hs.len(),
{
    if hs.len() == 0 {
        0
    } else if lower_seq(hs[0].name@) == "content-type"@ {
        0
    } else {
        1 + find_content_type(hs.drop_first())
    }
}

/// Is the intercepted document an HTML document? Decided by the
/// `content-type` header when one is present, else by the body not
/// opening an XML declaration.
pub open spec fn spec_is_html_document(hs: Seq<HeaderEntry>, body: Seq<char>) -> bool {
    if find_content_type(hs) < hs.len() {
        starts_with(hs[find_content_type(hs)].value@, "text/html"@)
    } else {
        !starts_with(trim_start(body), "<?xml"@)
    }
}

proof fn lemma_find_content_type(hs: Seq<HeaderEntry>)
    ensures
        0 <= find_content_type(hs) <= hs.len(),
        forall|j: int| 0 <= j < find_content_type(hs) ==> lower_seq(hs[j].name@) != "content-type"@,
        find_content_type(hs) < hs.len() ==> lower_seq(hs[find_content_type(hs)].name@)
            == "content-type"@,
    decreases hs.len(),
{
    if hs.len() > 0 && lower_seq(hs[0].name@) != "content-type"@ {
        lemma_find_content_type(hs.drop_first());
        assert forall|j: int| 0 <= j < find_content_type(hs) implies lower_seq(hs[j].name@)
            != "content-type"@ by {
            if j > 0 {
                assert(hs.drop_first()[j - 1] == hs[j]);
            }
        }
        if find_content_type(hs) < hs.len() {
            assert(hs.drop_first()[find_content_type(hs) - 1] == hs[find_content_type(hs)]);
        }
    }
}

proof fn lemma_find_content_type_step(hs: Seq<HeaderEntry>, i: int)
    requires
        0 <= i <= hs.len(),
        forall|j: int| 0 <= j < i ==> lower_seq(hs[j].name@) != "content-type"@,
    ensures
        i < hs.len() && lower_seq(hs[i].name@) == "content-type"@ ==> find_content_type(hs) == i,
        i == hs.len() ==> find_content_type(hs) == i,
        i < hs.len() && lower_seq(hs[i].name@) != "content-type"@ ==> find_content_type(hs) >= i
            + 1,
    decreases hs.len(),
{
    lemma_find_content_type(hs);
    if hs.len() > 0 && lower_seq(hs[0].name@) != "content-type"@ && i > 0 {
        lemma_find_content_type_step(hs.drop_first(), i - 1);
        assert forall|j: int| 0 <= j < i - 1 implies lower_seq(hs.drop_first()[j].name@)
            != "content-type"@ by {
            assert(hs.drop_first()[j] == hs[j + 1]);
        }
        if i < hs.len() {
            assert(hs.drop_first()[i - 1] == hs[i]);
        }
    }
}

/// Does `v` begin with `pat`, exactly?
fn starts_with_exec(v: &Vec<char>, pat: &str) -> (r: bool)
    ensures
        r == starts_with(v@, pat@),
{
    let m = pat.unicode_len();
    if v.len() < m {
        return false;
    }
    let mut i: usize = 0;
    while i < m
        invariant
            m == pat@.len(),
            m <= v@.len(),
            0 <= i <= m,
            forall|j: int| 0 <= j < i ==> v@[j] == pat@[j],
        decreases m - i,
    {
        let c = v[i];
        let p = pat.get_char(i);
        if c != p {
            proof {
                assert(v@.take(m as int)[i as int] == v@[i as int]);
            }
            return false;
        }
        i = i + 1;
    }
    proof {
        assert(v@.take(m as int) =~= pat@);
    }
    true
}

/// Decides HTML-document-ness from the response headers and body.
pub fn is_html_document(headers: &Vec<HeaderEntry>, body: &str) -> (r: bool)
    ensures
        r == spec_is_html_document(headers@, body@),
{
    proof {
        lemma_find_content_type(headers@);
    }
    let n = headers.len();
    let mut i: usize = 0;
    while i < n
        invariant
            n == headers@.len(),
            0 <= i <= n,
            forall|j: int| 0 <= j < i ==> lower_seq(headers@[j].name@) != "content-type"@,
        decreases n - i,
    {
        proof {
            lemma_find_content_type_step(headers@, i as int);
        }
        let name = str_chars(headers[i].name.as_str());
        if eq_lower(&name, "content-type") {
            let value = str_chars(headers[i].value.as_str());
            return starts_with_exec(&value, "text/html");
        }
        i = i + 1;
    }
    proof {
        lemma_find_content_type_step(headers@, n as int);
    }
    let cs = str_chars(body);
    let trimmed = crate::chars::trim_exec(cs);
    let ghost tv = trimmed@;
    proof {
        reveal_strlit("<?xml");
        assert("<?xml"@.len() == 5);
        assert forall|j: int| 0 <= j < "<?xml"@.len() implies !crate::chars::is_space(
            #[trigger] "<?xml"@[j],
        ) by {
            assert("<?xml"@[0] == '<' && "<?xml"@[1] == '?' && "<?xml"@[2] == 'x' && "<?xml"@[3]
                == 'm' && "<?xml"@[4] == 'l');
        }
        lemma_trim_end_keeps_prefix(trim_start(body@), "<?xml"@);
    }
    let xml = starts_with_exec(&trimmed, "<?xml");
    !xml
}

/// Trimming the end of a sequence does not change whether it begins
/// with a prefix of non-whitespace characters.
proof fn lemma_trim_end_keeps_prefix(s: Seq<char>, p: Seq<char>)
    requires
        p.len() > 0,
        forall|j: int| 0 <= j < p.len() ==> !crate::chars::is_space(#[trigger] p[j]),
    ensures
        starts_with(crate::chars::trim_end(s), p) == starts_with(s, p),
    decreases s.len(),
{
    let t = crate::chars::trim_end(s);
    if s.len() > 0 && crate::chars::is_space(s.last()) {
        lemma_trim_end_keeps_prefix(s.drop_last(), p);
        if starts_with(s, p) {
            assert(p.len() <= s.len());
            if p.len() == s.len() {
                assert(p.last() == s.last()) by {
                    assert(s.take(p.len() as int) =~= s);
                }
                assert(false);
            } else {
                assert(s.drop_last().take(p.len() as int) =~= s.take(p.len() as int));
            }
        } else {
            if starts_with(s.drop_last(), p) {
                assert(s.drop_last().take(p.len() as int) =~= s.take(p.len() as int));
                assert(false);
            }
        }
    }
}

/// What the interception loop does with one paused response.
#[derive(Clone, Copy, Debug, PartialEq, Eq, Structural)]
pub enum InterceptDecision {
    /// Forward the response unchanged.
    ContinueUnchanged,
    /// Rewrite the body as a script and fulfil.
    InstrumentScript,
    /// Rewrite the inline scripts of an HTML document and fulfil.
    InstrumentHtml,
    /// Fulfil with the body unchanged but the headers repaired.
    PassThroughDocument,
    /// A resource type the interception patterns should never deliver.
    Unexpected,
}

/// The decision for one paused response: non-200 responses pass
/// through untouched; scripts are rewritten; documents are rewritten
/// when they are HTML and passed through (with repaired headers) when
/// they are not; anything else is unexpected.
pub open spec fn spec_classify(
    status: Option<i64>,
    rt: ResourceType,
    hs: Seq<HeaderEntry>,
    body: Seq<char>,
) -> InterceptDecision {
    if status matches Some(s) && s != 200 {
        InterceptDecision::ContinueUnchanged
    } else if rt is Script {
        InterceptDecision::InstrumentScript
    } else if rt is Document {
        if spec_is_html_document(hs, body) {
            InterceptDecision::InstrumentHtml
        } else {
            InterceptDecision::PassThroughDocument
        }
    } else {
        InterceptDecision::Unexpected
    }
}

/// Classifies one paused response.
pub fn classify_interception(
    status: Option<i64>,
    resource_type: &ResourceType,
    headers: &Vec<HeaderEntry>,
    body: &str,
) -> (r: InterceptDecision)
    ensures
        r == spec_classify(status, *resource_type, headers@, body@),
{
    match status {
        Some(s) => {
            if s != 200 {
                return InterceptDecision::ContinueUnchanged;
            }
        }
        None => {}
    }
    match resource_type {
        ResourceType::Script => InterceptDecision::InstrumentScript,
        ResourceType::Document => {
            if is_html_document(headers, body) {
                InterceptDecision::InstrumentHtml
            } else {
                InterceptDecision::PassThroughDocument
            }
        }
        ResourceType::Other => InterceptDecision::Unexpected,
    }
}

} // verus!
