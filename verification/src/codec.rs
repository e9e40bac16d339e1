//! Message codec: turns an opaque byte payload into a typed identity-link
//! message, trying the known formats in a fixed priority order.
//!
//! A payload that is not UTF-8 text is malformed. UTF-8 text with no comma
//! has no internal structure and is taken as a legacy status string, not an
//! identity message. Text with commas is read as a delimited triple: the
//! first three comma-separated fields, each trimmed of surrounding
//! whitespace, are the source address, the target address, and a base-10
//! signed timestamp; fewer than three fields, or a timestamp outside the
//! integer grammar, is malformed.

use vstd::prelude::*;

use crate::text::{
    lemma_dec_digits_of_value, lemma_format_parse_i64, lemma_i64_text_trimmed, parse_i64,
    parse_i64_text, trim, trim_str, i64_text, is_dec_digit,
};
use vstd::string::StringSliceAdditionalSpecFns;
use vstd::string::StrSliceExecFns;
use vstd::string::StringExecFns;
use vstd::utf8::{valid_utf8, decode_utf8, encode_utf8};

verus! {

/// A decoded identity-link assertion. The timestamp is advisory and is
/// carried through unchanged.
pub struct IdentityLinkMessage {
    pub source_address: String,
    pub target_address: String,
    pub asserted_at: i64,
}

/// What a structurally sound payload turned out to be.
pub enum Decoded {
    /// A delimited triple: an identity-link assertion.
    Identity(IdentityLinkMessage),
    /// Plain text with no internal structure: a legacy status string, for
    /// the caller to route elsewhere.
    NotAnIdentityMessage(String),
}

#[derive(Debug, PartialEq, Eq, Structural)]
pub enum DecodeError {
    InvalidMessageFormat,
}

/// `s` cut at every comma; one more field than there are commas, so never
/// empty.
pub open spec fn split_at_commas(s: Seq<char>) -> Seq<Seq<char>>
    decreases s.len(),
{
    if s.len() == 0 {
        seq![Seq::<char>::empty()]
    } else if s[0] == ',' {
        seq![Seq::<char>::empty()] + split_at_commas(s.drop_first())
    } else {
        let rest = split_at_commas(s.drop_first());
        seq![seq![s[0]] + rest[0]] + rest.drop_first()
    }
}

pub proof fn lemma_split_len(s: Seq<char>)
    ensures
        split_at_commas(s).len() >= 1,
    decreases s.len(),
{
    if s.len() > 0 {
        lemma_split_len(s.drop_first());
    }
}

/// Comma-free text is a single field.
pub proof fn lemma_split_no_comma(s: Seq<char>)
    requires
        forall|i: int| 0 <= i < s.len() ==> #[trigger] s[i] != ',',
    ensures
        split_at_commas(s) == seq![s],
    decreases s.len(),
{
    if s.len() == 0 {
        assert(split_at_commas(s) =~~= seq![s]);
    } else {
        assert(forall|i: int|
            0 <= i < s.drop_first().len() ==> #[trigger] s.drop_first()[i] != ',');
        lemma_split_no_comma(s.drop_first());
        let rest = split_at_commas(s.drop_first());
        assert(rest == seq![s.drop_first()]);
        assert(seq![s[0]] + s.drop_first() =~= s);
        assert(split_at_commas(s) =~~= seq![s]);
    }
}

/// Splitting cuts at the first comma: the comma-free part before it is the
/// first field and the rest splits on its own.
pub proof fn lemma_split_concat(a: Seq<char>, b: Seq<char>)
    requires
        forall|i: int| 0 <= i < a.len() ==> #[trigger] a[i] != ',',
    ensures
        split_at_commas(a + seq![','] + b) == seq![a] + split_at_commas(b),
    decreases a.len(),
{
    let s = a + seq![','] + b;
    lemma_split_len(b);
    if a.len() == 0 {
        assert(s[0] == ',');
        assert(s.drop_first() =~= b);
        assert(split_at_commas(s) =~~= seq![a] + split_at_commas(b));
    } else {
        assert(s[0] == a[0]);
        assert(s.drop_first() =~= a.drop_first() + seq![','] + b);
        assert(forall|i: int|
            0 <= i < a.drop_first().len() ==> #[trigger] a.drop_first()[i] != ',');
        lemma_split_concat(a.drop_first(), b);
        let rest = split_at_commas(s.drop_first());
        assert(rest == seq![a.drop_first()] + split_at_commas(b));
        lemma_split_len(a.drop_first() + seq![','] + b);
        assert(rest[0] == a.drop_first());
        assert(seq![s[0]] + rest[0] =~= a);
        assert(rest.drop_first() =~= split_at_commas(b));
        assert(split_at_commas(s) =~~= seq![a] + split_at_commas(b));
    }
}

/// Relies on std::str::from_utf8: `Ok` exactly on well-formed UTF-8 bytes,
/// and the returned text is a view of those same bytes.
#[verifier::external_body]
fn bytes_to_str(v: &[u8]) -> (r: Option<&str>)
    ensures
        r is Some <==> valid_utf8(v@),
        r matches Some(s) ==> s.spec_bytes() == v@,
{
    std::str::from_utf8(v).ok()
}

/// First comma of `s` at or after `from`, or the text's length if there is
/// none.
fn find_comma(s: &str, from: usize) -> (r: usize)
    requires
        from as int <= s@.len(),
    ensures
        from <= r <= s@.len(),
        r < s@.len() ==> s@[r as int] == ',',
        forall|j: int| from <= j < r ==> s@[j] != ',',
{
    let n = s.unicode_len();
    let mut i: usize = from;
    while i < n
        invariant
            from <= i <= n,
            n == s@.len(),
            forall|j: int| from <= j < i ==> s@[j] != ',',
        decreases n - i,
    {
        if s.get_char(i) == ',' {
            return i;
        }
        i += 1;
    }
    n
}

/// Decodes a byte payload, trying the plain-string format first and the
/// delimited triple second; the first structural match wins. Pure: no state
/// is read or written.
pub fn decode(payload: &[u8]) -> (r: Result<Decoded, DecodeError>)
    ensures
        ({
            let text = decode_utf8(payload@);
            let fields = split_at_commas(text);
            &&& !valid_utf8(payload@) ==> r == Err::<Decoded, DecodeError>(
                DecodeError::InvalidMessageFormat,
            )
            &&& (valid_utf8(payload@) && fields.len() == 1) ==> (r matches Ok(
                Decoded::NotAnIdentityMessage(t),
            ) && t@ == text)
            &&& (valid_utf8(payload@) && fields.len() == 2) ==> r == Err::<Decoded, DecodeError>(
                DecodeError::InvalidMessageFormat,
            )
            &&& (valid_utf8(payload@) && fields.len() >= 3) ==> {
                let ts = parse_i64_text(trim(fields[2]));
                &&& ts is None ==> r == Err::<Decoded, DecodeError>(
                    DecodeError::InvalidMessageFormat,
                )
                &&& ts matches Some(v) ==> (r matches Ok(Decoded::Identity(m))
                    && m.source_address@ == trim(fields[0]) && m.target_address@ == trim(fields[1])
                    && m.asserted_at == v)
            }
        }),
{
    let s = match bytes_to_str(payload) {
        Some(s) => s,
        None => {
            return Err(DecodeError::InvalidMessageFormat);
        },
    };
    proof {
        vstd::utf8::encode_utf8_decode_utf8(s@);
        assert(decode_utf8(payload@) == s@);
    }
    let n = s.unicode_len();
    let i0 = find_comma(s, 0);
    if i0 == n {
        proof {
            lemma_split_no_comma(s@);
        }
        return Ok(Decoded::NotAnIdentityMessage(s.to_owned()));
    }
    let ghost f0 = s@.subrange(0, i0 as int);
    proof {
        assert(s@ =~= f0 + seq![','] + s@.skip(i0 as int + 1));
        lemma_split_concat(f0, s@.skip(i0 as int + 1));
    }
    let i1 = find_comma(s, i0 + 1);
    if i1 == n {
        proof {
            let b = s@.skip(i0 as int + 1);
            assert(forall|j: int| 0 <= j < b.len() ==> #[trigger] b[j] != ',');
            lemma_split_no_comma(b);
            assert(split_at_commas(s@).len() == 2);
        }
        return Err(DecodeError::InvalidMessageFormat);
    }
    let ghost f1 = s@.subrange(i0 as int + 1, i1 as int);
    proof {
        let b = s@.skip(i0 as int + 1);
        assert(b =~= f1 + seq![','] + s@.skip(i1 as int + 1));
        assert(forall|j: int| 0 <= j < f1.len() ==> #[trigger] f1[j] != ',');
        lemma_split_concat(f1, s@.skip(i1 as int + 1));
    }
    let i2 = find_comma(s, i1 + 1);
    let ghost f2 = s@.subrange(i1 as int + 1, i2 as int);
    proof {
        let rem = s@.skip(i1 as int + 1);
        if i2 == n {
            assert(forall|j: int| 0 <= j < rem.len() ==> #[trigger] rem[j] != ',');
            lemma_split_no_comma(rem);
            assert(rem =~= f2);
        } else {
            assert(rem =~= f2 + seq![','] + s@.skip(i2 as int + 1));
            assert(forall|j: int| 0 <= j < f2.len() ==> #[trigger] f2[j] != ',');
            lemma_split_concat(f2, s@.skip(i2 as int + 1));
            lemma_split_len(s@.skip(i2 as int + 1));
        }
        assert(split_at_commas(s@).len() >= 3);
        assert(split_at_commas(s@)[0] == f0);
        assert(split_at_commas(s@)[1] == f1);
        assert(split_at_commas(s@)[2] == f2);
    }
    let field0 = s.substring_char(0, i0);
    let field1 = s.substring_char(i0 + 1, i1);
    let field2 = s.substring_char(i1 + 1, i2);
    let t2 = trim_str(field2);
    let asserted_at = match parse_i64(t2) {
        Some(v) => v,
        None => {
            return Err(DecodeError::InvalidMessageFormat);
        },
    };
    let t0 = trim_str(field0);
    let t1 = trim_str(field1);
    Ok(
        Decoded::Identity(
            IdentityLinkMessage {
                source_address: t0.to_owned(),
                target_address: t1.to_owned(),
                asserted_at,
            },
        ),
    )
}

/// Encodes a triple in the delimited format: the two addresses and the
/// canonical base-10 text of the timestamp, comma-separated, as UTF-8
/// bytes.
pub fn encode(source_address: &str, target_address: &str, asserted_at: i64) -> (r: Vec<u8>)
    ensures
        r@ == encode_utf8(
            source_address@ + seq![','] + target_address@ + seq![','] + i64_text(
                asserted_at as int,
            ),
        ),
{
    proof {
        reveal_strlit(",");
        assert(","@ =~= seq![',']);
    }
    let mut out: String = source_address.to_owned();
    out.append(",");
    out.append(target_address);
    out.append(",");
    let ts = crate::text::format_i64(asserted_at);
    out.append(ts.as_str());
    proof {
        assert(out@ =~= source_address@ + seq![','] + target_address@ + seq![','] + i64_text(
            asserted_at as int,
        ));
    }
    out.as_str().as_bytes_vec()
}

/// The canonical text of a signed integer contains no comma.
proof fn lemma_i64_text_no_comma(v: i64)
    ensures
        forall|i: int| 0 <= i < i64_text(v as int).len() ==> #[trigger] i64_text(v as int)[i]
            != ',',
{
    let s = i64_text(v as int);
    if v == 0 {
        assert(forall|i: int| 0 <= i < s.len() ==> #[trigger] s[i] == '0');
    } else if v > 0 {
        lemma_dec_digits_of_value(v as int);
        assert(forall|i: int| 0 <= i < s.len() ==> is_dec_digit(#[trigger] s[i]));
    } else {
        lemma_dec_digits_of_value(-(v as int));
        let ds = crate::text::dec_digits_of(-(v as int));
        assert(forall|i: int| 1 <= i < s.len() ==> #[trigger] s[i] == ds[i - 1]);
        assert(forall|i: int| 0 <= i < ds.len() ==> is_dec_digit(#[trigger] ds[i]));
    }
}

/// Round trip through the delimited format: encoding a comma-free triple
/// and splitting the decoded text back yields exactly three fields that
/// trim to the original trimmed source and target text and parse to the
/// exact timestamp.
pub proof fn lemma_encode_decode_round_trip(src: Seq<char>, tgt: Seq<char>, ts: i64)
    requires
        forall|i: int| 0 <= i < src.len() ==> #[trigger] src[i] != ',',
        forall|i: int| 0 <= i < tgt.len() ==> #[trigger] tgt[i] != ',',
    ensures
        ({
            let payload = encode_utf8(src + seq![','] + tgt + seq![','] + i64_text(ts as int));
            let fields = split_at_commas(decode_utf8(payload));
            &&& valid_utf8(payload)
            &&& fields.len() == 3
            &&& trim(fields[0]) == trim(src)
            &&& trim(fields[1]) == trim(tgt)
            &&& parse_i64_text(trim(fields[2])) == Some(ts)
        }),
{
    let dtext = i64_text(ts as int);
    let chars = src + seq![','] + tgt + seq![','] + dtext;
    let payload = encode_utf8(chars);
    vstd::utf8::encode_utf8_valid_utf8(chars);
    vstd::utf8::encode_utf8_decode_utf8(chars);
    assert(chars =~= src + seq![','] + (tgt + seq![','] + dtext));
    lemma_split_concat(src, tgt + seq![','] + dtext);
    lemma_split_concat(tgt, dtext);
    lemma_i64_text_no_comma(ts);
    lemma_split_no_comma(dtext);
    let fields = split_at_commas(chars);
    assert(fields == seq![src] + (seq![tgt] + seq![dtext]));
    assert(fields[0] == src);
    assert(fields[1] == tgt);
    assert(fields[2] == dtext);
    lemma_i64_text_trimmed(ts);
    lemma_format_parse_i64(ts);
}

} // verus!
