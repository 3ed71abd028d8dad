//! What holds of looking values up, of texts and numerals, of keys and of anchors.
use crate::cbor::{
    cbor_integer, decode, encode_tagged_cbor, entry_value, get_integer, get_map_entry,
    integer_label, lemma_pairs_content, pair_contents, unwrap_tagged_cbor_payload, Cbor, CborValue,
};
use crate::crypto::{
    base64_read, base64url_bytes, decode_base64_cert_lenient, decode_base64_strict,
    es256_signature_valid, es256_verifies, p256_key_valid, p256_sec1_from_coords,
    p256_sec1_from_jwk, p256_verify_es256, p256_verifying_key_from_jwk, VerifyingKey,
};
use crate::issuance::signer::{public_jwk_only, HolderContext};
use crate::json::{get_member, lemma_object_content, member, text_member, Json, JsonValue};
use crate::text::{
    decimal, decimal_text, is_text_less, is_white_space, signed_decimal_text, text_less, trim,
    trimmed, white_space, without_white_space,
};
use crate::text_map::TextMap;
use crate::trust::{StaticTestAnchors, TrustAnchorSource};
use crate::types::{attr_map, lemma_fields_content, AttributeValue, Format, IssuerRole};
use vstd::prelude::*;

verus! {

/// Whether an entry of a map item is under a text key.
pub open spec fn is_under(entry: (CborValue, CborValue), key: Seq<char>) -> bool {
    entry.0 matches CborValue::Text(text) && text@ == key
}

proof fn lemma_first_entry(entries: Seq<(Cbor, Cbor)>, key: Seq<char>)
    ensures
        entry_value(entries, key) matches Some(value) ==> exists|i: int|
            {
                &&& 0 <= i < entries.len() && #[trigger] entries[i] == (Cbor::Text(key), value)
                &&& forall|j: int| 0 <= j < i ==> (#[trigger] entries[j]).0 != Cbor::Text(key)
            },
        entry_value(entries, key) is None ==> forall|j: int|
            0 <= j < entries.len() ==> (#[trigger] entries[j]).0 != Cbor::Text(key),
    decreases entries.len(),
{
    if entries.len() > 0 {
        let rest = entries.drop_first();
        lemma_first_entry(rest, key);
        if entries[0].0 == Cbor::Text(key) {
            assert(entries[0] == (Cbor::Text(key), entries[0].1));
        } else {
            if let Some(value) = entry_value(rest, key) {
                let i = choose|i: int|
                    {
                        &&& 0 <= i < rest.len() && #[trigger] rest[i] == (Cbor::Text(key), value)
                        &&& forall|j: int| 0 <= j < i ==> (#[trigger] rest[j]).0 != Cbor::Text(key)
                    };
                assert(entries[i + 1] == (Cbor::Text(key), value));
                assert forall|j: int| 0 <= j < i + 1 implies (#[trigger] entries[j]).0
                    != Cbor::Text(key) by {
                    if j > 0 {
                        assert(entries[j] == rest[j - 1]);
                    }
                }
            } else {
                assert forall|j: int| 0 <= j < entries.len() implies (#[trigger] entries[j]).0
                    != Cbor::Text(key) by {
                    if j > 0 {
                        assert(entries[j] == rest[j - 1]);
                    }
                }
            }
        }
    }
}

/// Looking a text key up in a map item finds the value of the first entry under it, and nothing
/// where no entry is; what is no map item holds nothing.
pub proof fn law_entries_are_found_by_key(
    value: &CborValue,
    key: &str,
    entries: Vec<(CborValue, CborValue)>,
    out: Option<&CborValue>,
)
    requires
        call_ensures(get_map_entry, (value, key), out),
        value is Pairs ==> *value == CborValue::Pairs(entries),
    ensures
        !(value is Pairs) ==> out is None,
        value is Pairs && out is None ==> forall|j: int|
            0 <= j < entries@.len() ==> !is_under(#[trigger] entries@[j], key@),
        value is Pairs && out is Some ==> exists|i: int|
            {
                &&& 0 <= i < entries@.len()
                &&& is_under(#[trigger] entries@[i], key@)
                &&& entries@[i].1@ == out->Some_0@
                &&& forall|j: int| 0 <= j < i ==> !is_under(#[trigger] entries@[j], key@)
            },
{
    if value is Pairs {
        lemma_pairs_content(entries);
        let all = pair_contents(entries@);
        lemma_first_entry(all, key@);
        assert forall|j: int| 0 <= j < entries@.len() implies (#[trigger] all[j]) == (
            entries@[j].0@,
            entries@[j].1@,
        ) && (all[j].0 == Cbor::Text(key@) <==> is_under(entries@[j], key@)) by {}
        if out is None {
            assert forall|j: int| 0 <= j < entries@.len() implies !is_under(
                #[trigger] entries@[j],
                key@,
            ) by {
                assert(all[j].0 != Cbor::Text(key@));
            }
        } else {
            let found = out->Some_0@;
            let i = choose|i: int|
                {
                    &&& 0 <= i < all.len() && #[trigger] all[i] == (Cbor::Text(key@), found)
                    &&& forall|j: int| 0 <= j < i ==> (#[trigger] all[j]).0 != Cbor::Text(key@)
                };
            assert(is_under(entries@[i], key@));
            assert forall|j: int| 0 <= j < i implies !is_under(#[trigger] entries@[j], key@) by {
                assert(all[j].0 != Cbor::Text(key@));
            }
        }
    }
}

/// An integer item is read as the number it is, where that fits in 64 bits with a sign, and nothing
/// else is read as a number.
pub proof fn law_integers_are_read(value: &CborValue, out: Option<i64>)
    requires
        call_ensures(integer_label, (value,), out),
    ensures
        !(value is Integer) ==> out is None,
        value matches CborValue::Integer(i) ==> (out is Some <==> -0x8000_0000_0000_0000
            <= cbor_integer(*i) <= 0x7fff_ffff_ffff_ffff),
        value matches CborValue::Integer(i) ==> (out matches Some(n) ==> n == cbor_integer(*i)),
{
}

/// The integer under a key is the value found there, read as an integer.
pub proof fn law_integers_are_found_by_key(
    value: &CborValue,
    key: &str,
    found: Option<&CborValue>,
    read: Option<i64>,
    out: Option<i64>,
)
    requires
        call_ensures(get_map_entry, (value, key), found),
        found matches Some(item) ==> call_ensures(integer_label, (item,), read),
        call_ensures(get_integer, (value, key), out),
    ensures
        found is None ==> out is None,
        found is Some ==> out == read,
{
}

/// Bytes that are wrapped as an encoded item are read back and unwrapped as they were; and only a
/// byte string under the tag 24 is unwrapped.
pub proof fn law_encoded_items_are_unwrapped(
    inner: &[u8],
    wrapped: Vec<u8>,
    bytes: &[u8],
    value: CborValue,
    out: Option<Vec<u8>>,
    other: &CborValue,
    other_out: Option<Vec<u8>>,
)
    requires
        call_ensures(encode_tagged_cbor, (inner,), wrapped),
        bytes@ == wrapped@,
        call_ensures(decode, (bytes,), Some(value)),
        call_ensures(unwrap_tagged_cbor_payload, (&value,), out),
        call_ensures(unwrap_tagged_cbor_payload, (other,), other_out),
    ensures
        out matches Some(back) && back@ == inner@,
        other_out matches Some(back) ==> other@ == Cbor::Tag(24, Box::new(Cbor::Bytes(back@))),
        other_out is None ==> !(other@ matches Cbor::Tag(tag, item) && tag == 24 && *item is Bytes),
{
}

/// Looking a name up in a JSON object finds the member under it, and nothing in any other value.
pub proof fn law_members_are_found_by_name(
    value: &JsonValue,
    key: &str,
    members: TextMap<JsonValue>,
    out: Option<&JsonValue>,
)
    requires
        call_ensures(get_member, (value, key), out),
        value is Object ==> *value == JsonValue::Object(members),
    ensures
        !(value is Object) ==> out is None,
        value is Object ==> (out is Some <==> members@.contains_key(key@)),
        value is Object && out is Some ==> out->Some_0@ == members@[key@]@,
{
    lemma_object_content(members);
}

/// A point is the byte 4 and two coordinates of 32 bytes, one after the other.
pub proof fn law_points_hold_their_coordinates(x: &[u8], y: &[u8], out: Option<Vec<u8>>)
    requires
        call_ensures(p256_sec1_from_coords, (x, y), out),
    ensures
        out is Some <==> x@.len() == 32 && y@.len() == 32,
        out matches Some(point) ==> {
            &&& point@.len() == 65
            &&& point@[0] == 4
            &&& point@.subrange(1, 33) == x@
            &&& point@.subrange(33, 65) == y@
        },
{
    if let Some(point) = out {
        assert(point@.subrange(1, 33) =~= x@);
        assert(point@.subrange(33, 65) =~= y@);
    }
}

/// A JWK is read as a point where it is of the type `EC`, on the curve `P-256`, with coordinates of
/// 32 bytes each in base64url under `x` and `y`; the point holds them in that order.
pub proof fn law_keys_hold_their_coordinates(jwk: &JsonValue, out: Option<Vec<u8>>)
    requires
        call_ensures(p256_sec1_from_jwk, (jwk,), out),
    ensures
        out matches Some(point) ==> {
            &&& member(jwk@, "kty"@) == Some(Json::Text("EC"@))
            &&& member(jwk@, "crv"@) == Some(Json::Text("P-256"@))
            &&& point@.len() == 65
            &&& point@[0] == 4
            &&& member(jwk@, "x"@) matches Some(Json::Text(x)) && base64url_bytes(x) == Some(
                point@.subrange(1, 33),
            )
            &&& member(jwk@, "y"@) matches Some(Json::Text(y)) && base64url_bytes(y) == Some(
                point@.subrange(33, 65),
            )
        },
        out is None ==> !({
            &&& member(jwk@, "kty"@) == Some(Json::Text("EC"@))
            &&& member(jwk@, "crv"@) == Some(Json::Text("P-256"@))
            &&& member(jwk@, "x"@) matches Some(Json::Text(x)) && (base64url_bytes(x) matches Some(
                bytes,
            ) && bytes.len() == 32)
            &&& member(jwk@, "y"@) matches Some(Json::Text(y)) && (base64url_bytes(y) matches Some(
                bytes,
            ) && bytes.len() == 32)
        }),
{
    if let Some(point) = out {
        let x = base64url_bytes(text_member(jwk@, "x"@)->Some_0)->Some_0;
        let y = base64url_bytes(text_member(jwk@, "y"@)->Some_0)->Some_0;
        assert(point@.subrange(1, 33) =~= x);
        assert(point@.subrange(33, 65) =~= y);
    }
}

/// What is taken of a JWK holds none of the members `d`, `p`, `q`, `dp`, `dq`, `qi`, `k` and `oth`,
/// and every other member as it was.
pub proof fn law_public_keys_hold_no_secret(
    jwk: &JsonValue,
    members: TextMap<JsonValue>,
    out: JsonValue,
    name: Seq<char>,
)
    requires
        *jwk == JsonValue::Object(members),
        call_ensures(public_jwk_only, (jwk,), out),
    ensures
        out@ is Object,
        if name == "d"@ || name == "p"@ || name == "q"@ || name == "dp"@ || name == "dq"@ || name
            == "qi"@ || name == "k"@ || name == "oth"@ {
            member(out@, name) is None
        } else if members@.contains_key(name) {
            member(out@, name) == Some(members@[name]@)
        } else {
            member(out@, name) is None
        },
{
    lemma_object_content(members);
}

/// The confirmation object of a holder is the public part of the key under `jwk`, and nothing else.
pub proof fn law_confirmations_hold_the_public_key(
    holder: &HolderContext,
    key: JsonValue,
    out: JsonValue,
    name: Seq<char>,
)
    requires
        call_ensures(public_jwk_only, (&holder.holder_public_jwk,), key),
        call_ensures(HolderContext::cnf, (holder,), out),
    ensures
        member(out@, "jwk"@) == Some(key@),
        name != "jwk"@ ==> member(out@, name) is None,
{
}

/// A certificate is trusted in a role and a format once it was added for them, and as before
/// otherwise; an empty list trusts nothing.
pub proof fn law_anchors_trust_what_was_added(
    empty: StaticTestAnchors,
    before: StaticTestAnchors,
    role: IssuerRole,
    format: Format,
    leaf: &[u8],
    after: StaticTestAnchors,
    asked_role: IssuerRole,
    asked_format: Format,
    asked: Seq<u8>,
    rest: Seq<Seq<u8>>,
    instant: Option<i64>,
)
    requires
        call_ensures(StaticTestAnchors::new, (), empty),
        call_ensures(StaticTestAnchors::trust, (before, role, format, leaf), after),
    ensures
        !empty.decision(asked_role, asked_format, asked, rest, instant).trusted,
        after.decision(asked_role, asked_format, asked, rest, instant).trusted <==> (
        before.decision(asked_role, asked_format, asked, rest, instant).trusted || (asked_role
            == role && asked_format == format && asked == leaf@)),
{
    assert(!empty.lists(asked_role, asked_format, asked));
    assert(after.lists(asked_role, asked_format, asked) == (before.lists(
        asked_role,
        asked_format,
        asked,
    ) || (asked_role == role && asked_format == format && asked == leaf@)));
}

/// The blank, the tab, the line feed and the carriage return are white space; letters, digits and
/// the signs of base64 are not.
pub proof fn law_white_space_is_no_text(c: char, out: bool)
    requires
        call_ensures(is_white_space, (c,), out),
    ensures
        c == ' ' || c == '\t' || c == '\n' || c == '\r' ==> out,
        'a' <= c <= 'z' || 'A' <= c <= 'Z' || '0' <= c <= '9' || c == '+' || c == '/' || c == '='
            || c == '-' || c == '_' || c == '{' || c == '"' ==> !out,
{
}

/// White space inside a text does not change the certificate it stands for: with one more such
/// character anywhere the text is read the same.
pub proof fn law_certificates_are_read_without_white_space(
    one: &str,
    other: &str,
    a: Seq<char>,
    b: Seq<char>,
    c: char,
    first: Result<Vec<u8>, String>,
    second: Result<Vec<u8>, String>,
)
    requires
        one@ == a + b,
        other@ == a + seq![c] + b,
        c == ' ' || c == '\t' || c == '\n' || c == '\r',
        call_ensures(decode_base64_cert_lenient, (one,), first),
        call_ensures(decode_base64_cert_lenient, (other,), second),
    ensures
        first is Ok <==> second is Ok,
        first matches Ok(data) ==> second matches Ok(same) && same@ == data@,
{
    let keep = |x: char| !white_space(x);
    Seq::filter_distributes_over_add(a, b, keep);
    Seq::filter_distributes_over_add(a + seq![c], b, keep);
    Seq::filter_distributes_over_add(a, seq![c], keep);
    assert(seq![c].filter(keep) =~= Seq::<char>::empty()) by {
        reveal(Seq::filter);
        let none = Seq::<char>::empty();
        assert(seq![c].drop_last() =~= none);
        assert(none.filter(keep) =~= none);
        assert(seq![c].last() == c);
        assert(!keep(c));
    }
    assert(without_white_space(one@) =~= without_white_space(other@));
}

/// A text without white space is read as it stands.
pub proof fn law_bare_texts_are_read_as_they_stand(
    text: &str,
    lenient: Result<Vec<u8>, String>,
    strict: Result<Vec<u8>, String>,
)
    requires
        forall|i: int|
            0 <= i < text@.len() ==> {
                let c = #[trigger] text@[i];
                'a' <= c <= 'z' || 'A' <= c <= 'Z' || '0' <= c <= '9' || c == '+' || c == '/' || c
                    == '='
            },
        call_ensures(decode_base64_cert_lenient, (text,), lenient),
        call_ensures(decode_base64_strict, (text,), strict),
    ensures
        lenient is Ok <==> base64_read(text@) is Ok,
        lenient matches Ok(data) ==> base64_read(text@)->Ok_0 == data@,
        strict is Ok <==> base64_read(text@) is Ok,
        strict matches Ok(data) ==> base64_read(text@)->Ok_0 == data@,
{
    let keep = |x: char| !white_space(x);
    lemma_all_kept(text@, keep);
    if text@.len() > 0 {
        assert(!white_space(text@[0]));
        assert(!white_space(text@[text@.len() - 1]));
    }
    assert(trimmed(text@) == text@);
}

proof fn lemma_all_kept(text: Seq<char>, keep: spec_fn(char) -> bool)
    requires
        forall|i: int| 0 <= i < text.len() ==> keep(#[trigger] text[i]),
    ensures
        text.filter(keep) == text,
    decreases text.len(),
{
    reveal(Seq::filter);
    if text.len() > 0 {
        let shorter = text.drop_last();
        assert forall|i: int| 0 <= i < shorter.len() implies keep(#[trigger] shorter[i]) by {
            assert(shorter[i] == text[i]);
        }
        lemma_all_kept(shorter, keep);
        assert(keep(text[text.len() - 1]));
        assert(text.filter(keep) =~= text);
    } else {
        assert(text.filter(keep) =~= text);
    }
}

/// Trimming takes white space off both ends and nothing else: the text is what is left with white
/// space around it, and what is left starts and ends with something else.
pub proof fn law_trimming_takes_white_space_off_the_ends(text: &str, out: String)
    requires
        call_ensures(trim, (text,), out),
    ensures
        exists|before: Seq<char>, after: Seq<char>|
            {
                &&& text@ == #[trigger] (before + out@ + after)
                &&& forall|i: int| 0 <= i < before.len() ==> white_space(#[trigger] before[i])
                &&& forall|i: int| 0 <= i < after.len() ==> white_space(#[trigger] after[i])
            },
        out@.len() > 0 ==> !white_space(out@[0]) && !white_space(out@[out@.len() - 1]),
{
    let (before, after) = lemma_trimmed(text@);
    assert(text@ == before + out@ + after);
}

proof fn lemma_trimmed(text: Seq<char>) -> (ends: (Seq<char>, Seq<char>))
    ensures
        text == ends.0 + trimmed(text) + ends.1,
        forall|i: int| 0 <= i < ends.0.len() ==> white_space(#[trigger] ends.0[i]),
        forall|i: int| 0 <= i < ends.1.len() ==> white_space(#[trigger] ends.1[i]),
        trimmed(text).len() > 0 ==> !white_space(trimmed(text)[0]) && !white_space(
            trimmed(text)[trimmed(text).len() - 1],
        ),
    decreases text.len(),
{
    let none = Seq::<char>::empty();
    if text.len() == 0 {
        assert(text =~= none + trimmed(text) + none);
        (none, none)
    } else if white_space(text[0]) {
        let (before, after) = lemma_trimmed(text.drop_first());
        let longer = seq![text[0]] + before;
        assert(text =~= seq![text[0]] + text.drop_first());
        assert(text =~= longer + trimmed(text) + after);
        (longer, after)
    } else if white_space(text.last()) {
        let (before, after) = lemma_trimmed(text.drop_last());
        let longer = after.push(text.last());
        assert(text =~= text.drop_last().push(text.last()));
        assert(text =~= before + trimmed(text) + longer);
        (before, longer)
    } else {
        assert(text =~= none + trimmed(text) + none);
        (none, none)
    }
}

/// The number that a numeral stands for.
pub open spec fn numeral_value(text: Seq<char>) -> int
    decreases text.len(),
{
    if text.len() == 0 {
        0
    } else {
        10 * numeral_value(text.drop_last()) + (text.last() as int - '0' as int)
    }
}

proof fn lemma_decimal(n: nat)
    ensures
        decimal(n).len() > 0,
        numeral_value(decimal(n)) == n,
        forall|i: int| 0 <= i < decimal(n).len() ==> '0' <= #[trigger] decimal(n)[i] <= '9',
        n > 0 ==> decimal(n)[0] != '0',
        n == 0 ==> decimal(n) == seq!['0'],
    decreases n,
{
    if n < 10 {
        assert(decimal(n).drop_last() =~= Seq::<char>::empty());
        assert(numeral_value(decimal(n).drop_last()) == 0);
        assert(n == 0 ==> decimal(n) =~= seq!['0']);
    } else {
        lemma_decimal(n / 10);
        assert(decimal(n).drop_last() =~= decimal(n / 10));
        assert forall|i: int| 0 <= i < decimal(n).len() implies '0' <= #[trigger] decimal(n)[i]
            <= '9' by {
            if i < decimal(n / 10).len() {
                assert(decimal(n)[i] == decimal(n / 10)[i]);
            }
        }
        assert(decimal(n)[0] == decimal(n / 10)[0]);
    }
}

/// A numeral is made of digits, does not start with zero unless it is zero, and stands for its
/// number; that of a negative number has a minus sign in front.
pub proof fn law_numerals_stand_for_their_numbers(
    n: u64,
    out: String,
    signed: i64,
    signed_out: String,
)
    requires
        call_ensures(decimal_text, (n,), out),
        call_ensures(signed_decimal_text, (signed,), signed_out),
    ensures
        numeral_value(out@) == n,
        out@.len() > 0,
        forall|i: int| 0 <= i < out@.len() ==> '0' <= #[trigger] out@[i] <= '9',
        n > 0 ==> out@[0] != '0',
        n == 0 ==> out@ == seq!['0'],
        signed >= 0 ==> numeral_value(signed_out@) == signed,
        signed < 0 ==> signed_out@.len() > 1 && signed_out@[0] == '-' && numeral_value(
            signed_out@.skip(1),
        ) == -signed,
{
    lemma_decimal(n as nat);
    if signed >= 0 {
        lemma_decimal(signed as nat);
    } else {
        lemma_decimal((-signed) as nat);
        reveal_strlit("-");
        assert(signed_out@.skip(1) =~= decimal((-signed) as nat));
    }
}

/// A text comes before another where the first characters that differ are in that order, or where
/// it is a start of the other; never before itself, and of two different texts one comes first.
pub proof fn law_texts_are_ordered(a: &str, b: &str, out: bool, back: bool)
    requires
        call_ensures(is_text_less, (a, b), out),
        call_ensures(is_text_less, (b, a), back),
    ensures
        a@ == b@ ==> !out && !back,
        a@ != b@ ==> out != back,
        out <==> exists|n: int|
            {
                &&& 0 <= n <= a@.len() && n < b@.len()
                &&& #[trigger] a@.take(n) == b@.take(n)
                &&& n == a@.len() || a@[n] < b@[n]
            },
{
    lemma_less(a@, b@);
    lemma_less(b@, a@);
    lemma_one_less(a@, b@);
}

proof fn lemma_one_less(a: Seq<char>, b: Seq<char>)
    ensures
        a == b ==> !text_less(a, b),
        a != b ==> text_less(a, b) != text_less(b, a),
    decreases a.len(),
{
    if a.len() > 0 && b.len() > 0 && a[0] == b[0] {
        lemma_one_less(a.drop_first(), b.drop_first());
        if a.drop_first() == b.drop_first() {
            assert(a =~= seq![a[0]] + a.drop_first());
            assert(b =~= seq![b[0]] + b.drop_first());
        }
    } else if a.len() == 0 && b.len() == 0 {
        assert(a =~= b);
    }
}

proof fn lemma_less(a: Seq<char>, b: Seq<char>)
    ensures
        text_less(a, b) <==> exists|n: int|
            {
                &&& 0 <= n <= a.len() && n < b.len()
                &&& #[trigger] a.take(n) == b.take(n)
                &&& n == a.len() || a[n] < b[n]
            },
    decreases a.len(),
{
    if b.len() > 0 {
        if a.len() == 0 {
            assert(a.take(0) =~= b.take(0));
        } else if a[0] != b[0] {
            assert(a.take(0) =~= b.take(0));
            if exists|n: int|
                {
                    &&& 0 <= n <= a.len() && n < b.len()
                    &&& #[trigger] a.take(n) == b.take(n)
                    &&& n == a.len() || a[n] < b[n]
                } {
                let n = choose|n: int|
                    {
                        &&& 0 <= n <= a.len() && n < b.len()
                        &&& #[trigger] a.take(n) == b.take(n)
                        &&& n == a.len() || a[n] < b[n]
                    };
                if n > 0 {
                    assert(a.take(n)[0] == a[0] && b.take(n)[0] == b[0]);
                }
            }
        } else {
            let p = a.drop_first();
            let q = b.drop_first();
            lemma_less(p, q);
            if text_less(p, q) {
                let n = choose|n: int|
                    {
                        &&& 0 <= n <= p.len() && n < q.len()
                        &&& #[trigger] p.take(n) == q.take(n)
                        &&& n == p.len() || p[n] < q[n]
                    };
                assert(a.take(n + 1) =~= seq![a[0]] + p.take(n));
                assert(b.take(n + 1) =~= seq![b[0]] + q.take(n));
                assert(a.take(n + 1) == b.take(n + 1));
            }
            if exists|n: int|
                {
                    &&& 0 <= n <= a.len() && n < b.len()
                    &&& #[trigger] a.take(n) == b.take(n)
                    &&& n == a.len() || a[n] < b[n]
                } {
                let n = choose|n: int|
                    {
                        &&& 0 <= n <= a.len() && n < b.len()
                        &&& #[trigger] a.take(n) == b.take(n)
                        &&& n == a.len() || a[n] < b[n]
                    };
                assert(n > 0);
                assert(p.take(n - 1) =~= a.take(n).drop_first());
                assert(q.take(n - 1) =~= b.take(n).drop_first());
                assert(p.take(n - 1) == q.take(n - 1));
            }
        }
    }
}

/// Two values are the same where they are of one kind and equal: texts by their characters, bytes
/// by their bytes, arrays item by item.
pub proof fn law_same_values(one: &AttributeValue, other: &AttributeValue, out: bool)
    requires
        call_ensures(AttributeValue::same, (one, other), out),
    ensures
        one matches AttributeValue::Boolean(a) ==> (out <==> *other == AttributeValue::Boolean(*a)),
        one matches AttributeValue::Integer(a) ==> (out <==> *other == AttributeValue::Integer(*a)),
        one matches AttributeValue::Text(a) ==> (out <==> (other matches AttributeValue::Text(b)
            && a@ == b@)),
        one matches AttributeValue::Bytes(a) ==> (out <==> (other matches AttributeValue::Bytes(b)
            && a@ == b@)),
        one is Null ==> (out <==> other is Null),
        one is Array ==> (out ==> other is Array),
        one is Fields ==> (out ==> other is Fields),
        one matches AttributeValue::Array(a) ==> (other matches AttributeValue::Array(b) ==> (out
            <==> a@.len() == b@.len() && forall|i: int|
            0 <= i < a@.len() ==> (#[trigger] a@[i])@ == b@[i]@)),
        one matches AttributeValue::Fields(a) ==> (other matches AttributeValue::Fields(b) ==> (out
            <==> forall|key: Seq<char>|
            (#[trigger] a@.contains_key(key) <==> b@.contains_key(key)) && (a@.contains_key(key)
                ==> a@[key]@ == b@[key]@))),
{
    if let AttributeValue::Array(a) = one {
        if let AttributeValue::Array(b) = other {
            let p = one@->Array_0;
            let q = other@->Array_0;
            assert forall|i: int| 0 <= i < a@.len() implies (#[trigger] a@[i])@ == p[i] by {}
            assert forall|i: int| 0 <= i < b@.len() implies (#[trigger] b@[i])@ == q[i] by {}
            if out {
                assert(p == q);
            }
            if a@.len() == b@.len() && forall|i: int|
                0 <= i < a@.len() ==> (#[trigger] a@[i])@ == b@[i]@ {
                assert(p =~= q);
            }
        }
    }
    if let AttributeValue::Fields(a) = one {
        if let AttributeValue::Fields(b) = other {
            lemma_fields_content(*a);
            lemma_fields_content(*b);
            let p = attr_map(a@);
            let q = attr_map(b@);
            assert forall|key: Seq<char>| #[trigger]
                a@.contains_key(key) == p.contains_key(key) && (a@.contains_key(key) ==> p[key]
                    == a@[key]@) by {}
            assert forall|key: Seq<char>| #[trigger]
                b@.contains_key(key) == q.contains_key(key) && (b@.contains_key(key) ==> q[key]
                    == b@[key]@) by {}
            if out {
                assert(p == q);
                assert forall|key: Seq<char>|
                    (#[trigger] a@.contains_key(key) <==> b@.contains_key(key)) && (
                    a@.contains_key(key) ==> a@[key]@ == b@[key]@) by {
                    assert(p.contains_key(key) == q.contains_key(key));
                }
            }
            if forall|key: Seq<char>|
                (#[trigger] a@.contains_key(key) <==> b@.contains_key(key)) && (a@.contains_key(key)
                    ==> a@[key]@ == b@[key]@) {
                assert(p =~= q) by {
                    assert forall|key: Seq<char>| p.contains_key(key) == q.contains_key(key) by {
                        assert(a@.contains_key(key) == b@.contains_key(key));
                    }
                    assert forall|key: Seq<char>| p.contains_key(key) implies p[key] == q[key] by {
                        assert(a@.contains_key(key));
                    }
                }
            }
        }
    }
}

/// A copy of a value is the same value.
pub proof fn law_copies_are_the_same(value: &AttributeValue, copy: AttributeValue, out: bool)
    requires
        call_ensures(AttributeValue::copy, (value,), copy),
        call_ensures(AttributeValue::same, (value, &copy), out),
    ensures
        out,
{
}

/// A key of a JWK is that of its point, where the point is one of the curve; and a signature
/// verifies under a key where it has the form of one and the curve says so.
pub proof fn law_keys_verify(
    jwk: &JsonValue,
    point: Option<Vec<u8>>,
    key: Option<VerifyingKey>,
    message: &[u8],
    signature: &[u8],
    out: Result<(), ()>,
)
    requires
        call_ensures(p256_sec1_from_jwk, (jwk,), point),
        call_ensures(p256_verifying_key_from_jwk, (jwk,), key),
        key matches Some(found) ==> call_ensures(
            p256_verify_es256,
            (&found, message, signature),
            out,
        ),
    ensures
        key is Some <==> (point matches Some(sec1) && p256_key_valid(sec1@)),
        key matches Some(found) ==> found@ == point->Some_0@ && (out is Ok <==> (
        es256_signature_valid(signature@) && es256_verifies(
            point->Some_0@,
            message@,
            signature@,
        ))),
{
}

} // verus!
