//! Text, names and times: what the shared functions do to them.

use crate::bytes;
use crate::iam;
use crate::json;
use crate::json::JsonView;
use crate::mint_rw;
use crate::reply;
use crate::text;
use crate::time::UtcTime;
use vstd::prelude::*;

verus! {

/// Trimming takes the white space at both ends and nothing else.
pub proof fn law_trimming_takes_the_ends(s: Seq<char>) -> (r: (int, int))
    ensures
        0 <= r.0 <= r.1 <= s.len(),
        text::trimmed(s) == s.subrange(r.0, r.1),
        forall|i: int| 0 <= i < r.0 ==> text::is_white_space(#[trigger] s[i]),
        forall|i: int| r.1 <= i < s.len() ==> text::is_white_space(#[trigger] s[i]),
        r.0 < r.1 ==> !text::is_white_space(s[r.0]) && !text::is_white_space(s[r.1 - 1]),
{
    let a = lemma_front(s);
    let t = s.skip(a);
    let b = lemma_back(t);
    assert(text::trimmed(s) =~= s.subrange(a, a + b));
    assert forall|i: int| a + b <= i < s.len() implies text::is_white_space(#[trigger] s[i]) by {
        assert(t[i - a] == s[i]);
    }
    if b > 0 {
        assert(t[0] == s[a]);
        assert(t[b - 1] == s[a + b - 1]);
    }
    (a, a + b)
}

proof fn lemma_front(s: Seq<char>) -> (a: int)
    ensures
        0 <= a <= s.len(),
        text::trim_start(s) == s.skip(a),
        forall|i: int| 0 <= i < a ==> text::is_white_space(#[trigger] s[i]),
        a < s.len() ==> !text::is_white_space(s[a]),
    decreases s.len(),
{
    if s.len() > 0 && text::is_white_space(s[0]) {
        let t = s.drop_first();
        let a = lemma_front(t);
        assert(t.skip(a) =~= s.skip(a + 1));
        assert forall|i: int| 0 <= i < a + 1 implies text::is_white_space(#[trigger] s[i]) by {
            if i > 0 {
                assert(t[i - 1] == s[i]);
            }
        }
        if a < t.len() {
            assert(t[a] == s[a + 1]);
        }
        a + 1
    } else {
        assert(s.skip(0) =~= s);
        0
    }
}

proof fn lemma_back(s: Seq<char>) -> (b: int)
    ensures
        0 <= b <= s.len(),
        text::trim_end(s) == s.take(b),
        forall|i: int| b <= i < s.len() ==> text::is_white_space(#[trigger] s[i]),
        b > 0 ==> !text::is_white_space(s[b - 1]),
    decreases s.len(),
{
    if s.len() > 0 && text::is_white_space(s.last()) {
        let t = s.drop_last();
        let b = lemma_back(t);
        assert(t.take(b) =~= s.take(b));
        assert forall|i: int| b <= i < s.len() implies text::is_white_space(#[trigger] s[i]) by {
            if i < t.len() {
                assert(t[i] == s[i]);
            }
        }
        b
    } else {
        assert(s.take(s.len() as int) =~= s);
        s.len() as int
    }
}

/// White space is space, the line and tab characters and their kin; letters,
/// digits and punctuation are none.
pub proof fn law_plain_characters_are_no_space(c: char)
    ensures
        '!' <= c <= '~' ==> !text::is_white_space(c),
        c == ' ' || c == '\n' || c == '\t' || c == '\r' ==> text::is_white_space(c),
{
}

/// Splitting cuts at every separator and loses nothing: the parts hold none,
/// and with separators between them they are the text.
pub proof fn law_splitting_loses_nothing(s: Seq<char>, sep: char)
    ensures
        text::split(s, sep).len() > 0,
        text::joined(text::split(s, sep), seq![sep]) == s,
        forall|i: int|
            0 <= i < text::split(s, sep).len() ==> !(#[trigger] text::split(s, sep)[i]).contains(
                sep,
            ),
    decreases s.len(),
{
    text::lemma_find_char_is_first(s, sep);
    match text::find_char(s, sep) {
        Some(i) if 0 <= i < s.len() => {
            let rest = s.skip(i + 1);
            law_splitting_loses_nothing(rest, sep);
            let tail = text::split(rest, sep);
            let all = text::split(s, sep);
            assert(all == seq![s.take(i)] + tail);
            text::lemma_joined_front(all, seq![sep]);
            assert(all.drop_first() =~= tail);
            assert(all[0] == s.take(i));
            assert(text::joined(all, seq![sep]) =~= s);
            assert forall|j: int| 0 <= j < all.len() implies !(#[trigger] all[j]).contains(sep) by {
                if j == 0 {
                    assert(!s.take(i).contains(sep));
                } else {
                    assert(all[j] == tail[j - 1]);
                }
            }
        },
        _ => {
            assert(text::split(s, sep) =~= seq![s]);
            assert(text::joined(seq![s], seq![sep]) == s);
        },
    }
}

/// Joining puts the separator between each two parts.
pub proof fn law_joining_separates(parts: Seq<Seq<char>>, last: Seq<char>, sep: Seq<char>)
    ensures
        parts.len() > 0 ==> text::joined(parts.push(last), sep) == text::joined(parts, sep) + sep
            + last,
        text::joined(seq![last], sep) == last,
        text::joined(Seq::empty(), sep).len() == 0,
{
    assert(parts.push(last).drop_last() =~= parts);
    assert(parts.push(last).last() == last);
}

/// A prefix is taken off where it is there, and only there.
pub proof fn law_prefixes_are_taken_off(s: Seq<char>, prefix: Seq<char>, t: Seq<char>)
    ensures
        text::without_prefix(prefix + t, prefix) == Some(t),
        text::without_prefix(s, prefix) matches Some(r) ==> s == prefix + r,
{
    assert(prefix.is_prefix_of(prefix + t));
    assert((prefix + t).skip(prefix.len() as int) =~= t);
    if text::without_prefix(s, prefix) is Some {
        assert(s =~= prefix + s.skip(prefix.len() as int));
    }
}

/// Texts are ordered by the first character in which they differ, a prefix
/// before what it is a prefix of.
pub proof fn law_texts_are_ordered_by_their_first_difference(
    common: Seq<char>,
    a: char,
    b: char,
    x: Seq<char>,
    y: Seq<char>,
)
    ensures
        a < b ==> text::precedes(common + seq![a] + x, common + seq![b] + y),
        a < b ==> !text::precedes(common + seq![b] + y, common + seq![a] + x),
        text::precedes(common, common + seq![a] + x),
        !text::precedes(common + seq![a] + x, common),
        !text::precedes(common, common),
    decreases common.len(),
{
    let p = common + seq![a] + x;
    let q = common + seq![b] + y;
    if common.len() > 0 {
        let c = common.drop_first();
        law_texts_are_ordered_by_their_first_difference(c, a, b, x, y);
        assert(p.drop_first() =~= c + seq![a] + x);
        assert(q.drop_first() =~= c + seq![b] + y);
    }
}

/// Padding fills up to the width and cuts nothing.
pub proof fn law_padding_fills_up(s: Seq<char>, width: int)
    ensures
        s.is_prefix_of(text::padded(s, width)),
        s.len() <= width ==> text::padded(s, width).len() == width && text::aligned(
            s,
            width,
        ).len() == width,
        s.len() > width ==> text::padded(s, width) == s && text::aligned(s, width) == s,
        forall|i: int|
            s.len() <= i < text::padded(s, width).len() ==> #[trigger] text::padded(s, width)[i]
                == ' ',
        text::aligned(s, width).skip(text::aligned(s, width).len() - s.len()) == s,
        forall|i: int|
            0 <= i < text::aligned(s, width).len() - s.len() ==> #[trigger] text::aligned(
                s,
                width,
            )[i] == ' ',
{
    if s.len() > width {
        assert(text::padded(s, width) =~= s);
        assert(text::aligned(s, width) =~= s);
    }
    assert(text::aligned(s, width).skip(text::aligned(s, width).len() - s.len()) =~= s);
}

/// Hexadecimal is two lowercase digits for each byte, the higher half first.
pub proof fn law_hexadecimal_is_two_digits_a_byte(b: Seq<u8>, i: int)
    requires
        0 <= i < b.len(),
    ensures
        text::hex_of(b).len() == 2 * b.len(),
        text::hex_value(text::hex_of(b)[2 * i]) matches Some(h) && text::hex_value(
            text::hex_of(b)[2 * i + 1],
        ) matches Some(l) && h * 16 + l == b[i],
        '0' <= text::hex_of(b)[2 * i] <= '9' || 'a' <= text::hex_of(b)[2 * i] <= 'f',
        '0' <= text::hex_of(b)[2 * i + 1] <= '9' || 'a' <= text::hex_of(b)[2 * i + 1] <= 'f',
{
    let s = text::hex_of(b);
    assert((2 * i) / 2 == i && (2 * i) % 2 == 0);
    assert((2 * i + 1) / 2 == i && (2 * i + 1) % 2 == 1);
    let h = b[i] as nat / 16;
    let l = b[i] as nat % 16;
    assert(h < 16 && l < 16);
    assert(s[2 * i] == text::hex_digit(h));
    assert(s[2 * i + 1] == text::hex_digit(l));
}

/// A key reads back from its hexadecimal digits.
pub proof fn law_keys_read_back_from_hexadecimal(b: Seq<u8>, s: Seq<char>)
    requires
        b.len() == 32,
    ensures
        text::read_hex32(text::hex_of(b)) == Some(b),
        text::read_hex32(s) is Some ==> s.len() == 64,
{
    text::lemma_hex32_round_trip(b);
}

/// A length is written in four bytes, the greatest first.
pub proof fn law_lengths_read_back(n: u32, rest: Seq<u8>)
    ensures
        bytes::be32(n).len() == 4,
        bytes::read_be32(bytes::be32(n) + rest) == n,
        bytes::be32(n)[3] == n % 256,
{
    bytes::lemma_be32(n, rest);
}

/// A field reads back, and what is behind it stays.
pub proof fn law_fields_read_back(b: Seq<u8>, rest: Seq<u8>)
    requires
        b.len() <= u32::MAX,
    ensures
        bytes::take_field(bytes::prefixed(b) + rest) == Ok::<(Seq<u8>, Seq<u8>), bytes::FieldError>(
            (b, rest),
        ),
        bytes::prefixed(b).len() == 4 + b.len(),
{
    bytes::lemma_take_prefixed(b, rest);
}

/// Later by so many seconds is later by so many seconds.
pub proof fn law_later_is_later(t: UtcTime, seconds: u64)
    requires
        t.seconds + seconds <= i64::MAX,
    ensures
        t.later(seconds as int).seconds == t.seconds + seconds,
        t.later(seconds as int).nanos == t.nanos,
        t.seconds >= 0 ==> t.unix() == t.seconds,
        t.seconds < 0 ==> t.unix() == 0,
{
}

/// Cleaning replaces what a policy name may not hold, one for one, and
/// leaves the rest as it is.
pub proof fn law_cleaning_replaces_one_for_one(s: Seq<char>, i: int)
    requires
        0 <= i < s.len(),
    ensures
        iam::clean(s).len() == s.len(),
        iam::name_char(s[i]) ==> iam::clean(s)[i] == s[i],
        !iam::name_char(s[i]) ==> iam::clean(s)[i] == '-',
{
}

/// A policy name holds letters, digits and seven marks, and nothing else.
pub proof fn law_policy_names_hold_plain_characters(c: char)
    ensures
        iam::name_char(c) <==> ('a' <= c <= 'z' || 'A' <= c <= 'Z' || '0' <= c <= '9' || c == '_'
            || c == '+' || c == '=' || c == ',' || c == '.' || c == '@' || c == '-'),
{
}

/// An overlong role or scope is cut at its end, and no more than is needed:
/// the name's room is used up, and each has its share.
pub proof fn law_overlong_segments_are_cut(role: Seq<char>, scope: Option<Seq<char>>)
    ensures
        ({
            let s = iam::scope_or_global(scope);
            let a = iam::fit_role(role, scope);
            let b = iam::fit_scope(role, scope);
            &&& a.is_prefix_of(iam::clean(role))
            &&& b.is_prefix_of(iam::clean(s))
            &&& a.len() + b.len() == (if role.len() + s.len() <= 96 {
                role.len() + s.len()
            } else {
                96
            })
            &&& a.len() < role.len() ==> a.len() >= 48
            &&& b.len() < s.len() ==> b.len() >= 48
            &&& scope is None ==> s == "global"@
            &&& scope matches Some(x) ==> s == x
        }),
{
    let s = iam::scope_or_global(scope);
    assert(iam::clean(role).len() == role.len());
    assert(iam::clean(s).len() == s.len());
}

/// The numbers of the test minter are eight digits or more, and tell its
/// calls apart.
pub proof fn law_minted_numbers_differ(n: nat)
    ensures
        text::decimal(iam::eight_digits(n)) == n,
        iam::eight_digits(n).len() >= 8,
{
    let d = text::digits(n);
    text::lemma_digits(n);
    let zeros: nat = (if d.len() < 8 {
        8 - d.len()
    } else {
        0
    }) as nat;
    text::lemma_leading_zeros(zeros, d);
    assert(iam::eight_digits(n) =~= Seq::new(zeros, |i: int| '0') + d);
}

/// The service's own policy is for its own part of the bucket, until the
/// deadline, and for nothing else.
pub proof fn law_own_policy_is_confined(bucket: Seq<char>, expiry: Seq<char>)
    ensures
        mint_rw::policy_text(bucket, expiry) == own_actions()
            + bucket + "/_mint/*\"],\n      \"Condition\": {\"DateLessThan\": {\"aws:CurrentTime\": \""@
            + expiry + own_listing() + bucket
            + "\"],\n      \"Condition\": {\"DateLessThan\": {\"aws:CurrentTime\": \""@ + expiry
            + "\"}}\n    }\n  ]\n}"@,
{
}

/// The service reads, writes and deletes objects.
pub open spec fn own_actions() -> Seq<char> {
    "{\n  \"Version\": \"2012-10-17\",\n  \"Statement\": [\n    {\n      \"Effect\": \"Allow\",\n      \"Action\": [\"s3:GetObject\", \"s3:PutObject\", \"s3:DeleteObject\"],\n      \"Resource\": [\"arn:aws:s3:::"@
}

/// The service lists the bucket.
pub open spec fn own_listing() -> Seq<char> {
    "\"}}\n    },\n    {\n      \"Effect\": \"Allow\",\n      \"Action\": [\"s3:ListBucket\"],\n      \"Resource\": [\"arn:aws:s3:::"@
}

/// A field of an object is its first entry of that key, and an object
/// without such an entry has none.
pub proof fn law_fields_are_found_by_key(
    before: Seq<(Seq<char>, JsonView)>,
    key: Seq<char>,
    value: JsonView,
    after: Seq<(Seq<char>, JsonView)>,
)
    requires
        forall|i: int| 0 <= i < before.len() ==> (#[trigger] before[i]).0 != key,
    ensures
        json::field(JsonView::Object(before + seq![(key, value)] + after), key) == Some(value),
        json::field(JsonView::Object(before), key) is None,
        value matches JsonView::Str(s) ==> json::str_field(
            Some(JsonView::Object(before + seq![(key, value)] + after)),
            key,
        ) == Some(s),
        json::str_field(None, key) is None,
{
    let all = before + seq![(key, value)] + after;
    let n = before.len() as int;
    assert forall|j: int| 0 <= j < n implies (#[trigger] all[j]).0 != key by {
        assert(all[j] == before[j]);
    }
    assert(all[n] == (key, value));
    json::lemma_entry(all, key, n);
    json::lemma_entry(before, key, n);
}

/// A reply of one field has that field, and a refusal says why under
/// `error`.
pub proof fn law_replies_have_their_field(r: reply::Reply, status: u16, value: Seq<char>, key: Seq<char>)
    ensures
        reply::replies(r, status, key, value) ==> r.status == status && json::str_field(
            json::json_of(vstd::utf8::encode_utf8(r.body@)),
            key,
        ) == Some(value),
        reply::refuses(r, status, value) ==> r.status == status && json::str_field(
            json::json_of(vstd::utf8::encode_utf8(r.body@)),
            "error"@,
        ) == Some(value),
        json::str_field(Some(reply::field_doc(key, value)), key) == Some(value),
{
    json::lemma_entry(reply::field_doc(key, value)->Object_0, key, 0);
}

/// Two documents that agree have the same structure, strings and integers.
pub proof fn law_agreement_keeps_strings(a: JsonView, b: JsonView)
    requires
        json::agree(a, b),
    ensures
        a matches JsonView::Str(s) ==> b == JsonView::Str(s),
        a matches JsonView::PosInt(n) ==> b == JsonView::PosInt(n),
        a matches JsonView::NegInt(n) ==> b == JsonView::NegInt(n),
        a matches JsonView::Bool(x) ==> b == JsonView::Bool(x),
        a matches JsonView::Array(x) ==> (b matches JsonView::Array(y) && y.len() == x.len()
            && forall|i: int| 0 <= i < x.len() ==> json::agree(#[trigger] x[i], y[i])),
        a matches JsonView::Object(x) ==> (b matches JsonView::Object(y) && y.len() == x.len()
            && forall|i: int|
            0 <= i < x.len() ==> (#[trigger] x[i]).0 == y[i].0 && json::agree(x[i].1, y[i].1)),
{
}

} // verus!
