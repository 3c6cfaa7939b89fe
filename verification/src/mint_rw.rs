//! The service's own keypair for its state in the store bucket: the
//! policy it is vended under, and when it is vended again.

use crate::iam;
use crate::text;
use crate::time;
use crate::time::UtcTime;
use vstd::prelude::*;

verus! {

/// Lifetime of the keypair: seven days.
pub const MINT_RW_TTL_SECONDS: u64 = 604800;

/// The object-store endpoint where the configuration names none.
pub const DEFAULT_TIGRIS_S3_ENDPOINT: &'static str = "https://t3.storage.dev";

/// The object-store region where the configuration names none.
pub const DEFAULT_REGION: &'static str = "us-east-1";

/// The policy text: read, write and delete under the state prefix of the
/// bucket, and the listing of the bucket, both until `expiry`.
pub open spec fn policy_text(bucket: Seq<char>, expiry: Seq<char>) -> Seq<char> {
    "{\n  \"Version\": \"2012-10-17\",\n  \"Statement\": [\n    {\n      \"Effect\": \"Allow\",\n      \"Action\": [\"s3:GetObject\", \"s3:PutObject\", \"s3:DeleteObject\"],\n      \"Resource\": [\"arn:aws:s3:::"@
        + bucket
        + "/_mint/*\"],\n      \"Condition\": {\"DateLessThan\": {\"aws:CurrentTime\": \""@
        + expiry
        + "\"}}\n    },\n    {\n      \"Effect\": \"Allow\",\n      \"Action\": [\"s3:ListBucket\"],\n      \"Resource\": [\"arn:aws:s3:::"@
        + bucket + "\"],\n      \"Condition\": {\"DateLessThan\": {\"aws:CurrentTime\": \""@
        + expiry + "\"}}\n    }\n  ]\n}"@
}

/// The policy of the keypair. Only the deadline condition is used, which
/// is the one that the identity service accepts.
pub fn mint_rw_policy_json(bucket: &str, expiry_iso8601: &str) -> (r: String)
    ensures
        r@ == policy_text(bucket@, expiry_iso8601@),
{
    let mut r = text::owned(
        "{\n  \"Version\": \"2012-10-17\",\n  \"Statement\": [\n    {\n      \"Effect\": \"Allow\",\n      \"Action\": [\"s3:GetObject\", \"s3:PutObject\", \"s3:DeleteObject\"],\n      \"Resource\": [\"arn:aws:s3:::",
    );
    r.push_str(bucket);
    r.push_str(
        "/_mint/*\"],\n      \"Condition\": {\"DateLessThan\": {\"aws:CurrentTime\": \"",
    );
    r.push_str(expiry_iso8601);
    r.push_str(
        "\"}}\n    },\n    {\n      \"Effect\": \"Allow\",\n      \"Action\": [\"s3:ListBucket\"],\n      \"Resource\": [\"arn:aws:s3:::",
    );
    r.push_str(bucket);
    r.push_str("\"],\n      \"Condition\": {\"DateLessThan\": {\"aws:CurrentTime\": \"");
    r.push_str(expiry_iso8601);
    r.push_str("\"}}\n    }\n  ]\n}");
    r
}

/// What is asked of the identity service to vend the keypair.
#[derive(Debug)]
pub struct VendRequest {
    pub policy_name: String,
    pub policy_json: String,
    pub ttl_seconds: u64,
}

/// The request that vends the keypair for `bucket`, from `now` on.
pub fn vend_request(bucket: &str, now: UtcTime) -> (r: VendRequest)
    requires
        now.valid(),
        now.seconds + MINT_RW_TTL_SECONDS <= time::MAX_SECONDS,
    ensures
        ({
            let expiry = now.later(MINT_RW_TTL_SECONDS as int);
            &&& exists|nonce: u32|
                r.policy_name@ == #[trigger] iam::name_text(
                    "mint-rw"@,
                    iam::GLOBAL_SCOPE@,
                    time::compact_text(expiry.seconds),
                    nonce,
                )
            &&& iam::name_chars(r.policy_name@)
            &&& r.policy_json@ == policy_text(
                bucket@,
                time::rfc3339_text(expiry.seconds, expiry.nanos),
            )
            &&& r.ttl_seconds == MINT_RW_TTL_SECONDS
        }),
{
    let expiry = now.plus(MINT_RW_TTL_SECONDS);
    let iso = time::rfc3339(expiry);
    proof {
        reveal_strlit("mint-rw");
        reveal_strlit("global");
        assert("mint-rw"@.len() == 7);
        assert(iam::GLOBAL_SCOPE@.len() == 6);
        assert(iam::name_chars("mint-rw"@));
        assert(iam::name_chars(iam::GLOBAL_SCOPE@));
        iam::law_fitting_segments_are_kept("mint-rw"@, None);
    }
    VendRequest {
        policy_name: iam::policy_name("mint-rw", None, expiry),
        policy_json: mint_rw_policy_json(bucket, iso.as_str()),
        ttl_seconds: MINT_RW_TTL_SECONDS,
    }
}

/// How many seconds to wait before vending again, with `remaining` seconds
/// of lifetime left: half of them, at least one, so that a refresh comes
/// before the keypair lapses. A lapsed keypair is vended again after a
/// second.
pub fn refresh_delay(remaining: i64) -> (r: u64)
    ensures
        r == (if remaining < 2 {
            1
        } else {
            remaining / 2
        }),
        remaining > 1 ==> r < remaining,
{
    if remaining <= 0 {
        return 1;
    }
    let margin: u64 = remaining as u64 / 2;
    if margin < 1 {
        1
    } else {
        margin
    }
}

/// How many seconds to wait after a failed attempt: half of what is left,
/// at least five and at most sixty.
pub fn retry_backoff(remaining: i64) -> (r: u64)
    ensures
        r == (if remaining < 10 {
            5
        } else if remaining >= 120 {
            60
        } else {
            remaining / 2
        }),
        remaining > 5 ==> r < remaining,
{
    let left: u64 = if remaining < 0 {
        0
    } else {
        remaining as u64
    };
    let half: u64 = left / 2;
    if half < 5 {
        5
    } else if half > 60 {
        60
    } else {
        half
    }
}

} // verus!
