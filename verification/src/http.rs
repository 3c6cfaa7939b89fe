//! Verification and clearing of a presented bundle: the primary macaroon
//! and the discharges of its third-party caveats.

pub mod assume_role;
pub mod enroll;
pub mod exchange;
pub mod flow;
pub mod gate;
pub mod pairing;
pub mod verify;

use crate::caveat;
use crate::caveat::{name, Caveat, CaveatView, EffectiveCaveats, Resolved, ResolvedView};
use crate::keyring::{Keyring, KeyringView};
use crate::macaroon;
use crate::macaroon::{KeyRef, Macaroon, MacaroonView, SiteView, TpcSite};
use crate::pop;
use crate::pop::Proof;
use crate::sealed_cache::SealState;
use crate::text;
use crate::tpc;
use vstd::prelude::*;

verus! {

/// A `(primary, discharges)` bundle parsed from an `Authorization`
/// header. The primary is positionally first.
pub struct Bundle {
    pub primary: Macaroon,
    pub discharges: Vec<Macaroon>,
}

/// The macaroons of a list as mathematical values.
pub open spec fn views(ms: Seq<Macaroon>) -> Seq<MacaroonView> {
    Seq::new(ms.len(), |i: int| ms[i]@)
}

/// What the header's payload begins with.
pub const SCHEME: &'static str = "MintV1 ";

/// The macaroons that comma-separated parts write, if all of them do.
pub open spec fn read_tokens(parts: Seq<Seq<char>>) -> Option<Seq<MacaroonView>>
    decreases parts.len(),
{
    if parts.len() == 0 {
        Some(Seq::empty())
    } else {
        match (
            read_tokens(parts.drop_last()),
            macaroon::read_token(text::trimmed(parts.last())),
        ) {
            (Some(ms), Some(m)) => Some(ms.push(m)),
            _ => None,
        }
    }
}

/// The macaroons of an `Authorization` header value, primary first.
pub open spec fn read_bundle(header: Option<Seq<char>>) -> Option<Seq<MacaroonView>> {
    match header {
        Some(h) => match text::without_prefix(h, SCHEME@) {
            Some(payload) => read_tokens(text::split(payload, ',')),
            None => None,
        },
        None => None,
    }
}

/// Parses an `Authorization: MintV1 <m>[,<m>...]` header value into a
/// bundle. A single macaroon gives a bundle without discharges.
pub fn extract_bundle(authorization: Option<&str>) -> (r: Option<Bundle>)
    ensures
        ({
            let ms = read_bundle(
                match authorization {
                    Some(h) => Some(h@),
                    None => None,
                },
            );
            match r {
                Some(b) => ms == Some(seq![b.primary@] + views(b.discharges@)),
                None => ms is None,
            }
        }),
{
    let raw = match authorization {
        Some(h) => h,
        None => {
            return None;
        },
    };
    let payload = match text::strip_prefix(raw, SCHEME) {
        Some(p) => p,
        None => {
            return None;
        },
    };
    let parts = text::split_on(payload.as_str(), ',');
    let ghost all = text::texts(parts@);
    assert(all.take(0) =~= Seq::<Seq<char>>::empty());
    assert(all.take(1).drop_last() =~= all.take(0));
    assert(all.take(1).last() == parts@[0]@);
    let primary = match Macaroon::decode(text::trim(parts[0].as_str()).as_str()) {
        Ok(m) => m,
        Err(_) => {
            proof {
                lemma_read_tokens_prefix(all, 1);
            }
            return None;
        },
    };
    let mut discharges: Vec<Macaroon> = Vec::new();
    let mut i: usize = 1;
    assert(read_tokens(all.take(0)) == Some(Seq::<MacaroonView>::empty()));
    assert(read_tokens(all.take(1)) == Some(Seq::<MacaroonView>::empty().push(primary@)));
    assert(Seq::<MacaroonView>::empty().push(primary@) =~= seq![primary@] + views(discharges@));
    while i < parts.len()
        invariant
            1 <= i <= parts@.len(),
            all == text::texts(parts@),
            read_tokens(all.take(i as int)) == Some(seq![primary@] + views(discharges@)),
            all == text::split(payload@, ','),
            text::without_prefix(raw@, SCHEME@) == Some(payload@),
            authorization == Some(raw),
        decreases parts@.len() - i,
    {
        proof {
            assert(all.take(i + 1).drop_last() =~= all.take(i as int));
            assert(all.take(i + 1).last() == parts@[i as int]@);
        }
        match Macaroon::decode(text::trim(parts[i].as_str()).as_str()) {
            Ok(m) => {
                let ghost done = views(discharges@);
                discharges.push(m);
                assert(views(discharges@) =~= done.push(m@));
                assert((seq![primary@] + done).push(m@) =~= seq![primary@] + views(discharges@));
            },
            Err(_) => {
                proof {
                    lemma_read_tokens_prefix(all, i + 1);
                }
                return None;
            },
        }
        i = i + 1;
    }
    assert(all.take(all.len() as int) =~= all);
    Some(Bundle { primary, discharges })
}

/// A part that does not decode spoils every longer list.
proof fn lemma_read_tokens_prefix(parts: Seq<Seq<char>>, n: int)
    requires
        0 <= n <= parts.len(),
        read_tokens(parts.take(n)) is None,
    ensures
        read_tokens(parts) is None,
    decreases parts.len(),
{
    if n == parts.len() {
        assert(parts.take(n) =~= parts);
    } else {
        assert(parts.drop_last().take(n) =~= parts.take(n));
        lemma_read_tokens_prefix(parts.drop_last(), n);
    }
}

/// A scalar caveat must be present and equal to `expected`. Absent,
/// contradictory, or any other value all fail closed.
pub fn scalar_is(caveats: &[Caveat], n: &str, expected: &str) -> (r: bool)
    ensures
        r == (caveat::resolved(caveat::chain(caveats@), n@) == ResolvedView::Value(expected@)),
{
    match EffectiveCaveats::new(caveats).resolve(n) {
        Resolved::Value(v) => text::same(v.as_str(), expected),
        _ => false,
    }
}

/// The detached proof of a request, from its header value. A malformed
/// header is an error; absence is no proof.
pub fn pop_proof(header: Option<&str>) -> (r: Result<Option<Proof>, ()>)
    ensures
        match header {
            None => r == Ok::<Option<Proof>, ()>(None),
            Some(h) => match pop::proof_bytes(
                crate::crypto::base64_read(text::trimmed(h@)),
            ) {
                Ok(b) => r matches Ok(Some(p)) && p.sig@ == b,
                Err(_) => r is Err,
            },
        },
{
    match header {
        None => Ok(None),
        Some(h) => match Proof::from_b64(h) {
            Ok(p) => Ok(Some(p)),
            Err(_) => Err(()),
        },
    }
}

/// What verify and clear gives: the primary and the verified discharge
/// caveats kept by source, plus the least `exp` of the bundle. A
/// discharge caveat can never shadow a primary caveat of the same name.
pub struct ClearedBundle {
    pub primary: Macaroon,
    /// Caveats from every verified discharge, in walk order.
    pub discharge_caveats: Vec<Caveat>,
    /// Minimum `exp` across the bundle; `None` means that it carries no
    /// `exp`.
    pub expires_at: Option<u64>,
}

impl ClearedBundle {
    /// All first-party caveats across the bundle, primary then discharges:
    /// for the echo and the audit log only, never a clearing surface.
    pub fn all_caveats(&self) -> (r: Vec<Caveat>)
        ensures
            caveat::chain(r@) == caveat::first_parties(self.primary@.caveats)
                + caveat::first_parties(caveat::chain(self.discharge_caveats@)),
            forall|i: int| 0 <= i < r@.len() ==> (#[trigger] r@[i]) is FirstParty,
    {
        let mut r: Vec<Caveat> = Vec::new();
        caveat::append_first_parties(&mut r, self.primary.caveats());
        caveat::append_first_parties(&mut r, &self.discharge_caveats);
        proof {
            let all = caveat::chain(r@);
            assert(all =~= caveat::first_parties(self.primary@.caveats) + caveat::first_parties(
                caveat::chain(self.discharge_caveats@),
            ));
            caveat::lemma_first_parties(self.primary@.caveats);
            caveat::lemma_first_parties(caveat::chain(self.discharge_caveats@));
            assert forall|i: int| 0 <= i < r@.len() implies (#[trigger] r@[i]) is FirstParty by {
                assert(all[i] == r@[i]@);
                assert(all[i] is FirstParty);
            }
        }
        r
    }
}

/// Why verify and clear refused a bundle. The reasons are stable
/// identifiers for the audit log.
#[derive(Debug, Clone, Copy, PartialEq, Eq)]
pub enum VerifyClearError {
    Auth(&'static str),
    Pop,
    AudClear,
    OpClear,
    Expired,
}

/// A refusal as a mathematical value.
pub enum Refusal {
    Auth(Seq<char>),
    Pop,
    AudClear,
    OpClear,
    Expired,
}

impl View for VerifyClearError {
    type V = Refusal;

    open spec fn view(&self) -> Refusal {
        match self {
            VerifyClearError::Auth(r) => Refusal::Auth(r@),
            VerifyClearError::Pop => Refusal::Pop,
            VerifyClearError::AudClear => Refusal::AudClear,
            VerifyClearError::OpClear => Refusal::OpClear,
            VerifyClearError::Expired => Refusal::Expired,
        }
    }
}

/// The identifier of a refusal.
pub open spec fn reason_of(r: Refusal) -> Seq<char> {
    match r {
        Refusal::Auth(s) => s,
        Refusal::Pop => "pop"@,
        Refusal::AudClear => "aud_clear"@,
        Refusal::OpClear => "op_clear"@,
        Refusal::Expired => "expired"@,
    }
}

impl VerifyClearError {
    /// The stable identifier of the refusal.
    pub fn reason(&self) -> (r: &'static str)
        ensures
            r@ == reason_of(self@),
    {
        match self {
            VerifyClearError::Auth(r) => r,
            VerifyClearError::Pop => "pop",
            VerifyClearError::AudClear => "aud_clear",
            VerifyClearError::OpClear => "op_clear",
            VerifyClearError::Expired => "expired",
        }
    }
}

/// The discharge whose nonce is this ticket id: its position.
pub open spec fn find_ticket(ds: Seq<MacaroonView>, id: Seq<u8>) -> Option<int>
    decreases ds.len(),
{
    if ds.len() == 0 {
        None
    } else {
        match find_ticket(ds.drop_last(), id) {
            Some(i) => Some(i),
            None => if ds.last().nonce == id {
                Some(ds.len() - 1)
            } else {
                None
            },
        }
    }
}

/// Two discharges claim the same ticket.
pub open spec fn ambiguous(ds: Seq<MacaroonView>) -> bool {
    exists|i: int, j: int|
        0 <= i < j < ds.len() && (#[trigger] ds[i]).nonce == (#[trigger] ds[j]).nonce
}

/// The discharges taken up by a walk so far, in order: each by its
/// position, with the key that its chain must verify under.
pub type Taken = Seq<(int, Seq<u8>)>;

/// Discharge `i` has been taken up.
pub open spec fn taken(q: Taken, i: int) -> bool {
    exists|k: int| 0 <= k < q.len() && (#[trigger] q[k]).0 == i
}

/// Pairs one third-party caveat with its discharge.
pub open spec fn take_site(site: SiteView, ds: Seq<MacaroonView>, q: Taken) -> Result<
    Taken,
    Refusal,
> {
    match tpc::recovered(site.tag, site.vid) {
        Err(_) => Err(Refusal::Auth("vid_decrypt"@)),
        Ok(r) => match find_ticket(ds, tpc::ticket(site.cid)) {
            None => Err(Refusal::Auth("tpc_undischarged"@)),
            Some(i) => if ds[i].key_ref != KeyRef::Discharge {
                Err(Refusal::Auth("not_a_discharge"@))
            } else if taken(q, i) {
                Err(Refusal::Auth("discharge_reused"@))
            } else {
                Ok(q.push((i, r)))
            },
        },
    }
}

/// Pairs each third-party caveat of a chain with its discharge.
pub open spec fn take_sites(sites: Seq<SiteView>, ds: Seq<MacaroonView>, q: Taken) -> Result<
    Taken,
    Refusal,
>
    decreases sites.len(),
{
    if sites.len() == 0 {
        Ok(q)
    } else {
        match take_sites(sites.drop_last(), ds, q) {
            Err(e) => Err(e),
            Ok(q1) => take_site(sites.last(), ds, q1),
        }
    }
}

/// The chain gives `name` exactly this value.
pub open spec fn carries(c: Seq<CaveatView>, name: Seq<char>, value: Seq<char>) -> bool {
    caveat::resolved(c, name) == ResolvedView::Value(value)
}

/// The chain leaves `name` open or gives it exactly this value.
pub open spec fn permits(c: Seq<CaveatView>, name: Seq<char>, value: Seq<char>) -> bool {
    caveat::resolved(c, name) is Absent || carries(c, name, value)
}

/// Clears one macaroon's own `aud` and `op`. The primary must carry both;
/// a discharge may leave either open.
pub open spec fn clear_one(c: Seq<CaveatView>, primary: bool, aud: Seq<char>, op: Seq<char>) -> Result<
    (),
    Refusal,
> {
    let aud_ok = if primary {
        carries(c, name::AUD@, aud)
    } else {
        permits(c, name::AUD@, aud)
    };
    let op_ok = if primary {
        carries(c, name::OP@, op)
    } else {
        permits(c, name::OP@, op)
    };
    if !aud_ok {
        Err(Refusal::AudClear)
    } else if !op_ok {
        Err(Refusal::OpClear)
    } else {
        Ok(())
    }
}

/// Visits one macaroon: its MAC under `key`, the discharges of its
/// third-party caveats, its own clearing.
pub open spec fn visit(
    m: MacaroonView,
    key: Seq<u8>,
    primary: bool,
    ds: Seq<MacaroonView>,
    q: Taken,
    aud: Seq<char>,
    op: Seq<char>,
) -> Result<Taken, Refusal> {
    if !macaroon::authentic(m, key) {
        Err(Refusal::Auth("mac_mismatch"@))
    } else {
        match take_sites(macaroon::sites(m, key), ds, q) {
            Err(e) => Err(e),
            Ok(q1) => match clear_one(m.caveats, primary, aud, op) {
                Err(e) => Err(e),
                Ok(_) => Ok(q1),
            },
        }
    }
}

/// Visits the taken discharges from `head` on, in the order in which they
/// were taken, with those that they take in turn.
pub open spec fn walk(
    ds: Seq<MacaroonView>,
    q: Taken,
    head: int,
    aud: Seq<char>,
    op: Seq<char>,
) -> Result<Taken, Refusal>
    decreases ds.len() - head,
{
    if head < 0 || head >= q.len() || head >= ds.len() {
        Ok(q)
    } else {
        match visit(ds[q[head].0], q[head].1, false, ds, q, aud, op) {
            Err(e) => Err(e),
            Ok(q1) => walk(ds, q1, head + 1, aud, op),
        }
    }
}

/// The caveats of the taken discharges, in order.
pub open spec fn gathered(ds: Seq<MacaroonView>, q: Taken) -> Seq<CaveatView>
    decreases q.len(),
{
    if q.len() == 0 {
        Seq::empty()
    } else {
        gathered(ds, q.drop_last()) + ds[q.last().0].caveats
    }
}

/// The least `exp` of the primary and the taken discharges.
pub open spec fn bundle_exp(primary: MacaroonView, ds: Seq<MacaroonView>, q: Taken) -> Option<u64>
    decreases q.len(),
{
    if q.len() == 0 {
        caveat::bound_of(primary.caveats, name::EXP@)
    } else {
        caveat::tighter(
            bundle_exp(primary, ds, q.drop_last()),
            caveat::bound_of(ds[q.last().0].caveats, name::EXP@),
        )
    }
}

/// A cleared bundle as a mathematical value.
pub struct ClearedView {
    pub primary: MacaroonView,
    pub discharge_caveats: Seq<CaveatView>,
    pub expires_at: Option<u64>,
}

/// The discharges that a bundle's walk takes, or why it stops: every MAC
/// verifies, every third-party caveat has its own discharge, every
/// macaroon clears, and no discharge is left over.
pub open spec fn walked(
    primary: MacaroonView,
    ds: Seq<MacaroonView>,
    ring: KeyringView,
    aud: Seq<char>,
    op: Seq<char>,
) -> Result<Taken, Refusal> {
    match primary.key_ref {
        KeyRef::Keyring(kid) => if !ring.keys.contains_key(kid) {
            Err(Refusal::Auth("unknown_kid"@))
        } else if ambiguous(ds) {
            Err(Refusal::Auth("ambiguous_discharge"@))
        } else {
            match visit(primary, ring.keys[kid], true, ds, Seq::empty(), aud, op) {
                Err(e) => Err(e),
                Ok(q) => match walk(ds, q, 0, aud, op) {
                    Err(e) => Err(e),
                    Ok(q1) => if exists|i: int| 0 <= i < ds.len() && !taken(q1, i) {
                        Err(Refusal::Auth("unmatched_discharge"@))
                    } else {
                        Ok(q1)
                    },
                },
            }
        },
        _ => Err(Refusal::Auth("primary_not_credential"@)),
    }
}

/// What verify and clear gives for a bundle.
pub open spec fn cleared(
    primary: MacaroonView,
    ds: Seq<MacaroonView>,
    ring: KeyringView,
    sig: Option<Seq<u8>>,
    body: Seq<u8>,
    now_unix: u64,
    aud: Seq<char>,
    op: Seq<char>,
) -> Result<ClearedView, Refusal> {
    match walked(primary, ds, ring, aud, op) {
        Err(e) => Err(e),
        Ok(q) => if pop::outcome(primary.caveats, primary.tail, body, sig, now_unix) is Err {
            Err(Refusal::Pop)
        } else if bundle_exp(primary, ds, q) matches Some(e) && e <= now_unix {
            Err(Refusal::Expired)
        } else {
            Ok(
                ClearedView {
                    primary,
                    discharge_caveats: gathered(ds, q),
                    expires_at: bundle_exp(primary, ds, q),
                },
            )
        },
    }
}

/// The mathematical value of a cleared bundle.
pub open spec fn cleared_view(c: ClearedBundle) -> ClearedView {
    ClearedView {
        primary: c.primary@,
        discharge_caveats: caveat::chain(c.discharge_caveats@),
        expires_at: c.expires_at,
    }
}

/// The taken discharges of a running walk.
spec fn queue(q: Seq<(usize, [u8; 32])>) -> Taken {
    Seq::new(q.len(), |i: int| (q[i].0 as int, q[i].1@))
}

/// The position of the discharge with this ticket id.
fn find_discharge(ds: &[Macaroon], id: &[u8; 16]) -> (r: Option<usize>)
    ensures
        match r {
            Some(i) => find_ticket(views(ds@), id@) == Some(i as int) && i < ds@.len(),
            None => find_ticket(views(ds@), id@) is None,
        },
{
    let ghost all = views(ds@);
    let mut i: usize = 0;
    while i < ds.len()
        invariant
            i <= ds@.len(),
            all == views(ds@),
            find_ticket(all.take(i as int), id@) is None,
        decreases ds@.len() - i,
    {
        assert(all.take(i + 1).drop_last() =~= all.take(i as int));
        if crate::bytes::same_bytes(ds[i].nonce(), id) {
            proof {
                lemma_find_ticket(all, id@, i as int);
            }
            return Some(i);
        }
        i = i + 1;
    }
    assert(all.take(all.len() as int) =~= all);
    None
}

proof fn lemma_find_ticket(ds: Seq<MacaroonView>, id: Seq<u8>, i: int)
    requires
        0 <= i < ds.len(),
        find_ticket(ds.take(i + 1), id) == Some(i),
    ensures
        find_ticket(ds, id) == Some(i),
    decreases ds.len(),
{
    if i + 1 == ds.len() {
        assert(ds.take(i + 1) =~= ds);
    } else {
        assert(ds.drop_last().take(i + 1) =~= ds.take(i + 1));
        lemma_find_ticket(ds.drop_last(), id, i);
    }
}

/// Whether two discharges claim the same ticket.
fn has_ambiguous(ds: &[Macaroon]) -> (r: bool)
    ensures
        r == ambiguous(views(ds@)),
{
    let ghost all = views(ds@);
    let mut j: usize = 0;
    while j < ds.len()
        invariant
            j <= ds@.len(),
            all == views(ds@),
            forall|a: int, b: int| 0 <= a < b < j ==> (#[trigger] all[a]).nonce != (
            #[trigger] all[b]).nonce,
        decreases ds@.len() - j,
    {
        let mut i: usize = 0;
        while i < j
            invariant
                i <= j < ds@.len(),
                all == views(ds@),
                forall|a: int| 0 <= a < i ==> (#[trigger] all[a]).nonce != all[j as int].nonce,
            decreases j - i,
        {
            if crate::bytes::same_bytes(ds[i].nonce(), ds[j].nonce()) {
                assert(all[i as int].nonce == all[j as int].nonce);
                return true;
            }
            i = i + 1;
        }
        j = j + 1;
    }
    false
}

/// Whether discharge `i` has been taken up.
fn is_taken(q: &[(usize, [u8; 32])], i: usize) -> (r: bool)
    ensures
        r == taken(queue(q@), i as int),
{
    let mut k: usize = 0;
    while k < q.len()
        invariant
            k <= q@.len(),
            forall|a: int| 0 <= a < k ==> q@[a].0 != i,
        decreases q@.len() - k,
    {
        if q[k].0 == i {
            assert(queue(q@)[k as int].0 == i as int);
            return true;
        }
        k = k + 1;
    }
    false
}

/// Pairs each site with its discharge and appends those to `q`.
fn take_all(sites: &[TpcSite], ds: &[Macaroon], q: &mut Vec<(usize, [u8; 32])>) -> (r: Result<
    (),
    VerifyClearError,
>)
    requires
        forall|k: int| 0 <= k < old(q)@.len() ==> (#[trigger] old(q)@[k]).0 < ds@.len(),
    ensures
        ({
            let out = take_sites(macaroon::site_views(sites@), views(ds@), queue(old(q)@));
            match r {
                Ok(_) => out == Ok::<Taken, Refusal>(queue(final(q)@)) && forall|k: int|
                    0 <= k < final(q)@.len() ==> (#[trigger] final(q)@[k]).0 < ds@.len(),
                Err(e) => out == Err::<Taken, Refusal>(e@),
            }
        }),
{
    let ghost start = queue(q@);
    let ghost all = macaroon::site_views(sites@);
    let ghost dv = views(ds@);
    let mut i: usize = 0;
    while i < sites.len()
        invariant
            i <= sites@.len(),
            all == macaroon::site_views(sites@),
            dv == views(ds@),
            start == queue(old(q)@),
            take_sites(all.take(i as int), dv, start) == Ok::<Taken, Refusal>(queue(q@)),
            forall|k: int| 0 <= k < q@.len() ==> (#[trigger] q@[k]).0 < ds@.len(),
        decreases sites@.len() - i,
    {
        proof {
            assert(all.take(i + 1).drop_last() =~= all.take(i as int));
            assert(all.take(i + 1).last() == sites@[i as int]@);
        }
        let step = match tpc::decrypt_vid(&sites[i].tag, &sites[i].vid) {
            Err(_) => Err(VerifyClearError::Auth("vid_decrypt")),
            Ok(key) => match find_discharge(ds, &tpc::ticket_id(&sites[i].cid)) {
                None => Err(VerifyClearError::Auth("tpc_undischarged")),
                Some(d) => match ds[d].key_ref() {
                    KeyRef::Discharge => if is_taken(q, d) {
                        Err(VerifyClearError::Auth("discharge_reused"))
                    } else {
                        Ok((d, key))
                    },
                    _ => Err(VerifyClearError::Auth("not_a_discharge")),
                },
            },
        };
        match step {
            Ok(entry) => {
                let ghost done = queue(q@);
                q.push(entry);
                assert(queue(q@) =~= done.push((entry.0 as int, entry.1@)));
            },
            Err(e) => {
                proof {
                    lemma_take_sites_err(all, dv, start, i + 1);
                }
                return Err(e);
            },
        }
        i = i + 1;
    }
    assert(all.take(all.len() as int) =~= all);
    Ok(())
}

/// A site that cannot be paired stops every longer list.
proof fn lemma_take_sites_err(sites: Seq<SiteView>, ds: Seq<MacaroonView>, q: Taken, n: int)
    requires
        0 <= n <= sites.len(),
        take_sites(sites.take(n), ds, q) is Err,
    ensures
        take_sites(sites, ds, q) == take_sites(sites.take(n), ds, q),
    decreases sites.len(),
{
    if n == sites.len() {
        assert(sites.take(n) =~= sites);
    } else {
        assert(sites.drop_last().take(n) =~= sites.take(n));
        lemma_take_sites_err(sites.drop_last(), ds, q, n);
    }
}

/// Clears one macaroon's own `aud` and `op`.
fn clear_caveats(caveats: &[Caveat], primary: bool, aud: &str, op: &str) -> (r: Result<
    (),
    VerifyClearError,
>)
    ensures
        ({
            let out = clear_one(caveat::chain(caveats@), primary, aud@, op@);
            match r {
                Ok(_) => out is Ok,
                Err(e) => out == Err::<(), Refusal>(e@),
            }
        }),
{
    let eff = EffectiveCaveats::new(caveats);
    let aud_ok = match eff.resolve(name::AUD) {
        Resolved::Value(v) => text::same(v.as_str(), aud),
        Resolved::Absent => !primary,
        Resolved::Unsatisfiable => false,
    };
    if !aud_ok {
        return Err(VerifyClearError::AudClear);
    }
    let op_ok = match eff.resolve(name::OP) {
        Resolved::Value(v) => text::same(v.as_str(), op),
        Resolved::Absent => !primary,
        Resolved::Unsatisfiable => false,
    };
    if !op_ok {
        return Err(VerifyClearError::OpClear);
    }
    Ok(())
}

/// Visits one macaroon.
fn visit_one(
    m: &Macaroon,
    key: &[u8; 32],
    primary: bool,
    ds: &[Macaroon],
    q: &mut Vec<(usize, [u8; 32])>,
    aud: &str,
    op: &str,
) -> (r: Result<(), VerifyClearError>)
    requires
        forall|k: int| 0 <= k < old(q)@.len() ==> (#[trigger] old(q)@[k]).0 < ds@.len(),
    ensures
        ({
            let out = visit(m@, key@, primary, views(ds@), queue(old(q)@), aud@, op@);
            match r {
                Ok(_) => out == Ok::<Taken, Refusal>(queue(final(q)@)) && forall|k: int|
                    0 <= k < final(q)@.len() ==> (#[trigger] final(q)@[k]).0 < ds@.len(),
                Err(e) => out == Err::<Taken, Refusal>(e@),
            }
        }),
{
    let sites = match m.verify_collecting_tpcs(key) {
        Some(s) => s,
        None => {
            return Err(VerifyClearError::Auth("mac_mismatch"));
        },
    };
    match take_all(&sites, ds, q) {
        Ok(_) => {},
        Err(e) => {
            return Err(e);
        },
    }
    clear_caveats(m.caveats(), primary, aud, op)
}

/// The lesser of two bounds.
fn tighter_of(a: Option<u64>, b: Option<u64>) -> (r: Option<u64>)
    ensures
        r == caveat::tighter(a, b),
{
    match (a, b) {
        (Some(x), Some(y)) => Some(
            if x <= y {
                x
            } else {
                y
            },
        ),
        (Some(x), None) => Some(x),
        (None, y) => y,
    }
}

/// Whether every discharge has been taken up.
fn all_taken(q: &[(usize, [u8; 32])], n: usize) -> (r: bool)
    ensures
        r == !(exists|i: int| 0 <= i < n && !taken(queue(q@), i)),
{
    let mut i: usize = 0;
    while i < n
        invariant
            i <= n,
            forall|k: int| 0 <= k < i ==> taken(queue(q@), k),
        decreases n - i,
    {
        if !is_taken(q, i) {
            return false;
        }
        i = i + 1;
    }
    true
}

/// Walks the bundle's chain MACs: the primary under its generation of the
/// keyring, then each discharge under the key recovered from its
/// third-party caveat, nested caveats included. Then clears: `aud` and
/// `op` per macaroon, the holder-of-key proof against the primary, and
/// the least `exp` of the bundle.
pub fn verify_and_clear(
    bundle: &Bundle,
    keyring: &Keyring,
    proof_of: Option<Proof>,
    body: &[u8],
    now_unix: u64,
    expected_aud: &str,
    expected_op: &str,
) -> (r: Result<ClearedBundle, VerifyClearError>)
    ensures
        ({
            let out = cleared(
                bundle.primary@,
                views(bundle.discharges@),
                keyring@,
                pop::proof_view(proof_of),
                body@,
                now_unix,
                expected_aud@,
                expected_op@,
            );
            match r {
                Ok(c) => out == Ok::<ClearedView, Refusal>(
                    ClearedView {
                        primary: c.primary@,
                        discharge_caveats: caveat::chain(c.discharge_caveats@),
                        expires_at: c.expires_at,
                    },
                ),
                Err(e) => out == Err::<ClearedView, Refusal>(e@),
            }
        }),
{
    let ghost dv = views(bundle.discharges@);
    let ghost aud = expected_aud@;
    let ghost op = expected_op@;
    let kid = match bundle.primary.key_ref() {
        KeyRef::Keyring(k) => k,
        _ => {
            return Err(VerifyClearError::Auth("primary_not_credential"));
        },
    };
    let key = match keyring.get(kid) {
        Some(k) => k,
        None => {
            return Err(VerifyClearError::Auth("unknown_kid"));
        },
    };
    let ds: &[Macaroon] = bundle.discharges.as_slice();
    if has_ambiguous(ds) {
        return Err(VerifyClearError::Auth("ambiguous_discharge"));
    }
    let mut q: Vec<(usize, [u8; 32])> = Vec::new();
    assert(queue(q@) =~= Seq::<(int, Seq<u8>)>::empty());
    match visit_one(&bundle.primary, key, true, ds, &mut q, expected_aud, expected_op) {
        Ok(_) => {},
        Err(e) => {
            return Err(e);
        },
    }
    let mut head: usize = 0;
    let ghost first = queue(q@);
    while head < q.len() && head < ds.len()
        invariant
            head <= ds@.len(),
            ds@ == bundle.discharges@,
            dv == views(ds@),
            aud == expected_aud@,
            op == expected_op@,
            forall|k: int| 0 <= k < q@.len() ==> (#[trigger] q@[k]).0 < ds@.len(),
            walk(dv, first, 0, aud, op) == walk(dv, queue(q@), head as int, aud, op),
            walk(dv, first, 0, aud, op) is Err ==> cleared(
                bundle.primary@,
                dv,
                keyring@,
                pop::proof_view(proof_of),
                body@,
                now_unix,
                aud,
                op,
            ) == Err::<ClearedView, Refusal>(walk(dv, first, 0, aud, op)->Err_0),
        decreases ds@.len() - head,
    {
        let d: usize = q[head].0;
        let dk: [u8; 32] = q[head].1;
        assert(queue(q@)[head as int] == (d as int, dk@));
        match visit_one(&ds[d], &dk, false, ds, &mut q, expected_aud, expected_op) {
            Ok(_) => {},
            Err(e) => {
                return Err(e);
            },
        }
        head = head + 1;
    }
    let ghost last = queue(q@);
    if !all_taken(&q, ds.len()) {
        return Err(VerifyClearError::Auth("unmatched_discharge"));
    }
    if pop::check(bundle.primary.caveats(), bundle.primary.tail(), body, proof_of, now_unix).is_err() {
        return Err(VerifyClearError::Pop);
    }
    let mut discharge_caveats: Vec<Caveat> = Vec::new();
    let mut min_exp: Option<u64> = EffectiveCaveats::new(bundle.primary.caveats()).min_bound(
        name::EXP,
    );
    let mut i: usize = 0;
    assert(last.take(0) =~= Seq::<(int, Seq<u8>)>::empty());
    assert(caveat::chain(discharge_caveats@) =~= Seq::<CaveatView>::empty());
    while i < q.len()
        invariant
            i <= q@.len(),
            last == queue(q@),
            dv == views(ds@),
            forall|k: int| 0 <= k < q@.len() ==> (#[trigger] q@[k]).0 < ds@.len(),
            caveat::chain(discharge_caveats@) == gathered(dv, last.take(i as int)),
            min_exp == bundle_exp(bundle.primary@, dv, last.take(i as int)),
        decreases q@.len() - i,
    {
        proof {
            assert(last.take(i + 1).drop_last() =~= last.take(i as int));
            assert(last.take(i + 1).last() == (q@[i as int].0 as int, q@[i as int].1@));
        }
        let m = &ds[q[i].0];
        macaroon::append_caveats(&mut discharge_caveats, m.caveats());
        min_exp = tighter_of(min_exp, EffectiveCaveats::new(m.caveats()).min_bound(name::EXP));
        i = i + 1;
    }
    assert(last.take(last.len() as int) =~= last);
    if let Some(deadline) = min_exp {
        if deadline <= now_unix {
            return Err(VerifyClearError::Expired);
        }
    }
    Ok(
        ClearedBundle {
            primary: bundle.primary.clone(),
            discharge_caveats,
            expires_at: min_exp,
        },
    )
}

/// Every taken discharge is one of `ds`, is a discharge, and none is
/// taken twice.
pub open spec fn taken_once(ds: Seq<MacaroonView>, q: Taken) -> bool {
    &&& forall|k: int|
        0 <= k < q.len() ==> 0 <= (#[trigger] q[k]).0 < ds.len() && ds[q[k].0].key_ref
            == KeyRef::Discharge
    &&& forall|j: int, k: int|
        0 <= j < k < q.len() ==> (#[trigger] q[j]).0 != (#[trigger] q[k]).0
}

/// The key of a taken discharge was recovered from a third-party caveat
/// whose ticket it answers.
pub open spec fn answers(d: MacaroonView, key: Seq<u8>, m: MacaroonView, mkey: Seq<u8>) -> bool {
    exists|s: int|
        0 <= s < macaroon::sites(m, mkey).len() && #[trigger] site_paired(
            macaroon::sites(m, mkey)[s],
            d,
            key,
        )
}

/// A discharge is paired with a third-party caveat: its nonce is the
/// caveat's ticket, and its key is what the caveat's `vid` seals.
pub open spec fn site_paired(site: SiteView, d: MacaroonView, key: Seq<u8>) -> bool {
    tpc::ticket(site.cid) == d.nonce && tpc::recovered(site.tag, site.vid) == Ok::<
        Seq<u8>,
        tpc::TpcError,
    >(key)
}

/// `find_ticket` finds a discharge with that nonce.
proof fn lemma_found_ticket(ds: Seq<MacaroonView>, id: Seq<u8>)
    ensures
        find_ticket(ds, id) matches Some(i) ==> 0 <= i < ds.len() && ds[i].nonce == id,
    decreases ds.len(),
{
    if ds.len() > 0 {
        lemma_found_ticket(ds.drop_last(), id);
    }
}

/// What pairing the sites of a chain keeps and adds.
proof fn lemma_take_sites(sites: Seq<SiteView>, ds: Seq<MacaroonView>, q: Taken)
    requires
        taken_once(ds, q),
        take_sites(sites, ds, q) is Ok,
    ensures
        ({
            let q1 = take_sites(sites, ds, q)->Ok_0;
            &&& taken_once(ds, q1)
            &&& q1.len() == q.len() + sites.len()
            &&& forall|k: int| 0 <= k < q.len() ==> #[trigger] q1[k] == q[k]
            &&& forall|k: int|
                q.len() <= k < q1.len() ==> site_paired(
                    sites[k - q.len()],
                    ds[(#[trigger] q1[k]).0],
                    q1[k].1,
                )
        }),
    decreases sites.len(),
{
    if sites.len() > 0 {
        lemma_take_sites(sites.drop_last(), ds, q);
        let q0 = take_sites(sites.drop_last(), ds, q)->Ok_0;
        let q1 = take_sites(sites, ds, q)->Ok_0;
        let site = sites.last();
        lemma_found_ticket(ds, tpc::ticket(site.cid));
        let i = find_ticket(ds, tpc::ticket(site.cid))->Some_0;
        assert(q1 == q0.push((i, tpc::recovered(site.tag, site.vid)->Ok_0)));
        assert forall|j: int, k: int| 0 <= j < k < q1.len() implies (#[trigger] q1[j]).0 != (
        #[trigger] q1[k]).0 by {
            if k == q0.len() {
                assert(q0[j].0 != i) by {
                    if q0[j].0 == i {
                        assert(taken(q0, i));
                    }
                }
            } else {
                assert(q0[j].0 != q0[k].0);
            }
        }
        assert forall|k: int| q.len() <= k < q1.len() implies site_paired(
            sites[k - q.len()],
            ds[(#[trigger] q1[k]).0],
            q1[k].1,
        ) by {
            if k < q0.len() {
                assert(q1[k] == q0[k]);
                assert(sites.drop_last()[k - q.len()] == sites[k - q.len()]);
            }
        }
    }
}

/// The taken discharge at `k` was paired with a third-party caveat of the
/// primary or of a discharge taken before it.
pub open spec fn answered(
    primary: MacaroonView,
    key: Seq<u8>,
    ds: Seq<MacaroonView>,
    q: Taken,
    k: int,
) -> bool {
    answers(ds[q[k].0], q[k].1, primary, key) || exists|j: int|
        0 <= j < k && #[trigger] answers(ds[q[k].0], q[k].1, ds[q[j].0], q[j].1)
}

/// What a walk has established of the discharges that it has visited,
/// those before `head`, and of all that it has taken.
pub open spec fn walk_holds(
    primary: MacaroonView,
    key: Seq<u8>,
    ds: Seq<MacaroonView>,
    q: Taken,
    head: int,
    aud: Seq<char>,
    op: Seq<char>,
) -> bool {
    &&& taken_once(ds, q)
    &&& forall|k: int| 0 <= k < q.len() ==> #[trigger] answered(primary, key, ds, q, k)
    &&& forall|k: int|
        0 <= k < head && k < q.len() ==> macaroon::authentic(ds[(#[trigger] q[k]).0], q[k].1)
            && permits(ds[q[k].0].caveats, name::AUD@, aud) && permits(
            ds[q[k].0].caveats,
            name::OP@,
            op,
        )
}

/// A list of different positions below `n` has at most `n` entries.
proof fn lemma_positions(q: Taken, n: nat)
    requires
        forall|k: int| 0 <= k < q.len() ==> 0 <= (#[trigger] q[k]).0 < n,
        forall|j: int, k: int|
            0 <= j < k < q.len() ==> (#[trigger] q[j]).0 != (#[trigger] q[k]).0,
    ensures
        q.len() <= n,
{
    let s = Seq::new(q.len(), |k: int| q[k].0);
    assert(s.no_duplicates()) by {
        assert forall|j: int, k: int| 0 <= j < s.len() && 0 <= k < s.len() && j != k implies s[j]
            != s[k] by {
            if j < k {
                assert(q[j].0 != q[k].0);
            } else {
                assert(q[k].0 != q[j].0);
            }
        }
    }
    s.unique_seq_to_set();
    let r = vstd::set_lib::set_int_range(0, n as int);
    vstd::set_lib::lemma_int_range(0, n as int);
    assert(s.to_set().subset_of(r)) by {
        assert forall|x: int| s.to_set().contains(x) implies r.contains(x) by {
            let k = choose|k: int| 0 <= k < s.len() && s[k] == x;
            assert(q[k].0 == x);
        }
    }
    vstd::set_lib::lemma_len_subset(s.to_set(), r);
}

/// A visit extends what a walk has established.
proof fn lemma_visit(
    primary: MacaroonView,
    key: Seq<u8>,
    ds: Seq<MacaroonView>,
    q: Taken,
    head: int,
    aud: Seq<char>,
    op: Seq<char>,
)
    requires
        walk_holds(primary, key, ds, q, head, aud, op),
        0 <= head < q.len(),
        visit(ds[q[head].0], q[head].1, false, ds, q, aud, op) is Ok,
    ensures
        walk_holds(
            primary,
            key,
            ds,
            visit(ds[q[head].0], q[head].1, false, ds, q, aud, op)->Ok_0,
            head + 1,
            aud,
            op,
        ),
        visit(ds[q[head].0], q[head].1, false, ds, q, aud, op)->Ok_0.len() >= q.len(),
{
    let m = ds[q[head].0];
    let sites = macaroon::sites(m, q[head].1);
    lemma_take_sites(sites, ds, q);
    let q1 = take_sites(sites, ds, q)->Ok_0;
    assert forall|k: int| 0 <= k < q1.len() implies #[trigger] answered(
        primary,
        key,
        ds,
        q1,
        k,
    ) by {
        if k < q.len() {
            assert(answered(primary, key, ds, q, k));
            assert(q1[k] == q[k]);
            if !answers(ds[q[k].0], q[k].1, primary, key) {
                let j = choose|j: int|
                    0 <= j < k && #[trigger] answers(ds[q[k].0], q[k].1, ds[q[j].0], q[j].1);
                assert(q1[j] == q[j]);
                assert(answers(ds[q1[k].0], q1[k].1, ds[q1[j].0], q1[j].1));
            }
        } else {
            assert(site_paired(sites[k - q.len()], ds[q1[k].0], q1[k].1));
            assert(q1[head] == q[head]);
            assert(answers(ds[q1[k].0], q1[k].1, ds[q1[head].0], q1[head].1));
        }
    }
    assert forall|k: int| 0 <= k < head + 1 && k < q1.len() implies macaroon::authentic(
        ds[(#[trigger] q1[k]).0],
        q1[k].1,
    ) && permits(ds[q1[k].0].caveats, name::AUD@, aud) && permits(
        ds[q1[k].0].caveats,
        name::OP@,
        op,
    ) by {
        assert(q1[k] == q[k]);
    }
}

/// A walk that ends has visited everything that it took.
proof fn lemma_walk(
    primary: MacaroonView,
    key: Seq<u8>,
    ds: Seq<MacaroonView>,
    q: Taken,
    head: int,
    aud: Seq<char>,
    op: Seq<char>,
)
    requires
        walk_holds(primary, key, ds, q, head, aud, op),
        0 <= head,
        walk(ds, q, head, aud, op) is Ok,
    ensures
        ({
            let q1 = walk(ds, q, head, aud, op)->Ok_0;
            walk_holds(primary, key, ds, q1, q1.len() as int, aud, op)
        }),
    decreases ds.len() - head,
{
    lemma_positions(q, ds.len());
    if head < q.len() {
        lemma_visit(primary, key, ds, q, head, aud, op);
        let q1 = visit(ds[q[head].0], q[head].1, false, ds, q, aud, op)->Ok_0;
        lemma_walk(primary, key, ds, q1, head + 1, aud, op);
    }
}

/// What a cleared bundle has shown: the primary is authentic under a
/// generation of the keyring and carries this audience and operation; each
/// discharge is taken exactly once, is authentic under the key that its
/// own third-party caveat seals for it, and permits the audience and
/// operation; and none is left over.
pub proof fn law_cleared_bundle_is_authentic(
    primary: MacaroonView,
    ds: Seq<MacaroonView>,
    ring: KeyringView,
    aud: Seq<char>,
    op: Seq<char>,
)
    requires
        walked(primary, ds, ring, aud, op) is Ok,
    ensures
        primary.key_ref matches KeyRef::Keyring(kid) && ring.keys.contains_key(kid)
            && macaroon::authentic(primary, ring.keys[kid]) && carries(
            primary.caveats,
            name::AUD@,
            aud,
        ) && carries(primary.caveats, name::OP@, op) && ({
            let q = walked(primary, ds, ring, aud, op)->Ok_0;
            &&& walk_holds(primary, ring.keys[kid], ds, q, q.len() as int, aud, op)
            &&& q.len() == ds.len()
            &&& forall|i: int| 0 <= i < ds.len() ==> taken(q, i)
        }),
{
    let kid = primary.key_ref->Keyring_0;
    let key = ring.keys[kid];
    let q0 = Seq::<(int, Seq<u8>)>::empty();
    let q = visit(primary, key, true, ds, q0, aud, op)->Ok_0;
    let sites = macaroon::sites(primary, key);
    lemma_take_sites(sites, ds, q0);
    assert forall|k: int| 0 <= k < q.len() implies #[trigger] answered(
        primary,
        key,
        ds,
        q,
        k,
    ) by {
        assert(site_paired(sites[k - q0.len()], ds[q[k].0], q[k].1));
        assert(answers(ds[q[k].0], q[k].1, primary, key));
    }
    lemma_walk(primary, key, ds, q, 0, aud, op);
    let q1 = walked(primary, ds, ring, aud, op)->Ok_0;
    lemma_positions(q1, ds.len());
    lemma_all_taken(ds.len(), q1);
}

/// The walk keeps what it has taken.
proof fn lemma_walk_keeps(ds: Seq<MacaroonView>, q: Taken, head: int, aud: Seq<char>, op: Seq<char>)
    requires
        taken_once(ds, q),
        walk(ds, q, head, aud, op) is Ok,
    ensures
        ({
            let q1 = walk(ds, q, head, aud, op)->Ok_0;
            q.len() <= q1.len() && forall|k: int| 0 <= k < q.len() ==> #[trigger] q1[k] == q[k]
        }),
    decreases ds.len() - head,
{
    if 0 <= head < q.len() && head < ds.len() {
        let m = ds[q[head].0];
        let q0 = visit(m, q[head].1, false, ds, q, aud, op)->Ok_0;
        lemma_take_sites(macaroon::sites(m, q[head].1), ds, q);
        lemma_walk_keeps(ds, q0, head + 1, aud, op);
        let q1 = walk(ds, q, head, aud, op)->Ok_0;
        assert forall|k: int| 0 <= k < q.len() implies #[trigger] q1[k] == q[k] by {
            assert(q0[k] == q[k]);
        }
    }
}

/// A third-party caveat is discharged: the bundle holds a discharge with its
/// ticket that is authentic under the key that the caveat seals.
pub open spec fn discharged(site: SiteView, ds: Seq<MacaroonView>) -> bool {
    exists|i: int|
        0 <= i < ds.len() && (#[trigger] ds[i]).key_ref == KeyRef::Discharge && ds[i].nonce
            == tpc::ticket(site.cid) && tpc::recovered(site.tag, site.vid) is Ok
            && macaroon::authentic(ds[i], tpc::recovered(site.tag, site.vid)->Ok_0)
}

/// No third-party caveat is passed over: a token is inert without its
/// discharges. Every third-party caveat of a cleared bundle's primary is
/// discharged by a macaroon of the bundle.
pub proof fn law_every_caveat_is_discharged(
    primary: MacaroonView,
    ds: Seq<MacaroonView>,
    ring: KeyringView,
    aud: Seq<char>,
    op: Seq<char>,
    s: int,
)
    requires
        walked(primary, ds, ring, aud, op) is Ok,
        primary.key_ref matches KeyRef::Keyring(kid) && 0 <= s < macaroon::sites(
            primary,
            ring.keys[kid],
        ).len(),
    ensures
        discharged(macaroon::sites(primary, ring.keys[primary.key_ref->Keyring_0])[s], ds),
{
    let key = ring.keys[primary.key_ref->Keyring_0];
    let sites = macaroon::sites(primary, key);
    let q0 = Seq::<(int, Seq<u8>)>::empty();
    let q = visit(primary, key, true, ds, q0, aud, op)->Ok_0;
    lemma_take_sites(sites, ds, q0);
    lemma_walk_keeps(ds, q, 0, aud, op);
    law_cleared_bundle_is_authentic(primary, ds, ring, aud, op);
    let q1 = walked(primary, ds, ring, aud, op)->Ok_0;
    assert(q1[s] == q[s]);
    assert(site_paired(sites[s - q0.len()], ds[q[s].0], q[s].1));
    assert(macaroon::authentic(ds[q1[s].0], q1[s].1));
    assert(ds[q1[s].0].key_ref == KeyRef::Discharge);
}

/// Taking every one of `n` positions takes at least `n`.
proof fn lemma_all_taken(n: nat, q: Taken)
    requires
        forall|i: int| 0 <= i < n ==> taken(q, i),
    ensures
        q.len() >= n,
{
    let s = Seq::new(q.len(), |k: int| q[k].0);
    let r = vstd::set_lib::set_int_range(0, n as int);
    vstd::set_lib::lemma_int_range(0, n as int);
    assert(r.subset_of(s.to_set())) by {
        assert forall|x: int| r.contains(x) implies s.to_set().contains(x) by {
            assert(taken(q, x));
            let k = choose|k: int| 0 <= k < q.len() && (#[trigger] q[k]).0 == x;
            assert(s[k] == x);
        }
    }
    s.lemma_cardinality_of_set();
    vstd::set_lib::lemma_len_subset(r, s.to_set());
}

/// A cleared bundle has not expired: the least `exp` over the primary and
/// every discharge, where there is any, is still to come.
pub proof fn law_cleared_bundle_is_live(
    primary: MacaroonView,
    ds: Seq<MacaroonView>,
    ring: KeyringView,
    sig: Option<Seq<u8>>,
    body: Seq<u8>,
    now_unix: u64,
    aud: Seq<char>,
    op: Seq<char>,
)
    requires
        cleared(primary, ds, ring, sig, body, now_unix, aud, op) is Ok,
    ensures
        pop::outcome(primary.caveats, primary.tail, body, sig, now_unix) is Ok,
        caveat::bound_of(primary.caveats, name::EXP@) matches Some(e) ==> now_unix < e,
        forall|i: int|
            0 <= i < ds.len() ==> (caveat::bound_of(
                (#[trigger] ds[i]).caveats,
                name::EXP@,
            ) matches Some(e) ==> now_unix < e),
{
    let q = walked(primary, ds, ring, aud, op)->Ok_0;
    law_cleared_bundle_is_authentic(primary, ds, ring, aud, op);
    lemma_bundle_exp(primary, ds, q);
    assert forall|i: int| 0 <= i < ds.len() implies (caveat::bound_of(
        (#[trigger] ds[i]).caveats,
        name::EXP@,
    ) matches Some(e) ==> now_unix < e) by {
        assert(taken(q, i));
        let k = choose|k: int| 0 <= k < q.len() && (#[trigger] q[k]).0 == i;
        assert(q[k].0 == i);
    }
}

/// The bundle's `exp` is no later than any of its macaroons'.
proof fn lemma_bundle_exp(primary: MacaroonView, ds: Seq<MacaroonView>, q: Taken)
    ensures
        caveat::bound_of(primary.caveats, name::EXP@) matches Some(e) ==> bundle_exp(
            primary,
            ds,
            q,
        ) is Some && bundle_exp(primary, ds, q)->0 <= e,
        forall|k: int|
            0 <= k < q.len() ==> (caveat::bound_of(
                ds[(#[trigger] q[k]).0].caveats,
                name::EXP@,
            ) matches Some(e) ==> bundle_exp(primary, ds, q) is Some && bundle_exp(
                primary,
                ds,
                q,
            )->0 <= e),
    decreases q.len(),
{
    if q.len() > 0 {
        let p = q.drop_last();
        lemma_bundle_exp(primary, ds, p);
        assert forall|k: int| 0 <= k < q.len() implies (caveat::bound_of(
            ds[(#[trigger] q[k]).0].caveats,
            name::EXP@,
        ) matches Some(e) ==> bundle_exp(primary, ds, q) is Some && bundle_exp(
            primary,
            ds,
            q,
        )->0 <= e) by {
            if k < p.len() {
                assert(p[k] == q[k]);
            }
        }
    }
}

/// The primary of a cleared bundle carries the operation that it was
/// cleared for.
pub proof fn lemma_cleared_carries(
    primary: MacaroonView,
    ds: Seq<MacaroonView>,
    ring: KeyringView,
    sig: Option<Seq<u8>>,
    body: Seq<u8>,
    now_unix: u64,
    aud: Seq<char>,
    op: Seq<char>,
)
    requires
        cleared(primary, ds, ring, sig, body, now_unix, aud, op) is Ok,
    ensures
        carries(primary.caveats, name::AUD@, aud),
        carries(primary.caveats, name::OP@, op),
{
}

/// The header value of a bundle: the primary, then the discharges.
pub open spec fn bundle_text(primary: MacaroonView, ds: Seq<MacaroonView>) -> Seq<char> {
    SCHEME@ + text::joined(
        (seq![primary] + ds).map_values(|m: MacaroonView| macaroon::token_of(m)),
        ","@,
    )
}

/// Every field of the macaroon's caveats fits its length prefix.
pub open spec fn encodable(m: MacaroonView) -> bool {
    forall|i: int| 0 <= i < m.caveats.len() ==> macaroon::step_fits(#[trigger] m.caveats[i])
}

/// A list of tokens that read back.
proof fn lemma_tokens_read_back(parts: Seq<Seq<char>>, ms: Seq<MacaroonView>)
    requires
        parts.len() == ms.len(),
        forall|i: int|
            0 <= i < parts.len() ==> macaroon::read_token(text::trimmed(#[trigger] parts[i]))
                == Some(ms[i]),
    ensures
        read_tokens(parts) == Some(ms),
    decreases parts.len(),
{
    if parts.len() == 0 {
        assert(ms =~= Seq::<MacaroonView>::empty());
    } else {
        let p = parts.drop_last();
        assert forall|i: int| 0 <= i < p.len() implies macaroon::read_token(
            text::trimmed(#[trigger] p[i]),
        ) == Some(ms.drop_last()[i]) by {
            assert(p[i] == parts[i]);
        }
        lemma_tokens_read_back(p, ms.drop_last());
        assert(parts[parts.len() - 1] == parts.last());
        assert(ms.drop_last().push(ms.last()) =~= ms);
    }
}

/// The header value that presents a bundle. What a client writes, the
/// server reads: it extracts the same primary and the same discharges.
pub fn format_bundle(primary: &Macaroon, discharges: &[Macaroon]) -> (r: String)
    ensures
        r@ == bundle_text(primary@, views(discharges@)),
        encodable(primary@) && (forall|i: int|
            0 <= i < discharges@.len() ==> encodable((#[trigger] discharges@[i])@))
            ==> read_bundle(Some(r@)) == Some(seq![primary@] + views(discharges@)),
{
    let ghost ms = seq![primary@] + views(discharges@);
    let mut parts: Vec<String> = Vec::new();
    parts.push(primary.encode());
    let mut i: usize = 0;
    while i < discharges.len()
        invariant
            i <= discharges@.len(),
            parts@.len() == i + 1,
            ms == seq![primary@] + views(discharges@),
            forall|j: int|
                0 <= j <= i ==> {
                    &&& (#[trigger] parts@[j])@ == macaroon::token_of(ms[j])
                    &&& encodable(ms[j]) ==> macaroon::read_token(parts@[j]@) == Some(ms[j])
                    &&& plain_token(parts@[j]@)
                },
        decreases discharges@.len() - i,
    {
        assert(ms[i + 1] == discharges@[i as int]@);
        parts.push(discharges[i].encode());
        i = i + 1;
    }
    let ghost tokens = text::texts(parts@);
    let payload = text::join(&parts, ",");
    let r = text::concat(SCHEME, payload.as_str());
    proof {
        assert(tokens =~= ms.map_values(|m: MacaroonView| macaroon::token_of(m)));
        reveal_strlit(",");
        assert(","@ =~= seq![',']);
        assert forall|a: int, b: int|
            0 <= a < tokens.len() && 0 <= b < tokens[a].len() implies (#[trigger] tokens[a][b])
            != ',' by {
            assert(plain_token(parts@[a]@));
            assert(crate::crypto::base64url_char(parts@[a]@[b]));
        }
        text::lemma_split_joined(tokens, ',');
        assert(r@.subrange(0, SCHEME@.len() as int) =~= SCHEME@);
        assert(r@.skip(SCHEME@.len() as int) =~= payload@);
        if encodable(primary@) && (forall|i: int|
            0 <= i < discharges@.len() ==> encodable((#[trigger] discharges@[i])@)) {
            assert forall|a: int| 0 <= a < tokens.len() implies macaroon::read_token(
                text::trimmed(#[trigger] tokens[a]),
            ) == Some(ms[a]) by {
                if a > 0 {
                    assert(ms[a] == discharges@[a - 1]@);
                }
                assert(plain_token(parts@[a]@));
                assert(!text::has_white_space(tokens[a])) by {
                    if text::has_white_space(tokens[a]) {
                        let b = choose|b: int|
                            0 <= b < tokens[a].len() && text::is_white_space(
                                #[trigger] tokens[a][b],
                            );
                        assert(crate::crypto::base64url_char(parts@[a]@[b]));
                    }
                }
                text::lemma_trimmed_word(tokens[a]);
            }
            lemma_tokens_read_back(tokens, ms);
        }
    }
    r
}

/// Only characters of a token.
pub open spec fn plain_token(s: Seq<char>) -> bool {
    forall|i: int| 0 <= i < s.len() ==> crate::crypto::base64url_char(#[trigger] s[i])
}

/// The address that a request is recorded under: what the proxy in front
/// forwarded, where it did.
pub fn peer_ip(forwarded: Option<&str>) -> (r: String)
    ensures
        r@ == (match forwarded {
            Some(ip) => ip@,
            None => "unknown"@,
        }),
{
    match forwarded {
        Some(ip) => text::owned(ip),
        None => text::owned("unknown"),
    }
}

/// The readiness of a server: ready once it serves a seal, and held out of
/// rotation while it is dormant.
pub fn readyz(state: &SealState) -> (r: (u16, &'static str))
    ensures
        match state {
            SealState::Serving(_) => r.0 == 200 && r.1@ == "ready"@,
            SealState::Dormant => r.0 == 503 && r.1@ == "not sealed"@,
        },
{
    match state {
        SealState::Serving(_) => (200, "ready"),
        SealState::Dormant => (503, "not sealed"),
    }
}

} // verus!
