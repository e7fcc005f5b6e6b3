//! OAuth2 device-flow login. A tablet asks for a device code and polls for the tokens that it stands
//! for, which it gets once the code is approved; access, refresh and id tokens are the user and
//! device credentials that the rest of the server accepts. A legacy device credential is exchanged
//! for the same.
//!
//! Times here are nanoseconds of a clock that never goes back.

use vstd::prelude::*;
use vstd::string::*;

use crate::error::ServerError;
use crate::readlater::prefixed;
use crate::text::{char_count, same, slice, starts_with};

verus! {

/// The account that codes are approved to.
pub const LOCAL_USER: &'static str = "local-user";

/// How long a device code can be redeemed, in seconds.
pub const DEVICE_CODE_TTL: u64 = 600;

/// How long a device waits between polls at first, and how much longer after each that came too
/// early, in seconds.
pub const INTERVAL: u64 = 5;

/// How many device codes are kept.
pub const MAX_PENDING: usize = 256;

pub const SCOPES: &'static str = "openid profile email offline_access";

/// How long an access token is good for, in seconds.
pub const EXPIRES_IN: u64 = 3 * 60 * 60;

/// Nanoseconds in a second.
pub const NANOS: u64 = 1_000_000_000;

/// A device code that was issued and not redeemed.
#[derive(Debug)]
pub struct Pending {
    pub code: String,
    /// The code that the owner is shown, to approve.
    pub user_code: String,
    /// The device that the tokens are for.
    pub device_id: String,
    pub at: u64,
    pub approved: bool,
    /// When the device polled last.
    pub polled: Option<u64>,
    /// How long it has to wait between polls, in seconds.
    pub interval: u64,
}

/// The device codes that can be redeemed, the oldest first.
#[derive(Debug)]
pub struct DeviceCodes {
    pub pending: Vec<Pending>,
    /// Whether the owner has to approve a code; else it is approved as it is issued.
    pub owner_approves: bool,
}

/// Whether a code can no longer be redeemed at a time.
pub open spec fn expired(p: Pending, at: u64) -> bool {
    at - p.at > DEVICE_CODE_TTL * NANOS
}

/// Whether a device polls before it has waited.
pub open spec fn too_early(p: Pending, at: u64) -> bool {
    p.polled matches Some(t) && at - t < p.interval * NANOS
}

/// Where a code stands among those that are pending; their number if it does not.
pub open spec fn index_of(s: Seq<Pending>, code: Seq<char>) -> int
    decreases s.len(),
{
    if s.len() == 0 {
        0
    } else if s[0].code@ == code {
        0
    } else {
        1 + index_of(s.skip(1), code)
    }
}

/// The codes that stay when a new one is issued: not those that have expired, nor one that is the
/// same.
pub open spec fn kept(s: Seq<Pending>, code: Seq<char>, at: u64) -> Seq<Pending>
    decreases s.len(),
{
    if s.len() == 0 {
        Seq::empty()
    } else {
        let before = kept(s.drop_last(), code, at);
        if s.last().code@ == code || expired(s.last(), at) {
            before
        } else {
            before.push(s.last())
        }
    }
}

/// Where the first code stands that was not approved; their number if all were.
pub open spec fn first_unapproved(s: Seq<Pending>) -> int
    decreases s.len(),
{
    if s.len() == 0 {
        0
    } else if !s[0].approved {
        0
    } else {
        1 + first_unapproved(s.skip(1))
    }
}

/// Codes with room for one more: the first that was not approved makes way, and else the first.
pub open spec fn with_room(s: Seq<Pending>) -> Seq<Pending> {
    if s.len() < MAX_PENDING {
        s
    } else {
        let i = first_unapproved(s);
        if i < s.len() {
            s.remove(i)
        } else {
            s.remove(0)
        }
    }
}

/// What a poll is answered.
#[derive(Debug)]
pub enum Poll {
    /// The tokens of this device.
    Granted(String),
    /// Refused, for this reason.
    Refused(&'static str),
}

/// A code as it is after a poll that came too early.
pub open spec fn slowed(p: Pending, at: u64) -> Pending {
    Pending {
        polled: Some(at),
        interval: if p.interval + INTERVAL <= u64::MAX {
            (p.interval + INTERVAL) as u64
        } else {
            u64::MAX
        },
        ..p
    }
}

/// What a poll for a code is answered, and the codes after it.
pub open spec fn polled(s: Seq<Pending>, code: Seq<char>, at: u64) -> (
    Result<Seq<char>, Seq<char>>,
    Seq<Pending>,
) {
    let i = index_of(s, code);
    if i >= s.len() {
        (Err("invalid_grant"@), s)
    } else if expired(s[i], at) {
        (Err("expired_token"@), s.remove(i))
    } else if too_early(s[i], at) {
        (Err("slow_down"@), s.update(i, slowed(s[i], at)))
    } else if s[i].approved {
        (Ok(s[i].device_id@), s.remove(i))
    } else {
        (Err("authorization_pending"@), s.update(i, Pending { polled: Some(at), ..s[i] }))
    }
}

/// A code after its owner approved a user code.
pub open spec fn approving(p: Pending, user_code: Seq<char>, at: u64) -> Pending {
    if p.user_code@ == user_code && !expired(p, at) {
        Pending { approved: true, ..p }
    } else {
        p
    }
}

/// Whether no code is pending twice, and there are not too many.
pub open spec fn sound(s: Seq<Pending>) -> bool {
    &&& s.len() <= MAX_PENDING
    &&& forall|i: int, j: int|
        0 <= i < j < s.len() ==> (#[trigger] s[i]).code@ != (#[trigger] s[j]).code@
}

proof fn lemma_index(s: Seq<Pending>, code: Seq<char>)
    ensures
        0 <= index_of(s, code) <= s.len(),
        index_of(s, code) < s.len() ==> s[index_of(s, code)].code@ == code,
        forall|j: int| 0 <= j < index_of(s, code) ==> (#[trigger] s[j]).code@ != code,
    decreases s.len(),
{
    if s.len() > 0 && s[0].code@ != code {
        lemma_index(s.skip(1), code);
        assert forall|j: int| 0 <= j < index_of(s, code) implies (#[trigger] s[j]).code@ != code by {
            if j > 0 {
                assert(s.skip(1)[j - 1] == s[j]);
            }
        }
    }
}

/// The place of a code is where it stands first.
proof fn lemma_index_is(s: Seq<Pending>, code: Seq<char>, i: int)
    requires
        0 <= i <= s.len(),
        i < s.len() ==> s[i].code@ == code,
        forall|j: int| 0 <= j < i ==> (#[trigger] s[j]).code@ != code,
    ensures
        index_of(s, code) == i,
{
    lemma_index(s, code);
    let k = index_of(s, code);
    if k < i {
        assert(s[k].code@ != code);
    }
    if i < k {
        assert(s[i].code@ != code);
    }
}

proof fn lemma_unapproved(s: Seq<Pending>)
    ensures
        0 <= first_unapproved(s) <= s.len(),
        first_unapproved(s) < s.len() ==> !s[first_unapproved(s)].approved,
        forall|j: int| 0 <= j < first_unapproved(s) ==> (#[trigger] s[j]).approved,
    decreases s.len(),
{
    if s.len() > 0 && s[0].approved {
        lemma_unapproved(s.skip(1));
        assert forall|j: int| 0 <= j < first_unapproved(s) implies (#[trigger] s[j]).approved by {
            if j > 0 {
                assert(s.skip(1)[j - 1] == s[j]);
            }
        }
    }
}

/// The codes that stay are among those there were, in order.
proof fn lemma_kept(s: Seq<Pending>, code: Seq<char>, at: u64)
    requires
        sound(s),
    ensures
        kept(s, code, at).len() <= s.len(),
        sound(kept(s, code, at)),
        forall|i: int|
            0 <= i < kept(s, code, at).len() ==> (#[trigger] kept(s, code, at)[i]).code@ != code
                && !expired(kept(s, code, at)[i], at) && s.contains(kept(s, code, at)[i]),
    decreases s.len(),
{
    if s.len() > 0 {
        let rest = s.drop_last();
        assert(sound(rest)) by {
            assert forall|i: int, j: int| 0 <= i < j < rest.len() implies (#[trigger] rest[i]).code@
                != (#[trigger] rest[j]).code@ by {
                assert(s[i].code@ != s[j].code@);
            }
        }
        lemma_kept(rest, code, at);
        let before = kept(rest, code, at);
        let now = kept(s, code, at);
        assert forall|i: int| 0 <= i < now.len() implies (#[trigger] now[i]).code@ != code
            && !expired(now[i], at) && s.contains(now[i]) by {
            if i < before.len() {
                assert(before[i] == now[i]);
                let k = choose|k: int| 0 <= k < rest.len() && rest[k] == before[i];
                assert(s[k] == now[i]);
            } else {
                assert(s[s.len() - 1] == now[i]);
            }
        }
        assert forall|i: int, j: int| 0 <= i < j < now.len() implies (#[trigger] now[i]).code@ != (
        #[trigger] now[j]).code@ by {
            assert(before[i] == now[i]);
            if j < before.len() {
                assert(before[j] == now[j]);
            } else {
                let k = choose|k: int| 0 <= k < rest.len() && rest[k] == before[i];
                assert(s[k].code@ != s[s.len() - 1].code@);
            }
        }
    }
}

proof fn lemma_remove_is_sound(s: Seq<Pending>, i: int)
    requires
        sound(s),
        0 <= i < s.len(),
    ensures
        sound(s.remove(i)),
        forall|j: int| 0 <= j < s.len() - 1 ==> s.contains(#[trigger] s.remove(i)[j]),
{
    let now = s.remove(i);
    assert forall|a: int, b: int| 0 <= a < b < now.len() implies (#[trigger] now[a]).code@ != (
    #[trigger] now[b]).code@ by {
        let x = if a < i {
            a
        } else {
            a + 1
        };
        let y = if b < i {
            b
        } else {
            b + 1
        };
        assert(s[x].code@ != s[y].code@);
    }
    assert forall|j: int| 0 <= j < s.len() - 1 implies s.contains(#[trigger] now[j]) by {
        let x = if j < i {
            j
        } else {
            j + 1
        };
        assert(s[x] == now[j]);
    }
}

proof fn lemma_update_is_sound(s: Seq<Pending>, i: int, p: Pending)
    requires
        sound(s),
        0 <= i < s.len(),
        p.code@ == s[i].code@,
    ensures
        sound(s.update(i, p)),
{
    let now = s.update(i, p);
    assert forall|a: int, b: int| 0 <= a < b < now.len() implies (#[trigger] now[a]).code@ != (
    #[trigger] now[b]).code@ by {
        assert(s[a].code@ != s[b].code@);
    }
}

/// A device code that was issued: what the device is told.
#[derive(Debug)]
pub struct DeviceCodeResponse {
    pub device_code: String,
    pub user_code: String,
    pub verification_uri: String,
    pub verification_uri_complete: String,
    pub expires_in: u64,
    pub interval: u64,
}

/// Whether `r` tells of a code that was issued.
pub open spec fn tells(
    r: DeviceCodeResponse,
    code: Seq<char>,
    user_code: Seq<char>,
    base: Seq<char>,
) -> bool {
    &&& r.device_code@ == code
    &&& r.user_code@ == user_code
    &&& r.verification_uri@ == base + "/oauth/verify"@
    &&& r.verification_uri_complete@ == base + "/oauth/verify?user_code="@ + user_code
    &&& r.expires_in == DEVICE_CODE_TTL
    &&& r.interval == INTERVAL
}

/// Whether `p` is a code as it is when it is issued.
pub open spec fn is_issued(
    p: Pending,
    code: Seq<char>,
    user_code: Seq<char>,
    approved: bool,
    at: u64,
) -> bool {
    &&& p.code@ == code
    &&& p.user_code@ == user_code
    &&& p.device_id@ == "oauth-"@ + code.take(8)
    &&& p.at == at
    &&& p.approved == approved
    &&& p.polled is None
    &&& p.interval == INTERVAL
}

/// The address under which people reach the server: the public one where there is one, and else the
/// host's.
pub fn public_base(public_url: Option<&str>, host: &str) -> (r: String)
    ensures
        r@ == match public_url {
            Some(url) => url@,
            None => "https://"@ + host@,
        },
{
    match public_url {
        Some(url) => url.to_owned(),
        None => prefixed("https://", host),
    }
}

/// A number of four digits, with its leading zeros.
pub open spec fn four_digits(n: int) -> Seq<char> {
    seq![
        crate::text::digit((n / 1000 % 10) as nat),
        crate::text::digit((n / 100 % 10) as nat),
        crate::text::digit((n / 10 % 10) as nat),
        crate::text::digit((n % 10) as nat),
    ]
}

fn push_digit(s: &mut String, d: u32)
    requires
        d < 10,
    ensures
        final(s)@ == old(s)@.push(crate::text::digit(d as nat)),
{
    s.push((48u8 + d as u8) as char);
}

/// The code that the owner is shown: two numbers of four digits.
pub fn user_code(a: u32, b: u32) -> (r: String)
    requires
        a < 10000,
        b < 10000,
    ensures
        r@ == four_digits(a as int) + seq!['-'] + four_digits(b as int),
{
    let mut s = String::new();
    push_digit(&mut s, a / 1000 % 10);
    push_digit(&mut s, a / 100 % 10);
    push_digit(&mut s, a / 10 % 10);
    push_digit(&mut s, a % 10);
    s.push('-');
    push_digit(&mut s, b / 1000 % 10);
    push_digit(&mut s, b / 100 % 10);
    push_digit(&mut s, b / 10 % 10);
    push_digit(&mut s, b % 10);
    assert(s@ =~= four_digits(a as int) + seq!['-'] + four_digits(b as int));
    s
}

/// `rand::Rng::gen_range` of `rand::thread_rng`, from 0 up to a bound, which it leaves out: a random
/// number below the bound.
#[verifier::external_body]
fn random_below(bound: u32) -> (r: u32)
    requires
        bound > 0,
    ensures
        r < bound,
{
    rand::Rng::gen_range(&mut rand::thread_rng(), 0..bound)
}

impl DeviceCodes {
    pub open spec fn wf(&self) -> bool {
        sound(self.pending@)
    }

    pub fn new(owner_approves: bool) -> (r: Self)
        ensures
            r.wf(),
            r.pending@.len() == 0,
            r.owner_approves == owner_approves,
    {
        DeviceCodes { pending: Vec::new(), owner_approves }
    }

    fn sweep(&mut self, code: &str, at: u64)
        requires
            old(self).wf(),
        ensures
            final(self).wf(),
            final(self).owner_approves == old(self).owner_approves,
            final(self).pending@ == kept(old(self).pending@, code@, at),
    {
        let ghost was = self.pending@;
        let ghost mut j: int = 0;
        let mut i: usize = 0;
        assert(was.take(0) =~= Seq::empty());
        assert(self.pending@.take(0) =~= Seq::empty());
        assert(self.pending@.skip(0) =~= was.skip(0));
        while i < self.pending.len()
            invariant
                i <= self.pending@.len(),
                0 <= j <= was.len(),
                self.owner_approves == old(self).owner_approves,
                self.pending@.take(i as int) == kept(was.take(j), code@, at),
                self.pending@.skip(i as int) == was.skip(j),
            decreases self.pending@.len() - i,
        {
            let ghost here = self.pending@;
            proof {
                assert(here.skip(i as int).len() == was.skip(j).len());
                assert(here.skip(i as int)[0] == here[i as int]);
                assert(was.skip(j)[0] == was[j]);
                assert(was.take(j + 1).drop_last() =~= was.take(j));
            }
            let p = &self.pending[i];
            let gone = same(p.code.as_str(), code) || (at > p.at && at - p.at > DEVICE_CODE_TTL
                * NANOS);
            if gone {
                self.pending.remove(i);
                assert(self.pending@.take(i as int) =~= here.take(i as int));
                assert(self.pending@.skip(i as int) =~= here.skip(i as int).skip(1));
                assert(was.skip(j + 1) =~= was.skip(j).skip(1));
            } else {
                i += 1;
                assert(self.pending@.take(i as int) =~= here.take(i - 1).push(was[j]));
                assert(self.pending@.skip(i as int) =~= here.skip(i - 1).skip(1));
                assert(was.skip(j + 1) =~= was.skip(j).skip(1));
            }
            proof {
                j = j + 1;
            }
        }
        proof {
            assert(self.pending@.take(i as int) =~= self.pending@);
            assert(self.pending@.skip(i as int).len() == 0);
            assert(was.take(j) =~= was);
            lemma_kept(was, code@, at);
        }
    }

    fn make_room(&mut self)
        requires
            old(self).wf(),
        ensures
            final(self).wf(),
            final(self).owner_approves == old(self).owner_approves,
            final(self).pending@ == with_room(old(self).pending@),
            final(self).pending@.len() < MAX_PENDING,
    {
        if self.pending.len() < MAX_PENDING {
            return;
        }
        let ghost was = self.pending@;
        let mut i: usize = 0;
        while i < self.pending.len() && self.pending[i].approved
            invariant
                i <= self.pending@.len(),
                self.pending@ == was,
                forall|j: int| 0 <= j < i ==> (#[trigger] was[j]).approved,
            decreases self.pending@.len() - i,
        {
            i += 1;
        }
        proof {
            lemma_unapproved(was);
            let k = first_unapproved(was);
            if k < i {
                assert(was[k].approved);
            }
            if i < k {
                assert(was[i as int].approved);
            }
            lemma_remove_is_sound(
                was,
                if i < was.len() {
                    i as int
                } else {
                    0
                },
            );
        }
        if i < self.pending.len() {
            self.pending.remove(i);
        } else {
            self.pending.remove(0);
        }
    }

    /// Issue a code. Those that have expired are forgotten, and where too many are pending one makes
    /// way, which is one that was not approved if there is one.
    pub fn issue(&mut self, code: &str, user_code: &str, base: &str, at: u64) -> (r:
        DeviceCodeResponse)
        requires
            old(self).wf(),
            code@.len() >= 8,
        ensures
            final(self).wf(),
            final(self).owner_approves == old(self).owner_approves,
            final(self).pending@.len() > 0,
            final(self).pending@ == with_room(kept(old(self).pending@, code@, at)).push(
                final(self).pending@.last(),
            ),
            is_issued(
                final(self).pending@.last(),
                code@,
                user_code@,
                !old(self).owner_approves,
                at,
            ),
            tells(r, code@, user_code@, base@),
    {
        let ghost was = self.pending@;
        self.sweep(code, at);
        let ghost swept = self.pending@;
        self.make_room();
        let ghost room = self.pending@;
        let device_id = prefixed("oauth-", slice(code, 0, 8));
        assert(code@.subrange(0, 8) =~= code@.take(8));
        self.pending.push(
            Pending {
                code: code.to_owned(),
                user_code: user_code.to_owned(),
                device_id,
                at,
                approved: !self.owner_approves,
                polled: None,
                interval: INTERVAL,
            },
        );
        proof {
            lemma_kept(was, code@, at);
            let now = self.pending@;
            lemma_unapproved(swept);
            if swept.len() >= MAX_PENDING {
                let k = if first_unapproved(swept) < swept.len() {
                    first_unapproved(swept)
                } else {
                    0
                };
                lemma_remove_is_sound(swept, k);
            }
            assert forall|i: int| 0 <= i < room.len() implies (#[trigger] room[i]).code@
                != code@ by {
                if swept.len() >= MAX_PENDING {
                    assert(swept.contains(room[i]));
                    let k = choose|k: int| 0 <= k < swept.len() && swept[k] == room[i];
                    assert(swept[k].code@ != code@);
                } else {
                    assert(swept[i].code@ != code@);
                }
            }
            assert forall|i: int, j: int| 0 <= i < j < now.len() implies (#[trigger] now[i]).code@
                != (#[trigger] now[j]).code@ by {
                assert(now[i] == room[i]);
                if j < room.len() {
                    assert(now[j] == room[j]);
                }
            }
        }
        let mut complete = prefixed(base, "/oauth/verify?user_code=");
        complete.push_str(user_code);
        DeviceCodeResponse {
            device_code: code.to_owned(),
            user_code: user_code.to_owned(),
            verification_uri: prefixed(base, "/oauth/verify"),
            verification_uri_complete: complete,
            expires_in: DEVICE_CODE_TTL,
            interval: INTERVAL,
        }
    }

    /// Issue a fresh code.
    pub fn device_code(&mut self, base: &str, at: u64) -> (r: DeviceCodeResponse)
        requires
            old(self).wf(),
        ensures
            final(self).wf(),
            final(self).owner_approves == old(self).owner_approves,
            final(self).pending@.len() > 0,
            final(self).pending@ == with_room(
                kept(old(self).pending@, r.device_code@, at),
            ).push(final(self).pending@.last()),
            is_issued(
                final(self).pending@.last(),
                r.device_code@,
                r.user_code@,
                !old(self).owner_approves,
                at,
            ),
            tells(r, r.device_code@, r.user_code@, base@),
            r.device_code@.len() == 32,
            exists|a: u32, b: u32|
                a < 10000 && b < 10000 && r.user_code@ == #[trigger] four_digits(a as int) + seq![
                    '-',
                ] + #[trigger] four_digits(b as int),
    {
        let code = crate::codec::random_uuid_simple();
        let a: u32 = random_below(10000);
        let b: u32 = random_below(10000);
        let user_code = user_code(a, b);
        assert(user_code@ == four_digits(a as int) + seq!['-'] + four_digits(b as int));
        self.issue(code.as_str(), user_code.as_str(), base, at)
    }

    /// A device polls for the tokens that its code stands for.
    pub fn poll(&mut self, code: &str, at: u64) -> (r: Poll)
        requires
            old(self).wf(),
        ensures
            final(self).wf(),
            final(self).owner_approves == old(self).owner_approves,
            final(self).pending@ == polled(old(self).pending@, code@, at).1,
            match r {
                Poll::Granted(device) => polled(old(self).pending@, code@, at).0 == Ok::<
                    Seq<char>,
                    Seq<char>,
                >(device@),
                Poll::Refused(why) => polled(old(self).pending@, code@, at).0 == Err::<
                    Seq<char>,
                    Seq<char>,
                >(why@),
            },
    {
        let ghost was = self.pending@;
        let mut i: usize = 0;
        while i < self.pending.len() && !same(self.pending[i].code.as_str(), code)
            invariant
                i <= self.pending@.len(),
                self.pending@ == was,
                self.owner_approves == old(self).owner_approves,
                forall|j: int| 0 <= j < i ==> (#[trigger] was[j]).code@ != code@,
            decreases self.pending@.len() - i,
        {
            i += 1;
        }
        proof {
            lemma_index_is(was, code@, i as int);
        }
        if i >= self.pending.len() {
            return Poll::Refused("invalid_grant");
        }
        let issued: u64 = self.pending[i].at;
        if at > issued && at - issued > DEVICE_CODE_TTL * NANOS {
            proof {
                lemma_remove_is_sound(was, i as int);
            }
            self.pending.remove(i);
            return Poll::Refused("expired_token");
        }
        let interval: u64 = self.pending[i].interval;
        let early = match self.pending[i].polled {
            Some(t) => at < t || ((at - t) as u128) < interval as u128 * NANOS as u128,
            None => false,
        };
        if early {
            let ghost p = slowed(was[i as int], at);
            proof {
                if let Some(t) = was[i as int].polled {
                    if at < t {
                        assert(0 <= interval * NANOS) by (nonlinear_arith);
                    }
                }
                lemma_update_is_sound(was, i as int, p);
            }
            self.pending[i].polled = Some(at);
            self.pending[i].interval = if interval <= u64::MAX - INTERVAL {
                interval + INTERVAL
            } else {
                u64::MAX
            };
            assert(self.pending@ =~= was.update(i as int, p));
            return Poll::Refused("slow_down");
        }
        if self.pending[i].approved {
            proof {
                lemma_remove_is_sound(was, i as int);
            }
            let p = self.pending.remove(i);
            return Poll::Granted(p.device_id);
        }
        proof {
            lemma_update_is_sound(was, i as int, Pending { polled: Some(at), ..was[i as int] });
        }
        self.pending[i].polled = Some(at);
        assert(self.pending@ =~= was.update(
            i as int,
            Pending { polled: Some(at), ..was[i as int] },
        ));
        Poll::Refused("authorization_pending")
    }

    /// The owner approves the code that a device shows. Whether there was one to approve.
    pub fn approve(&mut self, user_code: &str, at: u64) -> (r: bool)
        requires
            old(self).wf(),
        ensures
            final(self).wf(),
            final(self).owner_approves == old(self).owner_approves,
            final(self).pending@ == old(self).pending@.map_values(
                |p: Pending| approving(p, user_code@, at),
            ),
            r == exists|i: int|
                0 <= i < old(self).pending@.len() && (#[trigger] old(
                    self,
                ).pending@[i]).user_code@ == user_code@ && !expired(old(self).pending@[i], at),
    {
        let ghost was = self.pending@;
        let mut found = false;
        let mut i: usize = 0;
        while i < self.pending.len()
            invariant
                i <= self.pending@.len(),
                self.pending@.len() == was.len(),
                self.owner_approves == old(self).owner_approves,
                forall|j: int|
                    0 <= j < i ==> #[trigger] self.pending@[j] == approving(
                        was[j],
                        user_code@,
                        at,
                    ),
                forall|j: int| i <= j < was.len() ==> #[trigger] self.pending@[j] == was[j],
                found == exists|j: int|
                    0 <= j < i && (#[trigger] was[j]).user_code@ == user_code@ && !expired(
                        was[j],
                        at,
                    ),
            decreases self.pending@.len() - i,
        {
            let p = &self.pending[i];
            if same(p.user_code.as_str(), user_code) && !(at > p.at && at - p.at > DEVICE_CODE_TTL
                * NANOS) {
                self.pending[i].approved = true;
                found = true;
                assert(was[i as int].user_code@ == user_code@);
            }
            i += 1;
        }
        assert(self.pending@ =~= was.map_values(|p: Pending| approving(p, user_code@, at)));
        proof {
            let now = self.pending@;
            assert forall|a: int, b: int| 0 <= a < b < now.len() implies (#[trigger] now[a]).code@
                != (#[trigger] now[b]).code@ by {
                assert(was[a].code@ != was[b].code@);
            }
        }
        found
    }
}

/// What a request for tokens asks.
#[derive(Debug)]
pub enum TokenRequest<'a> {
    /// The tokens of a device code.
    Device(&'a str),
    /// Fresh tokens for a refresh token.
    Refresh(&'a str),
}

/// What a request for tokens asks, or the reason why it is refused.
pub open spec fn asked<'a>(
    grant: Option<&'a str>,
    device_code: Option<&'a str>,
    refresh_token: Option<&'a str>,
) -> Result<TokenRequest<'a>, Seq<char>> {
    let kind = match grant {
        Some(g) => g@,
        None => Seq::empty(),
    };
    if "device_code"@.is_suffix_of(kind) {
        match device_code {
            Some(code) => Ok(TokenRequest::Device(code)),
            None => Err("invalid_request"@),
        }
    } else if kind == "refresh_token"@ {
        match refresh_token {
            Some(token) => Ok(TokenRequest::Refresh(token)),
            None => Err("invalid_request"@),
        }
    } else {
        Err("unsupported_grant_type"@)
    }
}

/// What a request for tokens asks, by the fields of its form; else the reason why it is refused.
pub fn token<'a>(
    grant: Option<&'a str>,
    device_code: Option<&'a str>,
    refresh_token: Option<&'a str>,
) -> (r: Result<TokenRequest<'a>, &'static str>)
    ensures
        match r {
            Ok(a) => asked(grant, device_code, refresh_token) == Ok::<TokenRequest, Seq<char>>(a),
            Err(why) => asked(grant, device_code, refresh_token) == Err::<TokenRequest, Seq<char>>(
                why@,
            ),
        },
{
    let kind = match grant {
        Some(g) => g,
        None => "",
    };
    proof {
        reveal_strlit("");
        reveal_strlit("device_code");
        assert(""@ =~= Seq::empty());
    }
    let n: usize = char_count(kind);
    let device = n >= 11 && same(slice(kind, n - 11, n), "device_code");
    assert(device == "device_code"@.is_suffix_of(kind@)) by {
        assert("device_code"@.len() == 11);
        if n >= 11 {
            assert(kind@.subrange(n - 11, n as int) =~= kind@.subrange(
                kind@.len() - "device_code"@.len(),
                kind@.len() as int,
            ));
        }
    }
    if device {
        match device_code {
            Some(code) => Ok(TokenRequest::Device(code)),
            None => Err("invalid_request"),
        }
    } else if same(kind, "refresh_token") {
        match refresh_token {
            Some(token) => Ok(TokenRequest::Refresh(token)),
            None => Err("invalid_request"),
        }
    } else {
        Err("unsupported_grant_type")
    }
}

/// The tokens that a device gets.
#[derive(Debug)]
pub struct TokenBundle {
    pub access_token: String,
    pub refresh_token: String,
    pub id_token: String,
    pub token_type: &'static str,
    pub expires_in: u64,
    pub scope: &'static str,
}

/// Whether `b` hands out an access, a refresh and an id token.
pub open spec fn hands_out(b: TokenBundle, access: String, refresh: String, id: String) -> bool {
    &&& b.access_token == access
    &&& b.refresh_token == refresh
    &&& b.id_token == id
    &&& b.token_type@ == "Bearer"@
    &&& b.expires_in == EXPIRES_IN
    &&& b.scope@ == SCOPES@
}

/// The tokens that a device gets.
pub fn bundle_value(access: String, refresh: String, id: String) -> (r: TokenBundle)
    ensures
        hands_out(r, access, refresh, id),
{
    TokenBundle {
        access_token: access,
        refresh_token: refresh,
        id_token: id,
        token_type: "Bearer",
        expires_in: EXPIRES_IN,
        scope: SCOPES,
    }
}

/// What a refresh is answered: the fresh tokens, or that the grant is not valid.
pub fn refreshed(tokens: Option<(String, String, String)>) -> (r: Result<TokenBundle, &'static str>)
    ensures
        match tokens {
            Some((access, refresh, id)) => r matches Ok(b) && hands_out(b, access, refresh, id),
            None => r matches Err(why) && why@ == "invalid_grant"@,
        },
{
    match tokens {
        Some((access, refresh, id)) => Ok(bundle_value(access, refresh, id)),
        None => Err("invalid_grant"),
    }
}

/// The tokens that a legacy device credential is exchanged for.
#[derive(Debug)]
pub struct ExchangedTokens {
    pub token_type: &'static str,
    pub access_token: String,
    pub refresh_token: String,
    pub id_token: String,
    pub scope: &'static str,
}

/// The device credential that an `Authorization` header carries.
pub fn device_credential<'a>(authorization: Option<&'a str>) -> (r: Result<&'a str, ServerError>)
    ensures
        match r {
            Ok(device) => authorization matches Some(a) && "Bearer "@.is_prefix_of(a@) && device@
                == a@.skip("Bearer "@.len() as int),
            Err(e) => e@ == crate::error::ServerErrorView::Unauthorized && (authorization matches Some(
                a,
            ) ==> !"Bearer "@.is_prefix_of(a@)),
        },
{
    match authorization {
        None => Err(ServerError::Unauthorized),
        Some(a) => {
            if !starts_with(a, "Bearer ") {
                return Err(ServerError::Unauthorized);
            }
            proof {
                reveal_strlit("Bearer ");
                assert("Bearer "@.len() == 7);
            }
            let n: usize = char_count(a);
            let device = slice(a, 7, n);
            assert(a@.subrange(7, n as int) =~= a@.skip(7));
            Ok(device)
        },
    }
}

/// The tokens that a legacy device credential is exchanged for.
pub fn device_exchange(access: String, refresh: String, id: String) -> (r: ExchangedTokens)
    ensures
        r.token_type@ == "Bearer"@,
        r.access_token == access,
        r.refresh_token == refresh,
        r.id_token == id,
        r.scope@ == SCOPES@,
{
    ExchangedTokens {
        token_type: "Bearer",
        access_token: access,
        refresh_token: refresh,
        id_token: id,
        scope: SCOPES,
    }
}

/// A code is redeemed once: after the tokens were granted, the code stands for nothing.
pub proof fn law_codes_are_single_use(s: Seq<Pending>, code: Seq<char>, at: u64, later: u64)
    requires
        sound(s),
        polled(s, code, at).0 is Ok,
    ensures
        polled(polled(s, code, at).1, code, later).0 == Err::<Seq<char>, Seq<char>>(
            "invalid_grant"@,
        ),
{
    lemma_index(s, code);
    let i = index_of(s, code);
    let now = s.remove(i);
    assert forall|j: int| 0 <= j < now.len() implies (#[trigger] now[j]).code@ != code by {
        let x = if j < i {
            j
        } else {
            j + 1
        };
        assert(now[j] == s[x]);
        if x < i {
            assert(s[x].code@ != s[i].code@);
        } else {
            assert(s[i].code@ != s[x].code@);
        }
    }
    lemma_index_is(now, code, now.len() as int);
}

/// Tokens are granted for a code that was approved, and no other.
pub proof fn law_only_approved_codes_are_granted(s: Seq<Pending>, code: Seq<char>, at: u64)
    requires
        polled(s, code, at).0 is Ok,
    ensures
        exists|i: int|
            0 <= i < s.len() && (#[trigger] s[i]).code@ == code && s[i].approved && !expired(
                s[i],
                at,
            ),
{
    lemma_index(s, code);
    assert(s[index_of(s, code)].code@ == code);
}

/// A code that was approved is granted to a device that polls before it expires, and not too early.
pub proof fn law_approved_codes_are_granted(s: Seq<Pending>, i: int, at: u64)
    requires
        sound(s),
        0 <= i < s.len(),
        s[i].approved,
        !expired(s[i], at),
        !too_early(s[i], at),
    ensures
        polled(s, s[i].code@, at).0 == Ok::<Seq<char>, Seq<char>>(s[i].device_id@),
{
    lemma_index_is(s, s[i].code@, i);
}

/// Polling never approves a code.
pub proof fn law_polling_approves_nothing(s: Seq<Pending>, code: Seq<char>, at: u64, p: Pending)
    requires
        sound(s),
        polled(s, code, at).1.contains(p),
        p.approved,
    ensures
        exists|q: Pending| #[trigger] s.contains(q) && q.code@ == p.code@ && q.approved,
{
    lemma_index(s, code);
    let i = index_of(s, code);
    let now = polled(s, code, at).1;
    let k = choose|k: int| 0 <= k < now.len() && now[k] == p;
    if now.len() == s.len() {
        assert(s.contains(s[k]));
        assert(s[k].code@ == p.code@ && s[k].approved);
    } else {
        lemma_remove_is_sound(s, i);
        assert(s.contains(s.remove(i)[k]));
    }
}

/// A code that is issued can be redeemed: the codes that are kept hold it.
pub proof fn law_issued_codes_are_pending(s: Seq<Pending>, p: Pending, at: u64)
    requires
        sound(with_room(kept(s, p.code@, at)).push(p)),
        p.at == at,
    ensures
        index_of(with_room(kept(s, p.code@, at)).push(p), p.code@) == with_room(
            kept(s, p.code@, at),
        ).len(),
        !expired(p, at),
{
    let before = with_room(kept(s, p.code@, at));
    let now = before.push(p);
    assert forall|j: int| 0 <= j < before.len() implies (#[trigger] now[j]).code@ != p.code@ by {
        assert(now[j].code@ != now[now.len() - 1].code@);
    }
    lemma_index_is(now, p.code@, before.len() as int);
}

/// A poll is answered by the state of its code: a code that nobody has is no grant; one older than
/// ten minutes has expired and is forgotten; a device that polls before its interval is over is to
/// slow down, by five seconds more each time; one whose code is approved is granted its tokens, and
/// the code is forgotten; and any other has to wait. Other codes stay as they are.
pub proof fn law_a_poll_is_answered_by_the_state_of_its_code(
    s: Seq<Pending>,
    code: Seq<char>,
    at: u64,
    i: int,
)
    requires
        sound(s),
    ensures
        (forall|j: int| 0 <= j < s.len() ==> (#[trigger] s[j]).code@ != code) ==> polled(
            s,
            code,
            at,
        ) == (Err::<Seq<char>, Seq<char>>("invalid_grant"@), s),
        0 <= i < s.len() && s[i].code@ == code ==> {
            let (answer, left) = polled(s, code, at);
            if at - s[i].at > 600_000_000_000 {
                answer == Err::<Seq<char>, Seq<char>>("expired_token"@) && left == s.remove(i)
            } else if s[i].polled is Some && at - s[i].polled->0 < s[i].interval * 1_000_000_000 {
                &&& answer == Err::<Seq<char>, Seq<char>>("slow_down"@)
                &&& left.len() == s.len()
                &&& left[i].polled == Some(at)
                &&& left[i].interval == (if s[i].interval + 5 <= u64::MAX {
                    s[i].interval + 5
                } else {
                    u64::MAX as int
                })
                &&& left[i].approved == s[i].approved && left[i].at == s[i].at
                &&& left[i].device_id == s[i].device_id && left[i].code == s[i].code
                &&& forall|j: int| 0 <= j < s.len() && j != i ==> left[j] == #[trigger] s[j]
            } else if s[i].approved {
                answer == Ok::<Seq<char>, Seq<char>>(s[i].device_id@) && left == s.remove(i)
            } else {
                &&& answer == Err::<Seq<char>, Seq<char>>("authorization_pending"@)
                &&& left.len() == s.len()
                &&& left[i].polled == Some(at)
                &&& left[i].interval == s[i].interval
                &&& !left[i].approved && left[i].at == s[i].at
                &&& left[i].device_id == s[i].device_id && left[i].code == s[i].code
                &&& forall|j: int| 0 <= j < s.len() && j != i ==> left[j] == #[trigger] s[j]
            }
        },
{
    if forall|j: int| 0 <= j < s.len() ==> (#[trigger] s[j]).code@ != code {
        lemma_index_is(s, code, s.len() as int);
    }
    if 0 <= i < s.len() && s[i].code@ == code {
        assert forall|j: int| 0 <= j < i implies (#[trigger] s[j]).code@ != code by {
            assert(s[j].code@ != s[i].code@);
        }
        lemma_index_is(s, code, i);
    }
}

/// A code is approved by the text that its owner was shown, for ten minutes, and by nothing else;
/// approving changes nothing else of it.
pub proof fn law_a_code_is_approved_by_what_its_owner_was_shown(
    p: Pending,
    user_code: Seq<char>,
    at: u64,
)
    ensures
        approving(p, user_code, at).approved <==> p.approved || (p.user_code@ == user_code && at
            - p.at <= 600_000_000_000),
        approving(p, user_code, at).code == p.code,
        approving(p, user_code, at).device_id == p.device_id,
        approving(p, user_code, at).at == p.at,
        approving(p, user_code, at).polled == p.polled,
        approving(p, user_code, at).interval == p.interval,
{
}

/// What is kept when a code is issued are all other codes that have not expired.
pub proof fn law_living_codes_are_kept(s: Seq<Pending>, code: Seq<char>, at: u64, i: int)
    requires
        0 <= i < s.len(),
    ensures
        kept(s, code, at).contains(s[i]) <==> s[i].code@ != code && at - s[i].at
            <= 600_000_000_000,
    decreases s.len(),
{
    let rest = s.drop_last();
    let before = kept(rest, code, at);
    let now = kept(s, code, at);
    lemma_kept_are_living(s, code, at);
    if i == s.len() - 1 {
        if s[i].code@ != code && !expired(s[i], at) {
            assert(now[now.len() - 1] == s[i]);
        }
    } else {
        law_living_codes_are_kept(rest, code, at, i);
        assert(rest[i] == s[i]);
        if before.contains(s[i]) {
            let k = choose|k: int| 0 <= k < before.len() && before[k] == s[i];
            assert(now[k] == s[i]);
        }
    }
}

proof fn lemma_kept_are_living(s: Seq<Pending>, code: Seq<char>, at: u64)
    ensures
        forall|k: int|
            0 <= k < kept(s, code, at).len() ==> (#[trigger] kept(s, code, at)[k]).code@ != code
                && !expired(kept(s, code, at)[k], at),
    decreases s.len(),
{
    if s.len() > 0 {
        lemma_kept_are_living(s.drop_last(), code, at);
        let before = kept(s.drop_last(), code, at);
        let now = kept(s, code, at);
        assert forall|k: int| 0 <= k < now.len() implies (#[trigger] now[k]).code@ != code
            && !expired(now[k], at) by {
            if k < before.len() {
                assert(now[k] == before[k]);
            }
        }
    }
}

/// Room for a code is made by forgetting one code only, and only where 256 are pending: the oldest
/// that nobody approved, or the oldest where all are approved.
pub proof fn law_room_is_made_by_forgetting_one(s: Seq<Pending>, i: int)
    requires
        sound(s),
    ensures
        s.len() < 256 ==> with_room(s) == s,
        s.len() == 256 ==> with_room(s).len() == 255,
        s.len() == 256 && 0 <= i < 256 && !s[i].approved && (forall|j: int|
            0 <= j < i ==> (#[trigger] s[j]).approved) ==> with_room(s) == s.remove(i),
        s.len() == 256 && (forall|j: int| 0 <= j < 256 ==> (#[trigger] s[j]).approved) ==> with_room(
            s,
        ) == s.remove(0),
{
    lemma_unapproved(s);
    let k = first_unapproved(s);
    if s.len() == 256 && 0 <= i < 256 && !s[i].approved && (forall|j: int|
        0 <= j < i ==> (#[trigger] s[j]).approved) {
        assert(k == i) by {
            if k < i {
                assert(s[k].approved);
            }
            if i < k {
                assert(s[i].approved);
            }
        }
    }
    if s.len() == 256 && (forall|j: int| 0 <= j < 256 ==> (#[trigger] s[j]).approved) {
        if k < 256 {
            assert(s[k].approved);
        }
    }
}

/// Four digits tell the number that they were made of.
pub proof fn law_four_digits_tell_the_number(n: int)
    requires
        0 <= n < 10_000,
    ensures
        four_digits(n).len() == 4,
        crate::text::number(four_digits(n)) == n,
{
    lemma_four_digits(
        (n / 1000 % 10) as nat,
        (n / 100 % 10) as nat,
        (n / 10 % 10) as nat,
        (n % 10) as nat,
    );
    assert(n / 1000 % 10 * 1000 + n / 100 % 10 * 100 + n / 10 % 10 * 10 + n % 10 == n)
        by (nonlinear_arith)
        requires
            0 <= n < 10_000,
    ;
}

proof fn lemma_four_digits(a: nat, b: nat, c: nat, d: nat)
    requires
        a < 10,
        b < 10,
        c < 10,
        d < 10,
    ensures
        crate::text::number(
            seq![
                crate::text::digit(a),
                crate::text::digit(b),
                crate::text::digit(c),
                crate::text::digit(d),
            ],
        ) == a * 1000 + b * 100 + c * 10 + d,
{
    let (x, y, z, w) = (
        crate::text::digit(a),
        crate::text::digit(b),
        crate::text::digit(c),
        crate::text::digit(d),
    );
    assert(seq![x, y, z, w].drop_last() =~= seq![x, y, z]);
    assert(seq![x, y, z].drop_last() =~= seq![x, y]);
    assert(seq![x, y].drop_last() =~= seq![x]);
    assert(seq![x].drop_last() =~= Seq::empty());
    assert(crate::text::number(Seq::empty()) == 0);
    assert(crate::text::number(seq![x]) == a);
    assert(crate::text::number(seq![x, y]) == a * 10 + b);
    assert(crate::text::number(seq![x, y, z]) == (a * 10 + b) * 10 + c);
}

/// A request for tokens is one for a device's or for fresh ones, as its grant says, and has to
/// hold what that takes; no other grant is served.
pub proof fn law_a_grant_says_what_is_asked_for<'a>(
    grant: &'a str,
    device_code: Option<&'a str>,
    refresh_token: Option<&'a str>,
    prefix: Seq<char>,
)
    ensures
        grant@ == prefix + "device_code"@ ==> match device_code {
            Some(code) => asked(Some(grant), device_code, refresh_token) == Ok::<
                TokenRequest,
                Seq<char>,
            >(TokenRequest::Device(code)),
            None => asked(Some(grant), device_code, refresh_token) == Err::<
                TokenRequest,
                Seq<char>,
            >("invalid_request"@),
        },
        grant@ == "refresh_token"@ ==> match refresh_token {
            Some(token) => asked(Some(grant), device_code, refresh_token) == Ok::<
                TokenRequest,
                Seq<char>,
            >(TokenRequest::Refresh(token)),
            None => asked(Some(grant), device_code, refresh_token) == Err::<
                TokenRequest,
                Seq<char>,
            >("invalid_request"@),
        },
        grant@ != "refresh_token"@ && !"device_code"@.is_suffix_of(grant@) ==> asked(
            Some(grant),
            device_code,
            refresh_token,
        ) == Err::<TokenRequest, Seq<char>>("unsupported_grant_type"@),
        asked(None, device_code, refresh_token) == Err::<TokenRequest, Seq<char>>(
            "unsupported_grant_type"@,
        ),
{
    reveal_strlit("device_code");
    reveal_strlit("refresh_token");
    let d = "device_code"@;
    let r = "refresh_token"@;
    if grant@ == prefix + d {
        assert(d =~= grant@.subrange(grant@.len() - d.len(), grant@.len() as int));
    }
    assert(!d.is_suffix_of(r)) by {
        assert(r[r.len() - 1] == 'n');
        assert(d[d.len() - 1] == 'e');
        if d.is_suffix_of(r) {
            assert(r.subrange(r.len() - d.len(), r.len() as int)[d.len() - 1] == d[d.len() - 1]);
        }
    }
    let none = Seq::<char>::empty();
    assert(!d.is_suffix_of(none));
    assert(none.len() != r.len());
}

/// A device code is good for ten minutes and polled every five seconds; the tokens are bearer
/// tokens for three hours.
pub proof fn law_what_a_device_is_told(
    r: DeviceCodeResponse,
    code: Seq<char>,
    user_code: Seq<char>,
    base: Seq<char>,
    p: Pending,
    approved: bool,
    at: u64,
    b: TokenBundle,
    access: String,
    refresh: String,
    id: String,
)
    requires
        tells(r, code, user_code, base),
        is_issued(p, code, user_code, approved, at),
        hands_out(b, access, refresh, id),
    ensures
        r.device_code@ == code && r.user_code@ == user_code,
        r.expires_in == 600 && r.interval == 5,
        r.verification_uri_complete@ == r.verification_uri@ + "?user_code="@ + user_code,
        p.code@ == code && p.user_code@ == user_code && p.at == at && p.approved == approved,
        p.polled is None && p.interval == 5,
        b.access_token == access && b.refresh_token == refresh && b.id_token == id,
        b.token_type@ == "Bearer"@ && b.expires_in == 10_800,
{
    reveal_strlit("/oauth/verify");
    reveal_strlit("/oauth/verify?user_code=");
    reveal_strlit("?user_code=");
    assert("/oauth/verify?user_code="@ =~= "/oauth/verify"@ + "?user_code="@);
    assert(r.verification_uri_complete@ =~= r.verification_uri@ + "?user_code="@ + user_code);
}

} // verus!
