//! How often device codes are given out: so many to a client, and so many in all.
//!
//! Times here are nanoseconds of a clock that never goes back.

use vstd::prelude::*;
use vstd::string::*;

use crate::oauth::NANOS;
use crate::text::{split, trim};

verus! {

/// How many codes a client gets in [`CLIENT_WINDOW`] seconds.
pub const CLIENT_LIMIT: usize = 5;

pub const CLIENT_WINDOW: u64 = 600;

/// How many codes are given out in [`TOTAL_WINDOW`] seconds.
pub const TOTAL_LIMIT: usize = 20;

pub const TOTAL_WINDOW: u64 = 60;

/// An address on the network, as a number.
#[derive(Debug, Clone, Copy, PartialEq, Eq, Structural)]
pub enum Address {
    V4(u32),
    V6(u128),
}

/// Who is counted as one client: an IPv4 address, or the upper half of an IPv6 address.
#[derive(Debug, Clone, Copy, PartialEq, Eq, Structural)]
pub enum Client {
    V4(u32),
    V6(u64),
}

/// The upper half of an IPv6 address.
pub open spec fn upper_half(a: u128) -> u64 {
    (a as int / 0x1_0000_0000_0000_0000) as u64
}

/// The client at an address.
pub open spec fn client_at(a: Address) -> Client {
    match a {
        Address::V4(a) => Client::V4(a),
        Address::V6(a) => Client::V6(upper_half(a)),
    }
}

/// The client at an address.
pub fn client_of(a: Address) -> (r: Client)
    ensures
        r == client_at(a),
{
    match a {
        Address::V4(a) => Client::V4(a),
        Address::V6(a) => {
            let half: u128 = a / 0x1_0000_0000_0000_0000;
            Client::V6(half as u64)
        },
    }
}

/// Whether an address is that of the machine itself.
pub open spec fn is_loopback(a: Address) -> bool {
    match a {
        Address::V4(a) => 0x7f00_0000 <= a < 0x8000_0000,
        Address::V6(a) => a == 1,
    }
}

/// Where a request came from. Only a proxy on the same machine is believed about it.
pub open spec fn origin(
    peer: Address,
    forwarded: Option<Address>,
    heard: Option<Address>,
) -> Address {
    if !is_loopback(peer) {
        peer
    } else if forwarded is Some {
        forwarded->0
    } else if heard is Some {
        heard->0
    } else {
        peer
    }
}

/// Where a request came from: the peer, or what a proxy on the same machine says, who it forwarded
/// for before whom it heard of otherwise.
pub fn origin_of(peer: Address, forwarded: Option<Address>, heard: Option<Address>) -> (r: Address)
    ensures
        r == origin(peer, forwarded, heard),
{
    let local = match peer {
        Address::V4(a) => 0x7f00_0000 <= a && a < 0x8000_0000,
        Address::V6(a) => a == 1,
    };
    if !local {
        return peer;
    }
    match forwarded {
        Some(a) => a,
        None => match heard {
            Some(a) => a,
            None => peer,
        },
    }
}

/// The entry that the nearest proxy added to a list of whom a request was forwarded for: the
/// rightmost.
pub fn nearest(list: &str) -> (r: &str)
    ensures
        r@ == crate::text::trimmed_space_end(
            crate::text::trimmed_start(crate::text::split_on(list@, ',').last()),
        ),
{
    let parts = split(list, ',');
    proof {
        crate::text::lemma_split_nonempty(list@, ',');
    }
    trim(parts[parts.len() - 1])
}

/// Whether something of time `t` still counts at `at`, in a window of so many seconds.
pub open spec fn counts(t: u64, at: u64, window: u64) -> bool {
    at < t + window * NANOS
}

/// How much of the log counts: of a client, or of all.
pub open spec fn counted(log: Seq<(Client, u64)>, client: Option<Client>, at: u64, window: u64) -> nat
    decreases log.len(),
{
    if log.len() == 0 {
        0
    } else {
        counted(log.drop_last(), client, at, window) + (if concerns(log.last(), client) && counts(
            log.last().1,
            at,
            window,
        ) {
            1nat
        } else {
            0nat
        })
    }
}

/// Whether an entry of the log is about a client, or about any.
pub open spec fn concerns(entry: (Client, u64), client: Option<Client>) -> bool {
    match client {
        Some(c) => entry.0 == c,
        None => true,
    }
}

/// The earliest time of what counts; `at` where nothing is earlier.
pub open spec fn earliest(
    log: Seq<(Client, u64)>,
    client: Option<Client>,
    at: u64,
    window: u64,
) -> u64
    decreases log.len(),
{
    if log.len() == 0 {
        at
    } else {
        let before = earliest(log.drop_last(), client, at, window);
        let e = log.last();
        if concerns(e, client) && counts(e.1, at, window) && e.1 < before {
            e.1
        } else {
            before
        }
    }
}

/// The seconds, rounded up, until something of time `t` no longer counts.
pub open spec fn seconds_left(t: u64, at: u64, window: u64) -> int {
    (t + window * NANOS - at + (NANOS - 1)) / (NANOS as int)
}

/// What of the log is kept: what counts in the longer window.
pub open spec fn kept(log: Seq<(Client, u64)>, at: u64) -> Seq<(Client, u64)>
    decreases log.len(),
{
    if log.len() == 0 {
        Seq::empty()
    } else if counts(log.last().1, at, CLIENT_WINDOW) {
        kept(log.drop_last(), at).push(log.last())
    } else {
        kept(log.drop_last(), at)
    }
}

/// The seconds until a client's next request is served; 0 if it is served now.
pub open spec fn wait(log: Seq<(Client, u64)>, client: Client, at: u64) -> int {
    let own = if counted(log, Some(client), at, CLIENT_WINDOW) >= CLIENT_LIMIT {
        seconds_left(earliest(log, Some(client), at, CLIENT_WINDOW), at, CLIENT_WINDOW)
    } else {
        0
    };
    let all = if counted(log, None, at, TOTAL_WINDOW) >= TOTAL_LIMIT {
        seconds_left(earliest(log, None, at, TOTAL_WINDOW), at, TOTAL_WINDOW)
    } else {
        0
    };
    if own > all {
        own
    } else {
        all
    }
}

/// The codes that were given out: to whom, and when.
#[derive(Debug)]
pub struct CodeRate {
    pub log: Vec<(Client, u64)>,
}

fn still_counts(t: u64, at: u64, window: u64) -> (r: bool)
    requires
        window <= CLIENT_WINDOW,
    ensures
        r == counts(t, at, window),
{
    (at as u128) < t as u128 + (window * NANOS) as u128
}

impl CodeRate {
    pub fn new() -> (r: Self)
        ensures
            r.log@.len() == 0,
    {
        CodeRate { log: Vec::new() }
    }

    fn tidy(&mut self, at: u64)
        ensures
            final(self).log@ == kept(old(self).log@, at),
    {
        let mut out: Vec<(Client, u64)> = Vec::new();
        let mut i: usize = 0;
        assert(self.log@.take(0) =~= Seq::empty());
        while i < self.log.len()
            invariant
                i <= self.log@.len(),
                self.log == old(self).log,
                out@ == kept(self.log@.take(i as int), at),
            decreases self.log@.len() - i,
        {
            assert(self.log@.take(i as int + 1).drop_last() =~= self.log@.take(i as int));
            if still_counts(self.log[i].1, at, CLIENT_WINDOW) {
                out.push(self.log[i]);
            }
            i += 1;
        }
        assert(self.log@.take(i as int) =~= self.log@);
        self.log = out;
    }

    /// How much counts, and the earliest time of it.
    fn survey(&self, client: Option<Client>, at: u64, window: u64) -> (r: (usize, u64))
        requires
            window <= CLIENT_WINDOW,
        ensures
            r.0 == counted(self.log@, client, at, window),
            r.1 == earliest(self.log@, client, at, window),
    {
        let mut n: usize = 0;
        let mut first: u64 = at;
        let mut i: usize = 0;
        assert(self.log@.take(0) =~= Seq::empty());
        while i < self.log.len()
            invariant
                i <= self.log@.len(),
                n <= i,
                window <= CLIENT_WINDOW,
                n == counted(self.log@.take(i as int), client, at, window),
                first == earliest(self.log@.take(i as int), client, at, window),
            decreases self.log@.len() - i,
        {
            assert(self.log@.take(i as int + 1).drop_last() =~= self.log@.take(i as int));
            let (c, t): (Client, u64) = self.log[i];
            let about = match client {
                Some(wanted) => c == wanted,
                None => true,
            };
            if about && still_counts(t, at, window) {
                n += 1;
                if t < first {
                    first = t;
                }
            }
            i += 1;
        }
        assert(self.log@.take(i as int) =~= self.log@);
        (n, first)
    }

    /// A client asks for a code. It gets one, which is remembered, unless it or all clients together
    /// were given as many as they may lately: then the seconds to wait.
    pub fn ask(&mut self, client: Client, at: u64) -> (r: Result<(), u64>)
        ensures
            ({
                let log = kept(old(self).log@, at);
                let w = wait(log, client, at);
                match r {
                    Ok(_) => w == 0 && final(self).log@ == log.push((client, at)),
                    Err(seconds) => w > 0 && seconds == w && final(self).log@ == log,
                }
            }),
    {
        self.tidy(at);
        let (mine, first): (usize, u64) = self.survey(Some(client), at, CLIENT_WINDOW);
        let (all, oldest): (usize, u64) = self.survey(None, at, TOTAL_WINDOW);
        proof {
            lemma_earliest(self.log@, Some(client), at, CLIENT_WINDOW);
            lemma_earliest(self.log@, None, at, TOTAL_WINDOW);
        }
        let own: u64 = if mine >= CLIENT_LIMIT {
            left(first, at, CLIENT_WINDOW)
        } else {
            0
        };
        let total: u64 = if all >= TOTAL_LIMIT {
            left(oldest, at, TOTAL_WINDOW)
        } else {
            0
        };
        let w: u64 = if own > total {
            own
        } else {
            total
        };
        if w > 0 {
            return Err(w);
        }
        self.log.push((client, at));
        Ok(())
    }
}

fn left(t: u64, at: u64, window: u64) -> (r: u64)
    requires
        t <= at,
        counts(t, at, window),
        0 < window <= CLIENT_WINDOW,
    ensures
        r == seconds_left(t, at, window),
        0 < r <= window,
{
    (window * NANOS - (at - t) + (NANOS - 1)) / NANOS
}

/// The earliest time of what counts is no later than the time it is asked for, and counts itself.
proof fn lemma_earliest(log: Seq<(Client, u64)>, client: Option<Client>, at: u64, window: u64)
    requires
        window > 0,
    ensures
        earliest(log, client, at, window) <= at,
        counts(earliest(log, client, at, window), at, window),
    decreases log.len(),
{
    if log.len() > 0 {
        lemma_earliest(log.drop_last(), client, at, window);
    }
}

/// Nothing that counts is lost where the log is tidied up, and later less counts than earlier.
proof fn lemma_counted(
    log: Seq<(Client, u64)>,
    client: Option<Client>,
    at: u64,
    later: u64,
    window: u64,
)
    requires
        at <= later,
        window <= CLIENT_WINDOW,
    ensures
        counted(kept(log, later), client, later, window) <= counted(log, client, at, window),
        counted(kept(log, later), client, later, window) == counted(log, client, later, window),
    decreases log.len(),
{
    if log.len() > 0 {
        lemma_counted(log.drop_last(), client, at, later, window);
        let rest = kept(log.drop_last(), later);
        if counts(log.last().1, later, CLIENT_WINDOW) {
            assert(rest.push(log.last()).drop_last() =~= rest);
        }
    }
}

/// Whether no limit is passed at a time: no client was given more codes in its window than it may
/// get, nor all of them together in theirs.
pub open spec fn within_limits(log: Seq<(Client, u64)>, at: u64) -> bool {
    &&& forall|c: Client| #[trigger]
        counted(log, Some(c), at, CLIENT_WINDOW) <= CLIENT_LIMIT
    &&& counted(log, None, at, TOTAL_WINDOW) <= TOTAL_LIMIT
}

/// Whoever asks, and however often: no limit is ever passed.
pub proof fn law_limits_are_kept(log: Seq<(Client, u64)>, client: Client, at: u64, later: u64)
    requires
        at <= later,
        within_limits(log, at),
    ensures
        within_limits(kept(log, later), later),
        wait(kept(log, later), client, later) == 0 ==> within_limits(
            kept(log, later).push((client, later)),
            later,
        ),
{
    let k = kept(log, later);
    assert forall|c: Client| #[trigger]
        counted(k, Some(c), later, CLIENT_WINDOW) <= CLIENT_LIMIT by {
        lemma_counted(log, Some(c), at, later, CLIENT_WINDOW);
        assert(counted(log, Some(c), at, CLIENT_WINDOW) <= CLIENT_LIMIT);
    }
    lemma_counted(log, None, at, later, TOTAL_WINDOW);
    if wait(k, client, later) == 0 {
        lemma_earliest(k, Some(client), later, CLIENT_WINDOW);
        lemma_earliest(k, None, later, TOTAL_WINDOW);
        let now = k.push((client, later));
        assert(now.drop_last() =~= k);
        assert forall|c: Client| #[trigger]
            counted(now, Some(c), later, CLIENT_WINDOW) <= CLIENT_LIMIT by {
            assert(counted(k, Some(c), later, CLIENT_WINDOW) <= CLIENT_LIMIT);
        }
    }
}

/// A client that is told to wait is served after that time, if nobody asked in between.
pub proof fn law_waiting_helps(log: Seq<(Client, u64)>, client: Client, at: u64, later: u64)
    requires
        within_limits(log, at),
        forall|i: int| 0 <= i < log.len() ==> (#[trigger] log[i]).1 <= at,
        later >= at + wait(log, client, at) * NANOS,
    ensures
        wait(kept(log, later), client, later) == 0,
{
    lemma_earliest(log, Some(client), at, CLIENT_WINDOW);
    lemma_earliest(log, None, at, TOTAL_WINDOW);
    assert(wait(log, client, at) >= 0);
    lemma_drops(log, Some(client), at, later, CLIENT_WINDOW);
    lemma_drops(log, None, at, later, TOTAL_WINDOW);
    lemma_counted(log, Some(client), at, later, CLIENT_WINDOW);
    lemma_counted(log, None, at, later, TOTAL_WINDOW);
    assert(counted(log, Some(client), at, CLIENT_WINDOW) <= CLIENT_LIMIT);
}

/// Once the earliest of what counts no longer does, less counts.
proof fn lemma_drops(
    log: Seq<(Client, u64)>,
    client: Option<Client>,
    at: u64,
    later: u64,
    window: u64,
)
    requires
        at <= later,
        0 < window <= CLIENT_WINDOW,
        forall|i: int| 0 <= i < log.len() ==> (#[trigger] log[i]).1 <= at,
    ensures
        counted(log, client, later, window) <= counted(log, client, at, window),
        counted(log, client, at, window) == 0 ==> earliest(log, client, at, window) == at,
        counted(log, client, at, window) > 0 && !counts(
            earliest(log, client, at, window),
            later,
            window,
        ) ==> counted(log, client, later, window) < counted(log, client, at, window),
    decreases log.len(),
{
    if log.len() > 0 {
        assert forall|i: int| 0 <= i < log.drop_last().len() implies (
        #[trigger] log.drop_last()[i]).1 <= at by {
            assert(log.drop_last()[i] == log[i]);
        }
        lemma_drops(log.drop_last(), client, at, later, window);
        assert(log.last() == log[log.len() - 1]);
    }
}

/// A request counts for a window: one more request counts once for its own client, and once for
/// all, until the window is over.
pub proof fn law_a_request_counts_for_its_window(
    log: Seq<(Client, u64)>,
    entry: (Client, u64),
    client: Client,
    at: u64,
    window: u64,
)
    ensures
        counted(Seq::empty(), Some(client), at, window) == 0,
        counted(Seq::empty(), None, at, window) == 0,
        counted(log.push(entry), Some(client), at, window) == counted(
            log,
            Some(client),
            at,
            window,
        ) + (if entry.0 == client && at < entry.1 + window * 1_000_000_000 {
            1nat
        } else {
            0nat
        }),
        counted(log.push(entry), None, at, window) == counted(log, None, at, window) + (if at
            < entry.1 + window * 1_000_000_000 {
            1nat
        } else {
            0nat
        }),
{
    assert(log.push(entry).drop_last() =~= log);
}

/// A client has to wait exactly where it has made five requests within ten minutes, or all clients
/// together twenty within one.
pub proof fn law_who_has_to_wait(log: Seq<(Client, u64)>, client: Client, at: u64)
    requires
        forall|i: int| 0 <= i < log.len() ==> (#[trigger] log[i]).1 <= at,
    ensures
        wait(log, client, at) == 0 <==> counted(log, Some(client), at, 600) < 5 && counted(
            log,
            None,
            at,
            60,
        ) < 20,
        wait(log, client, at) >= 0,
{
    lemma_earliest_waits(log, Some(client), at, CLIENT_WINDOW);
    lemma_earliest_waits(log, None, at, TOTAL_WINDOW);
    lemma_seconds_left(earliest(log, Some(client), at, CLIENT_WINDOW), at, CLIENT_WINDOW);
    lemma_seconds_left(earliest(log, None, at, TOTAL_WINDOW), at, TOTAL_WINDOW);
}

proof fn lemma_seconds_left(t: u64, at: u64, window: u64)
    ensures
        t + window * NANOS > at ==> seconds_left(t, at, window) > 0,
        seconds_left(t, at, window) * 1_000_000_000 >= t + window * 1_000_000_000 - at,
        (seconds_left(t, at, window) - 1) * 1_000_000_000 < t + window * 1_000_000_000 - at,
{
    let n = t + window * 1_000_000_000 - at + 999_999_999;
    assert(seconds_left(t, at, window) == n / 1_000_000_000);
    assert(n / 1_000_000_000 * 1_000_000_000 <= n < (n / 1_000_000_000 + 1) * 1_000_000_000);
}

proof fn lemma_earliest_waits(
    log: Seq<(Client, u64)>,
    client: Option<Client>,
    at: u64,
    window: u64,
)
    requires
        window > 0,
    ensures
        at < earliest(log, client, at, window) + window * NANOS,
        earliest(log, client, at, window) <= at,
        forall|i: int|
            0 <= i < log.len() && concerns(#[trigger] log[i], client) && counts(
                log[i].1,
                at,
                window,
            ) ==> earliest(log, client, at, window) <= log[i].1,
    decreases log.len(),
{
    if log.len() > 0 {
        let rest = log.drop_last();
        lemma_earliest_waits(rest, client, at, window);
        assert forall|i: int|
            0 <= i < log.len() && concerns(#[trigger] log[i], client) && counts(
                log[i].1,
                at,
                window,
            ) implies earliest(log, client, at, window) <= log[i].1 by {
            if i < rest.len() {
                assert(rest[i] == log[i]);
            }
        }
    }
}

/// What is left of a window is told in whole seconds, rounded up: waiting them is enough, and one
/// less is not. The window is that of the earliest request that still counts.
pub proof fn law_the_wait_is_as_short_as_it_can_be(
    log: Seq<(Client, u64)>,
    client: Option<Client>,
    at: u64,
    window: u64,
)
    requires
        window > 0,
    ensures
        ({
            let first = earliest(log, client, at, window);
            let left = seconds_left(first, at, window);
            &&& at + left * 1_000_000_000 >= first + window * 1_000_000_000
            &&& at + (left - 1) * 1_000_000_000 < first + window * 1_000_000_000
            &&& first <= at
            &&& forall|i: int|
                0 <= i < log.len() && (client is None || (#[trigger] log[i]).0 == client->0) && at
                    < log[i].1 + window * 1_000_000_000 ==> first <= log[i].1
        }),
{
    lemma_earliest_waits(log, client, at, window);
    lemma_seconds_left(earliest(log, client, at, window), at, window);
    let first = earliest(log, client, at, window);
    assert forall|i: int|
        0 <= i < log.len() && (client is None || (#[trigger] log[i]).0 == client->0) && at
            < log[i].1 + window * 1_000_000_000 implies first <= log[i].1 by {
        assert(concerns(log[i], client));
        assert(counts(log[i].1, at, window));
    }
}

/// What is forgotten of the log counts for nobody any more.
pub proof fn law_what_counts_is_remembered(log: Seq<(Client, u64)>, entry: (Client, u64), at: u64)
    ensures
        kept(Seq::empty(), at).len() == 0,
        at < entry.1 + 600_000_000_000 ==> kept(log.push(entry), at) == kept(log, at).push(entry),
        at >= entry.1 + 600_000_000_000 ==> kept(log.push(entry), at) == kept(log, at),
{
    assert(log.push(entry).drop_last() =~= log);
}

/// A client is its address, or the network of 64 bits that it is in; only the server's own proxy is
/// believed about who is behind it.
pub proof fn law_clients_are_told_by_their_address(
    peer: Address,
    forwarded: Option<Address>,
    heard: Option<Address>,
    a: u128,
    b: u128,
)
    ensures
        peer matches Address::V4(x) ==> client_at(peer) == Client::V4(x),
        a / 0x1_0000_0000_0000_0000 == b / 0x1_0000_0000_0000_0000 <==> client_at(Address::V6(a))
            == client_at(Address::V6(b)),
        peer matches Address::V4(x) && !(0x7f00_0000 <= x <= 0x7fff_ffff) ==> origin(
            peer,
            forwarded,
            heard,
        ) == peer,
        peer matches Address::V6(x) && x != 1 ==> origin(peer, forwarded, heard) == peer,
        forwarded matches Some(f) ==> origin(Address::V4(0x7f00_0001), forwarded, heard) == f
            && origin(Address::V6(1), forwarded, heard) == f,
        forwarded is None ==> (heard matches Some(h) ==> origin(
            Address::V4(0x7f00_0001),
            forwarded,
            heard,
        ) == h),
        forwarded is None && heard is None ==> origin(peer, forwarded, heard) == peer,
{
    assert(a as int / 0x1_0000_0000_0000_0000 <= 0xffff_ffff_ffff_ffff) by (nonlinear_arith)
        requires
            a <= u128::MAX,
    ;
    assert(b as int / 0x1_0000_0000_0000_0000 <= 0xffff_ffff_ffff_ffff) by (nonlinear_arith)
        requires
            b <= u128::MAX,
    ;
}

} // verus!
