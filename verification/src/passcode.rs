//! Passcode (PIN) resets. A tablet asks for one under an id of its choice, and asks again with the
//! same id to see what became of it. The owner approves it, as administrator or from another of
//! their devices, which the tablet is told of over the notifications socket.

use vstd::prelude::*;
use vstd::string::*;

use crate::clock::Timestamp;
use crate::error::ServerError;
use crate::notifications::WsMessage;
use crate::table::Table;
use crate::text::same;

verus! {

/// How long a request for a reset stands.
pub const RESET_TTL_HOURS: i64 = 24;

/// How long a request for a reset stands, in seconds.
pub const RESET_TTL_SECS: i64 = RESET_TTL_HOURS * 3600;

/// What a device that says nothing of itself is called.
pub const DEFAULT_NAME: &'static str = "reMarkable";

/// Who asks: a device of a user, and what it says of itself.
#[derive(Debug)]
pub struct Caller {
    pub user_id: String,
    pub device_id: String,
    pub device_desc: String,
}

/// A request for a reset.
#[derive(Debug)]
pub struct PasscodeReset {
    pub device_id: String,
    pub device_name: String,
    pub request_id: String,
    pub created: Timestamp,
    pub expires: Timestamp,
    pub approved: bool,
}

impl Clone for PasscodeReset {
    fn clone(&self) -> (r: Self)
        ensures
            r == *self,
    {
        PasscodeReset {
            device_id: self.device_id.clone(),
            device_name: self.device_name.clone(),
            request_id: self.request_id.clone(),
            created: self.created,
            expires: self.expires,
            approved: self.approved,
        }
    }
}

/// A request, and the user whose device made it.
#[derive(Debug)]
pub struct Stored {
    pub user: String,
    pub reset: PasscodeReset,
}

/// Requests by id.
pub type Resets = Map<Seq<char>, Stored>;

/// The requests that are kept.
#[derive(Debug)]
pub struct PasscodeResets {
    pub resets: Table<Stored>,
}

/// Whether a request no longer stands at a time.
pub open spec fn expired(s: Stored, at: Timestamp) -> bool {
    !s.reset.expires.later(at)
}

/// Whether a user has a request of this id that still stands at a time.
pub open spec fn standing(m: Resets, id: Seq<char>, user: Seq<char>, at: Timestamp) -> bool {
    m.contains_key(id) && m[id].user@ == user && !expired(m[id], at)
}

/// The requests but those of a user that no longer stand.
pub open spec fn swept(m: Resets, user: Seq<char>, at: Timestamp) -> Resets {
    Map::new(
        |id: Seq<char>| m.contains_key(id) && !(m[id].user@ == user && expired(m[id], at)),
        |id: Seq<char>| m[id],
    )
}

/// A request that was approved.
pub open spec fn with_approval(s: Stored) -> Stored {
    Stored { reset: PasscodeReset { approved: true, ..s.reset }, ..s }
}

/// Whether `r` is the request that a device makes at a time.
pub open spec fn is_request(
    r: PasscodeReset,
    caller: Caller,
    request_id: Seq<char>,
    at: Timestamp,
) -> bool {
    &&& r.device_id@ == caller.device_id@
    &&& r.device_name@ == if caller.device_desc@.len() == 0 {
        DEFAULT_NAME@
    } else {
        caller.device_desc@
    }
    &&& r.request_id@ == request_id
    &&& r.created == at
    &&& r.expires == (Timestamp { seconds: (at.seconds + RESET_TTL_SECS) as i64, nanos: at.nanos })
    &&& !r.approved
}

/// The notification that a request was approved.
pub open spec fn tells_approval(msg: WsMessage, user: Seq<char>, reset: PasscodeReset) -> bool {
    &&& msg@.attributes == (crate::notifications::AttributesView {
        device_id: Some(reset.device_id@),
        device_name: Some(reset.device_name@),
        id: Some(reset.request_id@),
        version: Some("1"@),
        ..crate::notifications::bare_event("PasscodeResetApproved"@, "local-server"@, user)
    })
    &&& msg@.data == Some(
        crate::codec::base64_standard(vstd::utf8::encode_utf8("PasscodeResetApproved"@)),
    )
    &&& crate::notifications::stamped(msg@)
}

/// The notification that a request was denied.
pub open spec fn tells_denial(msg: WsMessage, user: Seq<char>, request_id: Seq<char>) -> bool {
    &&& msg@.attributes == (crate::notifications::AttributesView {
        id: Some(request_id),
        ..crate::notifications::bare_event("PasscodeResetDenied"@, "local-server"@, user)
    })
    &&& msg@.data is None
    &&& crate::notifications::stamped(msg@)
}

/// What a device is told that vouches for its own reset.
pub const OWN_RESET: &'static str = "a device cannot approve or deny its own passcode reset";

/// What a device that would approve or deny a request is refused with, if it is: the requests of
/// other users, unknown ones and those that no longer stand are not found, and it may not decide on
/// its own.
pub open spec fn objection(
    m: Resets,
    request_id: Seq<char>,
    user: Seq<char>,
    device: Seq<char>,
    at: Timestamp,
) -> Option<crate::error::ServerErrorView> {
    if !standing(m, request_id, user, at) {
        Some(crate::error::ServerErrorView::NotFound(request_id))
    } else if m[request_id].reset.device_id@ == device {
        Some(crate::error::ServerErrorView::Forbidden(OWN_RESET@))
    } else {
        None
    }
}

/// The request that a device makes at a time.
pub fn new_request(caller: &Caller, request_id: &str, at: Timestamp) -> (r: PasscodeReset)
    requires
        at.valid(),
        at.seconds + RESET_TTL_SECS <= crate::clock::MAX_SECONDS,
    ensures
        is_request(r, *caller, request_id@, at),
{
    PasscodeReset {
        device_id: caller.device_id.clone(),
        device_name: if crate::text::char_count(caller.device_desc.as_str()) == 0 {
            DEFAULT_NAME.to_owned()
        } else {
            caller.device_desc.clone()
        },
        request_id: request_id.to_owned(),
        created: at,
        expires: Timestamp { seconds: at.seconds + RESET_TTL_SECS, nanos: at.nanos },
        approved: false,
    }
}

impl PasscodeResets {
    pub open spec fn wf(&self) -> bool {
        self.resets.wf()
    }

    pub fn new() -> (r: Self)
        ensures
            r.wf(),
            r.resets@ == Map::<Seq<char>, Stored>::empty(),
    {
        PasscodeResets { resets: Table::new() }
    }

    /// Store a request, unless there is one of its id already. Whether it was stored.
    pub fn create_passcode_reset(&mut self, reset: PasscodeReset, user: &str) -> (r: bool)
        requires
            old(self).wf(),
        ensures
            final(self).wf(),
            r == !old(self).resets@.contains_key(reset.request_id@),
            if r {
                &&& final(self).resets@.contains_key(reset.request_id@)
                &&& final(self).resets@ == old(self).resets@.insert(
                    reset.request_id@,
                    final(self).resets@[reset.request_id@],
                )
                &&& final(self).resets@[reset.request_id@].reset == reset
                &&& final(self).resets@[reset.request_id@].user@ == user@
            } else {
                *final(self) == *old(self)
            },
    {
        if self.resets.contains(reset.request_id.as_str()) {
            return false;
        }
        let id = reset.request_id.clone();
        self.resets.insert(id, Stored { user: user.to_owned(), reset });
        true
    }

    /// A request of a user that still stands.
    pub fn get_passcode_reset(&self, request_id: &str, user: &str, at: Timestamp) -> (r: Result<
        PasscodeReset,
        ServerError,
    >)
        requires
            self.wf(),
        ensures
            match r {
                Ok(reset) => standing(self.resets@, request_id@, user@, at) && reset
                    == self.resets@[request_id@].reset,
                Err(e) => !standing(self.resets@, request_id@, user@, at) && e@
                    == crate::error::ServerErrorView::NotFound(request_id@),
            },
    {
        match self.resets.get(request_id) {
            Some(s) => if same(s.user.as_str(), user) && s.reset.expires.is_after(at) {
                Ok(s.reset.clone())
            } else {
                Err(ServerError::NotFound(request_id.to_owned()))
            },
            None => Err(ServerError::NotFound(request_id.to_owned())),
        }
    }

    /// A tablet asks for a reset, or what became of it: the request as it is stored, and whether it
    /// is new.
    pub fn create(&mut self, caller: &Caller, request_id: &str, at: Timestamp) -> (r: Result<
        (bool, PasscodeReset),
        ServerError,
    >)
        requires
            old(self).wf(),
            at.valid(),
            at.seconds + RESET_TTL_SECS <= crate::clock::MAX_SECONDS,
        ensures
            final(self).wf(),
            ({
                let m = old(self).resets@;
                if !m.contains_key(request_id@) {
                    &&& r matches Ok((created, reset)) && created && is_request(
                        reset,
                        *caller,
                        request_id@,
                        at,
                    )
                    &&& final(self).resets@.contains_key(request_id@)
                    &&& final(self).resets@ == m.insert(
                        request_id@,
                        final(self).resets@[request_id@],
                    )
                    &&& final(self).resets@[request_id@].reset == r->Ok_0.1
                    &&& final(self).resets@[request_id@].user@ == caller.user_id@
                } else {
                    &&& *final(self) == *old(self)
                    &&& match r {
                        Ok((created, reset)) => !created && standing(
                            m,
                            request_id@,
                            caller.user_id@,
                            at,
                        ) && reset == m[request_id@].reset,
                        Err(e) => !standing(m, request_id@, caller.user_id@, at) && e@
                            == crate::error::ServerErrorView::NotFound(request_id@),
                    }
                }
            }),
    {
        let reset = new_request(caller, request_id, at);
        let created = self.create_passcode_reset(reset, caller.user_id.as_str());
        match self.get_passcode_reset(request_id, caller.user_id.as_str(), at) {
            Ok(stored) => Ok((created, stored)),
            Err(e) => Err(e),
        }
    }

    /// Forget the requests of a user that no longer stand.
    pub fn purge_expired_passcode_resets(&mut self, user: &str, at: Timestamp)
        requires
            old(self).wf(),
        ensures
            final(self).wf(),
            final(self).resets@ == swept(old(self).resets@, user@, at),
    {
        let ghost was = self.resets@;
        let mut gone: Vec<String> = Vec::new();
        let mut i: usize = 0;
        proof {
            crate::table::lemma_map_of(self.resets.entries@);
        }
        while i < self.resets.entries.len()
            invariant
                i <= self.resets.entries@.len(),
                self.wf(),
                self.resets@ == was,
                forall|j: int|
                    0 <= j < self.resets.entries@.len() ==> was.contains_key(
                        (#[trigger] self.resets.entries@[j]).0@,
                    ) && was[self.resets.entries@[j].0@] == self.resets.entries@[j].1,
                forall|n: int|
                    0 <= n < gone@.len() ==> was.contains_key((#[trigger] gone@[n])@)
                        && was[gone@[n]@].user@ == user@ && expired(was[gone@[n]@], at),
                forall|j: int|
                    0 <= j < i && (#[trigger] self.resets.entries@[j]).1.user@ == user@ && expired(
                        self.resets.entries@[j].1,
                        at,
                    ) ==> exists|n: int|
                        0 <= n < gone@.len() && (#[trigger] gone@[n])@
                            == self.resets.entries@[j].0@,
            decreases self.resets.entries@.len() - i,
        {
            let entry = &self.resets.entries[i];
            let ghost before = gone@;
            if same(entry.1.user.as_str(), user) && !entry.1.reset.expires.is_after(at) {
                gone.push(entry.0.clone());
                assert(gone@[before.len() as int]@ == self.resets.entries@[i as int].0@);
            }
            assert(forall|n: int| 0 <= n < before.len() ==> gone@[n] == #[trigger] before[n]);
            i += 1;
        }
        proof {
            assert forall|k: Seq<char>| #[trigger]
                was.contains_key(k) && was[k].user@ == user@ && expired(was[k], at) implies exists|
                n: int,
            | 0 <= n < gone@.len() && (#[trigger] gone@[n])@ == k by {
                assert(self.resets@.contains_key(k));
                let j = choose|j: int|
                    0 <= j < self.resets.entries@.len() && (#[trigger] self.resets.entries@[j]).0@
                        == k;
                assert(was[k] == self.resets.entries@[j].1);
            }
        }
        let mut n: usize = 0;
        while n < gone.len()
            invariant
                n <= gone@.len(),
                self.wf(),
                forall|k: Seq<char>| #[trigger]
                    self.resets@.contains_key(k) ==> was.contains_key(k) && self.resets@[k]
                        == was[k] && forall|j: int| 0 <= j < n ==> (#[trigger] gone@[j])@ != k,
                forall|k: Seq<char>| #[trigger]
                    was.contains_key(k) && (forall|j: int|
                        0 <= j < n ==> (#[trigger] gone@[j])@ != k) ==> self.resets@.contains_key(
                        k,
                    ),
            decreases gone@.len() - n,
        {
            let ghost before = self.resets@;
            let _ = self.resets.remove(gone[n].as_str());
            assert(self.resets@ == before.remove(gone@[n as int]@));
            n += 1;
        }
        assert(self.resets@ =~= swept(was, user@, at));
    }

    /// Approve a request, of `owner` where one is given. The user whose it is, and the request.
    pub fn approve_passcode_reset(
        &mut self,
        request_id: &str,
        owner: Option<&str>,
        at: Timestamp,
    ) -> (r: Result<(String, PasscodeReset), ServerError>)
        requires
            old(self).wf(),
        ensures
            final(self).wf(),
            ({
                let m = old(self).resets@;
                let found = m.contains_key(request_id@) && !expired(m[request_id@], at) && (
                owner matches Some(o) ==> m[request_id@].user@ == o@);
                match r {
                    Ok((user, reset)) => {
                        &&& found
                        &&& user == m[request_id@].user
                        &&& reset == with_approval(m[request_id@]).reset
                        &&& final(self).resets@ == m.insert(
                            request_id@,
                            with_approval(m[request_id@]),
                        )
                    },
                    Err(e) => {
                        &&& !found
                        &&& e@ == crate::error::ServerErrorView::NotFound(request_id@)
                        &&& final(self).resets@ == m
                    },
                }
            }),
    {
        let ghost m = self.resets@;
        match self.resets.get_mut(request_id) {
            None => Err(ServerError::NotFound(request_id.to_owned())),
            Some(s) => {
                let owned_by = match owner {
                    Some(o) => same(s.user.as_str(), o),
                    None => true,
                };
                if !owned_by || !s.reset.expires.is_after(at) {
                    assert(m.insert(request_id@, m[request_id@]) =~= m);
                    return Err(ServerError::NotFound(request_id.to_owned()));
                }
                s.reset.approved = true;
                Ok((s.user.clone(), s.reset.clone()))
            },
        }
    }

    /// Approve a request, of `owner` where one is given, and tell the device that made it.
    pub fn approve_and_notify(
        &mut self,
        request_id: &str,
        owner: Option<&str>,
        at: Timestamp,
    ) -> (r: Result<(PasscodeReset, WsMessage), ServerError>)
        requires
            old(self).wf(),
        ensures
            final(self).wf(),
            ({
                let m = old(self).resets@;
                let found = m.contains_key(request_id@) && !expired(m[request_id@], at) && (
                owner matches Some(o) ==> m[request_id@].user@ == o@);
                match r {
                    Ok((reset, msg)) => {
                        &&& found
                        &&& reset == with_approval(m[request_id@]).reset
                        &&& tells_approval(msg, m[request_id@].user@, reset)
                        &&& final(self).resets@ == m.insert(
                            request_id@,
                            with_approval(m[request_id@]),
                        )
                    },
                    Err(e) => {
                        &&& !found
                        &&& e@ == crate::error::ServerErrorView::NotFound(request_id@)
                        &&& final(self).resets@ == m
                    },
                }
            }),
    {
        match self.approve_passcode_reset(request_id, owner, at) {
            Ok((user, reset)) => {
                let msg = WsMessage::passcode_reset_approved(
                    user.as_str(),
                    reset.device_id.as_str(),
                    reset.device_name.as_str(),
                    reset.request_id.as_str(),
                );
                Ok((reset, msg))
            },
            Err(e) => Err(e),
        }
    }

    /// Another of the owner's devices approves a request.
    pub fn device_approve(&mut self, caller: &Caller, request_id: &str, at: Timestamp) -> (r:
        Result<(PasscodeReset, WsMessage), ServerError>)
        requires
            old(self).wf(),
        ensures
            final(self).wf(),
            ({
                let m = old(self).resets@;
                let left = swept(m, caller.user_id@, at);
                match r {
                    Ok((reset, msg)) => {
                        &&& objection(
                            m,
                            request_id@,
                            caller.user_id@,
                            caller.device_id@,
                            at,
                        ) is None
                        &&& reset == with_approval(m[request_id@]).reset
                        &&& tells_approval(msg, caller.user_id@, reset)
                        &&& final(self).resets@ == left.insert(
                            request_id@,
                            with_approval(m[request_id@]),
                        )
                    },
                    Err(e) => {
                        &&& objection(m, request_id@, caller.user_id@, caller.device_id@, at)
                            == Some(e@)
                        &&& final(self).resets@ == left
                    },
                }
            }),
    {
        match require_other_device(
            self,
            request_id,
            caller.user_id.as_str(),
            caller.device_id.as_str(),
            at,
        ) {
            Ok(_) => self.approve_and_notify(request_id, Some(caller.user_id.as_str()), at),
            Err(e) => Err(e),
        }
    }

    /// Forget a request of a user. Whether there was one.
    pub fn delete_passcode_reset(&mut self, request_id: &str, user: &str) -> (r: bool)
        requires
            old(self).wf(),
        ensures
            final(self).wf(),
            r == (old(self).resets@.contains_key(request_id@) && old(
                self,
            ).resets@[request_id@].user@ == user@),
            final(self).resets@ == if r {
                old(self).resets@.remove(request_id@)
            } else {
                old(self).resets@
            },
    {
        let found = match self.resets.get(request_id) {
            Some(s) => same(s.user.as_str(), user),
            None => false,
        };
        if found {
            let _ = self.resets.remove(request_id);
        }
        found
    }

    /// Another of the owner's devices denies a request, which is then forgotten.
    pub fn device_deny(&mut self, caller: &Caller, request_id: &str, at: Timestamp) -> (r: Result<
        WsMessage,
        ServerError,
    >)
        requires
            old(self).wf(),
        ensures
            final(self).wf(),
            ({
                let m = old(self).resets@;
                let left = swept(m, caller.user_id@, at);
                match r {
                    Ok(msg) => {
                        &&& objection(
                            m,
                            request_id@,
                            caller.user_id@,
                            caller.device_id@,
                            at,
                        ) is None
                        &&& tells_denial(msg, caller.user_id@, request_id@)
                        &&& final(self).resets@ == left.remove(request_id@)
                    },
                    Err(e) => {
                        &&& objection(m, request_id@, caller.user_id@, caller.device_id@, at)
                            == Some(e@)
                        &&& final(self).resets@ == left
                    },
                }
            }),
    {
        match require_other_device(
            self,
            request_id,
            caller.user_id.as_str(),
            caller.device_id.as_str(),
            at,
        ) {
            Ok(_) => {
                if !self.delete_passcode_reset(request_id, caller.user_id.as_str()) {
                    return Err(ServerError::NotFound(request_id.to_owned()));
                }
                Ok(WsMessage::passcode_reset_denied(caller.user_id.as_str(), request_id))
            },
            Err(e) => Err(e),
        }
    }
}

/// A device can't vouch for its own reset: approve/deny must come from a *different* device of the
/// requesting user. Other users' requests (and unknown or expired ids) are not found, the same device
/// is refused. Expired requests are swept here since the lookup misses them before a denial could
/// delete them.
pub fn require_other_device(
    resets: &mut PasscodeResets,
    request_id: &str,
    user_id: &str,
    device_id: &str,
    at: Timestamp,
) -> (r: Result<(), ServerError>)
    requires
        old(resets).wf(),
    ensures
        final(resets).wf(),
        final(resets).resets@ == swept(old(resets).resets@, user_id@, at),
        match r {
            Ok(_) => objection(
                old(resets).resets@,
                request_id@,
                user_id@,
                device_id@,
                at,
            ) is None,
            Err(e) => objection(old(resets).resets@, request_id@, user_id@, device_id@, at) == Some(
                e@,
            ),
        },
{
    resets.purge_expired_passcode_resets(user_id, at);
    match resets.get_passcode_reset(request_id, user_id, at) {
        Err(e) => Err(e),
        Ok(reset) => if same(reset.device_id.as_str(), device_id) {
            Err(ServerError::Forbidden(OWN_RESET.to_owned()))
        } else {
            Ok(())
        },
    }
}

/// What a device does about requests leaves those of other users as they are.
pub proof fn law_other_users_requests_stay(
    m: Resets,
    user: Seq<char>,
    at: Timestamp,
    request_id: Seq<char>,
    id: Seq<char>,
)
    requires
        m.contains_key(id),
        m[id].user@ != user,
        standing(m, request_id, user, at),
    ensures
        ({
            let left = swept(m, user, at);
            &&& left.contains_key(id) && left[id] == m[id]
            &&& ({
                let approved = left.insert(request_id, with_approval(m[request_id]));
                approved.contains_key(id) && approved[id] == m[id]
            })
            &&& left.remove(request_id).contains_key(id) && left.remove(request_id)[id] == m[id]
        }),
{
}

/// A request that was approved is seen as approved by the user whose it is for as long as it stands,
/// and one that was denied is not found.
pub proof fn law_the_requester_sees_the_decision(
    m: Resets,
    user: Seq<char>,
    request_id: Seq<char>,
    at: Timestamp,
    later: Timestamp,
)
    requires
        standing(m, request_id, user, at),
        m[request_id].reset.expires.later(later),
    ensures
        ({
            let left = swept(m, user, at);
            let approved = left.insert(request_id, with_approval(m[request_id]));
            &&& standing(approved, request_id, user, later) && approved[request_id].reset.approved
            &&& !standing(left.remove(request_id), request_id, user, later)
        }),
{
}

/// A device never decides on its own request.
pub proof fn law_no_device_decides_on_its_own_request(
    m: Resets,
    request_id: Seq<char>,
    user: Seq<char>,
    device: Seq<char>,
    at: Timestamp,
)
    requires
        m.contains_key(request_id),
        m[request_id].reset.device_id@ == device,
    ensures
        objection(m, request_id, user, device, at) is Some,
{
}

/// A request stands for its user from when it is made until a day later, and not a moment longer;
/// for nobody else does it ever stand.
pub proof fn law_a_request_stands_for_a_day(
    m: Resets,
    id: Seq<char>,
    user: Seq<char>,
    caller: Caller,
    made: Timestamp,
    at: Timestamp,
)
    requires
        made.valid(),
        made.seconds + 86_400 <= crate::clock::MAX_SECONDS,
        m.contains_key(id),
        is_request(m[id].reset, caller, id, made),
    ensures
        standing(m, id, user, at) <==> m[id].user@ == user && (at.seconds < made.seconds + 86_400
            || (at.seconds == made.seconds + 86_400 && at.nanos < made.nanos)),
        !m[id].reset.approved,
        m[id].reset.device_id@ == caller.device_id@,
        m[id].reset.created == made,
        caller.device_desc@.len() > 0 ==> m[id].reset.device_name@ == caller.device_desc@,
        caller.device_desc@.len() == 0 ==> m[id].reset.device_name@ == "reMarkable"@,
{
}

/// A request is decided on by another device of its user, while it stands; to anyone else it does
/// not exist.
pub proof fn law_who_decides_on_a_request(
    m: Resets,
    id: Seq<char>,
    user: Seq<char>,
    device: Seq<char>,
    at: Timestamp,
)
    ensures
        objection(m, id, user, device, at) is None <==> {
            &&& m.contains_key(id)
            &&& m[id].user@ == user
            &&& m[id].reset.expires.later(at)
            &&& m[id].reset.device_id@ != device
        },
        !m.contains_key(id) || m[id].user@ != user || !m[id].reset.expires.later(at) ==> objection(
            m,
            id,
            user,
            device,
            at,
        ) == Some(crate::error::ServerErrorView::NotFound(id)),
        m.contains_key(id) && m[id].user@ == user && m[id].reset.expires.later(at)
            && m[id].reset.device_id@ == device ==> (objection(m, id, user, device, at)
            matches Some(e) && e is Forbidden),
{
}

/// Sweeping forgets a user's requests that no longer stand, and nothing else.
pub proof fn law_sweeping_forgets_what_no_longer_stands(
    m: Resets,
    user: Seq<char>,
    at: Timestamp,
    id: Seq<char>,
)
    ensures
        swept(m, user, at).contains_key(id) <==> m.contains_key(id) && (m[id].user@ != user
            || m[id].reset.expires.later(at)),
        swept(m, user, at).contains_key(id) ==> swept(m, user, at)[id] == m[id],
{
}

/// Approving a request changes nothing of it but that it is approved.
pub proof fn law_approval_changes_nothing_else(s: Stored)
    ensures
        with_approval(s).reset.approved,
        with_approval(s).user == s.user,
        with_approval(s).reset.device_id == s.reset.device_id,
        with_approval(s).reset.device_name == s.reset.device_name,
        with_approval(s).reset.request_id == s.reset.request_id,
        with_approval(s).reset.created == s.reset.created,
        with_approval(s).reset.expires == s.reset.expires,
{
}

/// A decision is told to the user's devices: which request it was about, and for an approval which
/// device asked.
pub proof fn law_a_decision_tells_its_request(
    approval: WsMessage,
    denial: WsMessage,
    user: Seq<char>,
    reset: PasscodeReset,
    request_id: Seq<char>,
)
    requires
        tells_approval(approval, user, reset),
        tells_denial(denial, user, request_id),
    ensures
        approval@.attributes.event == "PasscodeResetApproved"@,
        approval@.attributes.auth0_user_id == user,
        approval@.attributes.id == Some(reset.request_id@),
        approval@.attributes.device_id == Some(reset.device_id@),
        approval@.attributes.device_name == Some(reset.device_name@),
        denial@.attributes.event == "PasscodeResetDenied"@,
        denial@.attributes.auth0_user_id == user,
        denial@.attributes.id == Some(request_id),
        denial@.data is None,
{
}

} // verus!
