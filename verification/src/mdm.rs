//! MDM instruction queue (enterprise device management). Instructions are queued by the
//! administrator, handed to the device oldest first, and cleared once the device reports on them.

use vstd::prelude::*;
use vstd::string::*;

use crate::text::{char_count, same};

verus! {

/// The account that instructions are queued for.
pub const LOCAL_USER: &'static str = "local-user";

/// What the administrator queues.
#[derive(Debug)]
pub struct EnqueueReq {
    pub name: String,
    pub key: Option<String>,
    pub value: Option<String>,
}

/// What a device reported on an instruction.
#[derive(Debug)]
pub struct Report {
    pub status: String,
    pub detail: Option<String>,
}

impl Clone for Report {
    fn clone(&self) -> (r: Self)
        ensures
            r == *self,
    {
        Report { status: self.status.clone(), detail: self.detail.clone() }
    }
}

/// An instruction for the devices of a user.
#[derive(Debug)]
pub struct Instruction {
    pub id: String,
    pub user: String,
    pub name: String,
    pub key: Option<String>,
    pub value: Option<String>,
    /// What the device reported, once it did.
    pub report: Option<Report>,
}

impl Clone for Instruction {
    fn clone(&self) -> (r: Self)
        ensures
            r == *self,
    {
        Instruction {
            id: self.id.clone(),
            user: self.user.clone(),
            name: self.name.clone(),
            key: self.key.clone(),
            value: self.value.clone(),
            report: match &self.report {
                Some(r) => Some(r.clone()),
                None => None,
            },
        }
    }
}

/// A field of a status report: missing, a text, or anything else.
#[derive(Debug)]
pub enum Field {
    Missing,
    Text(String),
    Other,
}

/// The first of two fields that is there.
pub open spec fn first_of(a: Field, b: Field) -> Field {
    match a {
        Field::Missing => b,
        _ => a,
    }
}

/// The text of a field, if it is one.
pub open spec fn text_in(f: Field) -> Option<Seq<char>> {
    match f {
        Field::Text(s) => Some(s@),
        _ => None,
    }
}

fn first(a: Field, b: Field) -> (r: Field)
    ensures
        r == first_of(a, b),
{
    match a {
        Field::Missing => b,
        _ => a,
    }
}

fn text(f: Field) -> (r: Option<String>)
    ensures
        crate::text::text_of(r) == text_in(f),
{
    match f {
        Field::Text(s) => Some(s),
        _ => None,
    }
}

/// The fields of a status report, as different agents name them.
#[derive(Debug)]
pub struct StatusBody {
    pub id: Field,
    pub instruction_id: Field,
    pub status: Field,
    pub detail: Field,
    pub details: Field,
    pub extended_status: Field,
}

/// The instruction that a report is on; none if it names none.
pub open spec fn reported_id(b: StatusBody) -> Option<Seq<char>> {
    match text_in(first_of(b.id, b.instruction_id)) {
        Some(id) => if id.len() == 0 {
            None
        } else {
            Some(id)
        },
        None => None,
    }
}

/// Whether `r` is what a report says.
pub open spec fn says(b: StatusBody, r: Report) -> bool {
    &&& r.status@ == match text_in(b.status) {
        Some(s) => s,
        None => "received"@,
    }
    &&& crate::text::text_of(r.detail) == text_in(
        first_of(first_of(b.detail, b.details), b.extended_status),
    )
}

/// The instruction that a report is on, and what it says.
pub fn read_report(b: StatusBody) -> (r: Option<(String, Report)>)
    ensures
        match r {
            Some((id, report)) => reported_id(b) == Some(id@) && says(b, report),
            None => reported_id(b) is None,
        },
{
    let id = match text(first(b.id, b.instruction_id)) {
        Some(id) => id,
        None => return None,
    };
    if char_count(id.as_str()) == 0 {
        return None;
    }
    let status = match text(b.status) {
        Some(s) => s,
        None => "received".to_owned(),
    };
    let detail = text(first(first(b.detail, b.details), b.extended_status));
    Some((id, Report { status, detail }))
}

/// Instructions, the oldest first.
#[derive(Debug)]
pub struct MdmQueue {
    pub instructions: Vec<Instruction>,
}

/// Whether an instruction waits for a device of a user.
pub open spec fn waits(i: Instruction, user: Seq<char>) -> bool {
    i.user@ == user && i.report is None
}

/// The instructions of a user, in order.
pub open spec fn of_user(s: Seq<Instruction>, user: Seq<char>) -> Seq<Instruction>
    decreases s.len(),
{
    if s.len() == 0 {
        Seq::empty()
    } else {
        let before = of_user(s.drop_last(), user);
        if s.last().user@ == user {
            before.push(s.last())
        } else {
            before
        }
    }
}

/// An instruction after a report on `id`.
pub open spec fn reported(i: Instruction, id: Seq<char>, report: Report) -> Instruction {
    if i.id@ == id {
        Instruction { report: Some(report), ..i }
    } else {
        i
    }
}

impl MdmQueue {
    pub fn new() -> (r: Self)
        ensures
            r.instructions@.len() == 0,
    {
        MdmQueue { instructions: Vec::new() }
    }

    /// Queue an instruction for a user.
    pub fn mdm_enqueue(&mut self, id: String, user: &str, req: EnqueueReq)
        ensures
            final(self).instructions@.len() > 0,
            final(self).instructions@ == old(self).instructions@.push(
                final(self).instructions@.last(),
            ),
            ({
                let i = final(self).instructions@.last();
                &&& i.id == id
                &&& i.user@ == user@
                &&& i.name == req.name
                &&& i.key == req.key
                &&& i.value == req.value
                &&& i.report is None
            }),
    {
        self.instructions.push(
            Instruction {
                id,
                user: user.to_owned(),
                name: req.name,
                key: req.key,
                value: req.value,
                report: None,
            },
        );
    }

    /// The oldest instruction that waits for a device of a user.
    pub fn mdm_next_pending(&self, user: &str) -> (r: Option<&Instruction>)
        ensures
            match r {
                Some(next) => exists|i: int|
                    0 <= i < self.instructions@.len() && #[trigger] self.instructions@[i] == *next
                        && waits(*next, user@) && forall|j: int|
                        0 <= j < i ==> !waits(#[trigger] self.instructions@[j], user@),
                None => forall|j: int|
                    0 <= j < self.instructions@.len() ==> !waits(
                        #[trigger] self.instructions@[j],
                        user@,
                    ),
            },
    {
        let mut i: usize = 0;
        while i < self.instructions.len()
            invariant
                i <= self.instructions@.len(),
                forall|j: int| 0 <= j < i ==> !waits(#[trigger] self.instructions@[j], user@),
            decreases self.instructions@.len() - i,
        {
            let next = &self.instructions[i];
            if next.report.is_none() && same(next.user.as_str(), user) {
                assert(self.instructions@[i as int] == *next);
                return Some(next);
            }
            i += 1;
        }
        None
    }

    /// Record what a device reported on an instruction, which is thereby cleared.
    pub fn mdm_set_status(&mut self, id: &str, report: &Report)
        ensures
            final(self).instructions@ == old(self).instructions@.map_values(
                |i: Instruction| reported(i, id@, *report),
            ),
    {
        let ghost was = self.instructions@;
        let mut i: usize = 0;
        while i < self.instructions.len()
            invariant
                i <= self.instructions@.len(),
                self.instructions@.len() == was.len(),
                forall|j: int|
                    0 <= j < i ==> #[trigger] self.instructions@[j] == reported(
                        was[j],
                        id@,
                        *report,
                    ),
                forall|j: int| i <= j < was.len() ==> #[trigger] self.instructions@[j] == was[j],
            decreases self.instructions@.len() - i,
        {
            if same(self.instructions[i].id.as_str(), id) {
                self.instructions[i].report = Some(report.clone());
            }
            i += 1;
        }
        assert(self.instructions@ =~= was.map_values(
            |i: Instruction| reported(i, id@, *report),
        ));
    }

    /// A device reports; a report that names no instruction changes nothing.
    pub fn post_status(&mut self, body: StatusBody)
        ensures
            match reported_id(body) {
                Some(id) => exists|report: Report| #[trigger]
                    says(body, report) && final(self).instructions@
                        == old(self).instructions@.map_values(
                        |i: Instruction| reported(i, id, report),
                    ),
                None => *final(self) == *old(self),
            },
    {
        if let Some((id, report)) = read_report(body) {
            self.mdm_set_status(id.as_str(), &report);
        }
    }

    /// All instructions of a user, with what was reported on them.
    pub fn mdm_list(&self, user: &str) -> (r: Vec<Instruction>)
        ensures
            r@ == of_user(self.instructions@, user@),
    {
        let ghost all = self.instructions@;
        let mut out: Vec<Instruction> = Vec::new();
        let mut i: usize = 0;
        assert(all.take(0) =~= Seq::empty());
        while i < self.instructions.len()
            invariant
                i <= self.instructions@.len(),
                all == self.instructions@,
                out@ == of_user(all.take(i as int), user@),
            decreases self.instructions@.len() - i,
        {
            assert(all.take(i as int + 1).drop_last() =~= all.take(i as int));
            if same(self.instructions[i].user.as_str(), user) {
                out.push(self.instructions[i].clone());
            }
            i += 1;
        }
        assert(all.take(i as int) =~= all);
        out
    }

    /// Queue an instruction for the local account under a fresh id, which is handed out.
    pub fn admin_enqueue(&mut self, req: EnqueueReq) -> (r: String)
        ensures
            final(self).instructions@.len() > 0,
            final(self).instructions@ == old(self).instructions@.push(
                final(self).instructions@.last(),
            ),
            ({
                let i = final(self).instructions@.last();
                &&& i.id == r
                &&& r@.len() == 36
                &&& i.user@ == LOCAL_USER@
                &&& i.name == req.name
                &&& i.key == req.key
                &&& i.value == req.value
                &&& i.report is None
            }),
    {
        let id = crate::codec::random_uuid();
        self.mdm_enqueue(id.clone(), LOCAL_USER, req);
        id
    }
}

/// A report clears the instructions it is on, and no others.
pub proof fn law_reports_clear(s: Seq<Instruction>, id: Seq<char>, report: Report, i: int)
    requires
        0 <= i < s.len(),
    ensures
        ({
            let now = s.map_values(|x: Instruction| reported(x, id, report));
            &&& s[i].id@ == id ==> !waits(now[i], s[i].user@)
            &&& s[i].id@ != id ==> now[i] == s[i]
        }),
{
}

/// An instruction stays the next one, however often the device asks, until there is a report on it:
/// what is queued later does not come before it.
pub proof fn law_the_oldest_stays_first(s: Seq<Instruction>, i: int, user: Seq<char>, new: Instruction)
    requires
        0 <= i < s.len(),
        waits(s[i], user),
        forall|j: int| 0 <= j < i ==> !waits(#[trigger] s[j], user),
    ensures
        s.push(new)[i] == s[i],
        forall|j: int| 0 <= j < i ==> !waits(#[trigger] s.push(new)[j], user),
{
    assert forall|j: int| 0 <= j < i implies !waits(#[trigger] s.push(new)[j], user) by {
        assert(s.push(new)[j] == s[j]);
    }
}

/// A user's instructions are all of theirs, in order, and no one else's.
pub proof fn law_instructions_are_told_to_their_user(
    s: Seq<Instruction>,
    last: Instruction,
    user: Seq<char>,
)
    ensures
        of_user(Seq::empty(), user).len() == 0,
        last.user@ == user ==> of_user(s.push(last), user) == of_user(s, user).push(last),
        last.user@ != user ==> of_user(s.push(last), user) == of_user(s, user),
{
    assert(s.push(last).drop_last() =~= s);
}

/// A report is kept with its instruction, and with no other; nothing else of that changes, and it
/// no longer waits.
pub proof fn law_a_report_is_kept_with_its_instruction(i: Instruction, id: Seq<char>, report: Report)
    ensures
        i.id@ == id ==> {
            &&& reported(i, id, report).report == Some(report)
            &&& !waits(reported(i, id, report), i.user@)
        },
        i.id@ != id ==> reported(i, id, report) == i,
        reported(i, id, report).id == i.id,
        reported(i, id, report).user == i.user,
        reported(i, id, report).name == i.name,
        reported(i, id, report).key == i.key,
        reported(i, id, report).value == i.value,
{
}

/// An instruction waits for its own user's device as long as nothing was reported of it.
pub proof fn law_what_waits(i: Instruction, user: Seq<char>)
    ensures
        i.report is Some ==> !waits(i, user),
        i.user@ != user ==> !waits(i, user),
        i.user@ == user && i.report is None ==> waits(i, user),
{
}

/// A status names its instruction as `id` or else as `instruction_id`; an empty name, or one that
/// is no text, names none.
pub proof fn law_a_status_names_its_instruction(b: StatusBody)
    ensures
        b.id matches Field::Text(s) ==> (if s@.len() > 0 {
            reported_id(b) == Some(s@)
        } else {
            reported_id(b) is None
        }),
        b.id is Other ==> reported_id(b) is None,
        b.id is Missing ==> match b.instruction_id {
            Field::Text(s) => if s@.len() > 0 {
                reported_id(b) == Some(s@)
            } else {
                reported_id(b) is None
            },
            _ => reported_id(b) is None,
        },
{
}

/// A report holds the status that was told, or that it was received, and the first detail that was
/// given.
pub proof fn law_a_report_holds_what_was_told(b: StatusBody, r: Report)
    requires
        says(b, r),
    ensures
        b.status matches Field::Text(s) ==> r.status@ == s@,
        b.status !is Text ==> r.status@ == "received"@,
        b.detail matches Field::Text(s) ==> (r.detail matches Some(d) && d@ == s@),
        b.detail is Missing ==> (b.details matches Field::Text(s) ==> (r.detail matches Some(d)
            && d@ == s@)),
        b.detail is Missing && b.details is Missing ==> (b.extended_status matches Field::Text(s)
            ==> (r.detail matches Some(d) && d@ == s@)),
        b.detail is Missing && b.details is Missing && b.extended_status is Missing ==> r.detail
            is None,
        b.detail is Other ==> r.detail is None,
{
}

} // verus!
