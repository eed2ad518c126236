//! Finding out whether this node is an executor.
//!
//! The node holds signing keys; the chain holds the membership set. The
//! resolver asks the chain about one held key after another, each key once,
//! and stops at the first that is a member. A question that the chain fails
//! to answer ends the resolution with that failure: it is never taken for
//! "not an executor".

use crate::identity::AuthorityId;
use crate::membership::Module;
use vstd::prelude::*;

verus! {

/// The identifiers of `s`, each kept where it first occurs.
pub open spec fn distinct(s: Seq<AuthorityId>) -> Seq<AuthorityId>
    decreases s.len(),
{
    if s.len() == 0 {
        Seq::<AuthorityId>::empty()
    } else {
        let before = distinct(s.drop_last());
        if before.contains(s.last()) {
            before
        } else {
            before.push(s.last())
        }
    }
}

/// The first identifier of `keys` that is among `members`, if any is.
pub open spec fn first_member(keys: Seq<AuthorityId>, members: Seq<AuthorityId>) -> Option<
    AuthorityId,
>
    decreases keys.len(),
{
    if keys.len() == 0 {
        None
    } else {
        match first_member(keys.drop_last(), members) {
            Some(found) => Some(found),
            None => if members.contains(keys.last()) {
                Some(keys.last())
            } else {
                None
            },
        }
    }
}

/// `distinct` keeps every identifier, and none twice.
pub proof fn lemma_distinct(s: Seq<AuthorityId>)
    ensures
        distinct(s).no_duplicates(),
        forall|x: AuthorityId| #[trigger] distinct(s).contains(x) ==> s.contains(x),
        forall|x: AuthorityId| #[trigger] s.contains(x) ==> distinct(s).contains(x),
        distinct(s).len() <= s.len(),
        s.len() > 0 ==> distinct(s).len() > 0 && distinct(s)[0] == s[0],
    decreases s.len(),
{
    if s.len() > 0 {
        let rest = s.drop_last();
        let before = distinct(rest);
        lemma_distinct(rest);
        assert forall|x: AuthorityId| #[trigger] distinct(s).contains(x) implies s.contains(
            x,
        ) by {
            let k = choose|k: int| 0 <= k < distinct(s).len() && distinct(s)[k] == x;
            if k < before.len() {
                assert(before[k] == x);
                assert(distinct(rest).contains(x));
                assert(rest.contains(x));
                let j = choose|j: int| 0 <= j < rest.len() && rest[j] == x;
                assert(s[j] == x);
            } else {
                assert(s[s.len() - 1] == x);
            }
        }
        assert forall|x: AuthorityId| #[trigger] s.contains(x) implies distinct(s).contains(
            x,
        ) by {
            let j = choose|j: int| 0 <= j < s.len() && s[j] == x;
            if j < rest.len() {
                assert(rest[j] == x);
                assert(rest.contains(x));
                assert(distinct(rest).contains(x));
                let k = choose|k: int| 0 <= k < before.len() && before[k] == x;
                assert(distinct(s)[k] == x);
            } else if before.contains(x) {
            } else {
                assert(distinct(s)[before.len() as int] == x);
            }
        }
        if rest.len() > 0 {
            assert(rest[0] == s[0]);
        } else {
            assert(before =~= Seq::<AuthorityId>::empty());
        }
    }
}

/// What `first_member` returns is the earliest key that is a member: it is
/// `None` exactly where no key is a member, and otherwise the key at an
/// index before which no key is a member.
pub proof fn lemma_first_member(keys: Seq<AuthorityId>, members: Seq<AuthorityId>)
    ensures
        first_member(keys, members) is None <==> forall|j: int|
            0 <= j < keys.len() ==> !members.contains(#[trigger] keys[j]),
        first_member(keys, members) is Some ==> exists|i: int|
            0 <= i < keys.len() && #[trigger] keys[i] == first_member(keys, members)->Some_0
                && members.contains(keys[i]) && forall|j: int|
                0 <= j < i ==> !members.contains(#[trigger] keys[j]),
    decreases keys.len(),
{
    if keys.len() > 0 {
        let rest = keys.drop_last();
        lemma_first_member(rest, members);
        assert forall|j: int| 0 <= j < rest.len() implies rest[j] == keys[j] by {}
        match first_member(rest, members) {
            Some(found) => {
                let i = choose|i: int|
                    0 <= i < rest.len() && #[trigger] rest[i] == found && members.contains(rest[i])
                        && forall|j: int| 0 <= j < i ==> !members.contains(#[trigger] rest[j]);
                assert(keys[i] == found);
                assert forall|j: int| 0 <= j < i implies !members.contains(
                    #[trigger] keys[j],
                ) by {
                    assert(rest[j] == keys[j]);
                }
            },
            None => {
                let last = keys.len() - 1;
                assert forall|j: int| 0 <= j < last implies !members.contains(
                    #[trigger] keys[j],
                ) by {
                    assert(rest[j] == keys[j]);
                }
                if members.contains(keys.last()) {
                    assert(keys[last] == keys.last());
                } else {
                    assert forall|j: int| 0 <= j < keys.len() implies !members.contains(
                        #[trigger] keys[j],
                    ) by {
                        if j < last {
                            assert(rest[j] == keys[j]);
                        }
                    }
                }
            },
        }
    }
}

/// Asking about `head` first and then about `tail` finds `head` where it is
/// a member, and otherwise what `tail` alone would find.
pub proof fn lemma_first_member_front(
    head: AuthorityId,
    tail: Seq<AuthorityId>,
    members: Seq<AuthorityId>,
)
    ensures
        first_member(seq![head] + tail, members) == if members.contains(head) {
            Some(head)
        } else {
            first_member(tail, members)
        },
    decreases tail.len(),
{
    let all = seq![head] + tail;
    if tail.len() == 0 {
        assert(all.drop_last() =~= Seq::<AuthorityId>::empty());
        assert(all.last() == head);
        assert(first_member(all.drop_last(), members) is None);
    } else {
        assert(all.drop_last() =~= seq![head] + tail.drop_last());
        assert(all.last() == tail.last());
        lemma_first_member_front(head, tail.drop_last(), members);
    }
}

/// Asking about each key once finds what asking about every key finds.
pub proof fn lemma_first_member_distinct(keys: Seq<AuthorityId>, members: Seq<AuthorityId>)
    ensures
        first_member(distinct(keys), members) == first_member(keys, members),
    decreases keys.len(),
{
    if keys.len() > 0 {
        let rest = keys.drop_last();
        let before = distinct(rest);
        lemma_first_member_distinct(rest, members);
        if before.contains(keys.last()) {
            lemma_distinct(rest);
            lemma_first_member(rest, members);
            if first_member(rest, members) is None {
                assert(distinct(rest).contains(keys.last()));
                assert(rest.contains(keys.last()));
                let j = choose|j: int| 0 <= j < rest.len() && rest[j] == keys.last();
                assert(!members.contains(rest[j]));
            }
        } else {
            let d = before.push(keys.last());
            assert(d.drop_last() =~= before);
            assert(d.last() == keys.last());
        }
    }
}

/// Whether `keys` holds `id`.
pub fn holds_key(keys: &Vec<AuthorityId>, id: &AuthorityId) -> (r: bool)
    ensures
        r == keys@.contains(*id),
{
    let mut i: usize = 0;
    while i < keys.len()
        invariant
            0 <= i <= keys@.len(),
            forall|j: int| 0 <= j < i ==> keys@[j] != *id,
        decreases keys@.len() - i,
    {
        if keys[i].same(id) {
            return true;
        }
        i += 1;
    }
    false
}

/// The held keys, each once, in the order in which they first occur.
pub fn dedup_keys(held: &Vec<AuthorityId>) -> (r: Vec<AuthorityId>)
    ensures
        r@ == distinct(held@),
{
    let mut out: Vec<AuthorityId> = Vec::new();
    let mut i: usize = 0;
    assert(held@.take(0) =~= Seq::<AuthorityId>::empty());
    while i < held.len()
        invariant
            0 <= i <= held@.len(),
            out@ == distinct(held@.take(i as int)),
        decreases held@.len() - i,
    {
        let id = held[i];
        proof {
            assert(held@.take(i + 1).drop_last() =~= held@.take(i as int));
            assert(held@.take(i + 1).last() == id);
        }
        if !holds_key(&out, &id) {
            out.push(id);
        }
        i += 1;
    }
    assert(held@.take(i as int) =~= held@);
    out
}

/// A resolution under way: one key has been asked about, others may follow.
#[derive(Clone, Debug, PartialEq, Eq)]
pub struct Resolver {
    /// The key that the chain is being asked about.
    pub asked: AuthorityId,
    /// The held keys, each once.
    pub candidates: Vec<AuthorityId>,
    /// How many of the candidates have been asked about, `asked` included.
    pub next: usize,
}

/// Where a resolution stands after a step.
#[derive(Clone, Debug, PartialEq, Eq)]
pub enum Resolution {
    /// The chain is to be asked whether `asked` of the resolver is a member.
    Query(Resolver),
    /// This held key is an executor.
    Found(AuthorityId),
    /// No held key is an executor.
    NotExecutor,
    /// The chain did not answer; the cause is carried as it was given.
    Failed(String),
}

impl Resolver {
    /// The keys that remain to be asked about once `asked` is settled.
    pub open spec fn remaining(&self) -> Seq<AuthorityId> {
        if self.next <= self.candidates@.len() {
            self.candidates@.skip(self.next as int)
        } else {
            Seq::<AuthorityId>::empty()
        }
    }

    /// The keys that are still open: `asked`, then those that remain.
    pub open spec fn open_keys(&self) -> Seq<AuthorityId> {
        seq![self.asked] + self.remaining()
    }

    /// Begins a resolution over the held keys. With no key held the node is
    /// no executor; otherwise the first key is asked about, and the other
    /// keys follow, each once.
    pub fn start(held: &Vec<AuthorityId>) -> (r: Resolution)
        ensures
            held@.len() == 0 ==> r == Resolution::NotExecutor,
            held@.len() > 0 ==> r is Query && r->Query_0.open_keys() == distinct(held@)
                && r->Query_0.asked == held@[0] && r->Query_0.candidates@ == distinct(held@)
                && r->Query_0.next == 1,
    {
        let candidates = dedup_keys(held);
        proof {
            lemma_distinct(held@);
        }
        if candidates.len() == 0 {
            Resolution::NotExecutor
        } else {
            let asked = candidates[0];
            let resolver = Resolver { asked, candidates, next: 1 };
            assert(resolver.open_keys() =~= distinct(held@));
            Resolution::Query(resolver)
        }
    }

    /// Takes the chain's answer about `asked`. A failure ends the
    /// resolution with its cause; a yes ends it with `asked`; after a no the
    /// next remaining key is asked about, or, where none remains, the node
    /// is no executor.
    pub fn answer(self, reply: Result<bool, String>) -> (r: Resolution)
        ensures
            match reply {
                Err(cause) => r == Resolution::Failed(cause),
                Ok(true) => r == Resolution::Found(self.asked),
                Ok(false) => if self.remaining().len() == 0 {
                    r == Resolution::NotExecutor
                } else {
                    r is Query && r->Query_0.asked == self.remaining()[0]
                        && r->Query_0.remaining() == self.remaining().skip(1)
                        && r->Query_0.open_keys() == self.remaining()
                        && r->Query_0.candidates == self.candidates && r->Query_0.next
                        == self.next + 1
                },
            },
    {
        match reply {
            Err(cause) => Resolution::Failed(cause),
            Ok(true) => Resolution::Found(self.asked),
            Ok(false) => {
                if self.next < self.candidates.len() {
                    let asked = self.candidates[self.next];
                    let next = Resolver {
                        asked,
                        candidates: self.candidates,
                        next: self.next + 1,
                    };
                    assert(next.remaining() =~= self.remaining().skip(1));
                    assert(next.open_keys() =~= self.remaining());
                    Resolution::Query(next)
                } else {
                    Resolution::NotExecutor
                }
            },
        }
    }
}

/// What a resolution that stands at `at` ends with once every open question
/// is answered as the membership `members` has it.
pub open spec fn outcome(at: Resolution, members: Seq<AuthorityId>) -> Option<AuthorityId> {
    match at {
        Resolution::Query(resolver) => first_member(resolver.open_keys(), members),
        Resolution::Found(id) => Some(id),
        Resolution::NotExecutor => None,
        Resolution::Failed(_) => None,
    }
}

/// An answer that is true to the membership does not change what the
/// resolution ends with, and never fails it.
pub proof fn lemma_true_answer_keeps_outcome(
    resolver: Resolver,
    after: Resolution,
    members: Seq<AuthorityId>,
)
    requires
        members.contains(resolver.asked) ==> after == Resolution::Found(resolver.asked),
        !members.contains(resolver.asked) ==> if resolver.remaining().len() == 0 {
            after == Resolution::NotExecutor
        } else {
            after is Query && after->Query_0.open_keys() == resolver.remaining()
        },
    ensures
        outcome(after, members) == outcome(Resolution::Query(resolver), members),
        !(after is Failed),
{
    lemma_first_member_front(resolver.asked, resolver.remaining(), members);
    if !members.contains(resolver.asked) && resolver.remaining().len() == 0 {
        assert(first_member(resolver.remaining(), members) is None);
    }
}

/// Which held key, if any, is an executor under the given membership: the
/// first held key that is a member.
pub fn am_i_executor(held: &Vec<AuthorityId>, members: &Module) -> (r: Option<AuthorityId>)
    requires
        members.wf(),
    ensures
        r == first_member(held@, members@),
{
    let mut at = Resolver::start(held);
    proof {
        lemma_first_member_distinct(held@, members@);
    }
    loop
        invariant
            members.wf(),
            !(at is Failed),
            outcome(at, members@) == first_member(held@, members@),
        decreases
            (if at is Query { 1 + at->Query_0.remaining().len() } else { 0 }),
    {
        match at {
            Resolution::Query(resolver) => {
                let is_executor = members.is_member(resolver.asked);
                let ghost before = resolver;
                at = resolver.answer(Ok(is_executor));
                proof {
                    lemma_true_answer_keeps_outcome(before, at, members@);
                }
            },
            Resolution::Found(id) => {
                return Some(id);
            },
            Resolution::NotExecutor => {
                return None;
            },
            Resolution::Failed(_) => {
                return None;
            },
        }
    }
}

} // verus!
