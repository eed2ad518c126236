//! The executor membership set.
//!
//! The set is kept as a sequence of identifiers in strictly increasing
//! order, never longer than [`MAX_MEMBERS`]. Because the order is strict no
//! identifier occurs twice, and a binary search finds both a member and the
//! place where a new one belongs.

use crate::identity::{
    id_lt, lemma_id_lt_irreflexive, lemma_id_lt_total, lemma_id_lt_transitive, AuthorityId,
    Placement,
};
use vstd::prelude::*;

verus! {

/// A maximum number of members. When membership reaches this number, no new
/// members may join.
pub const MAX_MEMBERS: usize = 16;

/// Why a call on the membership set was refused.
#[derive(Clone, Copy, Debug, PartialEq, Eq)]
pub enum Error {
    /// Cannot join as a member because you are already a member.
    AlreadyMember,
    /// Cannot give up membership because you are not currently a member.
    NotMember,
    /// Cannot add another member because the limit is already reached.
    MembershipLimitReached,
}

/// What a successful call on the membership set announces.
#[derive(Clone, Copy, Debug, PartialEq, Eq)]
pub enum Event {
    /// The caller is a member.
    IsAMember(AuthorityId),
    /// Added a member.
    MemberAdded(AuthorityId),
    /// Removed a member.
    MemberRemoved(AuthorityId),
}

/// Every identifier of `s` comes strictly before all that follow it.
pub open spec fn strictly_sorted(s: Seq<AuthorityId>) -> bool {
    forall|i: int, j: int| 0 <= i < j < s.len() ==> id_lt(#[trigger] s[i], #[trigger] s[j])
}

/// `x` belongs at index `i` of `s`: all before it are smaller, all from
/// there on are larger.
pub open spec fn belongs_at(s: Seq<AuthorityId>, i: int, x: AuthorityId) -> bool {
    &&& 0 <= i <= s.len()
    &&& forall|j: int| 0 <= j < i ==> id_lt(#[trigger] s[j], x)
    &&& forall|j: int| i <= j < s.len() ==> id_lt(x, #[trigger] s[j])
}

/// A strictly sorted sequence holds no identifier twice.
pub proof fn lemma_sorted_no_duplicates(s: Seq<AuthorityId>)
    requires
        strictly_sorted(s),
    ensures
        s.no_duplicates(),
{
    assert forall|i: int, j: int| 0 <= i < s.len() && 0 <= j < s.len() && i != j implies s[i]
        != s[j] by {
        lemma_id_lt_irreflexive(s[i]);
        if i < j {
            assert(id_lt(s[i], s[j]));
        } else {
            assert(id_lt(s[j], s[i]));
        }
    }
}

/// An identifier that belongs at some index of a sorted sequence is not in it.
pub proof fn lemma_belongs_at_absent(s: Seq<AuthorityId>, i: int, x: AuthorityId)
    requires
        belongs_at(s, i, x),
    ensures
        !s.contains(x),
{
    lemma_id_lt_irreflexive(x);
    if s.contains(x) {
        let j = choose|j: int| 0 <= j < s.len() && s[j] == x;
        if j < i {
            assert(id_lt(s[j], x));
        } else {
            assert(id_lt(x, s[j]));
        }
    }
}

/// Putting an identifier where it belongs keeps the order and adds just it.
pub proof fn lemma_insert_sorted(s: Seq<AuthorityId>, i: int, x: AuthorityId)
    requires
        strictly_sorted(s),
        belongs_at(s, i, x),
    ensures
        strictly_sorted(s.insert(i, x)),
        s.insert(i, x).to_set() == s.to_set().insert(x),
        s.insert(i, x).len() == s.len() + 1,
{
    let t = s.insert(i, x);
    assert forall|a: int, b: int| 0 <= a < b < t.len() implies id_lt(
        #[trigger] t[a],
        #[trigger] t[b],
    ) by {
        if b < i {
            assert(t[a] == s[a] && t[b] == s[b]);
        } else if b == i {
            assert(t[a] == s[a] && t[b] == x);
        } else if a < i {
            assert(t[a] == s[a] && t[b] == s[b - 1]);
            if a == b - 1 {
            } else {
                assert(id_lt(s[a], s[b - 1]));
            }
        } else if a == i {
            assert(t[a] == x && t[b] == s[b - 1]);
        } else {
            assert(t[a] == s[a - 1] && t[b] == s[b - 1]);
        }
    }
    assert forall|y: AuthorityId| t.to_set().contains(y) <==> s.to_set().insert(x).contains(
        y,
    ) by {
        if t.contains(y) {
            let k = choose|k: int| 0 <= k < t.len() && t[k] == y;
            if k < i {
                assert(s[k] == y);
            } else if k > i {
                assert(s[k - 1] == y);
            }
        }
        if y == x {
            assert(t[i] == x);
        } else if s.contains(y) {
            let k = choose|k: int| 0 <= k < s.len() && s[k] == y;
            if k < i {
                assert(t[k] == y);
            } else {
                assert(t[k + 1] == y);
            }
        }
    }
    assert(t.to_set() =~= s.to_set().insert(x));
}

/// Taking an identifier out keeps the order and removes just it.
pub proof fn lemma_remove_sorted(s: Seq<AuthorityId>, i: int)
    requires
        strictly_sorted(s),
        0 <= i < s.len(),
    ensures
        strictly_sorted(s.remove(i)),
        s.remove(i).to_set() == s.to_set().remove(s[i]),
        s.remove(i).len() == s.len() - 1,
        !s.remove(i).contains(s[i]),
{
    let t = s.remove(i);
    lemma_sorted_no_duplicates(s);
    assert forall|a: int, b: int| 0 <= a < b < t.len() implies id_lt(
        #[trigger] t[a],
        #[trigger] t[b],
    ) by {
        let sa = if a < i { a } else { a + 1 };
        let sb = if b < i { b } else { b + 1 };
        assert(t[a] == s[sa] && t[b] == s[sb]);
        assert(id_lt(s[sa], s[sb]));
    }
    assert forall|y: AuthorityId| t.to_set().contains(y) <==> s.to_set().remove(s[i]).contains(
        y,
    ) by {
        if t.contains(y) {
            let k = choose|k: int| 0 <= k < t.len() && t[k] == y;
            let sk = if k < i { k } else { k + 1 };
            assert(s[sk] == y);
        }
        if y != s[i] && s.contains(y) {
            let k = choose|k: int| 0 <= k < s.len() && s[k] == y;
            if k < i {
                assert(t[k] == y);
            } else {
                assert(t[k - 1] == y);
            }
        }
    }
    assert(t.to_set() =~= s.to_set().remove(s[i]));
}

/// Two strictly sorted sequences that hold the same identifiers are the same
/// sequence: the set of members fixes how the members are stored.
pub proof fn lemma_sorted_by_set(a: Seq<AuthorityId>, b: Seq<AuthorityId>)
    requires
        strictly_sorted(a),
        strictly_sorted(b),
        a.to_set() == b.to_set(),
    ensures
        a == b,
    decreases a.len(),
{
    lemma_sorted_no_duplicates(a);
    lemma_sorted_no_duplicates(b);
    a.unique_seq_to_set();
    b.unique_seq_to_set();
    if a.len() == 0 {
        assert(a =~= b);
    } else {
        let x = a.last();
        let y = b.last();
        assert(a.to_set().contains(x));
        assert(b.contains(x));
        assert(b.to_set().contains(y));
        assert(a.contains(y));
        let i = choose|i: int| 0 <= i < a.len() && a[i] == y;
        let j = choose|j: int| 0 <= j < b.len() && b[j] == x;
        lemma_id_lt_total(x, y);
        if i < a.len() - 1 {
            assert(id_lt(a[i], a[a.len() - 1]));
        }
        if j < b.len() - 1 {
            assert(id_lt(b[j], b[b.len() - 1]));
        }
        assert(x == y);
        lemma_remove_sorted(a, a.len() - 1);
        lemma_remove_sorted(b, b.len() - 1);
        assert(a.remove(a.len() - 1) =~= a.drop_last());
        assert(b.remove(b.len() - 1) =~= b.drop_last());
        lemma_sorted_by_set(a.drop_last(), b.drop_last());
        assert(a =~= a.drop_last().push(x));
        assert(b =~= b.drop_last().push(y));
    }
}

/// A strictly sorted sequence drawn from the identifiers of `all` is no
/// longer than the number of distinct identifiers in `all`.
pub proof fn lemma_sorted_len_bound(s: Seq<AuthorityId>, all: Seq<AuthorityId>)
    requires
        strictly_sorted(s),
        s.to_set().subset_of(all.to_set()),
    ensures
        s.len() <= all.to_set().len(),
{
    broadcast use vstd::seq_lib::seq_to_set_is_finite;

    lemma_sorted_no_duplicates(s);
    s.unique_seq_to_set();
    vstd::set_lib::lemma_len_subset(s.to_set(), all.to_set());
}

/// The identifiers among the first `i + 1` of `s` are those among the first
/// `i`, and `s[i]`.
pub proof fn lemma_take_next_to_set(s: Seq<AuthorityId>, i: int)
    requires
        0 <= i < s.len(),
    ensures
        s.take(i + 1).to_set() == s.take(i).to_set().insert(s[i]),
        s.take(i + 1).to_set().subset_of(s.to_set()),
{
    let a = s.take(i + 1);
    let b = s.take(i);
    assert forall|y: AuthorityId| a.to_set().contains(y) <==> b.to_set().insert(s[i]).contains(
        y,
    ) by {
        if a.contains(y) {
            let k = choose|k: int| 0 <= k < a.len() && a[k] == y;
            if k < i {
                assert(b[k] == y);
            }
        }
        if y == s[i] {
            assert(a[i] == y);
        } else if b.contains(y) {
            let k = choose|k: int| 0 <= k < b.len() && b[k] == y;
            assert(a[k] == y);
        }
    }
    assert(a.to_set() =~= b.to_set().insert(s[i]));
    assert forall|y: AuthorityId| a.to_set().contains(y) implies s.to_set().contains(y) by {
        let k = choose|k: int| 0 <= k < a.len() && a[k] == y;
        assert(s[k] == y);
    }
}

/// The membership module: owner of the set of authorized executors.
#[derive(Debug)]
pub struct Module {
    members: Vec<AuthorityId>,
}

impl View for Module {
    type V = Seq<AuthorityId>;

    /// The members, in the order in which they are stored.
    closed spec fn view(&self) -> Seq<AuthorityId> {
        self.members@
    }
}

impl Module {
    /// The set is valid: strictly sorted, hence free of duplicates, and
    /// within capacity.
    pub open spec fn wf(&self) -> bool {
        &&& strictly_sorted(self@)
        &&& self@.len() <= MAX_MEMBERS
    }

    /// The empty membership set.
    pub fn new() -> (m: Module)
        ensures
            m.wf(),
            m@ == Seq::<AuthorityId>::empty(),
    {
        Module { members: Vec::new() }
    }

    /// Number of members.
    pub fn len(&self) -> (n: usize)
        ensures
            n == self@.len(),
    {
        self.members.len()
    }

    /// Binary search for `id`: the index where it stands, or else the index
    /// where it belongs.
    pub fn search(&self, id: &AuthorityId) -> (r: Result<usize, usize>)
        requires
            strictly_sorted(self@),
        ensures
            match r {
                Ok(i) => i < self@.len() && self@[i as int] == *id,
                Err(i) => belongs_at(self@, i as int, *id),
            },
            r is Ok <==> self@.contains(*id),
    {
        let mut lo: usize = 0;
        let mut hi: usize = self.members.len();
        while lo < hi
            invariant
                0 <= lo <= hi <= self.members@.len(),
                strictly_sorted(self.members@),
                forall|j: int| 0 <= j < lo ==> id_lt(#[trigger] self.members@[j], *id),
                forall|j: int| hi <= j < self.members@.len() ==> id_lt(*id, #[trigger] self.members@[j]),
            decreases hi - lo,
        {
            let mid: usize = lo + (hi - lo) / 2;
            match self.members[mid].compare(id) {
                Placement::Same => {
                    return Ok(mid);
                },
                Placement::Before => {
                    assert forall|j: int| 0 <= j < mid + 1 implies id_lt(
                        #[trigger] self.members@[j],
                        *id,
                    ) by {
                        if j < mid {
                            assert(id_lt(self.members@[j], self.members@[mid as int]));
                            lemma_id_lt_transitive(self.members@[j], self.members@[mid as int], *id);
                        }
                    }
                    lo = mid + 1;
                },
                Placement::After => {
                    assert forall|j: int| mid <= j < self.members@.len() implies id_lt(
                        *id,
                        #[trigger] self.members@[j],
                    ) by {
                        if mid < j {
                            assert(id_lt(self.members@[mid as int], self.members@[j]));
                            lemma_id_lt_transitive(*id, self.members@[mid as int], self.members@[j]);
                        }
                    }
                    hi = mid;
                },
            }
        }
        proof {
            lemma_belongs_at_absent(self@, lo as int, *id);
        }
        Err(lo)
    }

    /// Sets the members once, from a configured list in any order, which may
    /// name an identifier more than once. An empty list changes nothing. A
    /// list that is not empty is accepted only while the set is empty, and
    /// may not name more identifiers than the set can hold.
    pub fn initialize_members(&mut self, members: &Vec<AuthorityId>)
        requires
            old(self).wf(),
            members@.len() == 0 || old(self)@.len() == 0,
            members@.to_set().len() <= MAX_MEMBERS,
        ensures
            final(self).wf(),
            members@.len() == 0 ==> final(self)@ == old(self)@,
            members@.len() > 0 ==> final(self)@.to_set() == members@.to_set(),
    {
        let mut i: usize = 0;
        while i < members.len()
            invariant
                0 <= i <= members@.len(),
                strictly_sorted(self@),
                members@.len() == 0 ==> self@ == old(self)@,
                members@.len() > 0 ==> self@.to_set() == members@.take(i as int).to_set(),
            decreases members@.len() - i,
        {
            let id = members[i];
            proof {
                lemma_take_next_to_set(members@, i as int);
            }
            match self.search(&id) {
                Ok(_) => {
                    assert(self@.to_set().insert(id) =~= self@.to_set());
                },
                Err(index) => {
                    proof {
                        lemma_insert_sorted(self@, index as int, id);
                    }
                    self.members.insert(index, id);
                },
            }
            i += 1;
        }
        proof {
            assert(members@.take(i as int) =~= members@);
            if members@.len() > 0 {
                lemma_sorted_len_bound(self@, members@);
            }
        }
    }

    /// Adds the caller to the set. Refused with `AlreadyMember` where the
    /// caller is a member, else with `MembershipLimitReached` where the set
    /// is full; a refused call changes nothing.
    pub fn add_member(&mut self, caller: AuthorityId) -> (r: Result<Event, Error>)
        requires
            old(self).wf(),
        ensures
            final(self).wf(),
            old(self)@.contains(caller) ==> r == Result::<Event, Error>::Err(Error::AlreadyMember)
                && final(self)@ == old(self)@,
            !old(self)@.contains(caller) && old(self)@.len() >= MAX_MEMBERS ==> r == Result::<
                Event,
                Error,
            >::Err(Error::MembershipLimitReached) && final(self)@ == old(self)@,
            !old(self)@.contains(caller) && old(self)@.len() < MAX_MEMBERS ==> r == Result::<
                Event,
                Error,
            >::Ok(Event::MemberAdded(caller)) && final(self)@.to_set() == old(self)@.to_set().insert(
                caller,
            ) && final(self)@.len() == old(self)@.len() + 1 && exists|i: int|
                belongs_at(old(self)@, i, caller) && final(self)@ == old(self)@.insert(i, caller),
    {
        match self.search(&caller) {
            Ok(_) => Err(Error::AlreadyMember),
            Err(index) => {
                if self.members.len() >= MAX_MEMBERS {
                    return Err(Error::MembershipLimitReached);
                }
                proof {
                    lemma_insert_sorted(self@, index as int, caller);
                }
                self.members.insert(index, caller);
                Ok(Event::MemberAdded(caller))
            },
        }
    }

    /// Removes the caller from the set. Refused with `NotMember`, and
    /// nothing changed, where the caller is no member.
    pub fn remove_member(&mut self, caller: AuthorityId) -> (r: Result<Event, Error>)
        requires
            old(self).wf(),
        ensures
            final(self).wf(),
            !old(self)@.contains(caller) ==> r == Result::<Event, Error>::Err(Error::NotMember)
                && final(self)@ == old(self)@,
            old(self)@.contains(caller) ==> r == Result::<Event, Error>::Ok(
                Event::MemberRemoved(caller),
            ) && final(self)@.to_set() == old(self)@.to_set().remove(caller) && final(self)@.len()
                == old(self)@.len() - 1 && !final(self)@.contains(caller) && exists|i: int|
                0 <= i < old(self)@.len() && old(self)@[i] == caller && final(self)@ == old(
                    self,
                )@.remove(i),
    {
        match self.search(&caller) {
            Ok(index) => {
                proof {
                    lemma_remove_sorted(self@, index as int);
                }
                self.members.remove(index);
                Ok(Event::MemberRemoved(caller))
            },
            Err(_) => Err(Error::NotMember),
        }
    }

    /// Confirms that the caller is a member, and changes nothing.
    pub fn check_membership(&self, caller: AuthorityId) -> (r: Result<Event, Error>)
        requires
            self.wf(),
        ensures
            self@.contains(caller) ==> r == Result::<Event, Error>::Ok(Event::IsAMember(caller)),
            !self@.contains(caller) ==> r == Result::<Event, Error>::Err(Error::NotMember),
    {
        match self.search(&caller) {
            Ok(_) => Ok(Event::IsAMember(caller)),
            Err(_) => Err(Error::NotMember),
        }
    }

    /// Whether `account` is a member.
    pub fn is_member(&self, account: AuthorityId) -> (r: bool)
        requires
            self.wf(),
        ensures
            r == self@.contains(account),
            r == self@.to_set().contains(account),
    {
        self.search(&account).is_ok()
    }

    /// The members as they are stored: in increasing order.
    pub fn members(&self) -> (r: Vec<AuthorityId>)
        ensures
            r@ == self@,
    {
        let mut out: Vec<AuthorityId> = Vec::new();
        let mut i: usize = 0;
        while i < self.members.len()
            invariant
                0 <= i <= self.members@.len(),
                out@ == self.members@.take(i as int),
            decreases self.members@.len() - i,
        {
            out.push(self.members[i]);
            assert(self.members@.take(i + 1) =~= self.members@.take(i as int).push(
                self.members@[i as int],
            ));
            i += 1;
        }
        assert(self.members@.take(i as int) =~= self.members@);
        out
    }

    /// A snapshot of the membership as a set: every member once.
    pub fn accounts(&self) -> (r: Vec<AuthorityId>)
        requires
            self.wf(),
        ensures
            r@.to_set() == self@.to_set(),
            r@.no_duplicates(),
            r@ == self@,
    {
        proof {
            lemma_sorted_no_duplicates(self@);
        }
        self.members()
    }
}

} // verus!
