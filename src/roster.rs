//! Per-game role slots and the claim / release state machine.
use vstd::prelude::*;

verus! {

/// Number of roles in one game.
pub const ROLE_COUNT: usize = 6;

/// One assignable position within a game.
#[derive(Clone, Copy, Debug, PartialEq, Eq, Structural)]
pub enum Role {
    Top,
    Jungle,
    Mid,
    Adc,
    Support,
    Fill,
}

/// Position of a role in a game's slot sequence.
pub open spec fn role_index(r: Role) -> int {
    match r {
        Role::Top => 0,
        Role::Jungle => 1,
        Role::Mid => 2,
        Role::Adc => 3,
        Role::Support => 4,
        Role::Fill => 5,
    }
}

/// The role stored at a slot position.
pub open spec fn role_at(i: int) -> Role {
    if i == 0 {
        Role::Top
    } else if i == 1 {
        Role::Jungle
    } else if i == 2 {
        Role::Mid
    } else if i == 3 {
        Role::Adc
    } else if i == 4 {
        Role::Support
    } else {
        Role::Fill
    }
}

impl Role {
    pub fn index(&self) -> (r: usize)
        ensures
            r as int == role_index(*self),
            r < ROLE_COUNT,
    {
        match self {
            Role::Top => 0,
            Role::Jungle => 1,
            Role::Mid => 2,
            Role::Adc => 3,
            Role::Support => 4,
            Role::Fill => 5,
        }
    }

    pub fn from_index(i: usize) -> (r: Role)
        requires
            i < ROLE_COUNT,
        ensures
            r == role_at(i as int),
            role_index(r) == i as int,
    {
        if i == 0 {
            Role::Top
        } else if i == 1 {
            Role::Jungle
        } else if i == 2 {
            Role::Mid
        } else if i == 3 {
            Role::Adc
        } else if i == 4 {
            Role::Support
        } else {
            Role::Fill
        }
    }
}

/// Why a claim or a release was refused.
#[derive(Clone, Copy, Debug, PartialEq, Eq, Structural)]
pub enum ClaimError {
    /// The slot is held by this other participant.
    SlotTaken(u64),
    /// The participant already holds this other role in the game.
    AlreadyInGame(Role),
    /// The participant does not hold the slot being released.
    NotHolder,
}

/// A game's slots are well formed: one per role, and nobody holds two.
pub open spec fn slots_wf(s: Seq<Option<u64>>) -> bool {
    &&& s.len() == ROLE_COUNT
    &&& forall|i: int, j: int|
        0 <= i < s.len() && 0 <= j < s.len() && i != j && #[trigger] s[i] is Some
            && #[trigger] s[j] is Some ==> s[i] != s[j]
}

/// Whether `p` holds some slot other than position `k`.
pub open spec fn holds_other(s: Seq<Option<u64>>, k: int, p: u64) -> bool {
    exists|j: int| 0 <= j < s.len() && j != k && s[j] == Some(p)
}

/// The error a claim of slot `k` by `p` meets, if any.
pub open spec fn claim_error(s: Seq<Option<u64>>, k: int, p: u64) -> Option<ClaimError> {
    match s[k] {
        Some(x) => if x != p {
            Some(ClaimError::SlotTaken(x))
        } else {
            None
        },
        None => if holds_other(s, k, p) {
            let j = choose|j: int| 0 <= j < s.len() && j != k && s[j] == Some(p);
            Some(ClaimError::AlreadyInGame(role_at(j)))
        } else {
            None
        },
    }
}

/// The slots after a claim of slot `k` by `p`.
pub open spec fn claim_next(s: Seq<Option<u64>>, k: int, p: u64) -> Seq<Option<u64>> {
    if claim_error(s, k, p) is None {
        s.update(k, Some(p))
    } else {
        s
    }
}

/// The error a release of slot `k` by `p` meets, if any.
pub open spec fn release_error(s: Seq<Option<u64>>, k: int, p: u64) -> Option<ClaimError> {
    if s[k] == Some(p) {
        None
    } else {
        Some(ClaimError::NotHolder)
    }
}

/// The slots after a release of slot `k` by `p`.
pub open spec fn release_next(s: Seq<Option<u64>>, k: int, p: u64) -> Seq<Option<u64>> {
    if release_error(s, k, p) is None {
        s.update(k, None)
    } else {
        s
    }
}

/// A snapshot of who holds each role of one game.
#[derive(Clone, Debug)]
pub struct RosterView {
    pub slots: Vec<Option<u64>>,
}

impl RosterView {
    /// Who holds the given role, if anyone.
    pub fn holder(&self, role: Role) -> (r: Option<u64>)
        requires
            self.slots@.len() == ROLE_COUNT,
        ensures
            r == self.slots@[role_index(role)],
    {
        self.slots[role.index()]
    }
}

/// The role slots of one game.
#[derive(Debug)]
pub struct GameRoster {
    slots: Vec<Option<u64>>,
}

impl GameRoster {
    pub closed spec fn slots(&self) -> Seq<Option<u64>> {
        self.slots@
    }

    pub open spec fn wf(&self) -> bool {
        slots_wf(self.slots())
    }

    /// A roster with every role unclaimed.
    pub fn new() -> (r: GameRoster)
        ensures
            r.wf(),
            r.slots() == Seq::new(ROLE_COUNT as nat, |i: int| None::<u64>),
    {
        let mut slots: Vec<Option<u64>> = Vec::new();
        let mut i: usize = 0;
        while i < ROLE_COUNT
            invariant
                i <= ROLE_COUNT,
                slots@.len() == i,
                forall|j: int| 0 <= j < i ==> slots@[j] is None,
            decreases ROLE_COUNT - i,
        {
            slots.push(None);
            i = i + 1;
        }
        let r = GameRoster { slots };
        assert(r.slots() =~= Seq::new(ROLE_COUNT as nat, |i: int| None::<u64>));
        r
    }

    /// Read-only snapshot of every slot.
    pub fn view(&self) -> (r: RosterView)
        ensures
            r.slots@ == self.slots(),
    {
        RosterView { slots: self.slots.clone() }
    }

    /// Position of a slot other than `k` that `p` holds, if any.
    fn find_other(&self, k: usize, p: u64) -> (r: Option<usize>)
        requires
            self.wf(),
            k < ROLE_COUNT,
        ensures
            r is None <==> !holds_other(self.slots(), k as int, p),
            r matches Some(j) ==> j < ROLE_COUNT && j != k && self.slots()[j as int] == Some(p),
    {
        let mut j: usize = 0;
        while j < self.slots.len()
            invariant
                self.wf(),
                k < ROLE_COUNT,
                j <= self.slots@.len(),
                forall|m: int| 0 <= m < j && m != k ==> self.slots@[m] != Some(p),
            decreases self.slots@.len() - j,
        {
            if j != k && self.slots[j] == Some(p) {
                return Some(j);
            }
            j = j + 1;
        }
        None
    }

    /// Claims `role` for participant `p`, as one atomic check-then-set.
    pub fn claim(&mut self, role: Role, p: u64) -> (r: Result<RosterView, ClaimError>)
        requires
            old(self).wf(),
        ensures
            final(self).wf(),
            final(self).slots() == claim_next(old(self).slots(), role_index(role), p),
            r is Ok <==> claim_error(old(self).slots(), role_index(role), p) is None,
            r matches Err(e) ==> claim_error(old(self).slots(), role_index(role), p) == Some(e),
            r matches Ok(v) ==> v.slots@ == final(self).slots(),
    {
        let k = role.index();
        let ghost s = self.slots@;
        match self.slots[k] {
            Some(x) => {
                if x != p {
                    return Err(ClaimError::SlotTaken(x));
                }
                Ok(self.view())
            },
            None => {
                match self.find_other(k, p) {
                    Some(j) => {
                        proof {
                            lemma_other_unique(s, k as int, p, j as int);
                        }
                        Err(ClaimError::AlreadyInGame(Role::from_index(j)))
                    },
                    None => {
                        self.slots.set(k, Some(p));
                        proof {
                            lemma_claim_keeps_wf(s, k as int, p);
                        }
                        Ok(self.view())
                    },
                }
            },
        }
    }

    /// Releases `role` held by participant `p`.
    pub fn release(&mut self, role: Role, p: u64) -> (r: Result<RosterView, ClaimError>)
        requires
            old(self).wf(),
        ensures
            final(self).wf(),
            final(self).slots() == release_next(old(self).slots(), role_index(role), p),
            r is Ok <==> release_error(old(self).slots(), role_index(role), p) is None,
            r matches Err(e) ==> release_error(old(self).slots(), role_index(role), p) == Some(e),
            r matches Ok(v) ==> v.slots@ == final(self).slots(),
    {
        let k = role.index();
        let ghost s = self.slots@;
        if self.slots[k] != Some(p) {
            return Err(ClaimError::NotHolder);
        }
        self.slots.set(k, None);
        proof {
            assert forall|i: int, j: int|
                0 <= i < self.slots@.len() && 0 <= j < self.slots@.len() && i != j
                    && #[trigger] self.slots@[i] is Some && #[trigger] self.slots@[j] is Some implies
                self.slots@[i] != self.slots@[j] by {
                assert(self.slots@[i] == s[i] && self.slots@[j] == s[j]);
            }
        }
        Ok(self.view())
    }
}

impl GameRoster {
    /// A click on a role's control: the participant releases the role if they
    /// hold it, and claims it otherwise.
    pub fn toggle(&mut self, role: Role, p: u64) -> (r: Result<RosterView, ClaimError>)
        requires
            old(self).wf(),
        ensures
            final(self).wf(),
            old(self).slots()[role_index(role)] == Some(p) ==> {
                &&& final(self).slots() == release_next(old(self).slots(), role_index(role), p)
                &&& r is Ok
            },
            old(self).slots()[role_index(role)] != Some(p) ==> {
                &&& final(self).slots() == claim_next(old(self).slots(), role_index(role), p)
                &&& (r is Ok <==> claim_error(old(self).slots(), role_index(role), p) is None)
                &&& r matches Err(e) ==> claim_error(old(self).slots(), role_index(role), p)
                    == Some(e)
            },
            r matches Ok(v) ==> v.slots@ == final(self).slots(),
    {
        if self.slots[role.index()] == Some(p) {
            self.release(role, p)
        } else {
            self.claim(role, p)
        }
    }
}

/// In well-formed slots, a participant holds at most one position.
proof fn lemma_other_unique(s: Seq<Option<u64>>, k: int, p: u64, j: int)
    requires
        slots_wf(s),
        0 <= k < s.len(),
        0 <= j < s.len(),
        j != k,
        s[j] == Some(p),
    ensures
        claim_error(s, k, p) == (if s[k] is None {
            Some(ClaimError::AlreadyInGame(role_at(j)))
        } else {
            claim_error(s, k, p)
        }),
{
    if s[k] is None {
        assert(holds_other(s, k, p));
        let c = choose|c: int| 0 <= c < s.len() && c != k && s[c] == Some(p);
        if c != j {
            assert(s[c] is Some && s[j] is Some);
        }
    }
}

proof fn lemma_claim_keeps_wf(s: Seq<Option<u64>>, k: int, p: u64)
    requires
        slots_wf(s),
        0 <= k < s.len(),
        s[k] is None,
        !holds_other(s, k, p),
    ensures
        slots_wf(s.update(k, Some(p))),
{
    let t = s.update(k, Some(p));
    assert forall|i: int, j: int|
        0 <= i < t.len() && 0 <= j < t.len() && i != j && #[trigger] t[i] is Some
            && #[trigger] t[j] is Some implies t[i] != t[j] by {
        if i == k {
            assert(s[j] != Some(p));
        } else if j == k {
            assert(s[i] != Some(p));
        } else {
            assert(s[i] is Some && s[j] is Some);
        }
    }
}

/// Claiming a slot one already holds succeeds again and changes nothing:
/// after two claims of the same slot by the same participant, it holds it alone.
pub proof fn lemma_reclaim_idempotent(s: Seq<Option<u64>>, k: int, p: u64)
    requires
        slots_wf(s),
        0 <= k < ROLE_COUNT,
        claim_error(s, k, p) is None,
    ensures
        claim_next(s, k, p)[k] == Some(p),
        claim_error(claim_next(s, k, p), k, p) is None,
        claim_next(claim_next(s, k, p), k, p) == claim_next(s, k, p),
{
}

/// Once `x` holds a slot, a claim of it by anyone else fails with
/// `SlotTaken(x)` and leaves the slot with `x`.
pub proof fn lemma_conflicting_claim(s: Seq<Option<u64>>, k: int, x: u64, y: u64)
    requires
        slots_wf(s),
        0 <= k < ROLE_COUNT,
        claim_error(s, k, x) is None,
        x != y,
    ensures
        claim_error(claim_next(s, k, x), k, y) == Some(ClaimError::SlotTaken(x)),
        claim_next(claim_next(s, k, x), k, y) == claim_next(s, k, x),
        claim_next(claim_next(s, k, x), k, y)[k] == Some(x),
{
}

/// After `x` claims one role, a claim by `x` of another, unclaimed role of the
/// same game fails with `AlreadyInGame` naming the first role.
pub proof fn lemma_cross_role_exclusive(s: Seq<Option<u64>>, k1: int, k2: int, x: u64)
    requires
        slots_wf(s),
        0 <= k1 < ROLE_COUNT,
        0 <= k2 < ROLE_COUNT,
        k1 != k2,
        s[k2] is None,
        claim_error(s, k1, x) is None,
    ensures
        claim_error(claim_next(s, k1, x), k2, x) == Some(
            ClaimError::AlreadyInGame(role_at(k1)),
        ),
{
    let t = claim_next(s, k1, x);
    if s[k1] is None {
        lemma_claim_keeps_wf(s, k1, x);
    }
    lemma_other_unique(t, k2, x, k1);
}

/// After the holder releases a slot, another participant who holds nothing in
/// the game can claim it, and the slot passes to them.
pub proof fn lemma_release_then_reclaim(s: Seq<Option<u64>>, k: int, x: u64, y: u64)
    requires
        slots_wf(s),
        0 <= k < ROLE_COUNT,
        s[k] == Some(x),
        forall|j: int| 0 <= j < ROLE_COUNT && j != k ==> s[j] != Some(y),
    ensures
        release_error(s, k, x) is None,
        claim_error(release_next(s, k, x), k, y) is None,
        claim_next(release_next(s, k, x), k, y) == s.update(k, Some(y)),
{
    let t = release_next(s, k, x);
    assert(t == s.update(k, None));
    assert(!holds_other(t, k, y));
    assert(t.update(k, Some(y)) =~= s.update(k, Some(y)));
}

/// Two claims of the same open slot by different participants, who hold
/// nothing else in the game, in either order: exactly the first succeeds and
/// the second fails with `SlotTaken` naming the first.
pub proof fn lemma_claim_race(s: Seq<Option<u64>>, k: int, x: u64, y: u64)
    requires
        slots_wf(s),
        0 <= k < ROLE_COUNT,
        s[k] is None,
        x != y,
        forall|j: int| 0 <= j < ROLE_COUNT ==> s[j] != Some(x) && s[j] != Some(y),
    ensures
        claim_error(s, k, x) is None,
        claim_error(claim_next(s, k, x), k, y) == Some(ClaimError::SlotTaken(x)),
        claim_error(s, k, y) is None,
        claim_error(claim_next(s, k, y), k, x) == Some(ClaimError::SlotTaken(y)),
{
    assert(!holds_other(s, k, x));
    assert(!holds_other(s, k, y));
}

} // verus!
