use vstd::prelude::*;
use crate::gem::{GemType, GEM_KINDS, type_index, pays_resource};

verus! {

/// One of the two sides of a game.
#[derive(Clone, Copy, Debug, PartialEq, Eq, Structural)]
pub enum Participant {
    Player,
    Opponent,
}

/// The side that moves after `p`.
pub open spec fn other(p: Participant) -> Participant {
    match p {
        Participant::Player => Participant::Opponent,
        Participant::Opponent => Participant::Player,
    }
}

impl Participant {
    /// The side that moves after this one.
    pub fn other(&self) -> (r: Participant)
        ensures
            r == other(*self),
    {
        match self {
            Participant::Player => Participant::Opponent,
            Participant::Opponent => Participant::Player,
        }
    }
}

/// Balances after one unit of kind `t` is credited: the obstacle kind pays
/// nothing, and a balance that has reached the largest count stays there.
pub open spec fn credited(m: Seq<u32>, t: GemType) -> Seq<u32> {
    let i = type_index(t) as int;
    if pays_resource(t) && m[i] < u32::MAX {
        m.update(i, (m[i] + 1) as u32)
    } else {
        m
    }
}

/// Whether `n` units of kind `t` can be paid from balances `m`.
pub open spec fn can_pay(m: Seq<u32>, t: GemType, n: u32) -> bool {
    m[type_index(t) as int] >= n
}

/// Balances after paying `n` units of kind `t`; unchanged when they do not
/// suffice.
pub open spec fn paid(m: Seq<u32>, t: GemType, n: u32) -> Seq<u32> {
    let i = type_index(t) as int;
    if can_pay(m, t, n) {
        m.update(i, (m[i] - n) as u32)
    } else {
        m
    }
}

/// Balances of an empty ledger.
pub open spec fn empty_balances() -> Seq<u32> {
    Seq::new(GEM_KINDS as nat, |i: int| 0u32)
}

/// Resource counts of one participant, one per gem kind.
pub struct Ledger {
    mana: Vec<u32>,
}

impl View for Ledger {
    type V = Seq<u32>;

    closed spec fn view(&self) -> Seq<u32> {
        self.mana@
    }
}

impl Ledger {
    /// One balance per gem kind.
    pub open spec fn wf(&self) -> bool {
        self@.len() == GEM_KINDS
    }

    /// A ledger with every balance at zero.
    pub fn new() -> (r: Ledger)
        ensures
            r.wf(),
            r@ == empty_balances(),
    {
        let mut mana: Vec<u32> = Vec::new();
        let mut i: usize = 0;
        while i < GEM_KINDS
            invariant
                i <= GEM_KINDS,
                mana@ == Seq::new(i as nat, |k: int| 0u32),
            decreases GEM_KINDS - i,
        {
            mana.push(0);
            i = i + 1;
        }
        assert(mana@ =~= empty_balances());
        Ledger { mana }
    }

    /// Balance of kind `t`.
    pub fn balance(&self, t: GemType) -> (r: u32)
        requires
            self.wf(),
        ensures
            r == self@[type_index(t) as int],
    {
        self.mana[t.index()]
    }

    /// Credits one unit of kind `t`; the obstacle kind is not credited.
    pub fn credit(&mut self, t: GemType)
        requires
            old(self).wf(),
        ensures
            final(self).wf(),
            final(self)@ == credited(old(self)@, t),
    {
        if t.is_resource() {
            let i = t.index();
            let v = self.mana[i];
            if v < u32::MAX {
                self.mana.set(i, v + 1);
            }
        }
    }

    /// Pays `n` units of kind `t` if the balance suffices; otherwise fails
    /// and changes nothing.
    pub fn pay(&mut self, t: GemType, n: u32) -> (r: bool)
        requires
            old(self).wf(),
        ensures
            final(self).wf(),
            r == can_pay(old(self)@, t, n),
            final(self)@ == paid(old(self)@, t, n),
    {
        let i = t.index();
        let v = self.mana[i];
        if v >= n {
            self.mana.set(i, v - n);
            true
        } else {
            false
        }
    }

    /// Sets every balance to zero.
    pub fn clear(&mut self)
        requires
            old(self).wf(),
        ensures
            final(self).wf(),
            final(self)@ == empty_balances(),
    {
        let mut i: usize = 0;
        while i < GEM_KINDS
            invariant
                self.wf(),
                i <= GEM_KINDS,
                forall|k: int| 0 <= k < i ==> self@[k] == 0,
            decreases GEM_KINDS - i,
        {
            self.mana.set(i, 0);
            i = i + 1;
        }
        assert(self@ =~= empty_balances());
    }
}

/// Crediting the obstacle kind changes no balance; paying `n` of a kind
/// fails and changes nothing when its balance is below `n`, and otherwise
/// succeeds and lowers that balance by exactly `n`, leaving the others.
pub proof fn lemma_ledger_rules(m: Seq<u32>, t: GemType, n: u32)
    requires
        m.len() == GEM_KINDS,
    ensures
        credited(m, GemType::Skull) == m,
        m[type_index(t) as int] < n ==> !can_pay(m, t, n) && paid(m, t, n) == m,
        m[type_index(t) as int] >= n ==> can_pay(m, t, n)
            && paid(m, t, n)[type_index(t) as int] == m[type_index(t) as int] - n
            && forall|k: int| 0 <= k < m.len() && k != type_index(t) ==> paid(m, t, n)[k] == m[k],
{
}

} // verus!
