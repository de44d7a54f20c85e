//! The token ledger: which accounts are registered, what each holds, and the
//! total supply, which is at all times the sum of what the accounts hold.

use crate::error::LedgerError;
use vstd::prelude::*;

verus! {

/// The sum of all balances of a finite map from account to balance.
pub open spec fn total(m: Map<Seq<char>, nat>) -> nat
    decreases m.dom().len(),
    when m.dom().finite()
{
    if m.dom().len() == 0 {
        0
    } else {
        let k = m.dom().choose();
        m[k] + total(m.remove(k))
    }
}

/// The sum of a map is the balance under any one key plus the sum of the rest.
pub proof fn lemma_total_remove(m: Map<Seq<char>, nat>, k: Seq<char>)
    requires
        m.dom().finite(),
        m.dom().contains(k),
    ensures
        total(m) == m[k] + total(m.remove(k)),
    decreases m.dom().len(),
{
    let c = m.dom().choose();
    if c != k {
        lemma_total_remove(m.remove(c), k);
        lemma_total_remove(m.remove(k), c);
        assert(m.remove(c).remove(k) =~= m.remove(k).remove(c));
    }
}

/// Writing a balance under a key makes the sum that balance plus the sum of
/// the other keys.
pub proof fn lemma_total_insert(m: Map<Seq<char>, nat>, k: Seq<char>, v: nat)
    requires
        m.dom().finite(),
    ensures
        total(m.insert(k, v)) == v + total(m.remove(k)),
        !m.dom().contains(k) ==> total(m.insert(k, v)) == v + total(m),
{
    lemma_total_remove(m.insert(k, v), k);
    assert(m.insert(k, v).remove(k) =~= m.remove(k));
    if !m.dom().contains(k) {
        assert(m.remove(k) =~= m);
    }
}

/// Two different accounts together never hold more than the whole supply.
pub proof fn lemma_total_bounds_pair(m: Map<Seq<char>, nat>, a: Seq<char>, b: Seq<char>)
    requires
        m.dom().finite(),
        m.dom().contains(a),
        m.dom().contains(b),
        a != b,
    ensures
        m[a] + m[b] <= total(m),
        m[a] <= total(m),
{
    lemma_total_remove(m, a);
    lemma_total_remove(m.remove(a), b);
}

/// The ledger as a mathematical value.
pub struct LedgerView {
    /// The registered accounts, each with its balance.
    pub balances: Map<Seq<char>, nat>,
    /// The total supply.
    pub supply: nat,
}

impl LedgerView {
    /// The account holds a slot in the ledger.
    pub open spec fn registered(self, id: Seq<char>) -> bool {
        self.balances.dom().contains(id)
    }

    /// What the account holds; nothing where it is not registered.
    pub open spec fn balance_of(self, id: Seq<char>) -> nat {
        if self.registered(id) {
            self.balances[id]
        } else {
            0
        }
    }

    /// The supply is the sum of what the registered accounts hold.
    pub open spec fn consistent(self) -> bool {
        &&& self.balances.dom().finite()
        &&& self.supply == total(self.balances)
    }

    /// The ledger without accounts.
    pub open spec fn empty() -> LedgerView {
        LedgerView { balances: Map::empty(), supply: 0 }
    }

    /// The account gets a slot with no tokens in it, unless it has one.
    pub open spec fn register(self, id: Seq<char>) -> LedgerView {
        if self.registered(id) {
            self
        } else {
            LedgerView { balances: self.balances.insert(id, 0), supply: self.supply }
        }
    }

    /// The account's slot is removed and what it held leaves the supply.
    pub open spec fn unregister(self, id: Seq<char>, force: bool) -> Result<
        LedgerView,
        LedgerError,
    > {
        if !self.registered(id) {
            Err(LedgerError::NotRegistered)
        } else if self.balances[id] > 0 && !force {
            Err(LedgerError::NonZeroBalance)
        } else {
            Ok(
                LedgerView {
                    balances: self.balances.remove(id),
                    supply: (self.supply - self.balances[id]) as nat,
                },
            )
        }
    }

    /// The amount moves from the sender to the receiver.
    pub open spec fn transfer(self, sender: Seq<char>, receiver: Seq<char>, amount: nat) -> Result<
        LedgerView,
        LedgerError,
    > {
        if amount == 0 {
            Err(LedgerError::MustBePositive)
        } else if sender == receiver {
            Err(LedgerError::SelfTransfer)
        } else if !self.registered(sender) {
            Err(LedgerError::NotRegistered)
        } else if self.balances[sender] < amount {
            Err(LedgerError::InsufficientBalance)
        } else if !self.registered(receiver) {
            Err(LedgerError::ReceiverNotRegistered)
        } else {
            Ok(
                LedgerView {
                    balances: self.balances.insert(
                        sender,
                        (self.balances[sender] - amount) as nat,
                    ).insert(receiver, self.balances[receiver] + amount),
                    supply: self.supply,
                },
            )
        }
    }

    /// The amount is minted into the account.
    pub open spec fn deposit(self, id: Seq<char>, amount: nat) -> Result<LedgerView, LedgerError> {
        if !self.registered(id) {
            Err(LedgerError::NotRegistered)
        } else if self.supply + amount > u128::MAX {
            Err(LedgerError::SupplyOverflow)
        } else {
            Ok(
                LedgerView {
                    balances: self.balances.insert(id, self.balances[id] + amount),
                    supply: self.supply + amount,
                },
            )
        }
    }

    /// Every entry of the list is credited in turn: its account is
    /// registered if it is not, and its amount minted into the account.
    pub open spec fn credit_all(self, entries: Seq<(Seq<char>, nat)>) -> Result<
        LedgerView,
        LedgerError,
    >
        decreases entries.len(),
    {
        if entries.len() == 0 {
            Ok(self)
        } else {
            match self.register(entries[0].0).deposit(entries[0].0, entries[0].1) {
                Ok(next) => next.credit_all(entries.drop_first()),
                Err(e) => Err(e),
            }
        }
    }

    /// The amount is burned from the account.
    pub open spec fn burn(self, id: Seq<char>, amount: nat) -> Result<LedgerView, LedgerError> {
        if !self.registered(id) {
            Err(LedgerError::NotRegistered)
        } else if self.balances[id] < amount {
            Err(LedgerError::InsufficientBalance)
        } else {
            Ok(
                LedgerView {
                    balances: self.balances.insert(id, (self.balances[id] - amount) as nat),
                    supply: (self.supply - amount) as nat,
                },
            )
        }
    }
}

/// A list of accounts and amounts as a mathematical value.
pub open spec fn entry_views(entries: Seq<(String, u128)>) -> Seq<(Seq<char>, nat)> {
    entries.map_values(|e: (String, u128)| (e.0@, e.1 as nat))
}

/// The sum of the amounts of a list.
pub open spec fn amounts_sum(entries: Seq<(Seq<char>, nat)>) -> nat
    decreases entries.len(),
{
    if entries.len() == 0 {
        0
    } else {
        entries[0].1 + amounts_sum(entries.drop_first())
    }
}

/// The sum of a map is the sum of the amounts of any list that names each
/// of its keys once, with the balance under it.
pub proof fn lemma_total_of_list(m: Map<Seq<char>, nat>, entries: Seq<(Seq<char>, nat)>)
    requires
        m.dom().finite(),
        forall|i: int, j: int|
            0 <= i < j < entries.len() ==> (#[trigger] entries[i]).0 != (#[trigger] entries[j]).0,
        forall|i: int|
            0 <= i < entries.len() ==> m.dom().contains((#[trigger] entries[i]).0)
                && m[entries[i].0] == entries[i].1,
        forall|k: Seq<char>| #[trigger]
            m.dom().contains(k) ==> exists|i: int|
                0 <= i < entries.len() && (#[trigger] entries[i]).0 == k,
    ensures
        total(m) == amounts_sum(entries),
    decreases entries.len(),
{
    if entries.len() == 0 {
        assert(m.dom() =~= Set::empty());
    } else {
        let k = entries[0].0;
        let rest = entries.drop_first();
        let fewer = m.remove(k);
        lemma_total_remove(m, k);
        assert forall|i: int| 0 <= i < rest.len() implies fewer.dom().contains(
            (#[trigger] rest[i]).0,
        ) && fewer[rest[i].0] == rest[i].1 by {
            assert(rest[i] == entries[i + 1]);
            assert(entries[0].0 != entries[i + 1].0);
        }
        assert forall|i: int, j: int| 0 <= i < j < rest.len() implies (#[trigger] rest[i]).0 != (
        #[trigger] rest[j]).0 by {
            assert(rest[i] == entries[i + 1]);
            assert(rest[j] == entries[j + 1]);
        }
        assert forall|key: Seq<char>| #[trigger] fewer.dom().contains(key) implies exists|i: int|
            0 <= i < rest.len() && (#[trigger] rest[i]).0 == key by {
            let i = choose|i: int| 0 <= i < entries.len() && (#[trigger] entries[i]).0 == key;
            assert(rest[i - 1] == entries[i]);
        }
        lemma_total_of_list(fewer, rest);
    }
}

/// Crediting a list that names each account once, none of them registered
/// before, gives each of them the amount that the list names, provided that
/// the supply does not overflow.
pub proof fn lemma_credit_all_of_list(
    start: LedgerView,
    entries: Seq<(Seq<char>, nat)>,
    target: LedgerView,
)
    requires
        target.supply == start.supply + amounts_sum(entries),
        target.supply <= u128::MAX,
        forall|i: int, j: int|
            0 <= i < j < entries.len() ==> (#[trigger] entries[i]).0 != (#[trigger] entries[j]).0,
        forall|i: int|
            0 <= i < entries.len() ==> !start.balances.dom().contains((#[trigger] entries[i]).0)
                && target.balances.dom().contains(entries[i].0) && target.balances[entries[i].0]
                == entries[i].1,
        forall|k: Seq<char>| #[trigger]
            start.balances.dom().contains(k) ==> target.balances.dom().contains(k)
                && target.balances[k] == start.balances[k],
        forall|k: Seq<char>| #[trigger]
            target.balances.dom().contains(k) ==> start.balances.dom().contains(k) || exists|
                i: int,
            | 0 <= i < entries.len() && (#[trigger] entries[i]).0 == k,
    ensures
        start.credit_all(entries) == Ok::<LedgerView, LedgerError>(target),
    decreases entries.len(),
{
    if entries.len() == 0 {
        assert(start.balances =~= target.balances);
    } else {
        let e = entries[0];
        let rest = entries.drop_first();
        let next = LedgerView {
            balances: start.balances.insert(e.0, e.1),
            supply: start.supply + e.1,
        };
        assert(start.register(e.0).deposit(e.0, e.1).unwrap().balances =~= next.balances);
        assert forall|i: int| 0 <= i < rest.len() implies !next.balances.dom().contains(
            (#[trigger] rest[i]).0,
        ) && target.balances.dom().contains(rest[i].0) && target.balances[rest[i].0]
            == rest[i].1 by {
            assert(rest[i] == entries[i + 1]);
            assert(entries[0].0 != entries[i + 1].0);
        }
        assert forall|i: int, j: int| 0 <= i < j < rest.len() implies (#[trigger] rest[i]).0 != (
        #[trigger] rest[j]).0 by {
            assert(rest[i] == entries[i + 1]);
            assert(rest[j] == entries[j + 1]);
        }
        assert(target.balances.dom().contains(entries[0].0) && target.balances[entries[0].0]
            == entries[0].1);
        assert forall|k: Seq<char>| #[trigger]
            target.balances.dom().contains(k) implies next.balances.dom().contains(k) || exists|
            i: int,
        | 0 <= i < rest.len() && (#[trigger] rest[i]).0 == k by {
            if !start.balances.dom().contains(k) && k != e.0 {
                let i = choose|i: int| 0 <= i < entries.len() && (#[trigger] entries[i]).0 == k;
                assert(rest[i - 1] == entries[i]);
            }
        }
        lemma_credit_all_of_list(next, rest, target);
    }
}

/// The registered accounts with their balances, and the total supply.
pub struct Ledger {
    ids: Vec<String>,
    amounts: Vec<u128>,
    total_supply: u128,
    balances: Ghost<Map<Seq<char>, nat>>,
}

impl View for Ledger {
    type V = LedgerView;

    closed spec fn view(&self) -> LedgerView {
        LedgerView { balances: self.balances@, supply: self.total_supply as nat }
    }
}

impl Ledger {
    /// The slots list every registered account once, with its balance.
    pub closed spec fn inv(&self) -> bool {
        let ids = self.ids@;
        let m = self.balances@;
        &&& ids.len() == self.amounts@.len()
        &&& forall|i: int|
            0 <= i < ids.len() ==> m.dom().contains((#[trigger] ids[i])@) && m[ids[i]@]
                == self.amounts@[i] as nat
        &&& forall|k: Seq<char>| #[trigger]
            m.dom().contains(k) ==> exists|i: int| 0 <= i < ids.len() && (#[trigger] ids[i])@ == k
        &&& forall|i: int, j: int|
            0 <= i < j < ids.len() ==> (#[trigger] ids[i])@ != (#[trigger] ids[j])@
    }

    /// The ledger is well formed: its slots are in order and the supply is
    /// the sum of all balances.
    pub open spec fn wf(&self) -> bool {
        &&& self.inv()
        &&& self@.consistent()
    }

    /// A ledger without accounts and without tokens.
    pub fn new() -> (ledger: Ledger)
        ensures
            ledger.wf(),
            ledger@ == LedgerView::empty(),
    {
        let ledger = Ledger {
            ids: Vec::new(),
            amounts: Vec::new(),
            total_supply: 0,
            balances: Ghost(Map::empty()),
        };
        proof {
            assert(total(Map::<Seq<char>, nat>::empty()) == 0);
        }
        ledger
    }

    /// The ledger that holds what the list credits to each account. An
    /// account that the list names twice holds the sum; a list that adds up
    /// to more than the largest supply is rejected.
    pub fn from_entries(entries: &Vec<(String, u128)>) -> (made: Result<Ledger, LedgerError>)
        ensures
            match made {
                Ok(ledger) => ledger.wf() && LedgerView::empty().credit_all(entry_views(entries@))
                    == Ok::<LedgerView, LedgerError>(ledger@),
                Err(e) => LedgerView::empty().credit_all(entry_views(entries@)) == Err::<
                    LedgerView,
                    LedgerError,
                >(e),
            },
    {
        let mut ledger = Ledger::new();
        let ghost all = entry_views(entries@);
        let mut i: usize = 0;
        proof {
            assert(all.skip(0) =~= all);
        }
        while i < entries.len()
            invariant
                i <= entries@.len(),
                all == entry_views(entries@),
                ledger.wf(),
                LedgerView::empty().credit_all(all) == ledger@.credit_all(all.skip(i as int)),
            decreases entries@.len() - i,
        {
            proof {
                assert(all.skip(i as int)[0] == all[i as int]);
                assert(all.skip(i as int).drop_first() =~= all.skip(i + 1));
            }
            ledger.register(entries[i].0.as_str());
            match ledger.deposit(entries[i].0.as_str(), entries[i].1) {
                Ok(_) => {},
                Err(e) => { return Err(e); },
            }
            i += 1;
        }
        Ok(ledger)
    }

    /// The registered accounts, each once, with what it holds.
    pub fn entries(&self) -> (list: Vec<(String, u128)>)
        requires
            self.wf(),
        ensures
            list@.len() == self@.balances.dom().len(),
            forall|i: int|
                0 <= i < list@.len() ==> self@.balances.dom().contains((#[trigger] list@[i]).0@)
                    && self@.balances[list@[i].0@] == list@[i].1 as nat,
            forall|k: Seq<char>| #[trigger]
                self@.balances.dom().contains(k) ==> exists|i: int|
                    0 <= i < list@.len() && (#[trigger] list@[i]).0@ == k,
            forall|i: int, j: int|
                0 <= i < j < list@.len() ==> (#[trigger] list@[i]).0@ != (#[trigger] list@[j]).0@,
            LedgerView::empty().credit_all(entry_views(list@)) == Ok::<LedgerView, LedgerError>(
                self@,
            ),
    {
        proof {
            self.lemma_count();
        }
        let mut list: Vec<(String, u128)> = Vec::new();
        let mut i: usize = 0;
        while i < self.ids.len()
            invariant
                self.inv(),
                i <= self.ids@.len(),
                list@.len() == i,
                forall|j: int|
                    0 <= j < i ==> (#[trigger] list@[j]).0@ == self.ids@[j]@ && list@[j].1
                        == self.amounts@[j],
            decreases self.ids@.len() - i,
        {
            list.push((self.ids[i].clone(), self.amounts[i]));
            i += 1;
        }
        proof {
            assert forall|k: Seq<char>| #[trigger] self@.balances.dom().contains(k) implies exists|
                i: int,
            | 0 <= i < list@.len() && (#[trigger] list@[i]).0@ == k by {
                let j = choose|j: int| 0 <= j < self.ids@.len() && (#[trigger] self.ids@[j])@ == k;
                assert(list@[j].0@ == k);
            }
            assert forall|i: int, j: int| 0 <= i < j < list@.len() implies (#[trigger] list@[i]).0@
                != (#[trigger] list@[j]).0@ by {
                assert(self.ids@[i]@ != self.ids@[j]@);
            }
            assert forall|i: int| 0 <= i < list@.len() implies self@.balances.dom().contains(
                (#[trigger] list@[i]).0@,
            ) && self@.balances[list@[i].0@] == list@[i].1 as nat by {
                assert(self.balances@.dom().contains(self.ids@[i]@));
            }
            let views = entry_views(list@);
            assert forall|i: int| 0 <= i < views.len() implies (#[trigger] views[i]).0
                == list@[i].0@ && views[i].1 == list@[i].1 as nat by {}
            assert forall|k: Seq<char>| #[trigger] self@.balances.dom().contains(k) implies exists|
                i: int,
            | 0 <= i < views.len() && (#[trigger] views[i]).0 == k by {
                let i = choose|i: int| 0 <= i < list@.len() && (#[trigger] list@[i]).0@ == k;
                assert(views[i].0 == k);
            }
            assert forall|i: int, j: int| 0 <= i < j < views.len() implies (#[trigger] views[i]).0
                != (#[trigger] views[j]).0 by {
                assert(list@[i].0@ != list@[j].0@);
            }
            assert forall|i: int| 0 <= i < views.len() implies self@.balances.dom().contains(
                (#[trigger] views[i]).0,
            ) && self@.balances[views[i].0] == views[i].1 by {
                assert(self@.balances.dom().contains(list@[i].0@));
            }
            lemma_total_of_list(self@.balances, views);
            lemma_credit_all_of_list(LedgerView::empty(), views, self@);
        }
        list
    }

    /// The slot of the account, if it has one.
    fn find(&self, id: &String) -> (slot: Option<usize>)
        requires
            self.inv(),
        ensures
            match slot {
                Some(i) => i < self.ids@.len() && self.ids@[i as int]@ == id@,
                None => !self@.registered(id@),
            },
            slot.is_some() == self@.registered(id@),
    {
        let mut i: usize = 0;
        while i < self.ids.len()
            invariant
                self.inv(),
                i <= self.ids@.len(),
                forall|j: int| 0 <= j < i ==> (#[trigger] self.ids@[j])@ != id@,
            decreases self.ids@.len() - i,
        {
            if self.ids[i] == *id {
                return Some(i);
            }
            i += 1;
        }
        None
    }

    /// Whether the account holds a slot.
    pub fn is_registered(&self, id: &str) -> (registered: bool)
        requires
            self.wf(),
        ensures
            registered == self@.registered(id@),
    {
        let key = id.to_owned();
        self.find(&key).is_some()
    }

    /// What the account holds; zero for an account without a slot.
    pub fn balance_of(&self, id: &str) -> (balance: u128)
        requires
            self.wf(),
        ensures
            balance == self@.balance_of(id@),
    {
        let key = id.to_owned();
        match self.find(&key) {
            Some(i) => self.amounts[i],
            None => 0,
        }
    }

    /// The total supply.
    pub fn total_supply(&self) -> (supply: u128)
        ensures
            supply == self@.supply,
    {
        self.total_supply
    }

    /// How many accounts hold a slot.
    pub fn account_count(&self) -> (count: usize)
        requires
            self.wf(),
        ensures
            count == self@.balances.dom().len(),
    {
        proof {
            self.lemma_count();
        }
        self.ids.len()
    }

    proof fn lemma_count(&self)
        requires
            self.wf(),
        ensures
            self.ids@.len() == self@.balances.dom().len(),
    {
        lemma_slots_count(self.ids@, self.balances@.dom());
    }

    /// Gives the account a slot with no tokens, unless it has one; says
    /// whether a slot was made.
    pub fn register(&mut self, id: &str) -> (created: bool)
        requires
            old(self).wf(),
        ensures
            final(self).wf(),
            created == !old(self)@.registered(id@),
            final(self)@ == old(self)@.register(id@),
    {
        let key = id.to_owned();
        if self.find(&key).is_some() {
            return false;
        }
        proof {
            lemma_total_insert(self.balances@, id@, 0);
        }
        self.ids.push(key);
        self.amounts.push(0);
        self.balances = Ghost(self.balances@.insert(id@, 0));
        proof {
            let ids = self.ids@;
            let n = old(self).ids@.len() as int;
            assert(ids[n]@ == id@);
            assert forall|k: Seq<char>| #[trigger] self.balances@.dom().contains(k) implies exists|
                i: int,
            | 0 <= i < ids.len() && (#[trigger] ids[i])@ == k by {
                if k == id@ {
                    assert(ids[n]@ == k);
                } else {
                    assert(old(self).balances@.dom().contains(k));
                    let i = choose|i: int| 0 <= i < n && (#[trigger] old(self).ids@[i])@ == k;
                    assert(ids[i]@ == k);
                }
            }
            assert forall|i: int| 0 <= i < ids.len() implies self.balances@.dom().contains(
                (#[trigger] ids[i])@,
            ) && self.balances@[ids[i]@] == self.amounts@[i] as nat by {
                if i < n {
                    assert(old(self).ids@[i] == ids[i]);
                }
            }
            assert forall|i: int, j: int| 0 <= i < j < ids.len() implies (#[trigger] ids[i])@ != (
            #[trigger] ids[j])@ by {
                assert(old(self).ids@[i] == ids[i]);
                if j < n {
                    assert(old(self).ids@[j] == ids[j]);
                }
            }
        }
        true
    }

    /// Removes the account's slot. What the account still held is burned
    /// and returned; with tokens left, removal has to be forced.
    pub fn unregister(&mut self, id: &str, force: bool) -> (burned: Result<u128, LedgerError>)
        requires
            old(self).wf(),
        ensures
            final(self).wf(),
            match burned {
                Ok(amount) => old(self)@.unregister(id@, force) == Ok::<LedgerView, LedgerError>(
                    final(self)@,
                ) && amount == old(self)@.balance_of(id@),
                Err(e) => old(self)@.unregister(id@, force) == Err::<LedgerView, LedgerError>(e)
                    && *final(self) == *old(self),
            },
    {
        let key = id.to_owned();
        let i = match self.find(&key) {
            Some(i) => i,
            None => { return Err(LedgerError::NotRegistered); },
        };
        let held: u128 = self.amounts[i];
        if held > 0 && !force {
            return Err(LedgerError::NonZeroBalance);
        }
        proof {
            lemma_total_remove(self.balances@, id@);
        }
        self.ids.remove(i);
        self.amounts.remove(i);
        self.total_supply = self.total_supply - held;
        self.balances = Ghost(self.balances@.remove(id@));
        proof {
            let ids = self.ids@;
            let before = old(self).ids@;
            assert forall|j: int| 0 <= j < ids.len() implies ids[j] == before[if j < i {
                j
            } else {
                j + 1
            }] by {}
            assert forall|k: Seq<char>| #[trigger] self.balances@.dom().contains(k) implies exists|
                j: int,
            | 0 <= j < ids.len() && (#[trigger] ids[j])@ == k by {
                let b = choose|b: int| 0 <= b < before.len() && (#[trigger] before[b])@ == k;
                if b < i {
                    assert(ids[b]@ == k);
                } else {
                    assert(ids[b - 1]@ == k);
                }
            }
            assert forall|j: int| 0 <= j < ids.len() implies self.balances@.dom().contains(
                (#[trigger] ids[j])@,
            ) && self.balances@[ids[j]@] == self.amounts@[j] as nat by {
                let b = if j < i {
                    j
                } else {
                    j + 1
                };
                assert(ids[j] == before[b]);
                assert(before[b]@ != before[i as int]@);
            }
            assert forall|a: int, b: int| 0 <= a < b < ids.len() implies (#[trigger] ids[a])@ != (
            #[trigger] ids[b])@ by {
                let a0 = if a < i {
                    a
                } else {
                    a + 1
                };
                let b0 = if b < i {
                    b
                } else {
                    b + 1
                };
                assert(ids[a] == before[a0]);
                assert(ids[b] == before[b0]);
            }
        }
        Ok(held)
    }

    /// Moves the amount from the sender to the receiver, or rejects the
    /// call and changes nothing.
    pub fn transfer(&mut self, sender: &str, receiver: &str, amount: u128) -> (done: Result<
        (),
        LedgerError,
    >)
        requires
            old(self).wf(),
        ensures
            final(self).wf(),
            match done {
                Ok(_) => old(self)@.transfer(sender@, receiver@, amount as nat) == Ok::<
                    LedgerView,
                    LedgerError,
                >(final(self)@),
                Err(e) => old(self)@.transfer(sender@, receiver@, amount as nat) == Err::<
                    LedgerView,
                    LedgerError,
                >(e) && *final(self) == *old(self),
            },
    {
        if amount == 0 {
            return Err(LedgerError::MustBePositive);
        }
        let from = sender.to_owned();
        let to = receiver.to_owned();
        if from == to {
            return Err(LedgerError::SelfTransfer);
        }
        let s = match self.find(&from) {
            Some(s) => s,
            None => { return Err(LedgerError::NotRegistered); },
        };
        let held: u128 = self.amounts[s];
        if held < amount {
            return Err(LedgerError::InsufficientBalance);
        }
        let r = match self.find(&to) {
            Some(r) => r,
            None => { return Err(LedgerError::ReceiverNotRegistered); },
        };
        let had: u128 = self.amounts[r];
        proof {
            let m = self.balances@;
            lemma_total_bounds_pair(m, sender@, receiver@);
            lemma_total_remove(m, sender@);
            let m1 = m.insert(sender@, (held - amount) as nat);
            lemma_total_insert(m, sender@, (held - amount) as nat);
            lemma_total_remove(m1, receiver@);
            lemma_total_insert(m1, receiver@, (had + amount) as nat);
        }
        self.amounts.set(s, held - amount);
        self.amounts.set(r, had + amount);
        self.balances = Ghost(
            self.balances@.insert(sender@, (held - amount) as nat).insert(
                receiver@,
                (had + amount) as nat,
            ),
        );
        proof {
            self.lemma_inv_after_writes(old(self));
        }
        Ok(())
    }

    /// Mints the amount into the account.
    pub fn deposit(&mut self, id: &str, amount: u128) -> (done: Result<(), LedgerError>)
        requires
            old(self).wf(),
        ensures
            final(self).wf(),
            match done {
                Ok(_) => old(self)@.deposit(id@, amount as nat) == Ok::<LedgerView, LedgerError>(
                    final(self)@,
                ),
                Err(e) => old(self)@.deposit(id@, amount as nat) == Err::<LedgerView, LedgerError>(
                    e,
                ) && *final(self) == *old(self),
            },
    {
        let key = id.to_owned();
        let i = match self.find(&key) {
            Some(i) => i,
            None => { return Err(LedgerError::NotRegistered); },
        };
        let supply: u128 = match self.total_supply.checked_add(amount) {
            Some(supply) => supply,
            None => { return Err(LedgerError::SupplyOverflow); },
        };
        let held: u128 = self.amounts[i];
        proof {
            lemma_total_remove(self.balances@, id@);
            lemma_total_insert(self.balances@, id@, (held + amount) as nat);
        }
        self.amounts.set(i, held + amount);
        self.total_supply = supply;
        self.balances = Ghost(self.balances@.insert(id@, (held + amount) as nat));
        proof {
            self.lemma_inv_after_writes(old(self));
        }
        Ok(())
    }

    /// Burns the amount from the account.
    pub fn burn(&mut self, id: &str, amount: u128) -> (done: Result<(), LedgerError>)
        requires
            old(self).wf(),
        ensures
            final(self).wf(),
            match done {
                Ok(_) => old(self)@.burn(id@, amount as nat) == Ok::<LedgerView, LedgerError>(
                    final(self)@,
                ),
                Err(e) => old(self)@.burn(id@, amount as nat) == Err::<LedgerView, LedgerError>(e)
                    && *final(self) == *old(self),
            },
    {
        let key = id.to_owned();
        let i = match self.find(&key) {
            Some(i) => i,
            None => { return Err(LedgerError::NotRegistered); },
        };
        let held: u128 = self.amounts[i];
        if held < amount {
            return Err(LedgerError::InsufficientBalance);
        }
        proof {
            lemma_total_remove(self.balances@, id@);
            lemma_total_insert(self.balances@, id@, (held - amount) as nat);
        }
        self.amounts.set(i, held - amount);
        self.total_supply = self.total_supply - amount;
        self.balances = Ghost(self.balances@.insert(id@, (held - amount) as nat));
        proof {
            self.lemma_inv_after_writes(old(self));
        }
        Ok(())
    }

    /// Slots stay in order when balances are rewritten in place and the map
    /// follows them.
    proof fn lemma_inv_after_writes(&self, before: &Ledger)
        requires
            before.inv(),
            self.ids == before.ids,
            self.amounts@.len() == before.amounts@.len(),
            self.balances@.dom() =~= before.balances@.dom(),
            forall|i: int|
                0 <= i < self.ids@.len() ==> self.balances@[(#[trigger] self.ids@[i])@]
                    == self.amounts@[i] as nat,
        ensures
            self.inv(),
    {
        let ids = self.ids@;
        assert forall|k: Seq<char>| #[trigger] self.balances@.dom().contains(k) implies exists|
            i: int,
        | 0 <= i < ids.len() && (#[trigger] ids[i])@ == k by {
            assert(before.balances@.dom().contains(k));
        }
    }
}

/// A list of distinct keys that covers a set has as many entries as the set
/// has elements.
proof fn lemma_slots_count(ids: Seq<String>, keys: Set<Seq<char>>)
    requires
        forall|i: int| 0 <= i < ids.len() ==> keys.contains((#[trigger] ids[i])@),
        forall|k: Seq<char>| #[trigger]
            keys.contains(k) ==> exists|i: int| 0 <= i < ids.len() && (#[trigger] ids[i])@ == k,
        forall|i: int, j: int|
            0 <= i < j < ids.len() ==> (#[trigger] ids[i])@ != (#[trigger] ids[j])@,
    ensures
        keys.finite(),
        keys.len() == ids.len(),
    decreases ids.len(),
{
    if ids.len() == 0 {
        assert(keys =~= Set::empty());
    } else {
        let last = ids.last()@;
        let rest = ids.drop_last();
        let fewer = keys.remove(last);
        assert forall|k: Seq<char>| #[trigger] fewer.contains(k) implies exists|i: int|
            0 <= i < rest.len() && (#[trigger] rest[i])@ == k by {
            let i = choose|i: int| 0 <= i < ids.len() && (#[trigger] ids[i])@ == k;
            assert(rest[i] == ids[i]);
        }
        assert forall|i: int| 0 <= i < rest.len() implies fewer.contains((#[trigger] rest[i])@) by {
            assert(rest[i] == ids[i]);
            assert(ids[i]@ != ids[ids.len() - 1]@);
        }
        assert forall|i: int, j: int| 0 <= i < j < rest.len() implies (#[trigger] rest[i])@ != (
        #[trigger] rest[j])@ by {
            assert(rest[i] == ids[i]);
            assert(rest[j] == ids[j]);
        }
        lemma_slots_count(rest, fewer);
        assert(keys.contains(ids[ids.len() - 1]@));
        assert(keys =~= fewer.insert(last));
    }
}

} // verus!
