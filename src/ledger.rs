use vstd::prelude::*;

verus! {

/// `x` brought into the range of a `u64` balance: negative values become zero
/// and values past the largest balance saturate.
pub open spec fn clamp_balance(x: int) -> u64 {
    if x < 0 {
        0
    } else if x > u64::MAX {
        u64::MAX
    } else {
        x as u64
    }
}

/// The balance of `who` in `m`, zero when absent.
pub open spec fn balance_in(m: Map<Seq<u8>, u64>, who: Seq<u8>) -> u64 {
    if m.contains_key(who) {
        m[who]
    } else {
        0
    }
}

/// `m` after `delta` is applied to the balance of `who`, clamped.
pub open spec fn apply_delta(m: Map<Seq<u8>, u64>, who: Seq<u8>, delta: int) -> Map<Seq<u8>, u64> {
    m.insert(who, clamp_balance(balance_in(m, who) + delta))
}

/// Byte-wise equality of two identities.
pub fn same_identity(a: &[u8; 32], b: &[u8; 32]) -> (r: bool)
    ensures
        r == (a@ == b@),
{
    let mut i: usize = 0;
    while i < 32
        invariant
            0 <= i <= 32,
            a@.len() == 32,
            b@.len() == 32,
            forall|j: int| 0 <= j < i ==> a@[j] == b@[j],
        decreases 32 - i,
    {
        if a[i] != b[i] {
            return false;
        }
        i = i + 1;
    }
    assert(a@ =~= b@);
    true
}

/// One participant's balance.
#[derive(Clone, Copy, Debug)]
pub struct Account {
    pub owner: [u8; 32],
    pub balance: u64,
}

/// Balances by participant identity; one account per identity.
pub struct Ledger {
    accounts: Vec<Account>,
    model: Ghost<Map<Seq<u8>, u64>>,
}

impl Ledger {
    /// The balances as a map from identity bytes to amount.
    pub closed spec fn view(&self) -> Map<Seq<u8>, u64> {
        self.model@
    }

    /// Well-formedness: one account per identity, and the model agrees with the accounts.
    pub closed spec fn wf(&self) -> bool {
        &&& forall|i: int, j: int|
            0 <= i < j < self.accounts@.len() ==> self.accounts@[i].owner@ != self.accounts@[j].owner@
        &&& forall|i: int|
            0 <= i < self.accounts@.len() ==> #[trigger] self.model@.contains_key(self.accounts@[i].owner@)
                && self.model@[self.accounts@[i].owner@] == self.accounts@[i].balance
        &&& forall|k: Seq<u8>|
            #[trigger] self.model@.contains_key(k) ==> exists|i: int|
                0 <= i < self.accounts@.len() && self.accounts@[i].owner@ == k
    }

    /// An empty ledger.
    pub fn new() -> (l: Ledger)
        ensures
            l.wf(),
            l@ == Map::<Seq<u8>, u64>::empty(),
    {
        Ledger { accounts: Vec::new(), model: Ghost(Map::empty()) }
    }

    /// Position of the account of `who`, if it has one.
    fn find(&self, who: &[u8; 32]) -> (r: Option<usize>)
        requires
            self.wf(),
        ensures
            r is None ==> !self@.contains_key(who@),
            r matches Some(i) ==> i < self.accounts@.len() && self.accounts@[i as int].owner@ == who@,
    {
        let mut i: usize = 0;
        while i < self.accounts.len()
            invariant
                0 <= i <= self.accounts@.len(),
                forall|j: int| 0 <= j < i ==> self.accounts@[j].owner@ != who@,
            decreases self.accounts@.len() - i,
        {
            if same_identity(&self.accounts[i].owner, who) {
                return Some(i);
            }
            i = i + 1;
        }
        proof {
            if self@.contains_key(who@) {
                let j = choose|j: int| 0 <= j < self.accounts@.len() && self.accounts@[j].owner@ == who@;
                assert(self.accounts@[j].owner@ == who@);
            }
        }
        None
    }

    /// The balance of `who`, zero when it has no account.
    pub fn balance_of(&self, who: &[u8; 32]) -> (r: u64)
        requires
            self.wf(),
        ensures
            r == balance_in(self@, who@),
    {
        match self.find(who) {
            Some(i) => self.accounts[i].balance,
            None => 0,
        }
    }

    /// Sets the balance of `who` to `amount`.
    pub fn set_balance(&mut self, who: [u8; 32], amount: u64)
        requires
            old(self).wf(),
        ensures
            final(self).wf(),
            final(self)@ == old(self)@.insert(who@, amount),
    {
        let ghost old_model = self.model@;
        match self.find(&who) {
            Some(i) => {
                self.accounts.set(i, Account { owner: who, balance: amount });
                self.model = Ghost(old_model.insert(who@, amount));
                proof {
                    assert forall|k: Seq<u8>| #[trigger] self.model@.contains_key(k) implies exists|j: int|
                        0 <= j < self.accounts@.len() && self.accounts@[j].owner@ == k by {
                        if k != who@ {
                            let j = choose|j: int|
                                0 <= j < old(self).accounts@.len() && old(self).accounts@[j].owner@ == k;
                            assert(self.accounts@[j].owner@ == k);
                        } else {
                            assert(self.accounts@[i as int].owner@ == k);
                        }
                    }
                }
            },
            None => {
                self.accounts.push(Account { owner: who, balance: amount });
                self.model = Ghost(old_model.insert(who@, amount));
                proof {
                    let n = old(self).accounts@.len() as int;
                    assert forall|k: Seq<u8>| #[trigger] self.model@.contains_key(k) implies exists|j: int|
                        0 <= j < self.accounts@.len() && self.accounts@[j].owner@ == k by {
                        if k != who@ {
                            let j = choose|j: int|
                                0 <= j < old(self).accounts@.len() && old(self).accounts@[j].owner@ == k;
                            assert(self.accounts@[j].owner@ == k);
                        } else {
                            assert(self.accounts@[n].owner@ == k);
                        }
                    }
                    assert forall|j: int| 0 <= j < n implies #[trigger] self.accounts@[j].owner@ != who@ by {
                        assert(old(self).model@.contains_key(old(self).accounts@[j].owner@));
                    }
                }
            },
        }
    }
}

/// `current + amount`, floored at zero and saturated at the largest balance.
pub fn clamped_add(current: u64, amount: i128) -> (r: u64)
    ensures
        r == clamp_balance(current + amount),
{
    if amount < 0 {
        if amount < -(current as i128) {
            // A balance that would go negative is floored at zero (the pot never is).
            0
        } else {
            (current as i128 + amount) as u64
        }
    } else if amount > (u64::MAX - current) as i128 {
        u64::MAX
    } else {
        current + amount as u64
    }
}

/// Adds `amount` to the balance of `sender` (zero when absent), clamping the
/// result into the range of a balance.
pub fn update_balance(balances: &mut Ledger, sender: [u8; 32], amount: i128)
    requires
        old(balances).wf(),
    ensures
        final(balances).wf(),
        final(balances)@ == apply_delta(old(balances)@, sender@, amount as int),
{
    let current = balances.balance_of(&sender);
    let stored = clamped_add(current, amount);
    balances.set_balance(sender, stored);
}

} // verus!
