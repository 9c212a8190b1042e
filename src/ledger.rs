use vstd::prelude::*;
use std::collections::HashMap;
use crate::types::{AccountId, Balance};

verus! {

broadcast use vstd::std_specs::hash::group_hash_axioms;

/// The free and the reserved balance of one account.
#[derive(Clone, Copy, Debug)]
pub struct AccountData {
    pub free: Balance,
    pub reserved: Balance,
}

/// Why the ledger refused to move funds.
#[derive(Clone, Copy, Debug, PartialEq, Eq, Structural)]
pub enum LedgerError {
    /// The account does not hold the amount in the balance to take it from.
    InsufficientBalance,
    /// The total issuance would exceed the largest balance.
    Overflow,
}

/// An in-memory account ledger with reservable balances.
///
/// The free and reserved balances of all accounts sum to `issuance`, which
/// fits in a `Balance`, so no move between accounts can overflow; an
/// account never written holds nothing.
pub struct Ledger {
    accounts: HashMap<AccountId, AccountData>,
    issuance: Balance,
}

/// What an account holds in the ledger model `m`.
pub open spec fn account_of(m: Map<AccountId, AccountData>, who: AccountId) -> AccountData {
    if m.contains_key(who) {
        m[who]
    } else {
        AccountData { free: 0, reserved: 0 }
    }
}

/// Free plus reserved balance of an account.
pub open spec fn total_of(m: Map<AccountId, AccountData>, who: AccountId) -> int {
    account_of(m, who).free + account_of(m, who).reserved
}

/// The sum of the totals of the accounts in `keys`.
pub open spec fn total_over(m: Map<AccountId, AccountData>, keys: Set<AccountId>) -> int
    decreases keys.len(),
    when keys.finite()
{
    if keys.len() > 0 {
        let k = keys.choose();
        total_of(m, k) + total_over(m, keys.remove(k))
    } else {
        0
    }
}

/// The sum of free and reserved balances over all accounts.
pub open spec fn issuance(m: Map<AccountId, AccountData>) -> int {
    total_over(m, m.dom())
}

/// The ledger has finitely many accounts and its total issuance fits in a
/// `Balance`.
pub open spec fn ledger_wf(m: Map<AccountId, AccountData>) -> bool {
    m.dom().finite() && issuance(m) <= u128::MAX
}

/// Any account's total is a part of the sum over a set that holds it.
pub proof fn lemma_total_over_remove(
    m: Map<AccountId, AccountData>,
    keys: Set<AccountId>,
    k: AccountId,
)
    requires
        keys.finite(),
        keys.contains(k),
    ensures
        total_over(m, keys) == total_of(m, k) + total_over(m, keys.remove(k)),
    decreases keys.len(),
{
    assert(keys.remove(k).len() + 1 == keys.len());
    let c = keys.choose();
    if c != k {
        lemma_total_over_remove(m, keys.remove(c), k);
        lemma_total_over_remove(m, keys.remove(k), c);
        assert(keys.remove(c).remove(k) =~= keys.remove(k).remove(c));
    }
}

/// A sum of totals is never negative.
pub proof fn lemma_total_over_nonneg(m: Map<AccountId, AccountData>, keys: Set<AccountId>)
    requires
        keys.finite(),
    ensures
        total_over(m, keys) >= 0,
    decreases keys.len(),
{
    if keys.len() > 0 {
        lemma_total_over_nonneg(m, keys.remove(keys.choose()));
    }
}

/// The sum over `keys` depends only on the totals of the accounts in `keys`.
pub proof fn lemma_total_over_frame(
    m1: Map<AccountId, AccountData>,
    m2: Map<AccountId, AccountData>,
    keys: Set<AccountId>,
)
    requires
        keys.finite(),
        forall|k: AccountId| keys.contains(k) ==> total_of(m1, k) == total_of(m2, k),
    ensures
        total_over(m1, keys) == total_over(m2, keys),
    decreases keys.len(),
{
    if keys.len() > 0 {
        lemma_total_over_frame(m1, m2, keys.remove(keys.choose()));
    }
}

/// Writing one account changes the issuance by the change of its total.
pub proof fn lemma_issuance_insert(m: Map<AccountId, AccountData>, who: AccountId, a: AccountData)
    requires
        m.dom().finite(),
    ensures
        m.insert(who, a).dom().finite(),
        issuance(m.insert(who, a)) == issuance(m) - total_of(m, who) + a.free + a.reserved,
{
    let m2 = m.insert(who, a);
    assert(m2.dom() =~= m.dom().insert(who));
    lemma_total_over_remove(m2, m2.dom(), who);
    assert(m2.dom().remove(who) =~= m.dom().remove(who));
    lemma_total_over_frame(m2, m, m.dom().remove(who));
    if m.dom().contains(who) {
        lemma_total_over_remove(m, m.dom(), who);
    } else {
        assert(m.dom().remove(who) =~= m.dom());
    }
}

/// In a well-formed ledger the totals of two distinct accounts together
/// fit in the issuance, and so does one account's total.
pub proof fn lemma_two_accounts(m: Map<AccountId, AccountData>, a: AccountId, b: AccountId)
    requires
        ledger_wf(m),
    ensures
        total_of(m, a) <= issuance(m),
        a != b ==> total_of(m, a) + total_of(m, b) <= issuance(m),
{
    let d = m.dom();
    if d.contains(a) {
        lemma_total_over_remove(m, d, a);
        lemma_total_over_nonneg(m, d.remove(a));
        if d.remove(a).contains(b) {
            lemma_total_over_remove(m, d.remove(a), b);
            lemma_total_over_nonneg(m, d.remove(a).remove(b));
        }
    } else {
        lemma_total_over_nonneg(m, d);
        if d.contains(b) {
            lemma_total_over_remove(m, d, b);
            lemma_total_over_nonneg(m, d.remove(b));
        }
    }
}

/// The ledger after `value` moved from the free to the reserved balance of `who`.
pub open spec fn reserved_in(
    m: Map<AccountId, AccountData>,
    who: AccountId,
    value: Balance,
) -> Map<AccountId, AccountData> {
    m.insert(
        who,
        AccountData {
            free: (account_of(m, who).free - value) as Balance,
            reserved: (account_of(m, who).reserved + value) as Balance,
        },
    )
}

/// The ledger after `value` moved from the reserved to the free balance of `who`.
pub open spec fn unreserved_in(
    m: Map<AccountId, AccountData>,
    who: AccountId,
    value: Balance,
) -> Map<AccountId, AccountData> {
    m.insert(
        who,
        AccountData {
            free: (account_of(m, who).free + value) as Balance,
            reserved: (account_of(m, who).reserved - value) as Balance,
        },
    )
}

/// The ledger after `value` moved from the reserved balance of `from`
/// to the free balance of `to`.
pub open spec fn repatriated(
    m: Map<AccountId, AccountData>,
    from: AccountId,
    to: AccountId,
    value: Balance,
) -> Map<AccountId, AccountData> {
    let f = account_of(m, from);
    let m1 = m.insert(
        from,
        AccountData { free: f.free, reserved: (f.reserved - value) as Balance },
    );
    let t = account_of(m1, to);
    m1.insert(to, AccountData { free: (t.free + value) as Balance, reserved: t.reserved })
}

/// The account ledger that placement and settlement work against: free and
/// reserved balances, with the moves between them. Every move is made in
/// full or not at all.
pub trait LedgerBackend {
    /// What each account holds; an account not in the map holds nothing.
    spec fn balances(&self) -> Map<AccountId, AccountData>;

    /// What `who` holds.
    fn account(&self, who: AccountId) -> (r: AccountData)
        ensures
            r == account_of(self.balances(), who),
    ;

    /// Whether `who` has `value` in its free balance to reserve.
    fn can_reserve(&self, who: AccountId, value: Balance) -> (r: bool)
        ensures
            r == (value <= account_of(self.balances(), who).free),
    ;

    /// Moves `value` from the free to the reserved balance of `who`.
    fn reserve(&mut self, who: AccountId, value: Balance) -> (r: Result<(), LedgerError>)
        requires
            ledger_wf(old(self).balances()),
        ensures
            ledger_wf(final(self).balances()),
            r is Ok <==> value <= account_of(old(self).balances(), who).free,
            r is Ok ==> final(self).balances() == reserved_in(old(self).balances(), who, value),
            r is Err ==> r == Err::<(), LedgerError>(LedgerError::InsufficientBalance)
                && final(self).balances() == old(self).balances(),
    ;

    /// Moves `value` from the reserved back to the free balance of `who`.
    fn unreserve(&mut self, who: AccountId, value: Balance) -> (r: Result<(), LedgerError>)
        requires
            ledger_wf(old(self).balances()),
        ensures
            ledger_wf(final(self).balances()),
            r is Ok <==> value <= account_of(old(self).balances(), who).reserved,
            r is Ok ==> final(self).balances() == unreserved_in(old(self).balances(), who, value),
            r is Err ==> r == Err::<(), LedgerError>(LedgerError::InsufficientBalance)
                && final(self).balances() == old(self).balances(),
    ;

    /// Moves `value` from the reserved balance of `from` to the free balance
    /// of `to`.
    fn repatriate_reserved(&mut self, from: AccountId, to: AccountId, value: Balance) -> (r:
        Result<(), LedgerError>)
        requires
            ledger_wf(old(self).balances()),
        ensures
            ledger_wf(final(self).balances()),
            r is Ok <==> value <= account_of(old(self).balances(), from).reserved,
            r is Ok ==> final(self).balances() == repatriated(
                old(self).balances(),
                from,
                to,
                value,
            ),
            r is Err ==> r == Err::<(), LedgerError>(LedgerError::InsufficientBalance)
                && final(self).balances() == old(self).balances(),
    ;
}

impl View for Ledger {
    type V = Map<AccountId, AccountData>;

    closed spec fn view(&self) -> Map<AccountId, AccountData> {
        self.accounts@
    }
}

impl Ledger {
    #[verifier::type_invariant]
    spec fn inv(&self) -> bool {
        &&& ledger_wf(self.accounts@)
        &&& self.issuance == issuance(self.accounts@)
    }

    /// Well-formedness: finitely many accounts, and the issuance fits in a
    /// `Balance`.
    pub open spec fn wf(&self) -> bool {
        ledger_wf(self@)
    }

    /// A ledger where no account holds anything.
    pub fn new() -> (r: Ledger)
        ensures
            r@ == Map::<AccountId, AccountData>::empty(),
            r.wf(),
    {
        let accounts: HashMap<AccountId, AccountData> = HashMap::new();
        assert(accounts@.dom() =~= Set::<AccountId>::empty());
        Ledger { accounts, issuance: 0 }
    }

    /// The sum of free and reserved balances over all accounts.
    pub fn total_issuance(&self) -> (r: Balance)
        ensures
            r == issuance(self@),
            self.wf(),
    {
        proof {
            use_type_invariant(self);
        }
        self.issuance
    }

    /// Writes what `who` holds, keeping the issuance in step.
    fn put(&mut self, who: AccountId, a: AccountData)
        requires
            issuance(old(self)@.insert(who, a)) <= u128::MAX,
        ensures
            final(self)@ == old(self)@.insert(who, a),
    {
        proof {
            use_type_invariant(&*self);
        }
        let ghost m = self@;
        let cur = self.account(who);
        proof {
            lemma_two_accounts(m, who, who);
            lemma_issuance_insert(m, who, a);
        }
        let rest = self.issuance - (cur.free + cur.reserved);
        let issuance = rest + a.free + a.reserved;
        let mut taken = Ledger::new();
        std::mem::swap(&mut taken, self);
        proof {
            use_type_invariant(&taken);
        }
        let Ledger { mut accounts, issuance: _ } = taken;
        accounts.insert(who, a);
        *self = Ledger { accounts, issuance };
    }

    /// The free balance of `who`.
    pub fn free_balance(&self, who: AccountId) -> (r: Balance)
        ensures
            r == account_of(self@, who).free,
    {
        self.account(who).free
    }

    /// The reserved balance of `who`.
    pub fn reserved_balance(&self, who: AccountId) -> (r: Balance)
        ensures
            r == account_of(self@, who).reserved,
    {
        self.account(who).reserved
    }

    /// Credits `value` to the free balance of `who`, unless the total
    /// issuance would then exceed the largest balance.
    pub fn deposit(&mut self, who: AccountId, value: Balance) -> (r: Result<(), LedgerError>)
        ensures
            final(self).wf(),
            r is Ok <==> issuance(old(self)@) + value <= u128::MAX,
            r is Ok ==> final(self)@ == old(self)@.insert(
                who,
                AccountData {
                    free: (account_of(old(self)@, who).free + value) as Balance,
                    reserved: account_of(old(self)@, who).reserved,
                },
            ),
            r is Err ==> r == Err::<(), LedgerError>(LedgerError::Overflow) && final(self)@ == old(
                self,
            )@,
    {
        proof {
            use_type_invariant(&*self);
        }
        if value > u128::MAX - self.issuance {
            return Err(LedgerError::Overflow);
        }
        let a = self.account(who);
        proof {
            lemma_two_accounts(self@, who, who);
        }
        let n = AccountData { free: a.free + value, reserved: a.reserved };
        proof {
            lemma_issuance_insert(self@, who, n);
        }
        self.put(who, n);
        proof {
            lemma_issuance_insert(old(self)@, who, n);
        }
        Ok(())
    }
}

impl LedgerBackend for Ledger {
    open spec fn balances(&self) -> Map<AccountId, AccountData> {
        self@
    }

    fn account(&self, who: AccountId) -> (r: AccountData) {
        match self.accounts.get(&who) {
            Some(a) => *a,
            None => AccountData { free: 0, reserved: 0 },
        }
    }

    fn can_reserve(&self, who: AccountId, value: Balance) -> (r: bool) {
        value <= self.free_balance(who)
    }

    fn reserve(&mut self, who: AccountId, value: Balance) -> (r: Result<(), LedgerError>) {
        let a = self.account(who);
        if value > a.free {
            return Err(LedgerError::InsufficientBalance);
        }
        proof {
            lemma_two_accounts(self@, who, who);
        }
        let n = AccountData { free: a.free - value, reserved: a.reserved + value };
        proof {
            lemma_issuance_insert(self@, who, n);
        }
        self.put(who, n);
        proof {
            lemma_issuance_insert(old(self)@, who, n);
        }
        Ok(())
    }

    fn unreserve(&mut self, who: AccountId, value: Balance) -> (r: Result<(), LedgerError>) {
        let a = self.account(who);
        if value > a.reserved {
            return Err(LedgerError::InsufficientBalance);
        }
        proof {
            lemma_two_accounts(self@, who, who);
        }
        let n = AccountData { free: a.free + value, reserved: a.reserved - value };
        proof {
            lemma_issuance_insert(self@, who, n);
        }
        self.put(who, n);
        proof {
            lemma_issuance_insert(old(self)@, who, n);
        }
        Ok(())
    }

    fn repatriate_reserved(&mut self, from: AccountId, to: AccountId, value: Balance) -> (r:
        Result<(), LedgerError>) {
        let f = self.account(from);
        if value > f.reserved {
            return Err(LedgerError::InsufficientBalance);
        }
        let ghost m0 = self@;
        proof {
            lemma_two_accounts(m0, from, to);
        }
        let nf = AccountData { free: f.free, reserved: f.reserved - value };
        proof {
            lemma_issuance_insert(m0, from, nf);
        }
        self.put(from, nf);
        let ghost m1 = self@;
        let t = self.account(to);
        assert(t.free + value <= u128::MAX);
        let nt = AccountData { free: t.free + value, reserved: t.reserved };
        proof {
            lemma_issuance_insert(m1, to, nt);
        }
        self.put(to, nt);
        Ok(())
    }
}

} // verus!
