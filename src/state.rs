//! The configuration and the shares ledger: per-subject supply and
//! per-(subject, holder) balance.
use vstd::prelude::*;

use crate::decimal::{Ratio, ONE_ATOMICS};
use crate::error::ContractError;

verus! {

/// Parameters fixed when the market is created; nothing here changes them
/// afterwards.
#[derive(Debug, Clone, PartialEq, Eq)]
pub struct Config {
    /// Where protocol fees are sent.
    pub protocol_fee_destination: String,
    /// The share of each trade's price taken by the protocol.
    pub protocol_fee_percent: Ratio,
    /// The share of each trade's price paid to the subject.
    pub subject_fee_percent: Ratio,
    /// The multiplier applied to the raw curve.
    pub curve_coefficient: Ratio,
}

impl Config {
    /// The two fee rates together take at most the whole price, so that a
    /// seller's proceeds are never negative.
    pub open spec fn valid(&self) -> bool {
        self.protocol_fee_percent.atomics + self.subject_fee_percent.atomics <= ONE_ATOMICS
    }
}

struct SupplyEntry {
    subject: String,
    supply: u128,
}

struct Holding {
    subject: String,
    holder: String,
    amount: u128,
}

/// The supply recorded for `subject`, zero when there is none.
spec fn supply_in(entries: Seq<SupplyEntry>, subject: Seq<char>) -> nat
    decreases entries.len(),
{
    if entries.len() == 0 {
        0
    } else if entries.last().subject@ == subject {
        entries.last().supply as nat
    } else {
        supply_in(entries.drop_last(), subject)
    }
}

/// The balance recorded for `(subject, holder)`, zero when there is none.
spec fn balance_in(entries: Seq<Holding>, subject: Seq<char>, holder: Seq<char>) -> nat
    decreases entries.len(),
{
    if entries.len() == 0 {
        0
    } else if entries.last().subject@ == subject && entries.last().holder@ == holder {
        entries.last().amount as nat
    } else {
        balance_in(entries.drop_last(), subject, holder)
    }
}

/// The sum of all balances of `subject`'s shares.
spec fn held_in(entries: Seq<Holding>, subject: Seq<char>) -> nat
    decreases entries.len(),
{
    if entries.len() == 0 {
        0
    } else {
        let rest = held_in(entries.drop_last(), subject);
        if entries.last().subject@ == subject {
            rest + entries.last().amount as nat
        } else {
            rest
        }
    }
}

spec fn subjects_unique(entries: Seq<SupplyEntry>) -> bool {
    forall|i: int, j: int|
        0 <= i < j < entries.len() ==> #[trigger] entries[i].subject@ != #[trigger] entries[j].subject@
}

spec fn same_key(a: Holding, b: Holding) -> bool {
    a.subject@ == b.subject@ && a.holder@ == b.holder@
}

spec fn holdings_unique(entries: Seq<Holding>) -> bool {
    forall|i: int, j: int|
        0 <= i < j < entries.len() ==> !same_key(#[trigger] entries[i], #[trigger] entries[j])
}

proof fn lemma_supply_at(entries: Seq<SupplyEntry>, i: int)
    requires
        0 <= i < entries.len(),
        subjects_unique(entries),
    ensures
        supply_in(entries, entries[i].subject@) == entries[i].supply,
    decreases entries.len(),
{
    if i != entries.len() - 1 {
        assert(entries[i].subject@ != entries[entries.len() - 1].subject@);
        let rest = entries.drop_last();
        assert(rest[i] == entries[i]);
        assert forall|a: int, b: int| 0 <= a < b < rest.len() implies #[trigger] rest[a].subject@
            != #[trigger] rest[b].subject@ by {
            assert(rest[a] == entries[a] && rest[b] == entries[b]);
        }
        lemma_supply_at(rest, i);
    }
}

proof fn lemma_supply_absent(entries: Seq<SupplyEntry>, subject: Seq<char>)
    requires
        forall|i: int| 0 <= i < entries.len() ==> #[trigger] entries[i].subject@ != subject,
    ensures
        supply_in(entries, subject) == 0,
    decreases entries.len(),
{
    if entries.len() > 0 {
        let rest = entries.drop_last();
        assert forall|i: int| 0 <= i < rest.len() implies #[trigger] rest[i].subject@ != subject by {
            assert(rest[i] == entries[i]);
        }
        lemma_supply_absent(rest, subject);
    }
}

proof fn lemma_supply_update(entries: Seq<SupplyEntry>, i: int, entry: SupplyEntry, other: Seq<char>)
    requires
        0 <= i < entries.len(),
        entry.subject@ == entries[i].subject@,
        other != entry.subject@,
    ensures
        supply_in(entries.update(i, entry), other) == supply_in(entries, other),
    decreases entries.len(),
{
    let updated = entries.update(i, entry);
    if i == entries.len() - 1 {
        assert(updated.drop_last() =~= entries.drop_last());
    } else {
        assert(updated.drop_last() =~= entries.drop_last().update(i, entry));
        lemma_supply_update(entries.drop_last(), i, entry, other);
    }
}

proof fn lemma_supply_push(entries: Seq<SupplyEntry>, entry: SupplyEntry, subject: Seq<char>)
    ensures
        supply_in(entries.push(entry), subject) == if entry.subject@ == subject {
            entry.supply as nat
        } else {
            supply_in(entries, subject)
        },
{
    assert(entries.push(entry).drop_last() =~= entries);
}

proof fn lemma_balance_at(entries: Seq<Holding>, i: int)
    requires
        0 <= i < entries.len(),
        holdings_unique(entries),
    ensures
        balance_in(entries, entries[i].subject@, entries[i].holder@) == entries[i].amount,
    decreases entries.len(),
{
    if i != entries.len() - 1 {
        assert(!same_key(entries[i], entries[entries.len() - 1]));
        let rest = entries.drop_last();
        assert(rest[i] == entries[i]);
        assert forall|a: int, b: int| 0 <= a < b < rest.len() implies !same_key(
            #[trigger] rest[a],
            #[trigger] rest[b],
        ) by {
            assert(rest[a] == entries[a] && rest[b] == entries[b]);
        }
        lemma_balance_at(rest, i);
    }
}

proof fn lemma_balance_absent(entries: Seq<Holding>, subject: Seq<char>, holder: Seq<char>)
    requires
        forall|i: int|
            0 <= i < entries.len() ==> !(#[trigger] entries[i].subject@ == subject
                && entries[i].holder@ == holder),
    ensures
        balance_in(entries, subject, holder) == 0,
    decreases entries.len(),
{
    if entries.len() > 0 {
        let rest = entries.drop_last();
        assert forall|i: int| 0 <= i < rest.len() implies !(#[trigger] rest[i].subject@ == subject
            && rest[i].holder@ == holder) by {
            assert(rest[i] == entries[i]);
        }
        lemma_balance_absent(rest, subject, holder);
    }
}

proof fn lemma_balance_update(
    entries: Seq<Holding>,
    i: int,
    entry: Holding,
    subject: Seq<char>,
    holder: Seq<char>,
)
    requires
        0 <= i < entries.len(),
        same_key(entry, entries[i]),
        !(subject == entry.subject@ && holder == entry.holder@),
    ensures
        balance_in(entries.update(i, entry), subject, holder) == balance_in(entries, subject, holder),
    decreases entries.len(),
{
    let updated = entries.update(i, entry);
    if i == entries.len() - 1 {
        assert(updated.drop_last() =~= entries.drop_last());
    } else {
        assert(updated.drop_last() =~= entries.drop_last().update(i, entry));
        lemma_balance_update(entries.drop_last(), i, entry, subject, holder);
    }
}

proof fn lemma_held_update(entries: Seq<Holding>, i: int, entry: Holding, subject: Seq<char>)
    requires
        0 <= i < entries.len(),
        same_key(entry, entries[i]),
    ensures
        held_in(entries.update(i, entry), subject) + (if entry.subject@ == subject {
            entries[i].amount as int
        } else {
            0
        }) == held_in(entries, subject) + (if entry.subject@ == subject {
            entry.amount as int
        } else {
            0
        }),
    decreases entries.len(),
{
    let updated = entries.update(i, entry);
    if i == entries.len() - 1 {
        assert(updated.drop_last() =~= entries.drop_last());
    } else {
        assert(updated.drop_last() =~= entries.drop_last().update(i, entry));
        lemma_held_update(entries.drop_last(), i, entry, subject);
    }
}

proof fn lemma_holding_push(entries: Seq<Holding>, entry: Holding, subject: Seq<char>, holder: Seq<char>)
    ensures
        balance_in(entries.push(entry), subject, holder) == if entry.subject@ == subject
            && entry.holder@ == holder {
            entry.amount as nat
        } else {
            balance_in(entries, subject, holder)
        },
        held_in(entries.push(entry), subject) == held_in(entries, subject) + if entry.subject@
            == subject {
            entry.amount as nat
        } else {
            0
        },
{
    assert(entries.push(entry).drop_last() =~= entries);
}

proof fn lemma_balance_within_held(entries: Seq<Holding>, subject: Seq<char>, holder: Seq<char>)
    ensures
        balance_in(entries, subject, holder) <= held_in(entries, subject),
    decreases entries.len(),
{
    if entries.len() > 0 {
        lemma_balance_within_held(entries.drop_last(), subject, holder);
    }
}

/// The shares ledger: for each subject its total supply, and for each
/// (subject, holder) pair its balance. Absent entries read as zero.
pub struct Ledger {
    supplies: Vec<SupplyEntry>,
    holdings: Vec<Holding>,
}

/// `post` is `pre` with `subject`'s supply and `holder`'s balance of
/// `subject` set to the given values, and every other entry unchanged.
pub open spec fn ledger_set(
    pre: Ledger,
    post: Ledger,
    subject: Seq<char>,
    holder: Seq<char>,
    supply: int,
    balance: int,
) -> bool {
    &&& post.supply_of(subject) == supply
    &&& post.balance_of(subject, holder) == balance
    &&& forall|s: Seq<char>| s != subject ==> #[trigger] post.supply_of(s) == pre.supply_of(s)
    &&& forall|s: Seq<char>, h: Seq<char>|
        !(s == subject && h == holder) ==> #[trigger] post.balance_of(s, h) == pre.balance_of(s, h)
}

/// `post` is `pre` with `amount` added to `holder`'s balance of `subject` and
/// to `subject`'s supply.
pub open spec fn shares_added(
    pre: Ledger,
    post: Ledger,
    subject: Seq<char>,
    holder: Seq<char>,
    amount: nat,
) -> bool {
    ledger_set(
        pre,
        post,
        subject,
        holder,
        pre.supply_of(subject) + amount as int,
        pre.balance_of(subject, holder) + amount as int,
    )
}

/// `post` is `pre` with `amount` taken from `holder`'s balance of `subject`
/// and from `subject`'s supply.
pub open spec fn shares_removed(
    pre: Ledger,
    post: Ledger,
    subject: Seq<char>,
    holder: Seq<char>,
    amount: nat,
) -> bool {
    ledger_set(
        pre,
        post,
        subject,
        holder,
        pre.supply_of(subject) - amount,
        pre.balance_of(subject, holder) - amount,
    )
}

impl Ledger {
    /// The total supply of `subject`'s shares.
    pub closed spec fn supply_of(self, subject: Seq<char>) -> nat {
        supply_in(self.supplies@, subject)
    }

    /// How many of `subject`'s shares `holder` owns.
    pub closed spec fn balance_of(self, subject: Seq<char>, holder: Seq<char>) -> nat {
        balance_in(self.holdings@, subject, holder)
    }

    /// The sum of every holder's balance of `subject`'s shares.
    pub closed spec fn held_total(self, subject: Seq<char>) -> nat {
        held_in(self.holdings@, subject)
    }

    /// Each key is recorded once, and each subject's supply is the sum of its
    /// holders' balances.
    pub closed spec fn wf(self) -> bool {
        &&& subjects_unique(self.supplies@)
        &&& holdings_unique(self.holdings@)
        &&& forall|s: Seq<char>| #[trigger]
            supply_in(self.supplies@, s) == held_in(self.holdings@, s)
    }

    /// An empty ledger.
    pub fn new() -> (r: Ledger)
        ensures
            r.wf(),
            forall|s: Seq<char>| #[trigger] r.supply_of(s) == 0,
            forall|s: Seq<char>, h: Seq<char>| #[trigger] r.balance_of(s, h) == 0,
    {
        Ledger { supplies: Vec::new(), holdings: Vec::new() }
    }

    fn find_supply(&self, subject: &String) -> (r: Option<usize>)
        ensures
            match r {
                Some(i) => i < self.supplies@.len() && self.supplies@[i as int].subject@ == subject@,
                None => forall|j: int|
                    0 <= j < self.supplies@.len() ==> #[trigger] self.supplies@[j].subject@
                        != subject@,
            },
    {
        let mut i: usize = 0;
        while i < self.supplies.len()
            invariant
                i <= self.supplies@.len(),
                forall|j: int| 0 <= j < i ==> #[trigger] self.supplies@[j].subject@ != subject@,
            decreases self.supplies@.len() - i,
        {
            if self.supplies[i].subject == *subject {
                return Some(i);
            }
            i += 1;
        }
        None
    }

    fn find_holding(&self, subject: &String, holder: &String) -> (r: Option<usize>)
        ensures
            match r {
                Some(i) => i < self.holdings@.len() && self.holdings@[i as int].subject@ == subject@
                    && self.holdings@[i as int].holder@ == holder@,
                None => forall|j: int|
                    0 <= j < self.holdings@.len() ==> !(#[trigger] self.holdings@[j].subject@
                        == subject@ && self.holdings@[j].holder@ == holder@),
            },
    {
        let mut i: usize = 0;
        while i < self.holdings.len()
            invariant
                i <= self.holdings@.len(),
                forall|j: int|
                    0 <= j < i ==> !(#[trigger] self.holdings@[j].subject@ == subject@
                        && self.holdings@[j].holder@ == holder@),
            decreases self.holdings@.len() - i,
        {
            if self.holdings[i].subject == *subject && self.holdings[i].holder == *holder {
                return Some(i);
            }
            i += 1;
        }
        None
    }

    /// The total supply of `subject`'s shares, zero for a subject never bought.
    pub fn supply(&self, subject: &String) -> (r: u128)
        requires
            self.wf(),
        ensures
            r == self.supply_of(subject@),
    {
        match self.find_supply(subject) {
            Some(i) => {
                proof {
                    lemma_supply_at(self.supplies@, i as int);
                }
                self.supplies[i].supply
            },
            None => {
                proof {
                    lemma_supply_absent(self.supplies@, subject@);
                }
                0
            },
        }
    }

    /// How many of `subject`'s shares `holder` owns, zero when none.
    pub fn balance(&self, subject: &String, holder: &String) -> (r: u128)
        requires
            self.wf(),
        ensures
            r == self.balance_of(subject@, holder@),
    {
        match self.find_holding(subject, holder) {
            Some(i) => {
                proof {
                    lemma_balance_at(self.holdings@, i as int);
                }
                self.holdings[i].amount
            },
            None => {
                proof {
                    lemma_balance_absent(self.holdings@, subject@, holder@);
                }
                0
            },
        }
    }

    fn set_supply(&mut self, subject: &String, value: u128)
        requires
            subjects_unique(old(self).supplies@),
        ensures
            subjects_unique(final(self).supplies@),
            final(self).holdings == old(self).holdings,
            supply_in(final(self).supplies@, subject@) == value,
            forall|s: Seq<char>|
                s != subject@ ==> #[trigger] supply_in(final(self).supplies@, s) == supply_in(
                    old(self).supplies@,
                    s,
                ),
    {
        match self.find_supply(subject) {
            Some(i) => {
                self.supplies[i].supply = value;
                proof {
                    let pre = old(self).supplies@;
                    let post = self.supplies@;
                    assert(post == pre.update(i as int, post[i as int]));
                    assert forall|a: int, b: int| 0 <= a < b < post.len() implies #[trigger] post[a].subject@
                        != #[trigger] post[b].subject@ by {
                        assert(post[a].subject@ == pre[a].subject@);
                        assert(post[b].subject@ == pre[b].subject@);
                    }
                    lemma_supply_at(post, i as int);
                    assert forall|s: Seq<char>| s != subject@ implies #[trigger] supply_in(post, s)
                        == supply_in(pre, s) by {
                        lemma_supply_update(pre, i as int, post[i as int], s);
                    }
                }
            },
            None => {
                let entry = SupplyEntry { subject: subject.clone(), supply: value };
                self.supplies.push(entry);
                proof {
                    let pre = old(self).supplies@;
                    let post = self.supplies@;
                    assert(post == pre.push(entry));
                    assert forall|a: int, b: int| 0 <= a < b < post.len() implies #[trigger] post[a].subject@
                        != #[trigger] post[b].subject@ by {
                        if b < pre.len() {
                            assert(post[a] == pre[a] && post[b] == pre[b]);
                        } else {
                            assert(post[a] == pre[a]);
                        }
                    }
                    lemma_supply_push(pre, entry, subject@);
                    assert forall|s: Seq<char>| s != subject@ implies #[trigger] supply_in(post, s)
                        == supply_in(pre, s) by {
                        lemma_supply_push(pre, entry, s);
                    }
                }
            },
        }
    }

    fn set_balance(&mut self, subject: &String, holder: &String, value: u128)
        requires
            holdings_unique(old(self).holdings@),
        ensures
            holdings_unique(final(self).holdings@),
            final(self).supplies == old(self).supplies,
            balance_in(final(self).holdings@, subject@, holder@) == value,
            forall|s: Seq<char>, h: Seq<char>|
                !(s == subject@ && h == holder@) ==> #[trigger] balance_in(final(self).holdings@, s, h)
                    == balance_in(old(self).holdings@, s, h),
            forall|s: Seq<char>|
                #[trigger] held_in(final(self).holdings@, s) + (if s == subject@ {
                    balance_in(old(self).holdings@, subject@, holder@) as int
                } else {
                    0
                }) == held_in(old(self).holdings@, s) + (if s == subject@ {
                    value as int
                } else {
                    0
                }),
    {
        match self.find_holding(subject, holder) {
            Some(i) => {
                self.holdings[i].amount = value;
                proof {
                    let pre = old(self).holdings@;
                    let post = self.holdings@;
                    assert(post == pre.update(i as int, post[i as int]));
                    assert forall|a: int, b: int| 0 <= a < b < post.len() implies !same_key(
                        #[trigger] post[a],
                        #[trigger] post[b],
                    ) by {
                        assert(same_key(post[a], pre[a]));
                        assert(same_key(post[b], pre[b]));
                    }
                    lemma_balance_at(post, i as int);
                    lemma_balance_at(pre, i as int);
                    assert forall|s: Seq<char>, h: Seq<char>| !(s == subject@ && h == holder@) implies #[trigger] balance_in(post, s, h)
                        == balance_in(pre, s, h) by {
                        lemma_balance_update(pre, i as int, post[i as int], s, h);
                    }
                    assert forall|s: Seq<char>|
                        #[trigger] held_in(post, s) + (if s == subject@ {
                            balance_in(pre, subject@, holder@) as int
                        } else {
                            0
                        }) == held_in(pre, s) + (if s == subject@ {
                            value as int
                        } else {
                            0
                        }) by {
                        lemma_held_update(pre, i as int, post[i as int], s);
                    }
                }
            },
            None => {
                let entry = Holding { subject: subject.clone(), holder: holder.clone(), amount: value };
                self.holdings.push(entry);
                proof {
                    let pre = old(self).holdings@;
                    let post = self.holdings@;
                    assert(post == pre.push(entry));
                    assert forall|a: int, b: int| 0 <= a < b < post.len() implies !same_key(
                        #[trigger] post[a],
                        #[trigger] post[b],
                    ) by {
                        if b < pre.len() {
                            assert(post[a] == pre[a] && post[b] == pre[b]);
                        } else {
                            assert(post[a] == pre[a]);
                        }
                    }
                    lemma_balance_absent(pre, subject@, holder@);
                    lemma_holding_push(pre, entry, subject@, holder@);
                    assert forall|s: Seq<char>, h: Seq<char>| !(s == subject@ && h == holder@) implies #[trigger] balance_in(post, s, h)
                        == balance_in(pre, s, h) by {
                        lemma_holding_push(pre, entry, s, h);
                    }
                    assert forall|s: Seq<char>|
                        #[trigger] held_in(post, s) + (if s == subject@ {
                            balance_in(pre, subject@, holder@) as int
                        } else {
                            0
                        }) == held_in(pre, s) + (if s == subject@ {
                            value as int
                        } else {
                            0
                        }) by {
                        lemma_holding_push(pre, entry, s, holder@);
                    }
                }
            },
        }
    }
}

/// In a well-formed ledger each subject's supply is the sum of its holders'
/// balances, so no balance exceeds its subject's supply.
pub proof fn lemma_supply_is_sum_of_balances(ledger: Ledger)
    requires
        ledger.wf(),
    ensures
        forall|s: Seq<char>| #[trigger] ledger.supply_of(s) == ledger.held_total(s),
        forall|s: Seq<char>, h: Seq<char>| #[trigger]
            ledger.balance_of(s, h) <= ledger.supply_of(s),
{
    assert forall|s: Seq<char>, h: Seq<char>| #[trigger]
        ledger.balance_of(s, h) <= ledger.supply_of(s) by {
        lemma_balance_within_held(ledger.holdings@, s, h);
        assert(supply_in(ledger.supplies@, s) == held_in(ledger.holdings@, s));
    }
}

/// The supply of `subject`'s shares, zero when it has none.
pub fn load_supply(ledger: &Ledger, subject: &String) -> (r: u128)
    requires
        ledger.wf(),
    ensures
        r == ledger.supply_of(subject@),
{
    ledger.supply(subject)
}

/// Adds `amount` to `holder`'s balance of `subject` and to `subject`'s supply.
pub fn increment_shares(ledger: &mut Ledger, subject: &String, holder: &String, amount: u128)
    requires
        old(ledger).wf(),
        old(ledger).supply_of(subject@) + amount <= u128::MAX,
    ensures
        final(ledger).wf(),
        shares_added(*old(ledger), *final(ledger), subject@, holder@, amount as nat),
{
    proof {
        lemma_supply_is_sum_of_balances(*ledger);
    }
    let supply = ledger.supply(subject);
    let balance = ledger.balance(subject, holder);
    ledger.set_balance(subject, holder, balance + amount);
    ledger.set_supply(subject, supply + amount);
    proof {
        let pre = *old(ledger);
        assert forall|s: Seq<char>| #[trigger]
            supply_in(ledger.supplies@, s) == held_in(ledger.holdings@, s) by {
            assert(supply_in(pre.supplies@, s) == held_in(pre.holdings@, s));
        }
    }
}

/// Takes `amount` from `holder`'s balance of `subject` and from `subject`'s
/// supply; refuses, changing nothing, when either would become negative.
pub fn decrement_shares(
    ledger: &mut Ledger,
    subject: &String,
    holder: &String,
    amount: u128,
) -> (r: Result<(), ContractError>)
    requires
        old(ledger).wf(),
    ensures
        final(ledger).wf(),
        r is Err <==> (old(ledger).balance_of(subject@, holder@) < amount || old(ledger).supply_of(
            subject@,
        ) < amount),
        r is Err ==> r == Err::<(), ContractError>(ContractError::LedgerUnderflow {})
            && *final(ledger) == *old(ledger),
        r is Ok ==> shares_removed(*old(ledger), *final(ledger), subject@, holder@, amount as nat),
{
    let supply = ledger.supply(subject);
    let balance = ledger.balance(subject, holder);
    if balance < amount || supply < amount {
        return Err(ContractError::LedgerUnderflow {});
    }
    ledger.set_balance(subject, holder, balance - amount);
    ledger.set_supply(subject, supply - amount);
    proof {
        let pre = *old(ledger);
        assert forall|s: Seq<char>| #[trigger]
            supply_in(ledger.supplies@, s) == held_in(ledger.holdings@, s) by {
            assert(supply_in(pre.supplies@, s) == held_in(pre.holdings@, s));
        }
    }
    Ok(())
}

} // verus!
