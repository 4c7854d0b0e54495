//! The activation ledger: which address has been admitted for which
//! license, and when it first was.

use crate::date::DateTimePlus;
use crate::error::ValidationError;
use vstd::prelude::*;

verus! {

/// One admission: an address that has validated a license.
#[derive(Debug, Clone, Copy, PartialEq, Eq, Structural)]
pub struct ActivationRecord {
    /// The IPv4 address that was admitted.
    pub address: u32,
    /// The license that it was admitted for.
    pub license_id: i32,
    /// The instant of the first admission of this address for this license.
    pub activated_at: DateTimePlus,
}

/// The distinct addresses that a ledger holds for one license.
pub open spec fn addresses_of(m: Map<(u32, i32), DateTimePlus>, license_id: i32) -> Set<u32> {
    Set::new(|a: u32| m.contains_key((a, license_id)))
}

/// The admission rule on what a ledger says of an address and a license:
/// `Ok(false)` for an address that is already recorded, which counts against
/// no limit; `ReachedActivationLimit` for a new address where the license
/// already has `ip_limit` distinct addresses or more; `Ok(true)` for a new
/// address below the limit.
pub open spec fn admission_by_count(present: bool, count: int, ip_limit: int) -> Result<
    bool,
    ValidationError,
> {
    if present {
        Ok(false)
    } else if count >= ip_limit {
        Err(ValidationError::ReachedActivationLimit)
    } else {
        Ok(true)
    }
}

/// What an attempt to admit an address does, given the ledger as it stands:
/// the admission rule on whether the ledger holds the pair and on the number
/// of distinct addresses that it holds for the license.
pub open spec fn admission(
    m: Map<(u32, i32), DateTimePlus>,
    address: u32,
    license_id: i32,
    ip_limit: int,
) -> Result<bool, ValidationError> {
    admission_by_count(
        m.contains_key((address, license_id)),
        addresses_of(m, license_id).len() as int,
        ip_limit,
    )
}

/// The ledger after an attempt to admit an address: one pair more where the
/// address is newly admitted, and unchanged otherwise.
pub open spec fn after_admission(
    m: Map<(u32, i32), DateTimePlus>,
    address: u32,
    license_id: i32,
    ip_limit: int,
    now: DateTimePlus,
) -> Map<(u32, i32), DateTimePlus> {
    if admission(m, address, license_id, ip_limit) == Ok::<bool, ValidationError>(true) {
        m.insert((address, license_id), now)
    } else {
        m
    }
}

/// A ledger without the pairs of one license.
pub open spec fn without_license(m: Map<(u32, i32), DateTimePlus>, license_id: i32) -> Map<
    (u32, i32),
    DateTimePlus,
> {
    Map::new(|p: (u32, i32)| m.contains_key(p) && p.1 != license_id, |p: (u32, i32)| m[p])
}

/// The (address, license) pair of a record.
spec fn pair_of(r: ActivationRecord) -> (u32, i32) {
    (r.address, r.license_id)
}

/// The pairs of a list of records, each with the instant of the first
/// record that holds it.
spec fn rows_map(s: Seq<ActivationRecord>) -> Map<(u32, i32), DateTimePlus>
    decreases s.len(),
{
    if s.len() == 0 {
        Map::empty()
    } else {
        let rest = rows_map(s.drop_last());
        if rest.contains_key(pair_of(s.last())) {
            rest
        } else {
            rest.insert(pair_of(s.last()), s.last().activated_at)
        }
    }
}

/// Whether no two records of a list hold the same pair.
spec fn rows_distinct(s: Seq<ActivationRecord>) -> bool {
    forall|i: int, j: int|
        0 <= i < j < s.len() ==> pair_of(#[trigger] s[i]) != pair_of(#[trigger] s[j])
}

/// A pair is in the map of a list exactly if some record of the list holds
/// it, and the map is finite.
proof fn lemma_rows_map_dom(s: Seq<ActivationRecord>)
    ensures
        rows_map(s).dom().finite(),
        forall|p: (u32, i32)| #[trigger]
            rows_map(s).contains_key(p) <==> exists|i: int|
                0 <= i < s.len() && pair_of(#[trigger] s[i]) == p,
    decreases s.len(),
{
    if s.len() > 0 {
        let init = s.drop_last();
        lemma_rows_map_dom(init);
        assert forall|p: (u32, i32)| #[trigger]
            rows_map(s).contains_key(p) implies exists|i: int|
            0 <= i < s.len() && pair_of(#[trigger] s[i]) == p by {
            if rows_map(init).contains_key(p) {
                let i = choose|i: int| 0 <= i < init.len() && pair_of(#[trigger] init[i]) == p;
                assert(s[i] == init[i]);
            } else {
                assert(pair_of(s[s.len() - 1]) == p);
            }
        }
        assert forall|p: (u32, i32)|
            (exists|i: int|
                0 <= i < s.len() && pair_of(#[trigger] s[i]) == p) implies #[trigger] rows_map(
            s,
        ).contains_key(p) by {
            let i = choose|i: int| 0 <= i < s.len() && pair_of(#[trigger] s[i]) == p;
            if i < s.len() - 1 {
                assert(init[i] == s[i]);
            }
        }
    }
}

/// Where no pair occurs twice, the row at position `i` is new to the rows
/// before it, so the map of the first `i + 1` rows is that of the first `i`
/// with the row's pair added.
proof fn lemma_rows_map_step(s: Seq<ActivationRecord>, i: int)
    requires
        rows_distinct(s),
        0 <= i < s.len(),
    ensures
        rows_map(s.take(i)).dom().finite(),
        !rows_map(s.take(i)).contains_key(pair_of(s[i])),
        rows_map(s.take(i + 1)) == rows_map(s.take(i)).insert(pair_of(s[i]), s[i].activated_at),
{
    let before = s.take(i);
    let upto = s.take(i + 1);
    assert(upto.drop_last() =~= before);
    assert(upto.last() == s[i]);
    lemma_rows_map_dom(before);
    if rows_map(before).contains_key(pair_of(s[i])) {
        let j = choose|j: int|
            0 <= j < before.len() && pair_of(#[trigger] before[j]) == pair_of(s[i]);
        assert(before[j] == s[j]);
    }
}

/// Where no pair occurs twice, the map of a list gives each record's pair
/// that record's instant.
proof fn lemma_rows_map_value(s: Seq<ActivationRecord>, i: int)
    requires
        rows_distinct(s),
        0 <= i < s.len(),
    ensures
        rows_map(s).contains_key(pair_of(s[i])),
        rows_map(s)[pair_of(s[i])] == s[i].activated_at,
    decreases s.len(),
{
    let init = s.drop_last();
    lemma_rows_map_dom(init);
    if i == s.len() - 1 {
        if rows_map(init).contains_key(pair_of(s[i])) {
            let j = choose|j: int|
                0 <= j < init.len() && pair_of(#[trigger] init[j]) == pair_of(s[i]);
            assert(init[j] == s[j]);
        }
    } else {
        assert(init[i] == s[i]);
        assert forall|a: int, b: int| 0 <= a < b < init.len() implies pair_of(#[trigger] init[a])
            != pair_of(#[trigger] init[b]) by {
            assert(init[a] == s[a]);
            assert(init[b] == s[b]);
        }
        lemma_rows_map_value(init, i);
    }
}

/// The addresses of a license in a finite ledger are finitely many, and no
/// more than the ledger has pairs.
pub proof fn lemma_addresses_finite(m: Map<(u32, i32), DateTimePlus>, license_id: i32)
    requires
        m.dom().finite(),
    ensures
        addresses_of(m, license_id).finite(),
        addresses_of(m, license_id).len() <= m.dom().len(),
{
    let of_license = m.dom().filter(|p: (u32, i32)| p.1 == license_id);
    m.dom().lemma_len_filter(|p: (u32, i32)| p.1 == license_id);
    let first = |p: (u32, i32)| p.0;
    of_license.lemma_map_finite(first);
    vstd::set_lib::lemma_map_size_bound(of_license, of_license.map(first), first);
    assert forall|a: u32| addresses_of(m, license_id).contains(a) implies of_license.map(
        first,
    ).contains(a) by {
        assert(of_license.contains((a, license_id)));
        assert(first((a, license_id)) == a);
    }
    assert(addresses_of(m, license_id) =~= of_license.map(first));
}

/// Adding a pair of a license adds the pair's address to the addresses of
/// that license and leaves those of every other license as they were.
pub proof fn lemma_addresses_insert(
    m: Map<(u32, i32), DateTimePlus>,
    address: u32,
    license_id: i32,
    now: DateTimePlus,
    other: i32,
)
    ensures
        addresses_of(m.insert((address, license_id), now), license_id) == addresses_of(
            m,
            license_id,
        ).insert(address),
        other != license_id ==> addresses_of(m.insert((address, license_id), now), other)
            == addresses_of(m, other),
{
    let grown = m.insert((address, license_id), now);
    assert(addresses_of(grown, license_id) =~= addresses_of(m, license_id).insert(address));
    if other != license_id {
        assert(addresses_of(grown, other) =~= addresses_of(m, other));
    }
}

/// Decides on an admission from what the ledger has answered: whether it
/// holds the address for the license, and how many distinct addresses it
/// holds for the license.
pub fn decide_admission(present: bool, count: u64, ip_limit: i32) -> (r: Result<
    bool,
    ValidationError,
>)
    ensures
        r == admission_by_count(present, count as int, ip_limit as int),
{
    if present {
        Ok(false)
    } else if ip_limit <= 0 || count >= ip_limit as u64 {
        Err(ValidationError::ReachedActivationLimit)
    } else {
        Ok(true)
    }
}

/// The activation ledger. No pair of address and license occurs twice.
pub struct Ledger {
    records: Vec<ActivationRecord>,
}

impl View for Ledger {
    type V = Map<(u32, i32), DateTimePlus>;

    /// The admitted pairs, each with the instant of its first admission.
    closed spec fn view(&self) -> Map<(u32, i32), DateTimePlus> {
        rows_map(self.records@)
    }
}

impl Ledger {
    /// Whether the ledger is valid: no pair is recorded twice.
    pub closed spec fn wf(&self) -> bool {
        rows_distinct(self.records@)
    }

    /// A valid ledger holds finitely many pairs, and finitely many addresses
    /// for each license.
    pub proof fn lemma_finite(&self, license_id: i32)
        ensures
            self@.dom().finite(),
            addresses_of(self@, license_id).finite(),
    {
        lemma_rows_map_dom(self.records@);
        lemma_addresses_finite(self@, license_id);
    }

    /// An empty ledger.
    pub fn new() -> (l: Ledger)
        ensures
            l.wf(),
            l@ == Map::<(u32, i32), DateTimePlus>::empty(),
    {
        Ledger { records: Vec::new() }
    }

    /// Whether the address has been admitted for the license.
    pub fn contains(&self, address: u32, license_id: i32) -> (b: bool)
        ensures
            b == self@.contains_key((address, license_id)),
    {
        proof {
            lemma_rows_map_dom(self.records@);
        }
        let mut i: usize = 0;
        while i < self.records.len()
            invariant
                i <= self.records@.len(),
                forall|j: int|
                    0 <= j < i ==> pair_of(#[trigger] self.records@[j]) != (address, license_id),
            decreases self.records@.len() - i,
        {
            if self.records[i].address == address && self.records[i].license_id == license_id {
                proof {
                    lemma_rows_map_dom(self.records@);
                    assert(pair_of(self.records@[i as int]) == (address, license_id));
                }
                return true;
            }
            i += 1;
        }
        false
    }

    /// The instant at which the address was first admitted for the license,
    /// if it ever was.
    pub fn activated_at(&self, address: u32, license_id: i32) -> (t: Option<DateTimePlus>)
        requires
            self.wf(),
        ensures
            t == if self@.contains_key((address, license_id)) {
                Some(self@[(address, license_id)])
            } else {
                None
            },
    {
        proof {
            lemma_rows_map_dom(self.records@);
        }
        let mut i: usize = 0;
        while i < self.records.len()
            invariant
                i <= self.records@.len(),
                self.wf(),
                forall|j: int|
                    0 <= j < i ==> pair_of(#[trigger] self.records@[j]) != (address, license_id),
            decreases self.records@.len() - i,
        {
            if self.records[i].address == address && self.records[i].license_id == license_id {
                proof {
                    lemma_rows_map_value(self.records@, i as int);
                }
                return Some(self.records[i].activated_at);
            }
            i += 1;
        }
        None
    }

    /// The number of distinct addresses that have been admitted for the
    /// license.
    pub fn count(&self, license_id: i32) -> (n: usize)
        requires
            self.wf(),
        ensures
            addresses_of(self@, license_id).finite(),
            n == addresses_of(self@, license_id).len(),
    {
        let mut n: usize = 0;
        let mut i: usize = 0;
        proof {
            assert(self.records@.take(0) =~= Seq::<ActivationRecord>::empty());
            assert(addresses_of(rows_map(self.records@.take(0)), license_id) =~= Set::<
                u32,
            >::empty());
        }
        while i < self.records.len()
            invariant
                i <= self.records@.len(),
                n <= i,
                rows_distinct(self.records@),
                addresses_of(rows_map(self.records@.take(i as int)), license_id).finite(),
                n == addresses_of(rows_map(self.records@.take(i as int)), license_id).len(),
            decreases self.records@.len() - i,
        {
            proof {
                let before = self.records@.take(i as int);
                let upto = self.records@.take(i + 1);
                let r = self.records@[i as int];
                lemma_rows_map_step(self.records@, i as int);
                let old_set = addresses_of(rows_map(before), license_id);
                let new_set = addresses_of(rows_map(upto), license_id);
                if r.license_id == license_id {
                    assert(new_set =~= old_set.insert(r.address));
                    assert(!old_set.contains(r.address));
                } else {
                    assert(new_set =~= old_set);
                }
            }
            if self.records[i].license_id == license_id {
                n += 1;
            }
            i += 1;
        }
        proof {
            assert(self.records@.take(i as int) =~= self.records@);
        }
        n
    }

    /// Records the pair if the ledger does not hold it yet, and says whether
    /// it did so. A pair that is already there stays as it is, with the
    /// instant of its first admission.
    pub fn record(&mut self, address: u32, license_id: i32, now: DateTimePlus) -> (inserted: bool)
        requires
            old(self).wf(),
        ensures
            final(self).wf(),
            inserted == !old(self)@.contains_key((address, license_id)),
            final(self)@ == if inserted {
                old(self)@.insert((address, license_id), now)
            } else {
                old(self)@
            },
    {
        if self.contains(address, license_id) {
            return false;
        }
        let r = ActivationRecord { address, license_id, activated_at: now };
        proof {
            lemma_rows_map_dom(self.records@);
            let grown = self.records@.push(r);
            assert(grown.drop_last() =~= self.records@);
            assert(grown.last() == r);
            assert forall|i: int, j: int| 0 <= i < j < grown.len() implies pair_of(
                #[trigger] grown[i],
            ) != pair_of(#[trigger] grown[j]) by {
                if j == grown.len() - 1 {
                    assert(grown[i] == self.records@[i]);
                } else {
                    assert(grown[i] == self.records@[i]);
                    assert(grown[j] == self.records@[j]);
                }
            }
        }
        self.records.push(r);
        true
    }

    /// Removes every pair of a license, as the revocation of the license
    /// asks for, and leaves the pairs of all other licenses as they are.
    pub fn forget(&mut self, license_id: i32)
        requires
            old(self).wf(),
        ensures
            final(self).wf(),
            final(self)@ == without_license(old(self)@, license_id),
    {
        let mut kept: Vec<ActivationRecord> = Vec::new();
        let mut i: usize = 0;
        proof {
            assert(self.records@.take(0) =~= Seq::<ActivationRecord>::empty());
            assert(rows_map(kept@) =~= without_license(
                rows_map(self.records@.take(0)),
                license_id,
            ));
        }
        while i < self.records.len()
            invariant
                i <= self.records@.len(),
                rows_distinct(self.records@),
                rows_distinct(kept@),
                rows_map(kept@) == without_license(
                    rows_map(self.records@.take(i as int)),
                    license_id,
                ),
            decreases self.records@.len() - i,
        {
            let r = self.records[i];
            proof {
                let upto = self.records@.take(i + 1);
                lemma_rows_map_step(self.records@, i as int);
                lemma_rows_map_dom(kept@);
                if r.license_id != license_id {
                    let grown = kept@.push(r);
                    assert(grown.drop_last() =~= kept@);
                    assert(grown.last() == r);
                    assert(!rows_map(kept@).contains_key(pair_of(r)));
                    assert forall|a: int, b: int| 0 <= a < b < grown.len() implies pair_of(
                        #[trigger] grown[a],
                    ) != pair_of(#[trigger] grown[b]) by {
                        assert(grown[a] == kept@[a]);
                        if b < kept@.len() {
                            assert(grown[b] == kept@[b]);
                        } else {
                            assert(rows_map(kept@).contains_key(pair_of(kept@[a])));
                        }
                    }
                    assert(rows_map(grown) =~= without_license(rows_map(upto), license_id));
                } else {
                    assert(rows_map(kept@) =~= without_license(rows_map(upto), license_id));
                }
            }
            if r.license_id != license_id {
                kept.push(r);
            }
            i += 1;
        }
        proof {
            assert(self.records@.take(i as int) =~= self.records@);
        }
        self.records = kept;
    }

    /// Admits the address for the license if the ledger allows it, as one
    /// step: an address that is already recorded is admitted again and
    /// nothing is written; a new address is recorded while the license has
    /// fewer than `ip_limit` addresses, and refused with
    /// `ReachedActivationLimit` otherwise.
    pub fn activate(
        &mut self,
        address: u32,
        license_id: i32,
        ip_limit: i32,
        now: DateTimePlus,
    ) -> (r: Result<bool, ValidationError>)
        requires
            old(self).wf(),
        ensures
            final(self).wf(),
            r == admission(old(self)@, address, license_id, ip_limit as int),
            final(self)@ == after_admission(old(self)@, address, license_id, ip_limit as int, now),
    {
        let present = self.contains(address, license_id);
        let n = self.count(license_id);
        match decide_admission(present, n as u64, ip_limit) {
            Ok(true) => {
                self.record(address, license_id, now);
                Ok(true)
            },
            other => other,
        }
    }
}

} // verus!
