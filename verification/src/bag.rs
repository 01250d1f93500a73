//! A bag of identifiers in which each identifier carries an exponent: the
//! factor list behind a composite unit or dimension.

use crate::power::{in_range, negligible, power_product, power_sum, Power};
use vstd::prelude::*;

verus! {

/// One entry of a bag: the exponent, then the identifier's position.
pub type Factor = (Power, usize);

/// The exponent that the list `items` gives to `id`: that of its last entry
/// for `id`, zero if it has none.
pub closed spec fn lookup(items: Seq<Factor>, id: nat) -> int
    decreases items.len(),
{
    if items.len() == 0 {
        0
    } else if items.last().1 == id {
        items.last().0@
    } else {
        lookup(items.drop_last(), id)
    }
}

/// Whether the identifiers of `items` strictly increase.
pub closed spec fn ordered(items: Seq<Factor>) -> bool {
    forall|i: int, j: int| 0 <= i < j < items.len() ==> (#[trigger] items[i]).1 < (#[trigger] items[j]).1
}

/// Whether an exponent can stand in a bag: it is in the range of the
/// exponents, and not cancelled.
pub open spec fn keepable(a: int) -> bool {
    !negligible(a) && in_range(a)
}

/// Whether every entry of `items` has an exponent that can stand in a bag.
pub closed spec fn all_kept(items: Seq<Factor>) -> bool {
    forall|i: int| 0 <= i < items.len() ==> keepable((#[trigger] items[i]).0@)
}

/// What a merge makes of the two exponents of one identifier, zero standing
/// for an identifier that a bag does not hold: an exponent found on one side
/// only passes through, two are added, and the identifier leaves where the
/// sum is cancelled, that is where its magnitude is under 1e-10.
pub open spec fn merged(a: int, b: int) -> int {
    if a == 0 {
        b
    } else if b == 0 {
        a
    } else if negligible(power_sum(a, b)) {
        0
    } else {
        power_sum(a, b)
    }
}

/// What adding the amount `b` makes of the exponent `a` of an identifier:
/// the sum, or zero where the sum is cancelled.
pub open spec fn added(a: int, b: int) -> int {
    if negligible(power_sum(a, b)) {
        0
    } else {
        power_sum(a, b)
    }
}

/// What scaling by `factor` makes of the exponent `a`: the product, or zero
/// where the product is cancelled.
pub open spec fn scaled(a: int, factor: int) -> int {
    if negligible(power_product(a, factor)) {
        0
    } else {
        power_product(a, factor)
    }
}

proof fn lemma_lookup_push(items: Seq<Factor>, entry: Factor, id: nat)
    ensures
        lookup(items.push(entry), id) == if entry.1 == id {
            entry.0@
        } else {
            lookup(items, id)
        },
{
    assert(items.push(entry).drop_last() =~= items);
}

proof fn lemma_lookup_found(items: Seq<Factor>, k: int)
    requires
        ordered(items),
        0 <= k < items.len(),
    ensures
        lookup(items, items[k].1 as nat) == items[k].0@,
    decreases items.len(),
{
    if k < items.len() - 1 {
        let rest = items.drop_last();
        assert(items[k].1 < items.last().1);
        assert(rest[k] == items[k]);
        assert(ordered(rest)) by {
            assert forall|i: int, j: int| 0 <= i < j < rest.len() implies (#[trigger] rest[i]).1 < (
            #[trigger] rest[j]).1 by {
                assert(rest[i] == items[i] && rest[j] == items[j]);
            }
        }
        lemma_lookup_found(rest, k);
    }
}

proof fn lemma_lookup_missing(items: Seq<Factor>, id: nat)
    requires
        forall|k: int| 0 <= k < items.len() ==> (#[trigger] items[k]).1 != id,
    ensures
        lookup(items, id) == 0,
    decreases items.len(),
{
    if items.len() > 0 {
        let rest = items.drop_last();
        assert(items[items.len() - 1].1 != id);
        assert forall|k: int| 0 <= k < rest.len() implies (#[trigger] rest[k]).1 != id by {
            assert(rest[k] == items[k]);
        }
        lemma_lookup_missing(rest, id);
    }
}

/// A non-zero exponent comes from an entry.
proof fn lemma_lookup_witness(items: Seq<Factor>, id: nat) -> (k: int)
    requires
        lookup(items, id) != 0,
    ensures
        0 <= k < items.len(),
        items[k].1 == id,
        items[k].0@ == lookup(items, id),
    decreases items.len(),
{
    if items.last().1 == id {
        items.len() - 1
    } else {
        let k = lemma_lookup_witness(items.drop_last(), id);
        assert(items.drop_last()[k] == items[k]);
        k
    }
}

/// Two well-formed lists that give every identifier the same exponent are
/// the same list.
proof fn lemma_extensional(a: Seq<Factor>, b: Seq<Factor>)
    requires
        ordered(a),
        all_kept(a),
        ordered(b),
        all_kept(b),
        forall|id: nat| lookup(a, id) == lookup(b, id),
    ensures
        a =~= b,
    decreases a.len(),
{
    if a.len() == 0 {
        if b.len() > 0 {
            lemma_lookup_found(b, 0);
            assert(keepable(b[0].0@));
            assert(lookup(a, b[0].1 as nat) == 0);
        }
    } else if b.len() == 0 {
        lemma_lookup_found(a, 0);
        assert(keepable(a[0].0@));
        assert(lookup(b, a[0].1 as nat) == 0);
    } else {
        let la = a.len() - 1;
        let lb = b.len() - 1;
        lemma_lookup_found(a, la);
        lemma_lookup_found(b, lb);
        assert(keepable(a[la].0@));
        assert(keepable(b[lb].0@));
        let ka = lemma_lookup_witness(a, b[lb].1 as nat);
        let kb = lemma_lookup_witness(b, a[la].1 as nat);
        assert(a[ka].1 <= a[la].1);
        assert(b[kb].1 <= b[lb].1);
        assert(a[la].1 == b[lb].1);
        assert(a[la].0@ == b[lb].0@);
        Power::lemma_view_injective(a[la].0, b[lb].0);
        let ra = a.drop_last();
        let rb = b.drop_last();
        assert(ordered(ra)) by {
            assert forall|i: int, j: int| 0 <= i < j < ra.len() implies (#[trigger] ra[i]).1 < (
            #[trigger] ra[j]).1 by {
                assert(ra[i] == a[i] && ra[j] == a[j]);
            }
        }
        assert(ordered(rb)) by {
            assert forall|i: int, j: int| 0 <= i < j < rb.len() implies (#[trigger] rb[i]).1 < (
            #[trigger] rb[j]).1 by {
                assert(rb[i] == b[i] && rb[j] == b[j]);
            }
        }
        assert(all_kept(ra)) by {
            assert forall|i: int| 0 <= i < ra.len() implies keepable((#[trigger] ra[i]).0@) by {
                assert(ra[i] == a[i]);
            }
        }
        assert(all_kept(rb)) by {
            assert forall|i: int| 0 <= i < rb.len() implies keepable((#[trigger] rb[i]).0@) by {
                assert(rb[i] == b[i]);
            }
        }
        assert forall|id: nat| lookup(ra, id) == lookup(rb, id) by {
            if id == a[la].1 {
                assert forall|k: int| 0 <= k < ra.len() implies (#[trigger] ra[k]).1 != id by {
                    assert(ra[k] == a[k]);
                    assert(a[k].1 < a[la].1);
                }
                assert forall|k: int| 0 <= k < rb.len() implies (#[trigger] rb[k]).1 != id by {
                    assert(rb[k] == b[k]);
                    assert(b[k].1 < b[lb].1);
                }
                lemma_lookup_missing(ra, id);
                lemma_lookup_missing(rb, id);
            } else {
                assert(lookup(a, id) == lookup(b, id));
            }
        }
        lemma_extensional(ra, rb);
        assert(a =~= ra.push(a[la]));
        assert(b =~= rb.push(b[lb]));
    }
}

/// Lists in which the entries for `id` are the same give `id` the same
/// exponent.
proof fn lemma_lookup_transfer(s: Seq<Factor>, t: Seq<Factor>, id: nat)
    requires
        ordered(s),
        ordered(t),
        forall|k: int|
            0 <= k < s.len() && (#[trigger] s[k]).1 == id ==> exists|m: int|
                0 <= m < t.len() && #[trigger] t[m] == s[k],
        forall|m: int|
            0 <= m < t.len() && (#[trigger] t[m]).1 == id ==> exists|k: int|
                0 <= k < s.len() && #[trigger] s[k] == t[m],
    ensures
        lookup(s, id) == lookup(t, id),
{
    if lookup(s, id) != 0 {
        let k = lemma_lookup_witness(s, id);
        let m = choose|m: int| 0 <= m < t.len() && #[trigger] t[m] == s[k];
        lemma_lookup_found(t, m);
    } else if lookup(t, id) != 0 {
        let m = lemma_lookup_witness(t, id);
        let k = choose|k: int| 0 <= k < s.len() && #[trigger] s[k] == t[m];
        lemma_lookup_found(s, k);
    }
}


/// Taking an entry out leaves the other identifiers their exponents.
proof fn lemma_remove(before: Seq<Factor>, at: int)
    requires
        ordered(before),
        all_kept(before),
        0 <= at < before.len(),
    ensures
        ordered(before.remove(at)),
        all_kept(before.remove(at)),
        lookup(before.remove(at), before[at].1 as nat) == 0,
        forall|id: nat| id != before[at].1 ==> lookup(before.remove(at), id) == lookup(before, id),
{
    let after = before.remove(at);
    let item = before[at].1;
    assert forall|k: int| 0 <= k < after.len() implies #[trigger] after[k] == before[if k < at {
        k
    } else {
        k + 1
    }] by {}
    assert forall|i: int, j: int| 0 <= i < j < after.len() implies (#[trigger] after[i]).1 < (
    #[trigger] after[j]).1 by {
        let bi = if i < at { i } else { i + 1 };
        let bj = if j < at { j } else { j + 1 };
        assert(before[bi].1 < before[bj].1);
    }
    assert forall|k: int| 0 <= k < after.len() implies keepable((#[trigger] after[k]).0@) by {
        let bk = if k < at { k } else { k + 1 };
        assert(keepable(before[bk].0@));
    }
    assert forall|k: int| 0 <= k < after.len() implies (#[trigger] after[k]).1 != item by {
        let bk = if k < at { k } else { k + 1 };
        if bk < at {
            assert(before[bk].1 < before[at].1);
        } else {
            assert(before[at].1 < before[bk].1);
        }
    }
    lemma_lookup_missing(after, item as nat);
    assert forall|id: nat| id != item implies lookup(after, id) == lookup(before, id) by {
        assert forall|k: int| 0 <= k < before.len() && (#[trigger] before[k]).1 == id implies exists|
            m: int,
        | 0 <= m < after.len() && #[trigger] after[m] == before[k] by {
            let m = if k < at { k } else { k - 1 };
            assert(after[m] == before[k]);
        }
        assert forall|m: int| 0 <= m < after.len() && (#[trigger] after[m]).1 == id implies exists|
            k: int,
        | 0 <= k < before.len() && #[trigger] before[k] == after[m] by {
            let k = if m < at { m } else { m + 1 };
            assert(before[k] == after[m]);
        }
        lemma_lookup_transfer(before, after, id);
    }
}

/// Giving an entry a new exponent leaves the other identifiers theirs.
proof fn lemma_replace(before: Seq<Factor>, at: int, entry: Factor)
    requires
        ordered(before),
        all_kept(before),
        0 <= at < before.len(),
        entry.1 == before[at].1,
        keepable(entry.0@),
    ensures
        ordered(before.update(at, entry)),
        all_kept(before.update(at, entry)),
        lookup(before.update(at, entry), entry.1 as nat) == entry.0@,
        forall|id: nat| id != entry.1 ==> lookup(before.update(at, entry), id) == lookup(before, id),
{
    let after = before.update(at, entry);
    assert forall|i: int, j: int| 0 <= i < j < after.len() implies (#[trigger] after[i]).1 < (
    #[trigger] after[j]).1 by {
        assert(before[i].1 < before[j].1);
    }
    assert forall|k: int| 0 <= k < after.len() implies keepable((#[trigger] after[k]).0@) by {
        if k != at {
            assert(keepable(before[k].0@));
        }
    }
    lemma_lookup_found(after, at);
    assert forall|id: nat| id != entry.1 implies lookup(after, id) == lookup(before, id) by {
        assert forall|k: int| 0 <= k < before.len() && (#[trigger] before[k]).1 == id implies exists|
            m: int,
        | 0 <= m < after.len() && #[trigger] after[m] == before[k] by {
            assert(after[k] == before[k]);
        }
        assert forall|m: int| 0 <= m < after.len() && (#[trigger] after[m]).1 == id implies exists|
            k: int,
        | 0 <= k < before.len() && #[trigger] before[k] == after[m] by {
            assert(before[m] == after[m]);
        }
        lemma_lookup_transfer(before, after, id);
    }
}

/// Putting a new identifier in at its place leaves the others their
/// exponents.
proof fn lemma_insert(before: Seq<Factor>, at: int, entry: Factor)
    requires
        ordered(before),
        all_kept(before),
        0 <= at <= before.len(),
        forall|k: int| 0 <= k < at ==> (#[trigger] before[k]).1 < entry.1,
        forall|k: int| at <= k < before.len() ==> (#[trigger] before[k]).1 > entry.1,
        keepable(entry.0@),
    ensures
        ordered(before.insert(at, entry)),
        all_kept(before.insert(at, entry)),
        lookup(before.insert(at, entry), entry.1 as nat) == entry.0@,
        forall|id: nat| id != entry.1 ==> lookup(before.insert(at, entry), id) == lookup(before, id),
{
    let after = before.insert(at, entry);
    assert(after.len() == before.len() + 1);
    assert(after[at] == entry);
    assert forall|k: int| 0 <= k < after.len() && k != at implies #[trigger] after[k] == before[if k
        < at {
        k
    } else {
        k - 1
    }] by {}
    assert forall|i: int, j: int| 0 <= i < j < after.len() implies (#[trigger] after[i]).1 < (
    #[trigger] after[j]).1 by {
        let bi = if i < at { i } else { i - 1 };
        let bj = if j < at { j } else { j - 1 };
        if i == at {
            assert(before[bj].1 > entry.1);
        } else if j == at {
            assert(before[bi].1 < entry.1);
        } else {
            assert(before[bi].1 < before[bj].1);
        }
    }
    assert forall|k: int| 0 <= k < after.len() implies keepable((#[trigger] after[k]).0@) by {
        if k != at {
            let bk = if k < at { k } else { k - 1 };
            assert(keepable(before[bk].0@));
        }
    }
    lemma_lookup_found(after, at);
    assert forall|id: nat| id != entry.1 implies lookup(after, id) == lookup(before, id) by {
        assert forall|k: int| 0 <= k < before.len() && (#[trigger] before[k]).1 == id implies exists|
            m: int,
        | 0 <= m < after.len() && #[trigger] after[m] == before[k] by {
            let m = if k < at { k } else { k + 1 };
            assert(after[m] == before[k]);
        }
        assert forall|m: int| 0 <= m < after.len() && (#[trigger] after[m]).1 == id implies exists|
            k: int,
        | 0 <= k < before.len() && #[trigger] before[k] == after[m] by {
            let k = if m < at { m } else { m - 1 };
            assert(before[k] == after[m]);
        }
        lemma_lookup_transfer(before, after, id);
    }
}


/// A bag of identifiers with exponents, kept as a list sorted by identifier
/// in which no identifier occurs twice and no exponent is cancelled.
#[derive(Debug)]
pub struct QuantityBag {
    items: Vec<Factor>,
}

impl QuantityBag {
    /// The entries, sorted by identifier.
    pub closed spec fn entries(&self) -> Seq<Factor> {
        self.items@
    }

    /// The invariant: identifiers strictly increase, and no entry has an
    /// exponent of magnitude under 1e-10.
    #[verifier::type_invariant]
    pub closed spec fn wf(&self) -> bool {
        ordered(self.items@) && all_kept(self.items@)
    }

    /// The exponent of `id` in this bag, zero where the bag does not hold it.
    pub closed spec fn power(&self, id: nat) -> int {
        lookup(self.items@, id)
    }

    /// Bags that give every identifier the same exponent have the same
    /// entries.
    pub proof fn lemma_equal_powers(a: &QuantityBag, b: &QuantityBag)
        requires
            a.wf(),
            b.wf(),
            forall|id: nat| a.power(id) == b.power(id),
        ensures
            a.entries() == b.entries(),
    {
        assert forall|id: nat| lookup(a.items@, id) == lookup(b.items@, id) by {
            assert(a.power(id) == b.power(id));
        }
        lemma_extensional(a.items@, b.items@);
    }

    /// An identifier has a non-zero exponent exactly when an entry names it.
    pub proof fn lemma_power_of_entry(&self, k: int)
        requires
            self.wf(),
            0 <= k < self.entries().len(),
        ensures
            self.power(self.entries()[k].1 as nat) == self.entries()[k].0@,
            keepable(self.entries()[k].0@),
    {
        lemma_lookup_found(self.items@, k);
        assert(keepable(self.items@[k].0@));
    }

    /// A non-zero exponent belongs to an entry.
    pub proof fn lemma_entry_of_power(&self, id: nat) -> (k: int)
        requires
            self.power(id) != 0,
        ensures
            0 <= k < self.entries().len(),
            self.entries()[k].1 == id,
            self.entries()[k].0@ == self.power(id),
    {
        lemma_lookup_witness(self.items@, id)
    }

    /// Bags with the same entries give every identifier the same exponent.
    pub proof fn lemma_equal_entries(a: &QuantityBag, b: &QuantityBag)
        requires
            a.entries() == b.entries(),
        ensures
            forall|id: nat| a.power(id) == b.power(id),
    {
    }

    /// The identifiers of the entries strictly increase.
    pub proof fn lemma_entries_ordered(&self)
        requires
            self.wf(),
        ensures
            forall|i: int, j: int|
                0 <= i < j < self.entries().len() ==> (#[trigger] self.entries()[i]).1 < (
                #[trigger] self.entries()[j]).1,
    {
    }

    /// Merging does not depend on the order of the two bags: what merging
    /// one way gives and what merging the other way gives have the same
    /// entries.
    pub proof fn lemma_union_commutes(
        x: &QuantityBag,
        y: &QuantityBag,
        one_way: &QuantityBag,
        other_way: &QuantityBag,
    )
        requires
            one_way.wf(),
            other_way.wf(),
            forall|id: nat| one_way.power(id) == merged(x.power(id), y.power(id)),
            forall|id: nat| other_way.power(id) == merged(y.power(id), x.power(id)),
        ensures
            one_way.entries() == other_way.entries(),
    {
        assert forall|id: nat| one_way.power(id) == other_way.power(id) by {
            assert(merged(x.power(id), y.power(id)) == merged(y.power(id), x.power(id)));
        }
        QuantityBag::lemma_equal_powers(one_way, other_way);
    }

    /// What a merge gives an identifier is the sum of its two exponents,
    /// where the sum is in the range of the exponents and is not cancelled;
    /// where two exponents cancel, the identifier leaves.
    pub proof fn lemma_union_adds(x: int, y: int)
        requires
            in_range(x + y),
            x == 0 || y == 0 || !negligible(x + y),
        ensures
            merged(x, y) == x + y,
            x != 0 && y != 0 && negligible(x + y) ==> merged(x, y) == 0,
    {
    }

    /// The empty bag.
    pub fn new() -> (bag: QuantityBag)
        ensures
            bag.wf(),
            bag.entries().len() == 0,
            forall|id: nat| bag.power(id) == 0,
    {
        QuantityBag { items: Vec::new() }
    }

    /// The number of identifiers held.
    pub fn len(&self) -> (n: usize)
        ensures
            n == self.entries().len(),
    {
        self.items.len()
    }

    /// The entry at position `k` of the sorted list.
    pub fn entry(&self, k: usize) -> (e: Factor)
        requires
            k < self.entries().len(),
        ensures
            e == self.entries()[k as int],
    {
        self.items[k]
    }

    /// Where `item` is, or where it would have to be inserted.
    fn item_index(&self, item: usize) -> (r: Result<usize, usize>)
        ensures
            match r {
                Ok(at) => at < self.items@.len() && self.items@[at as int].1 == item,
                Err(at) => {
                    &&& at <= self.items@.len()
                    &&& forall|k: int| 0 <= k < at ==> (#[trigger] self.items@[k]).1 < item
                    &&& forall|k: int|
                        at <= k < self.items@.len() ==> (#[trigger] self.items@[k]).1 > item
                },
            },
    {
        proof {
            use_type_invariant(self);
        }
        let mut low: usize = 0;
        let mut high: usize = self.items.len();
        while low < high
            invariant
                self.wf(),
                low <= high <= self.items@.len(),
                forall|k: int| 0 <= k < low ==> (#[trigger] self.items@[k]).1 < item,
                forall|k: int| high <= k < self.items@.len() ==> (#[trigger] self.items@[k]).1 > item,
            decreases high - low,
        {
            let middle: usize = low + (high - low) / 2;
            let found: usize = self.items[middle].1;
            if found == item {
                return Ok(middle);
            } else if found < item {
                assert forall|k: int| 0 <= k < middle + 1 implies (#[trigger] self.items@[k]).1
                    < item by {
                    if k < middle {
                        assert(self.items@[k].1 < self.items@[middle as int].1);
                    }
                }
                low = middle + 1;
            } else {
                assert forall|k: int| middle <= k < self.items@.len() implies (
                #[trigger] self.items@[k]).1 > item by {
                    if k > middle {
                        assert(self.items@[middle as int].1 < self.items@[k].1);
                    }
                }
                high = middle;
            }
        }
        Err(low)
    }

    /// The exponent of `item`, zero where the bag does not hold it.
    pub fn get(&self, item: usize) -> (p: Power)
        ensures
            p@ == self.power(item as nat),
    {
        proof {
            use_type_invariant(self);
        }
        match self.item_index(item) {
            Ok(at) => {
                proof {
                    lemma_lookup_found(self.items@, at as int);
                }
                self.items[at].0
            },
            Err(_) => {
                proof {
                    lemma_lookup_missing(self.items@, item as nat);
                }
                Power::zero()
            },
        }
    }

    /// Merges two bags: an identifier held by one bag keeps its exponent,
    /// one held by both gets the sum and leaves if the sum is cancelled.
    pub fn union(self, other: QuantityBag) -> (bag: QuantityBag)
        ensures
            bag.wf(),
            forall|id: nat| bag.power(id) == merged(self.power(id), other.power(id)),
    {
        proof {
            use_type_invariant(&self);
            use_type_invariant(&other);
        }
        let ghost a = self.items@;
        let ghost b = other.items@;
        let mut out: Vec<Factor> = Vec::new();
        let mut i: usize = 0;
        let mut j: usize = 0;
        proof {
            assert(a.take(0) =~= Seq::<Factor>::empty());
            assert(b.take(0) =~= Seq::<Factor>::empty());
        }
        while i < self.items.len() || j < other.items.len()
            invariant
                a == self.items@,
                b == other.items@,
                ordered(a),
                all_kept(a),
                ordered(b),
                all_kept(b),
                i <= a.len(),
                j <= b.len(),
                ordered(out@),
                all_kept(out@),
                forall|k: int| 0 <= k < out@.len() && i < a.len() ==> (#[trigger] out@[k]).1 < a[i as int].1,
                forall|k: int| 0 <= k < out@.len() && j < b.len() ==> (#[trigger] out@[k]).1 < b[j as int].1,
                forall|k: int| 0 <= k < j && i < a.len() ==> (#[trigger] b[k]).1 < a[i as int].1,
                forall|k: int| 0 <= k < i && j < b.len() ==> (#[trigger] a[k]).1 < b[j as int].1,
                forall|id: nat| lookup(out@, id) == merged(lookup(a.take(i as int), id), lookup(b.take(j as int), id)),
            decreases a.len() - i + b.len() - j,
        {
            let ghost before = out@;
            let take_left: bool = if j >= other.items.len() {
                true
            } else if i >= self.items.len() {
                false
            } else {
                self.items[i].1 <= other.items[j].1
            };
            let take_right: bool = if i >= self.items.len() {
                true
            } else if j >= other.items.len() {
                false
            } else {
                other.items[j].1 <= self.items[i].1
            };
            proof {
                if i < a.len() {
                    assert(a.take(i + 1) =~= a.take(i as int).push(a[i as int]));
                    assert forall|k: int| 0 <= k < a.take(i as int).len() implies (
                    #[trigger] a.take(i as int)[k]).1 != a[i as int].1 by {
                        assert(a.take(i as int)[k] == a[k]);
                        assert(a[k].1 < a[i as int].1);
                    }
                    lemma_lookup_missing(a.take(i as int), a[i as int].1 as nat);
                }
                if j < b.len() {
                    assert(b.take(j + 1) =~= b.take(j as int).push(b[j as int]));
                    assert forall|k: int| 0 <= k < b.take(j as int).len() implies (
                    #[trigger] b.take(j as int)[k]).1 != b[j as int].1 by {
                        assert(b.take(j as int)[k] == b[k]);
                        assert(b[k].1 < b[j as int].1);
                    }
                    lemma_lookup_missing(b.take(j as int), b[j as int].1 as nat);
                }
            }
            if take_left && take_right {
                let id: usize = self.items[i].1;
                let sum: Power = self.items[i].0.plus(other.items[j].0);
                proof {
                    assert(keepable(a[i as int].0@));
                    assert(keepable(b[j as int].0@));
                    assert forall|k: int| 0 <= k < before.len() implies (#[trigger] before[k]).1
                        != id by {}
                    lemma_lookup_missing(before, id as nat);
                }
                if !sum.is_negligible() {
                    out.push((sum, id));
                }
                proof {
                    assert forall|x: nat| lookup(out@, x) == merged(
                        lookup(a.take(i + 1), x),
                        lookup(b.take(j + 1), x),
                    ) by {
                        lemma_lookup_push(a.take(i as int), a[i as int], x);
                        lemma_lookup_push(b.take(j as int), b[j as int], x);
                        if !negligible(sum@) {
                            lemma_lookup_push(before, (sum, id), x);
                        }
                    }
                    assert forall|k: int| 0 <= k < out@.len() && i + 1 < a.len() implies (
                    #[trigger] out@[k]).1 < a[i + 1].1 by {
                        assert(a[i as int].1 < a[i + 1].1);
                    }
                    assert forall|k: int| 0 <= k < out@.len() && j + 1 < b.len() implies (
                    #[trigger] out@[k]).1 < b[j + 1].1 by {
                        assert(b[j as int].1 < b[j + 1].1);
                    }
                }
                i = i + 1;
                j = j + 1;
            } else if take_left {
                let entry: Factor = self.items[i];
                proof {
                    assert forall|k: int| 0 <= k < b.take(j as int).len() implies (
                    #[trigger] b.take(j as int)[k]).1 != entry.1 by {
                        assert(b.take(j as int)[k] == b[k]);
                        assert(b[k].1 < a[i as int].1);
                    }
                    lemma_lookup_missing(b.take(j as int), entry.1 as nat);
                    assert(keepable(entry.0@));
                }
                out.push(entry);
                proof {
                    assert forall|x: nat| lookup(out@, x) == merged(
                        lookup(a.take(i + 1), x),
                        lookup(b.take(j as int), x),
                    ) by {
                        lemma_lookup_push(a.take(i as int), a[i as int], x);
                        lemma_lookup_push(before, entry, x);
                    }
                    assert forall|k: int| 0 <= k < out@.len() && i + 1 < a.len() implies (
                    #[trigger] out@[k]).1 < a[i + 1].1 by {
                        assert(a[i as int].1 < a[i + 1].1);
                    }
                }
                i = i + 1;
            } else {
                let entry: Factor = other.items[j];
                proof {
                    assert forall|k: int| 0 <= k < a.take(i as int).len() implies (
                    #[trigger] a.take(i as int)[k]).1 != entry.1 by {
                        assert(a.take(i as int)[k] == a[k]);
                        assert(a[k].1 < b[j as int].1);
                    }
                    lemma_lookup_missing(a.take(i as int), entry.1 as nat);
                    assert(keepable(entry.0@));
                }
                out.push(entry);
                proof {
                    assert forall|x: nat| lookup(out@, x) == merged(
                        lookup(a.take(i as int), x),
                        lookup(b.take(j + 1), x),
                    ) by {
                        lemma_lookup_push(b.take(j as int), b[j as int], x);
                        lemma_lookup_push(before, entry, x);
                    }
                    assert forall|k: int| 0 <= k < out@.len() && j + 1 < b.len() implies (
                    #[trigger] out@[k]).1 < b[j + 1].1 by {
                        assert(b[j as int].1 < b[j + 1].1);
                    }
                }
                j = j + 1;
            }
        }
        proof {
            assert(a.take(i as int) =~= a);
            assert(b.take(j as int) =~= b);
        }
        QuantityBag { items: out }
    }
}

impl QuantityBag {
    /// Adds `amount` to the exponent of `item`. The identifier leaves the
    /// bag, or stays out of it, where the new exponent is cancelled.
    pub fn add(&mut self, item: usize, amount: Power)
        ensures
            final(self).wf(),
            final(self).power(item as nat) == added(old(self).power(item as nat), amount@),
            forall|id: nat| id != item ==> final(self).power(id) == old(self).power(id),
    {
        proof {
            use_type_invariant(&*self);
        }
        let ghost before = self.items@;
        match self.item_index(item) {
            Ok(at) => {
                let sum: Power = self.items[at].0.plus(amount);
                proof {
                    lemma_lookup_found(before, at as int);
                }
                let mut items: Vec<Factor> = copy_factors(&self.items);
                if sum.is_negligible() {
                    items.remove(at);
                    proof {
                        lemma_remove(before, at as int);
                    }
                } else {
                    items.set(at, (sum, item));
                    proof {
                        lemma_replace(before, at as int, (sum, item));
                    }
                }
                self.items = items;
            },
            Err(at) => {
                proof {
                    lemma_lookup_missing(before, item as nat);
                    use_type_invariant(&amount);
                }
                if !amount.is_negligible() {
                    let mut items: Vec<Factor> = copy_factors(&self.items);
                    items.insert(at, (amount, item));
                    proof {
                        lemma_insert(before, at as int, (amount, item));
                    }
                    self.items = items;
                }
            },
        }
    }

    /// Multiplies every exponent by `factor`. An identifier leaves the bag
    /// where its new exponent is cancelled, so a factor of zero empties it.
    pub fn mul(&mut self, factor: Power)
        ensures
            final(self).wf(),
            forall|id: nat| final(self).power(id) == scaled(old(self).power(id), factor@),
    {
        proof {
            use_type_invariant(&*self);
        }
        let ghost before = self.items@;
        let mut out: Vec<Factor> = Vec::new();
        let mut i: usize = 0;
        proof {
            assert(before.take(0) =~= Seq::<Factor>::empty());
            lemma_scaled_zero(factor@);
        }
        while i < self.items.len()
            invariant
                before == self.items@,
                ordered(before),
                i <= before.len(),
                ordered(out@),
                all_kept(out@),
                scaled(0, factor@) == 0,
                forall|k: int| 0 <= k < out@.len() && i < before.len() ==> (#[trigger] out@[k]).1 < before[i as int].1,
                forall|id: nat| lookup(out@, id) == scaled(lookup(before.take(i as int), id), factor@),
            decreases before.len() - i,
        {
            let ghost sofar = out@;
            let entry: Factor = self.items[i];
            let product: Power = entry.0.times(factor);
            proof {
                assert(before.take(i + 1) =~= before.take(i as int).push(before[i as int]));
                assert forall|k: int| 0 <= k < sofar.len() implies (#[trigger] sofar[k]).1
                    != entry.1 by {}
                lemma_lookup_missing(sofar, entry.1 as nat);
            }
            if !product.is_negligible() {
                out.push((product, entry.1));
            }
            proof {
                assert forall|x: nat| lookup(out@, x) == scaled(
                    lookup(before.take(i + 1), x),
                    factor@,
                ) by {
                    lemma_lookup_push(before.take(i as int), before[i as int], x);
                    if !negligible(product@) {
                        lemma_lookup_push(sofar, (product, entry.1), x);
                    }
                }
                assert forall|k: int| 0 <= k < out@.len() && i + 1 < before.len() implies (
                #[trigger] out@[k]).1 < before[i + 1].1 by {
                    assert(before[i as int].1 < before[i + 1].1);
                }
            }
            i = i + 1;
        }
        proof {
            assert(before.take(i as int) =~= before);
        }
        self.items = out;
    }

    /// Whether the two bags have the same entries.
    pub fn same_entries(&self, other: &QuantityBag) -> (same: bool)
        ensures
            same == (self.entries() == other.entries()),
    {
        if self.items.len() != other.items.len() {
            return false;
        }
        let mut i: usize = 0;
        while i < self.items.len()
            invariant
                self.items@.len() == other.items@.len(),
                i <= self.items@.len(),
                forall|k: int| 0 <= k < i ==> self.items@[k] == other.items@[k],
            decreases self.items@.len() - i,
        {
            let left: Factor = self.items[i];
            let right: Factor = other.items[i];
            if left.0.steps() != right.0.steps() || left.1 != right.1 {
                return false;
            }
            proof {
                Power::lemma_view_injective(left.0, right.0);
            }
            i = i + 1;
        }
        assert(self.items@ =~= other.items@);
        true
    }
}

impl PartialEq for QuantityBag {
    /// Bags are equal when they have the same entries.
    fn eq(&self, other: &Self) -> (b: bool) {
        self.same_entries(other)
    }
}

impl vstd::std_specs::cmp::PartialEqSpecImpl for QuantityBag {
    open spec fn obeys_eq_spec() -> bool {
        true
    }

    open spec fn eq_spec(&self, other: &Self) -> bool {
        self.entries() == other.entries()
    }
}

impl Clone for QuantityBag {
    fn clone(&self) -> (copy: QuantityBag)
        ensures
            copy.entries() == self.entries(),
            copy.wf(),
            forall|id: nat| copy.power(id) == self.power(id),
    {
        proof {
            use_type_invariant(self);
        }
        let items: Vec<Factor> = copy_factors(&self.items);
        QuantityBag { items }
    }
}

/// A new list with the entries of `source`.
fn copy_factors(source: &Vec<Factor>) -> (copy: Vec<Factor>)
    ensures
        copy@ == source@,
{
    let mut copy: Vec<Factor> = Vec::new();
    let mut i: usize = 0;
    while i < source.len()
        invariant
            i <= source@.len(),
            copy@ == source@.take(i as int),
        decreases source@.len() - i,
    {
        copy.push(source[i]);
        assert(source@.take(i + 1) =~= source@.take(i as int).push(source@[i as int]));
        i = i + 1;
    }
    assert(source@.take(i as int) =~= source@);
    copy
}

/// Scaling leaves an identifier that the bag does not hold out of it.
proof fn lemma_scaled_zero(factor: int)
    ensures
        scaled(0, factor) == 0,
{
    assert(0 * factor == 0) by (nonlinear_arith);
}

} // verus!
