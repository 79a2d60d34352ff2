use vstd::prelude::*;

use crate::ble::{format_bd_addr, Contact, ContactData};
use crate::text::{decimal, hex_joined, push_char, push_decimal_i8};

verus! {

/// Number of devices a contact table keeps.
pub const CONTACT_CAPACITY: usize = 32;

/// The devices heard so far, keyed by address, in a fixed-capacity index map.
#[verifier::external_body]
pub struct ContactMap {
    map: heapless::index_map::FnvIndexMap<[u8; 6], ContactData, 32>,
}

/// The entries of a contact map, in the map's iteration order.
pub uninterp spec fn contact_map_entries(m: ContactMap) -> Seq<([u8; 6], ContactData)>;

/// No address occurs twice.
pub open spec fn keys_distinct(s: Seq<([u8; 6], ContactData)>) -> bool {
    forall|i: int, j: int| 0 <= i < s.len() && 0 <= j < s.len() && i != j ==> s[i].0 != s[j].0
}

/// The address occurs in the entries.
pub open spec fn has_key(s: Seq<([u8; 6], ContactData)>, k: [u8; 6]) -> bool {
    exists|i: int| 0 <= i < s.len() && s[i].0 == k
}

/// The position of an address among the entries.
pub open spec fn key_index(s: Seq<([u8; 6], ContactData)>, k: [u8; 6]) -> int {
    choose|i: int| 0 <= i < s.len() && s[i].0 == k
}

/// Removing position `i` by moving the last entry into its place.
pub open spec fn swap_remove_at<T>(s: Seq<T>, i: int) -> Seq<T> {
    if i == s.len() - 1 {
        s.drop_last()
    } else {
        s.drop_last().update(i, s.last())
    }
}

impl ContactMap {
    /// An empty map; calls `IndexMap::new`.
    #[verifier::external_body]
    pub(crate) fn new() -> (m: ContactMap)
        ensures
            contact_map_entries(m) == Seq::<([u8; 6], ContactData)>::empty(),
    {
        ContactMap { map: heapless::index_map::FnvIndexMap::new() }
    }

    /// Number of entries; calls `IndexMap::len`. The map holds at most 32 entries.
    #[verifier::external_body]
    pub(crate) fn len(&self) -> (r: usize)
        ensures
            r == contact_map_entries(*self).len(),
            r <= CONTACT_CAPACITY,
    {
        self.map.len()
    }

    /// Position of a key; calls `IndexMap::get_index_of`.
    #[verifier::external_body]
    pub(crate) fn get_index_of(&self, key: &[u8; 6]) -> (r: Option<usize>)
        ensures
            match r {
                Some(i) => i < contact_map_entries(*self).len() && contact_map_entries(*self)[i as int].0
                    == *key,
                None => !has_key(contact_map_entries(*self), *key),
            },
    {
        self.map.get_index_of(key)
    }

    /// A copy of the entry at a position; calls `IndexMap::get_index`.
    #[verifier::external_body]
    pub(crate) fn get_index(&self, i: usize) -> (r: ([u8; 6], ContactData))
        requires
            i < contact_map_entries(*self).len(),
        ensures
            r == contact_map_entries(*self)[i as int],
    {
        let (k, v) = self.map.get_index(i).unwrap();
        (*k, v.clone())
    }

    /// Inserts or replaces; calls `IndexMap::insert`. A present key keeps its position and gets
    /// the new value; an absent key is appended if there is room, else nothing changes.
    #[verifier::external_body]
    pub(crate) fn insert(&mut self, key: [u8; 6], value: ContactData) -> (r: Result<
        Option<ContactData>,
        ([u8; 6], ContactData),
    >)
        ensures
            keys_distinct(contact_map_entries(*final(self))),
            has_key(contact_map_entries(*old(self)), key) ==> {
                let i = key_index(contact_map_entries(*old(self)), key);
                &&& r == Ok::<Option<ContactData>, ([u8; 6], ContactData)>(
                    Some(contact_map_entries(*old(self))[i].1),
                )
                &&& contact_map_entries(*final(self)) == contact_map_entries(*old(self)).update(
                    i,
                    (key, value),
                )
            },
            !has_key(contact_map_entries(*old(self)), key) && contact_map_entries(*old(self)).len()
                < CONTACT_CAPACITY ==> {
                &&& r == Ok::<Option<ContactData>, ([u8; 6], ContactData)>(None)
                &&& contact_map_entries(*final(self)) == contact_map_entries(*old(self)).push(
                    (key, value),
                )
            },
            !has_key(contact_map_entries(*old(self)), key) && contact_map_entries(*old(self)).len()
                >= CONTACT_CAPACITY ==> {
                &&& r == Err::<Option<ContactData>, ([u8; 6], ContactData)>((key, value))
                &&& contact_map_entries(*final(self)) == contact_map_entries(*old(self))
            },
    {
        self.map.insert(key, value)
    }

    /// Removes a key, moving the last entry into its place; calls `IndexMap::remove`.
    #[verifier::external_body]
    pub(crate) fn remove(&mut self, key: &[u8; 6]) -> (r: Option<ContactData>)
        ensures
            keys_distinct(contact_map_entries(*final(self))),
            has_key(contact_map_entries(*old(self)), *key) ==> {
                let i = key_index(contact_map_entries(*old(self)), *key);
                &&& r == Some(contact_map_entries(*old(self))[i].1)
                &&& contact_map_entries(*final(self)) == swap_remove_at(
                    contact_map_entries(*old(self)),
                    i,
                )
            },
            !has_key(contact_map_entries(*old(self)), *key) ==> {
                &&& r == None::<ContactData>
                &&& contact_map_entries(*final(self)) == contact_map_entries(*old(self))
            },
    {
        self.map.remove(key)
    }

    /// Removes every entry; calls `IndexMap::clear`.
    #[verifier::external_body]
    pub(crate) fn clear(&mut self)
        ensures
            contact_map_entries(*final(self)) == Seq::<([u8; 6], ContactData)>::empty(),
    {
        self.map.clear()
    }
}

/// What a report changes in a known contact: the name only when the report has one, the
/// signal strength and the time always.
pub open spec fn merge_contact(old: ContactData, new: ContactData) -> ContactData {
    ContactData {
        name: if new.name is Some {
            new.name
        } else {
            old.name
        },
        rssi: new.rssi,
        seen_at: new.seen_at,
    }
}

/// Entry `j` was seen least recently, and no earlier entry was seen as long ago.
pub open spec fn is_first_oldest(s: Seq<([u8; 6], ContactData)>, j: int) -> bool {
    &&& 0 <= j < s.len()
    &&& forall|i: int| 0 <= i < s.len() ==> s[j].1.seen_at <= s[i].1.seen_at
    &&& forall|i: int| 0 <= i < j ==> s[j].1.seen_at < s[i].1.seen_at
}

/// The entries after a report from address `k`: a known device is updated in place; a new one
/// is appended, after the least recently seen device was dropped when the table was full.
pub open spec fn recorded(s: Seq<([u8; 6], ContactData)>, k: [u8; 6], d: ContactData) -> Seq<
    ([u8; 6], ContactData),
> {
    if has_key(s, k) {
        let i = key_index(s, k);
        s.update(i, (k, merge_contact(s[i].1, d)))
    } else if s.len() >= CONTACT_CAPACITY {
        swap_remove_at(s, choose|j: int| is_first_oldest(s, j)).push((k, d))
    } else {
        s.push((k, d))
    }
}

/// The devices heard during a scan, at most 32 of them, each address once.
pub struct ContactTable {
    map: ContactMap,
}

impl View for ContactTable {
    type V = Seq<([u8; 6], ContactData)>;

    closed spec fn view(&self) -> Self::V {
        contact_map_entries(self.map)
    }
}

impl ContactTable {
    #[verifier::type_invariant]
    closed spec fn inv(self) -> bool {
        &&& keys_distinct(contact_map_entries(self.map))
        &&& contact_map_entries(self.map).len() <= CONTACT_CAPACITY
    }

    /// An empty table.
    pub fn new() -> (t: ContactTable)
        ensures
            t@ == Seq::<([u8; 6], ContactData)>::empty(),
    {
        ContactTable { map: ContactMap::new() }
    }

    /// Number of devices in the table.
    pub fn len(&self) -> (r: usize)
        ensures
            r == self@.len(),
            r <= CONTACT_CAPACITY,
            keys_distinct(self@),
    {
        proof {
            use_type_invariant(self);
        }
        self.map.len()
    }

    /// A copy of the entry at a position.
    pub fn entry(&self, i: usize) -> (r: ([u8; 6], ContactData))
        requires
            i < self@.len(),
        ensures
            r == self@[i as int],
    {
        self.map.get_index(i)
    }

    /// Forgets every device.
    pub fn clear(&mut self)
        ensures
            final(self)@ == Seq::<([u8; 6], ContactData)>::empty(),
    {
        let mut map = ContactMap::new();
        std::mem::swap(&mut map, &mut self.map);
        map.clear();
        self.map = map;
    }

    /// Position of the least recently seen device, the first one among equals.
    pub fn oldest_index(&self) -> (j: usize)
        requires
            self@.len() > 0,
        ensures
            is_first_oldest(self@, j as int),
    {
        let n = self.map.len();
        let mut j: usize = 0;
        let (_, first) = self.map.get_index(0);
        let mut oldest: u64 = first.seen_at;
        let mut i: usize = 1;
        while i < n
            invariant
                n == self@.len(),
                1 <= i <= n,
                j < i,
                oldest == self@[j as int].1.seen_at,
                forall|k: int| 0 <= k < i ==> oldest <= #[trigger] self@[k].1.seen_at,
                forall|k: int| 0 <= k < j ==> oldest < #[trigger] self@[k].1.seen_at,
            decreases n - i,
        {
            let (_, d) = self.map.get_index(i);
            if d.seen_at < oldest {
                oldest = d.seen_at;
                j = i;
            }
            i = i + 1;
        }
        j
    }

    /// Records a report: a known device gets the new signal strength and time, and the new name
    /// if the report has one; an unknown device is added, after the least recently seen device
    /// was dropped when the table was full.
    pub fn record_contact(&mut self, contact: Contact)
        ensures
            final(self)@ == recorded(old(self)@, contact.addr, contact.data),
            keys_distinct(final(self)@),
            final(self)@.len() <= CONTACT_CAPACITY,
    {
        proof {
            use_type_invariant(&*self);
        }
        let ghost s = self@;
        let key = contact.addr;
        match self.map.get_index_of(&key) {
            Some(i) => {
                let (_, known) = self.map.get_index(i);
                let name = if contact.data.name.is_some() {
                    contact.data.name
                } else {
                    known.name
                };
                let merged = ContactData {
                    name,
                    rssi: contact.data.rssi,
                    seen_at: contact.data.seen_at,
                };
                let mut map = ContactMap::new();
                std::mem::swap(&mut map, &mut self.map);
                proof {
                    assert(has_key(s, key));
                    assert(key_index(s, key) == i as int);
                }
                let _ = map.insert(key, merged);
                self.map = map;
            },
            None => {
                let mut map = ContactMap::new();
                if self.map.len() == CONTACT_CAPACITY {
                    let j = self.oldest_index();
                    let (oldest_key, _) = self.map.get_index(j);
                    std::mem::swap(&mut map, &mut self.map);
                    proof {
                        assert(has_key(s, oldest_key));
                        assert(key_index(s, oldest_key) == j as int);
                        let c = choose|c: int| is_first_oldest(s, c);
                        assert(is_first_oldest(s, c));
                        assert(c == j as int);
                    }
                    let _ = map.remove(&oldest_key);
                    proof {
                        let t = contact_map_entries(map);
                        assert forall|i: int| 0 <= i < t.len() implies t[i].0 != key by {
                            if i == j as int && (j as int) < s.len() - 1 {
                                assert(t[i] == s.last());
                            } else {
                                assert(t[i] == s[i]);
                            }
                        }
                    }
                } else {
                    std::mem::swap(&mut map, &mut self.map);
                }
                let _ = map.insert(key, contact.data);
                self.map = map;
            },
        }
    }
}

/// Entry `a` is listed before entry `b` when newest first: it was seen later, or at the same
/// time and comes earlier in the table.
pub open spec fn listed_before(s: Seq<([u8; 6], ContactData)>, a: int, b: int) -> bool {
    s[a].1.seen_at > s[b].1.seen_at || (s[a].1.seen_at == s[b].1.seen_at && a < b)
}

/// `o` lists every position of the entries once, newest first, ties in table order.
pub open spec fn is_newest_first(s: Seq<([u8; 6], ContactData)>, o: Seq<usize>) -> bool {
    &&& o.len() == s.len()
    &&& forall|k: int| 0 <= k < o.len() ==> #[trigger] o[k] < s.len()
    &&& forall|x: usize| x < s.len() ==> #[trigger] o.contains(x)
    &&& forall|a: int, b: int|
        0 <= a < b < o.len() ==> listed_before(s, #[trigger] o[a] as int, #[trigger] o[b] as int)
}

/// The newest-first listing of the entries (there is exactly one, see `lemma_newest_first_unique`).
pub open spec fn newest_first(s: Seq<([u8; 6], ContactData)>) -> Seq<usize> {
    choose|o: Seq<usize>| is_newest_first(s, o)
}

proof fn lemma_sorted_same_elements_equal(
    s: Seq<([u8; 6], ContactData)>,
    o1: Seq<usize>,
    o2: Seq<usize>,
)
    requires
        o1.len() == o2.len(),
        forall|k: int| 0 <= k < o1.len() ==> #[trigger] o1[k] < s.len(),
        forall|k: int| 0 <= k < o2.len() ==> #[trigger] o2[k] < s.len(),
        forall|x: usize| o1.contains(x) <==> o2.contains(x),
        forall|a: int, b: int|
            0 <= a < b < o1.len() ==> listed_before(s, #[trigger] o1[a] as int, #[trigger] o1[b] as int),
        forall|a: int, b: int|
            0 <= a < b < o2.len() ==> listed_before(s, #[trigger] o2[a] as int, #[trigger] o2[b] as int),
    ensures
        o1 == o2,
    decreases o1.len(),
{
    if o1.len() > 0 {
        let h1 = o1[0];
        let h2 = o2[0];
        if h1 != h2 {
            assert(o2.contains(h1));
            let p = choose|p: int| 0 <= p < o2.len() && o2[p] == h1;
            assert(o1.contains(h2));
            let q = choose|q: int| 0 <= q < o1.len() && o1[q] == h2;
            assert(listed_before(s, o2[0] as int, o2[p] as int));
            assert(listed_before(s, o1[0] as int, o1[q] as int));
            assert(false);
        }
        let r1 = o1.drop_first();
        let r2 = o2.drop_first();
        assert forall|x: usize| r1.contains(x) <==> r2.contains(x) by {
            if r1.contains(x) {
                let k = choose|k: int| 0 <= k < r1.len() && r1[k] == x;
                assert(listed_before(s, o1[0] as int, o1[k + 1] as int));
                assert(x != h1);
                assert(o1.contains(x));
                assert(o2.contains(x));
                let m = choose|m: int| 0 <= m < o2.len() && o2[m] == x;
                assert(m != 0);
                assert(r2[m - 1] == x);
            }
            if r2.contains(x) {
                let k = choose|k: int| 0 <= k < r2.len() && r2[k] == x;
                assert(listed_before(s, o2[0] as int, o2[k + 1] as int));
                assert(x != h2);
                assert(o2.contains(x));
                assert(o1.contains(x));
                let m = choose|m: int| 0 <= m < o1.len() && o1[m] == x;
                assert(m != 0);
                assert(r1[m - 1] == x);
            }
        }
        assert forall|a: int, b: int| 0 <= a < b < r1.len() implies listed_before(
            s,
            #[trigger] r1[a] as int,
            #[trigger] r1[b] as int,
        ) by {
            assert(listed_before(s, o1[a + 1] as int, o1[b + 1] as int));
        }
        assert forall|a: int, b: int| 0 <= a < b < r2.len() implies listed_before(
            s,
            #[trigger] r2[a] as int,
            #[trigger] r2[b] as int,
        ) by {
            assert(listed_before(s, o2[a + 1] as int, o2[b + 1] as int));
        }
        lemma_sorted_same_elements_equal(s, r1, r2);
        assert(o1 =~= seq![h1] + r1);
        assert(o2 =~= seq![h2] + r2);
    } else {
        assert(o1 =~= o2);
    }
}

/// There is one newest-first listing of any entries: two listings that both list every
/// position once, newest first with ties in table order, are the same.
pub proof fn lemma_newest_first_unique(s: Seq<([u8; 6], ContactData)>, o1: Seq<usize>, o2: Seq<usize>)
    requires
        is_newest_first(s, o1),
        is_newest_first(s, o2),
    ensures
        o1 == o2,
{
    assert forall|x: usize| o1.contains(x) <==> o2.contains(x) by {
        if o1.contains(x) {
            let k = choose|k: int| 0 <= k < o1.len() && o1[k] == x;
            assert(o1[k] < s.len());
            assert(o2.contains(x));
        }
        if o2.contains(x) {
            let k = choose|k: int| 0 <= k < o2.len() && o2[k] == x;
            assert(o2[k] < s.len());
            assert(o1.contains(x));
        }
    }
    lemma_sorted_same_elements_equal(s, o1, o2);
}

/// The text of one row of a device list: address, signal strength in dB and name.
pub open spec fn row_text(e: ([u8; 6], ContactData)) -> Seq<char> {
    hex_joined(e.0@) + seq![' '] + decimal(e.1.rssi as int) + seq![' ', 'd', 'b', ' '] + match e.1.name {
        Some(n) => n@,
        None => Seq::<char>::empty(),
    }
}

/// The text of one row of a device list.
pub fn contact_row(e: &([u8; 6], ContactData)) -> (r: String)
    ensures
        r@ == row_text(*e),
{
    let mut s = format_bd_addr(&e.0);
    push_char(&mut s, ' ');
    push_decimal_i8(&mut s, e.1.rssi);
    push_char(&mut s, ' ');
    push_char(&mut s, 'd');
    push_char(&mut s, 'b');
    push_char(&mut s, ' ');
    match &e.1.name {
        Some(n) => {
            s.append(n.as_str());
        },
        None => {},
    }
    assert(s@ =~= row_text(*e));
    s
}

impl ContactTable {
    /// Positions of the entries, newest first, ties in table order.
    pub fn newest_first_order(&self) -> (o: Vec<usize>)
        ensures
            is_newest_first(self@, o@),
            o@ == newest_first(self@),
    {
        let n = self.len();
        let ghost s = self@;
        let mut o: Vec<usize> = Vec::new();
        let mut i: usize = 0;
        while i < n
            invariant
                n == s.len(),
                s == self@,
                i <= n,
                o@.len() == i,
                forall|k: int| 0 <= k < o@.len() ==> #[trigger] o@[k] < i,
                forall|x: usize| x < i ==> #[trigger] o@.contains(x),
                forall|a: int, b: int|
                    0 <= a < b < o@.len() ==> listed_before(s, #[trigger] o@[a] as int, #[trigger] o@[b] as int),
            decreases n - i,
        {
            let (_, d) = self.entry(i);
            let t = d.seen_at;
            let mut p: usize = 0;
            while p < o.len() && self.entry(o[p]).1.seen_at >= t
                invariant
                    n == s.len(),
                    s == self@,
                    i < n,
                    t == s[i as int].1.seen_at,
                    o@.len() == i,
                    p <= o@.len(),
                    forall|k: int| 0 <= k < o@.len() ==> #[trigger] o@[k] < i,
                    forall|q: int| 0 <= q < p ==> s[#[trigger] o@[q] as int].1.seen_at >= t,
                decreases o@.len() - p,
            {
                p = p + 1;
            }
            let ghost old_o = o@;
            o.insert(p, i);
            proof {
                assert(o@ == old_o.insert(p as int, i));
                assert forall|q: int| p <= q < old_o.len() implies s[#[trigger] old_o[q] as int].1.seen_at
                    < t by {
                    assert(s[old_o[p as int] as int].1.seen_at < t);
                    if q > p {
                        assert(listed_before(s, old_o[p as int] as int, old_o[q] as int));
                    }
                }
                assert forall|a: int, b: int| 0 <= a < b < o@.len() implies listed_before(
                    s,
                    #[trigger] o@[a] as int,
                    #[trigger] o@[b] as int,
                ) by {
                    if b < p {
                        assert(listed_before(s, old_o[a] as int, old_o[b] as int));
                    } else if b == p {
                        assert(s[old_o[a] as int].1.seen_at >= t);
                    } else if a < p {
                        assert(listed_before(s, old_o[a] as int, old_o[b - 1] as int));
                    } else if a == p {
                        assert(s[old_o[b - 1] as int].1.seen_at < t);
                    } else {
                        assert(listed_before(s, old_o[a - 1] as int, old_o[b - 1] as int));
                    }
                }
                assert forall|x: usize| x < i + 1 implies #[trigger] o@.contains(x) by {
                    if x < i {
                        assert(old_o.contains(x));
                        let k = choose|k: int| 0 <= k < old_o.len() && old_o[k] == x;
                        if k < p {
                            assert(o@[k] == x);
                        } else {
                            assert(o@[k + 1] == x);
                        }
                    } else {
                        assert(o@[p as int] == i);
                    }
                }
            }
            i = i + 1;
        }
        proof {
            assert(is_newest_first(s, o@));
            lemma_newest_first_unique(s, o@, newest_first(s));
        }
        o
    }

    /// The rows of a device list, newest first.
    pub fn rows(&self) -> (r: Vec<String>)
        ensures
            r@.len() == self@.len(),
            forall|k: int|
                0 <= k < r@.len() ==> #[trigger] r@[k]@ == row_text(self@[newest_first(self@)[k] as int]),
    {
        let order = self.newest_first_order();
        let mut rows: Vec<String> = Vec::new();
        let mut k: usize = 0;
        while k < order.len()
            invariant
                order@ == newest_first(self@),
                is_newest_first(self@, order@),
                k <= order@.len(),
                rows@.len() == k,
                forall|m: int|
                    0 <= m < k ==> #[trigger] rows@[m]@ == row_text(self@[order@[m] as int]),
            decreases order@.len() - k,
        {
            let e = self.entry(order[k]);
            rows.push(contact_row(&e));
            k = k + 1;
        }
        rows
    }
}

/// After a report, the table holds the reporting device once, with the report's signal strength
/// and time and the report's name (or, when the report has none, the name it had before); the
/// table still holds at most 32 devices, each once. Every other device keeps its entry, except
/// the least recently seen one, which is dropped when a new device arrives at a full table.
pub proof fn lemma_record_then_lookup(s: Seq<([u8; 6], ContactData)>, k: [u8; 6], d: ContactData)
    requires
        keys_distinct(s),
        s.len() <= CONTACT_CAPACITY,
    ensures
        keys_distinct(recorded(s, k, d)),
        recorded(s, k, d).len() <= CONTACT_CAPACITY,
        has_key(recorded(s, k, d), k),
        ({
            let e = recorded(s, k, d)[key_index(recorded(s, k, d), k)].1;
            &&& e.rssi == d.rssi
            &&& e.seen_at == d.seen_at
            &&& e.name == (if d.name is Some {
                d.name
            } else if has_key(s, k) {
                s[key_index(s, k)].1.name
            } else {
                None
            })
        }),
        forall|i: int|
            0 <= i < s.len() && s[i].0 != k && !(!has_key(s, k) && s.len() >= CONTACT_CAPACITY
                && is_first_oldest(s, i)) ==> #[trigger] has_key(recorded(s, k, d), s[i].0)
                && recorded(s, k, d)[key_index(recorded(s, k, d), s[i].0)] == s[i],
{
    let r = recorded(s, k, d);
    if has_key(s, k) {
        let i = key_index(s, k);
        assert(r[i].0 == k);
        assert(keys_distinct(r));
        assert(key_index(r, k) == i);
        assert forall|m: int|
            0 <= m < s.len() && s[m].0 != k && !(!has_key(s, k) && s.len() >= CONTACT_CAPACITY
                && is_first_oldest(s, m)) implies #[trigger] has_key(r, s[m].0)
            && r[key_index(r, s[m].0)] == s[m] by {
            assert(r[m] == s[m]);
            assert(key_index(r, s[m].0) == m);
        }
    } else if s.len() >= CONTACT_CAPACITY {
        let j = choose|j: int| is_first_oldest(s, j);
        lemma_first_oldest_exists(s);
        assert(is_first_oldest(s, j));
        let t = swap_remove_at(s, j);
        assert(r == t.push((k, d)));
        assert forall|m: int| 0 <= m < t.len() implies #[trigger] t[m] == s[if m == j {
            s.len() - 1
        } else {
            m
        }] by {}
        assert(keys_distinct(r)) by {
            assert forall|a: int, b: int|
                0 <= a < r.len() && 0 <= b < r.len() && a != b implies r[a].0 != r[b].0 by {
                if a < t.len() && b < t.len() {
                    let sa = if a == j { s.len() - 1 } else { a };
                    let sb = if b == j { s.len() - 1 } else { b };
                    assert(t[a] == s[sa]);
                    assert(t[b] == s[sb]);
                } else if a < t.len() {
                    let sa = if a == j { s.len() - 1 } else { a };
                    assert(t[a] == s[sa]);
                } else if b < t.len() {
                    let sb = if b == j { s.len() - 1 } else { b };
                    assert(t[b] == s[sb]);
                }
            }
        }
        assert(r[t.len() as int].0 == k);
        assert(key_index(r, k) == t.len());
        assert forall|m: int|
            0 <= m < s.len() && s[m].0 != k && !(!has_key(s, k) && s.len() >= CONTACT_CAPACITY
                && is_first_oldest(s, m)) implies #[trigger] has_key(r, s[m].0)
            && r[key_index(r, s[m].0)] == s[m] by {
            assert(m != j);
            let p = if m == s.len() - 1 { j } else { m };
            assert(r[p] == s[m]);
            assert(key_index(r, s[m].0) == p);
        }
    } else {
        assert(r[s.len() as int].0 == k);
        assert(keys_distinct(r));
        assert(key_index(r, k) == s.len());
        assert forall|m: int|
            0 <= m < s.len() && s[m].0 != k && !(!has_key(s, k) && s.len() >= CONTACT_CAPACITY
                && is_first_oldest(s, m)) implies #[trigger] has_key(r, s[m].0)
            && r[key_index(r, s[m].0)] == s[m] by {
            assert(r[m] == s[m]);
            assert(key_index(r, s[m].0) == m);
        }
    }
}

/// A table that is not empty has a first least recently seen entry.
pub proof fn lemma_first_oldest_exists(s: Seq<([u8; 6], ContactData)>)
    requires
        s.len() > 0,
    ensures
        exists|j: int| is_first_oldest(s, j),
    decreases s.len(),
{
    if s.len() == 1 {
        assert(is_first_oldest(s, 0));
    } else {
        let t = s.drop_last();
        lemma_first_oldest_exists(t);
        let j = choose|j: int| is_first_oldest(t, j);
        assert forall|i: int| 0 <= i < t.len() implies #[trigger] s[i] == t[i] by {}
        if s.last().1.seen_at < t[j].1.seen_at {
            assert(is_first_oldest(s, s.len() - 1));
        } else {
            assert(is_first_oldest(s, j));
        }
    }
}

/// `o` lists the positions below `n` once each, newest first, ties in table order.
pub open spec fn orders_first(s: Seq<([u8; 6], ContactData)>, o: Seq<usize>, n: nat) -> bool {
    &&& o.len() == n
    &&& forall|k: int| 0 <= k < o.len() ==> #[trigger] o[k] < n
    &&& forall|x: usize| x < n ==> #[trigger] o.contains(x)
    &&& forall|a: int, b: int|
        0 <= a < b < o.len() ==> listed_before(s, #[trigger] o[a] as int, #[trigger] o[b] as int)
}

/// The first position of a listing whose entry was seen before `t`, from position `p` on.
spec fn insert_pos(s: Seq<([u8; 6], ContactData)>, o: Seq<usize>, t: u64, p: nat) -> nat
    decreases o.len() - p,
{
    if p >= o.len() || s[o[p as int] as int].1.seen_at < t {
        p
    } else {
        insert_pos(s, o, t, p + 1)
    }
}

proof fn lemma_insert_pos(s: Seq<([u8; 6], ContactData)>, o: Seq<usize>, t: u64, p: nat)
    requires
        p <= o.len(),
        forall|q: int| 0 <= q < p ==> s[#[trigger] o[q] as int].1.seen_at >= t,
    ensures
        p <= insert_pos(s, o, t, p) <= o.len(),
        forall|q: int| 0 <= q < insert_pos(s, o, t, p) ==> s[#[trigger] o[q] as int].1.seen_at >= t,
        insert_pos(s, o, t, p) < o.len() ==> s[o[insert_pos(s, o, t, p) as int] as int].1.seen_at < t,
    decreases o.len() - p,
{
    if !(p >= o.len() || s[o[p as int] as int].1.seen_at < t) {
        lemma_insert_pos(s, o, t, p + 1);
    }
}

proof fn lemma_orders_first_exist(s: Seq<([u8; 6], ContactData)>, n: nat)
    requires
        n <= s.len(),
        s.len() <= usize::MAX,
    ensures
        exists|o: Seq<usize>| #[trigger] orders_first(s, o, n),
    decreases n,
{
    if n == 0 {
        assert(orders_first(s, Seq::<usize>::empty(), 0));
    } else {
        lemma_orders_first_exist(s, (n - 1) as nat);
        let o = choose|o: Seq<usize>| #[trigger] orders_first(s, o, (n - 1) as nat);
        let i = (n - 1) as usize;
        let t = s[i as int].1.seen_at;
        lemma_insert_pos(s, o, t, 0);
        let p = insert_pos(s, o, t, 0) as int;
        let o2 = o.insert(p, i);
        assert forall|q: int| p <= q < o.len() implies s[#[trigger] o[q] as int].1.seen_at < t by {
            assert(s[o[p] as int].1.seen_at < t);
            if q > p {
                assert(listed_before(s, o[p] as int, o[q] as int));
            }
        }
        assert forall|a: int, b: int| 0 <= a < b < o2.len() implies listed_before(
            s,
            #[trigger] o2[a] as int,
            #[trigger] o2[b] as int,
        ) by {
            if b < p {
                assert(listed_before(s, o[a] as int, o[b] as int));
            } else if b == p {
                assert(s[o[a] as int].1.seen_at >= t);
            } else if a < p {
                assert(listed_before(s, o[a] as int, o[b - 1] as int));
            } else if a == p {
                assert(s[o[b - 1] as int].1.seen_at < t);
            } else {
                assert(listed_before(s, o[a - 1] as int, o[b - 1] as int));
            }
        }
        assert forall|x: usize| x < n implies #[trigger] o2.contains(x) by {
            if x < i {
                assert(o.contains(x));
                let k = choose|k: int| 0 <= k < o.len() && o[k] == x;
                if k < p {
                    assert(o2[k] == x);
                } else {
                    assert(o2[k + 1] == x);
                }
            } else {
                assert(o2[p] == i);
            }
        }
        assert forall|k: int| 0 <= k < o2.len() implies #[trigger] o2[k] < n by {
            if k < p {
                assert(o2[k] == o[k]);
            } else if k > p {
                assert(o2[k] == o[k - 1]);
            }
        }
        assert(orders_first(s, o2, n));
    }
}

/// Every table has its newest-first listing.
pub proof fn lemma_newest_first_exists(s: Seq<([u8; 6], ContactData)>)
    requires
        s.len() <= usize::MAX,
    ensures
        is_newest_first(s, newest_first(s)),
{
    lemma_orders_first_exist(s, s.len());
    let o = choose|o: Seq<usize>| #[trigger] orders_first(s, o, s.len());
    assert(is_newest_first(s, o));
}

} // verus!
