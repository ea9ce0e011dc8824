use crate::gateway::VaultError;
use crate::principal::Principal;
use vstd::prelude::*;
use vstd::string::StrSliceExecFns;

verus! {

/// The labelled records that a sequence of (label, seed text) pairs stands for:
/// a later pair overrides an earlier one with the same label.
pub open spec fn record_map(s: Seq<(String, String)>) -> Map<Seq<char>, Seq<char>>
    decreases s.len(),
{
    if s.len() == 0 {
        Map::empty()
    } else {
        record_map(s.drop_last()).insert(s.last().0@, s.last().1@)
    }
}

/// The identities that a sequence of principals stands for, in order.
pub open spec fn identities(s: Seq<Principal>) -> Seq<Seq<u8>> {
    s.map_values(|p: Principal| p@)
}

/// The custodian list with every occurrence of `p` taken out.
pub open spec fn without(s: Seq<Seq<u8>>, p: Seq<u8>) -> Seq<Seq<u8>> {
    s.filter(other_than(p))
}

/// Holds of every identity but `p`.
pub open spec fn other_than(p: Seq<u8>) -> spec_fn(Seq<u8>) -> bool {
    |x: Seq<u8>| x != p
}

/// Taking out an identity that is not on the list leaves the list as it is.
pub proof fn lemma_without_absent(s: Seq<Seq<u8>>, p: Seq<u8>)
    requires
        !s.contains(p),
    ensures
        without(s, p) == s,
    decreases s.len(),
{
    reveal(Seq::filter);
    if s.len() > 0 {
        assert(!s.drop_last().contains(p)) by {
            if s.drop_last().contains(p) {
                let k = choose|k: int| 0 <= k < s.drop_last().len() && s.drop_last()[k] == p;
                assert(s[k] == p);
            }
        }
        lemma_without_absent(s.drop_last(), p);
        assert(s.last() != p) by {
            assert(s[s.len() - 1] == s.last());
        }
        assert(s.drop_last().push(s.last()) =~= s);
    }
}

/// Taking out an identity takes out all of its occurrences, and keeps every
/// other identity.
pub proof fn lemma_without_removes_all(s: Seq<Seq<u8>>, p: Seq<u8>)
    ensures
        !without(s, p).contains(p),
        forall|q: Seq<u8>| q != p ==> (without(s, p).contains(q) <==> s.contains(q)),
{
    let f = other_than(p);
    if without(s, p).contains(p) {
        let k = choose|k: int| 0 <= k < without(s, p).len() && without(s, p)[k] == p;
        s.lemma_filter_pred(f, k);
    }
    assert forall|q: Seq<u8>| q != p implies (without(s, p).contains(q) <==> s.contains(q)) by {
        if s.contains(q) {
            let k = choose|k: int| 0 <= k < s.len() && s[k] == q;
            s.lemma_filter_contains(f, k);
        }
        if without(s, p).contains(q) {
            s.lemma_filter_contains_rev(f, q);
        }
    }
}

/// The abstract state of the store: the custodian list, in order and with
/// repetitions, and the seed text stored under each label.
pub struct AccountsView {
    pub custodians: Seq<Seq<u8>>,
    pub records: Map<Seq<char>, Seq<char>>,
}

/// The store of a vault: the custodians and the seed records under their labels.
pub struct Accounts {
    custodians: Vec<Principal>,
    records: Vec<(String, String)>,
}

impl Accounts {
    /// Each label stands in one pair only.
    #[verifier::type_invariant]
    spec fn wf(&self) -> bool {
        distinct_labels(self.records@)
    }
}

impl View for Accounts {
    type V = AccountsView;

    closed spec fn view(&self) -> AccountsView {
        AccountsView { custodians: identities(self.custodians@), records: record_map(self.records@) }
    }
}

/// Whether two labels hold the same characters.
fn same_text(a: &str, b: &str) -> (r: bool)
    ensures
        r == (a@ == b@),
{
    let n = a.unicode_len();
    if n != b.unicode_len() {
        return false;
    }
    let mut i: usize = 0;
    while i < n
        invariant
            n == a@.len(),
            n == b@.len(),
            i <= n,
            forall|j: int| 0 <= j < i ==> a@[j] == b@[j],
        decreases n - i,
    {
        if a.get_char(i) != b.get_char(i) {
            return false;
        }
        i = i + 1;
    }
    proof {
        assert(a@ =~= b@);
    }
    true
}

/// A copy of a string.
fn copy_string(s: &String) -> (r: String)
    ensures
        r@ == s@,
{
    s.clone()
}

/// Taking out the pairs with one label takes that label out of the records.
proof fn lemma_record_map_drop_label(s: Seq<(String, String)>, i: int, label: Seq<char>)
    requires
        0 <= i < s.len(),
    ensures
        s[i].0@ == label ==> record_map(s.subrange(0, i + 1)).remove(label) =~= record_map(
            s.subrange(0, i),
        ).remove(label),
        s[i].0@ != label ==> record_map(s.subrange(0, i + 1)).remove(label) =~= record_map(
            s.subrange(0, i),
        ).remove(label).insert(s[i].0@, s[i].1@),
{
    assert(s.subrange(0, i + 1).drop_last() =~= s.subrange(0, i));
}

/// Pairs after position `i` that carry other labels leave `label`'s record as
/// the first `i` pairs make it.
proof fn lemma_record_map_later_labels(s: Seq<(String, String)>, i: int, label: Seq<char>)
    requires
        0 <= i <= s.len(),
        forall|j: int| i <= j < s.len() ==> s[j].0@ != label,
    ensures
        record_map(s).contains_key(label) == record_map(s.subrange(0, i)).contains_key(label),
        record_map(s)[label] == record_map(s.subrange(0, i))[label],
    decreases s.len(),
{
    if s.len() > i {
        assert(s.drop_last().subrange(0, i) =~= s.subrange(0, i));
        lemma_record_map_later_labels(s.drop_last(), i, label);
    } else {
        assert(s.subrange(0, i) =~= s);
    }
}

/// No two pairs carry the same label.
pub open spec fn distinct_labels(s: Seq<(String, String)>) -> bool {
    forall|i: int, j: int| 0 <= i < j < s.len() ==> s[i].0@ != s[j].0@
}

/// The pairs of `records` whose label is not `name`, in order.
fn without_label(records: &Vec<(String, String)>, name: &str) -> (r: Vec<(String, String)>)
    requires
        distinct_labels(records@),
    ensures
        record_map(r@) == record_map(records@).remove(name@),
        distinct_labels(r@),
        forall|m: int| 0 <= m < r@.len() ==> r@[m].0@ != name@,
{
    let mut kept: Vec<(String, String)> = Vec::new();
    let mut i: usize = 0;
    while i < records.len()
        invariant
            i <= records@.len(),
            distinct_labels(records@),
            record_map(kept@) == record_map(records@.subrange(0, i as int)).remove(name@),
            distinct_labels(kept@),
            forall|m: int| 0 <= m < kept@.len() ==> kept@[m].0@ != name@,
            forall|m: int|
                #![trigger kept@[m]]
                0 <= m < kept@.len() ==> exists|j: int| 0 <= j < i && #[trigger] records@[j].0@
                    == kept@[m].0@,
        decreases records@.len() - i,
    {
        proof {
            lemma_record_map_drop_label(records@, i as int, name@);
        }
        if !same_text(records[i].0.as_str(), name) {
            let pair = (copy_string(&records[i].0), copy_string(&records[i].1));
            let ghost prev = kept@;
            kept.push(pair);
            proof {
                assert(kept@.drop_last() =~= prev);
                assert forall|m: int| #![trigger kept@[m]] 0 <= m < kept@.len() - 1 implies kept@[m].0@
                    != records@[i as int].0@ by {
                    let j = choose|j: int| 0 <= j < i && #[trigger] records@[j].0@ == prev[m].0@;
                    assert(records@[j].0@ != records@[i as int].0@);
                }
                assert forall|m: int| #![trigger kept@[m]] 0 <= m < kept@.len() implies exists|j: int|
                    0 <= j < i + 1 && #[trigger] records@[j].0@ == kept@[m].0@ by {
                    if m == kept@.len() - 1 {
                        assert(records@[i as int].0@ == kept@[m].0@);
                    } else {
                        let j = choose|j: int| 0 <= j < i && #[trigger] records@[j].0@ == prev[m].0@;
                        assert(records@[j].0@ == kept@[m].0@);
                    }
                }
            }
        } else {
            proof {
                assert forall|m: int| #![trigger kept@[m]] 0 <= m < kept@.len() implies exists|j: int|
                    0 <= j < i + 1 && #[trigger] records@[j].0@ == kept@[m].0@ by {
                    let j = choose|j: int| 0 <= j < i && #[trigger] records@[j].0@ == kept@[m].0@;
                    assert(records@[j].0@ == kept@[m].0@);
                }
            }
        }
        i = i + 1;
    }
    proof {
        assert(records@.subrange(0, i as int) =~= records@);
    }
    kept
}

impl Default for Accounts {
    fn default() -> (r: Accounts)
        ensures
            r@.custodians =~= Seq::<Seq<u8>>::empty(),
            r@.records =~= Map::<Seq<char>, Seq<char>>::empty(),
    {
        Accounts::new()
    }
}

impl Accounts {
    /// An empty store: no custodian, no record.
    pub fn new() -> (r: Accounts)
        ensures
            r@.custodians =~= Seq::<Seq<u8>>::empty(),
            r@.records =~= Map::<Seq<char>, Seq<char>>::empty(),
    {
        let r = Accounts { custodians: Vec::new(), records: Vec::new() };
        proof {
            assert(identities(r.custodians@) =~= Seq::<Seq<u8>>::empty());
        }
        r
    }

    /// A copy of the custodian list, in order.
    pub fn custodians(&self) -> (r: Vec<Principal>)
        ensures
            identities(r@) == self@.custodians,
    {
        let mut r: Vec<Principal> = Vec::new();
        let mut i: usize = 0;
        while i < self.custodians.len()
            invariant
                i <= self.custodians@.len(),
                r@.len() == i,
                forall|j: int| 0 <= j < i ==> r@[j]@ == self.custodians@[j]@,
            decreases self.custodians@.len() - i,
        {
            r.push(self.custodians[i].duplicate());
            i = i + 1;
        }
        proof {
            assert(identities(r@) =~= identities(self.custodians@));
        }
        r
    }

    /// Whether `p` is on the custodian list.
    pub fn is_custodian(&self, p: &Principal) -> (r: bool)
        ensures
            r == self@.custodians.contains(p@),
    {
        let mut i: usize = 0;
        while i < self.custodians.len()
            invariant
                i <= self.custodians@.len(),
                forall|j: int| 0 <= j < i ==> self.custodians@[j]@ != p@,
            decreases self.custodians@.len() - i,
        {
            if self.custodians[i].same_as(p) {
                proof {
                    assert(identities(self.custodians@)[i as int] == p@);
                }
                return true;
            }
            i = i + 1;
        }
        proof {
            if identities(self.custodians@).contains(p@) {
                let k = choose|k: int|
                    0 <= k < identities(self.custodians@).len() && identities(
                        self.custodians@,
                    )[k] == p@;
                assert(self.custodians@[k]@ == p@);
            }
        }
        false
    }

    /// Appends `caller` to the custodian list; a repeated identity is kept twice.
    pub fn add_custodian(&mut self, caller: Principal)
        ensures
            final(self)@.custodians == old(self)@.custodians.push(caller@),
            final(self)@.records == old(self)@.records,
    {
        proof {
            use_type_invariant(&*self);
        }
        let mut list: Vec<Principal> = Vec::new();
        std::mem::swap(&mut list, &mut self.custodians);
        let ghost id = caller@;
        list.push(caller);
        proof {
            assert(identities(list@) =~= identities(old(self).custodians@).push(id));
        }
        self.custodians = list;
    }

    /// Takes every occurrence of `caller` out of the custodian list.
    pub fn remove_custodian(&mut self, caller: Principal)
        ensures
            final(self)@.custodians == without(old(self)@.custodians, caller@),
            final(self)@.records == old(self)@.records,
    {
        proof {
            use_type_invariant(&*self);
        }
        let ghost before = identities(self.custodians@);
        let mut kept: Vec<Principal> = Vec::new();
        let mut i: usize = 0;
        while i < self.custodians.len()
            invariant
                i <= self.custodians@.len(),
                before == identities(self.custodians@),
                identities(kept@) == without(before.subrange(0, i as int), caller@),
            decreases self.custodians@.len() - i,
        {
            proof {
                reveal(Seq::filter);
                assert(before.subrange(0, i + 1).drop_last() =~= before.subrange(0, i as int));
            }
            if !self.custodians[i].same_as(&caller) {
                let p = self.custodians[i].duplicate();
                let ghost prev = kept@;
                kept.push(p);
                proof {
                    assert(kept@.drop_last() =~= prev);
                    assert(identities(kept@) =~= identities(prev).push(p@));
                }
            }
            i = i + 1;
        }
        proof {
            assert(before.subrange(0, i as int) =~= before);
        }
        self.custodians = kept;
    }

    /// Stores `account` under `name` if the seed text parses, replacing what
    /// was stored there. `diagnostic` is the parser's verdict on `account`:
    /// `None` when it parses, else the description of the failure, which comes
    /// back as the error while the store stays as it was.
    pub fn insert(&mut self, name: String, account: String, diagnostic: Option<String>) -> (r:
        Result<(), VaultError>)
        ensures
            diagnostic is Some ==> r is Err && r->Err_0 is MalformedSeed
                && r->Err_0->MalformedSeed_0@ == diagnostic->Some_0@ && final(self)@ == old(
                self,
            )@,
            diagnostic is None ==> r is Ok && final(self)@.records == old(self)@.records.insert(
                name@,
                account@,
            ) && final(self)@.custodians == old(self)@.custodians,
    {
        match diagnostic {
            Some(d) => Err(VaultError::MalformedSeed(d)),
            None => {
                self.put(name, account);
                Ok(())
            },
        }
    }

    /// Stores `account` under `name` as it is, replacing what was stored there;
    /// for records that were checked before, such as a saved store.
    pub(crate) fn put(&mut self, name: String, account: String)
        ensures
            final(self)@.records == old(self)@.records.insert(name@, account@),
            final(self)@.custodians == old(self)@.custodians,
    {
        proof {
            use_type_invariant(&*self);
        }
        let mut recs = without_label(&self.records, name.as_str());
        let ghost mid = recs@;
        recs.push((name, account));
        proof {
            assert(recs@.drop_last() =~= mid);
            assert(record_map(recs@) =~= record_map(old(self).records@).insert(name@, account@));
            assert forall|i: int, j: int| 0 <= i < j < recs@.len() implies recs@[i].0@
                != recs@[j].0@ by {
                if j == recs@.len() - 1 {
                    assert(mid[i].0@ != name@);
                } else {
                    assert(mid[i] == recs@[i] && mid[j] == recs@[j]);
                }
            }
        }
        self.records = recs;
    }

    /// Deletes the record under `name`, if there is one.
    pub fn remove(&mut self, name: String)
        ensures
            final(self)@.records == old(self)@.records.remove(name@),
            final(self)@.custodians == old(self)@.custodians,
    {
        proof {
            use_type_invariant(&*self);
        }
        self.records = without_label(&self.records, name.as_str());
    }

    /// A copy of the stored (label, seed text) pairs, one per label.
    pub fn records(&self) -> (r: Vec<(String, String)>)
        ensures
            record_map(r@) == self@.records,
            distinct_labels(r@),
    {
        proof {
            use_type_invariant(self);
        }
        let mut r: Vec<(String, String)> = Vec::new();
        let mut i: usize = 0;
        while i < self.records.len()
            invariant
                i <= self.records@.len(),
                distinct_labels(self.records@),
                r@.len() == i,
                forall|m: int| 0 <= m < i ==> #[trigger] r@[m].0@ == self.records@[m].0@,
                record_map(r@) == record_map(self.records@.subrange(0, i as int)),
            decreases self.records@.len() - i,
        {
            let pair = (copy_string(&self.records[i].0), copy_string(&self.records[i].1));
            let ghost prev = r@;
            r.push(pair);
            proof {
                assert(r@.drop_last() =~= prev);
                assert(self.records@.subrange(0, i + 1).drop_last() =~= self.records@.subrange(
                    0,
                    i as int,
                ));
            }
            i = i + 1;
        }
        proof {
            assert(self.records@.subrange(0, i as int) =~= self.records@);
        }
        r
    }

    /// The seed text stored under `account`, if any.
    pub fn get(&self, account: &str) -> (r: Option<String>)
        ensures
            r.is_some() == self@.records.contains_key(account@),
            r.is_some() ==> r.unwrap()@ == self@.records[account@],
    {
        let mut i: usize = self.records.len();
        while i > 0
            invariant
                i <= self.records@.len(),
                forall|j: int| i <= j < self.records@.len() ==> self.records@[j].0@ != account@,
            decreases i,
        {
            i = i - 1;
            if same_text(self.records[i].0.as_str(), account) {
                proof {
                    lemma_record_map_later_labels(self.records@, i + 1, account@);
                    assert(self.records@.subrange(0, i + 1).drop_last() =~= self.records@.subrange(
                        0,
                        i as int,
                    ));
                }
                return Some(copy_string(&self.records[i].1));
            }
        }
        proof {
            lemma_record_map_later_labels(self.records@, 0, account@);
        }
        None
    }
}

} // verus!
