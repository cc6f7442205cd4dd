//! Persistent state of the resolver: the singleton configuration and the
//! write-once store of address records, modelled as maps from username to
//! record contents.

use vstd::prelude::*;
use vstd::map::*;

use crate::canon::{canon, canonicalize, unique_prefixes};
use crate::address::pair_valid;
use crate::error::ContractError;
use crate::order::str_eq;

verus! {

/// Contract configuration, set once at instantiation.
pub struct Config {
    /// Principals permitted to bypass ownership checks.
    pub admins: Vec<String>,
    /// Principals permitted to register names.
    pub registrar_addresses: Vec<String>,
    /// The name-ownership token contract.
    pub name_address: String,
    /// When false, token transfer (and everything gated on it) is frozen.
    pub transferrable: bool,
}

/// One stored record: a username, the principal that was authoritative for
/// it at write time, and its (prefix, address) pairs in canonical order.
pub struct Record {
    pub username: String,
    pub owner: String,
    pub addresses: Vec<(String, String)>,
}

/// The durable store: configuration plus the list of records, one per
/// registered username.
pub struct Registry {
    pub config: Config,
    pub records: Vec<Record>,
}

/// The (prefix, address) pairs of a record, as sequences of characters.
pub open spec fn pairs_view(v: Seq<(String, String)>) -> Seq<(Seq<char>, Seq<char>)> {
    v.map_values(|p: (String, String)| (p.0@, p.1@))
}

/// The first record in `records` whose username reads `name`, if any.
pub open spec fn spec_lookup(records: Seq<Record>, name: Seq<char>) -> Option<Record>
    decreases records.len(),
{
    if records.len() == 0 {
        None
    } else if records[0].username@ == name {
        Some(records[0])
    } else {
        spec_lookup(records.drop_first(), name)
    }
}

impl Registry {
    /// Well-formed: no two records share a username.
    pub open spec fn wf(self) -> bool {
        forall|i: int, j: int|
            0 <= i < j < self.records@.len() ==> self.records@[i].username@
                != self.records@[j].username@
    }

    /// Whether `name` has a record.
    pub open spec fn has_record(self, name: Seq<char>) -> bool {
        spec_lookup(self.records@, name) is Some
    }

    /// username -> canonical address list.
    pub open spec fn addr_map(self) -> Map<Seq<char>, Seq<(Seq<char>, Seq<char>)>> {
        Map::new(
            |n: Seq<char>| spec_lookup(self.records@, n) is Some,
            |n: Seq<char>| pairs_view(spec_lookup(self.records@, n)->Some_0.addresses@),
        )
    }

    /// username -> owning principal recorded at write time.
    pub open spec fn owner_map(self) -> Map<Seq<char>, Seq<char>> {
        Map::new(
            |n: Seq<char>| spec_lookup(self.records@, n) is Some,
            |n: Seq<char>| spec_lookup(self.records@, n)->Some_0.owner@,
        )
    }
}

/// A record is found exactly when some entry carries its name; the first
/// such entry is the one returned.
proof fn lemma_lookup_index(records: Seq<Record>, name: Seq<char>)
    ensures
        spec_lookup(records, name) is None <==> forall|k: int|
            0 <= k < records.len() ==> records[k].username@ != name,
        spec_lookup(records, name) matches Some(rec) ==> exists|k: int|
            0 <= k < records.len() && records[k] == rec && records[k].username@ == name,
    decreases records.len(),
{
    if records.len() > 0 {
        let rest = records.drop_first();
        lemma_lookup_index(rest, name);
        if records[0].username@ == name {
            assert(!(forall|k: int| 0 <= k < records.len() ==> records[k].username@ != name));
        } else {
            assert(spec_lookup(records, name) == spec_lookup(rest, name));
            if spec_lookup(rest, name) is None {
                assert forall|k: int| 0 <= k < records.len() implies records[k].username@
                    != name by {
                    if k > 0 {
                        assert(rest[k - 1] == records[k]);
                    }
                }
            } else {
                let rec = spec_lookup(rest, name)->Some_0;
                let k = choose|k: int| 0 <= k < rest.len() && rest[k] == rec && rest[k].username@
                    == name;
                assert(records[k + 1] == rec);
            }
        }
    }
}

/// Looking a name up when its first match is at index `i`.
proof fn lemma_lookup_first_match(records: Seq<Record>, name: Seq<char>, i: int)
    requires
        0 <= i < records.len(),
        records[i].username@ == name,
        forall|k: int| 0 <= k < i ==> records[k].username@ != name,
    ensures
        spec_lookup(records, name) == Some(records[i]),
    decreases i,
{
    if i > 0 {
        lemma_lookup_first_match(records.drop_first(), name, i - 1);
    }
}

/// Appending a record only adds a binding for its own (fresh) name.
proof fn lemma_lookup_push(records: Seq<Record>, rec: Record, name: Seq<char>)
    ensures
        spec_lookup(records.push(rec), name) == (if spec_lookup(records, name) is Some {
            spec_lookup(records, name)
        } else if rec.username@ == name {
            Some(rec)
        } else {
            None
        }),
    decreases records.len(),
{
    let p = records.push(rec);
    if records.len() == 0 {
        assert(p.len() == 1);
        assert(p[0] == rec);
        assert(p.drop_first() =~= Seq::<Record>::empty());
        assert(spec_lookup(p.drop_first(), name) is None);
        if rec.username@ == name {
            assert(spec_lookup(p, name) == Some(rec));
        } else {
            assert(spec_lookup(p, name) is None);
        }
    } else {
        assert(p[0] == records[0]);
        assert(p.drop_first() =~= records.drop_first().push(rec));
        lemma_lookup_push(records.drop_first(), rec, name);
        if records[0].username@ == name {
            assert(spec_lookup(p, name) == Some(p[0]));
            assert(spec_lookup(records, name) == Some(records[0]));
        } else {
            assert(spec_lookup(p, name) == spec_lookup(p.drop_first(), name));
            assert(spec_lookup(records, name) == spec_lookup(records.drop_first(), name));
        }
    }
}

/// The index of the record for `name`, if one exists.
fn find_record(records: &Vec<Record>, name: &str) -> (r: Option<usize>)
    ensures
        match r {
            Some(i) => i < records@.len() && spec_lookup(records@, name@) == Some(records@[i as int])
                && records@[i as int].username@ == name@,
            None => spec_lookup(records@, name@) is None,
        },
{
    let n = records.len();
    let mut i: usize = 0;
    while i < n
        invariant
            i <= n,
            n == records@.len(),
            forall|k: int| 0 <= k < i ==> records@[k].username@ != name@,
        decreases n - i,
    {
        if str_eq(records[i].username.as_str(), name) {
            proof {
                lemma_lookup_first_match(records@, name@, i as int);
            }
            return Some(i);
        }
        i = i + 1;
    }
    proof {
        lemma_lookup_index(records@, name@);
    }
    None
}

/// A copy of an address list with the same character sequences.
pub fn clone_addresses(v: &Vec<(String, String)>) -> (r: Vec<(String, String)>)
    ensures
        r@ == v@,
{
    let n = v.len();
    let mut out: Vec<(String, String)> = Vec::new();
    let mut i: usize = 0;
    while i < n
        invariant
            i <= n,
            n == v@.len(),
            out@ == v@.take(i as int),
        decreases n - i,
    {
        out.push(crate::canon::clone_pair(&v[i]));
        proof {
            assert(out@ =~= v@.take(i as int + 1));
        }
        i = i + 1;
    }
    proof {
        assert(v@.take(n as int) =~= v@);
    }
    out
}

impl Registry {
    /// Pure read: the stored address list for `username`, in canonical
    /// order, or absence. Never fails.
    pub fn get_record(&self, username: &str) -> (r: Option<Vec<(String, String)>>)
        ensures
            match r {
                Some(v) => self.has_record(username@) && pairs_view(v@)
                    == self.addr_map()[username@],
                None => !self.has_record(username@),
            },
    {
        match find_record(&self.records, username) {
            Some(i) => Some(clone_addresses(&self.records[i].addresses)),
            None => None,
        }
    }

    /// Commits a fresh record, or fails with `AlreadyRegistered` when the
    /// username is already bound (write-once), leaving the store unchanged.
    /// The stored list is the canonical form of `addresses`.
    pub fn put_record(
        &mut self,
        username: String,
        owner: String,
        addresses: Vec<(String, String)>,
    ) -> (r: Result<(), ContractError>)
        requires
            old(self).wf(),
            unique_prefixes(pairs_view(addresses@)),
            forall|k: int|
                0 <= k < addresses@.len() ==> pair_valid(#[trigger] pairs_view(addresses@)[k]),
        ensures
            final(self).wf(),
            final(self).config == old(self).config,
            r is Ok <==> !old(self).has_record(username@),
            r matches Err(e) ==> (e matches ContractError::AlreadyRegistered { username: u }
                && u@ == username@) && *final(self) == *old(self),
            r is Ok ==> final(self).addr_map() == old(self).addr_map().insert(
                username@,
                canon(pairs_view(addresses@)),
            ) && final(self).owner_map() == old(self).owner_map().insert(username@, owner@),
    {
        match find_record(&self.records, username.as_str()) {
            Some(_) => Err(ContractError::AlreadyRegistered { username }),
            None => {
                let canonical = canonicalize(&addresses);
                let ghost old_records = self.records@;
                let ghost uname = username@;
                let rec = Record { username, owner, addresses: canonical };
                self.records.push(rec);
                proof {
                    lemma_lookup_index(old_records, uname);
                    assert forall|i: int, j: int|
                        0 <= i < j < self.records@.len() implies self.records@[i].username@
                        != self.records@[j].username@ by {
                        if j < old_records.len() {
                        } else {
                            assert(self.records@[j] == rec);
                            assert(self.records@[i] == old_records[i]);
                        }
                    }
                    assert forall|n: Seq<char>| true implies #[trigger] spec_lookup(
                        self.records@,
                        n,
                    ) == (if spec_lookup(old_records, n) is Some {
                        spec_lookup(old_records, n)
                    } else if uname == n {
                        Some(rec)
                    } else {
                        None
                    }) by {
                        lemma_lookup_push(old_records, rec, n);
                    }
                    assert_maps_equal!(
                        self.addr_map(),
                        old(self).addr_map().insert(uname, canon(pairs_view(addresses@))),
                        n => {
                            lemma_lookup_push(old_records, rec, n);
                        }
                    );
                    assert_maps_equal!(
                        self.owner_map(),
                        old(self).owner_map().insert(uname, rec.owner@),
                        n => {
                            lemma_lookup_push(old_records, rec, n);
                        }
                    );
                }
                Ok(())
            },
        }
    }
}

} // verus!
