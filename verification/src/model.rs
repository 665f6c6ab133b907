//! The values that the store's answers carry, as the library reads them.

use vstd::prelude::*;

verus! {

broadcast use vstd::string::group_string_axioms;

/// Whether a key was found in the store.
#[derive(Debug, Clone, Copy, PartialEq, Eq, Structural)]
pub enum ExistenceResult {
    Exists,
    NotExists,
}

/// The result for a key whose lookup did (`true`) or did not succeed.
pub open spec fn existence_of(found: bool) -> ExistenceResult {
    if found {
        ExistenceResult::Exists
    } else {
        ExistenceResult::NotExists
    }
}

/// The text that names a result: "EXISTS" or "NOT FOUND".
pub open spec fn existence_label(r: ExistenceResult) -> Seq<char> {
    match r {
        ExistenceResult::Exists => "EXISTS"@,
        ExistenceResult::NotExists => "NOT FOUND"@,
    }
}

impl ExistenceResult {
    /// Returns true if the key exists.
    pub fn does_exist(&self) -> (b: bool)
        ensures
            b == (*self == ExistenceResult::Exists),
    {
        match self {
            ExistenceResult::Exists => true,
            ExistenceResult::NotExists => false,
        }
    }

    /// The text that names the result, as it is shown to a user.
    pub fn label(&self) -> (s: String)
        ensures
            s@ == existence_label(*self),
    {
        match self {
            ExistenceResult::Exists => String::from_str("EXISTS"),
            ExistenceResult::NotExists => String::from_str("NOT FOUND"),
        }
    }
}

impl From<bool> for ExistenceResult {
    fn from(value: bool) -> (r: Self) {
        if value {
            ExistenceResult::Exists
        } else {
            ExistenceResult::NotExists
        }
    }
}

impl vstd::std_specs::convert::FromSpecImpl<bool> for ExistenceResult {
    open spec fn obeys_from_spec() -> bool {
        true
    }

    open spec fn from_spec(v: bool) -> Self {
        existence_of(v)
    }
}

/// Law: a result made from whether a key was found tells whether it was
/// found, and each result is the one made from whether it tells the key
/// exists; its label is "EXISTS" exactly for a key that exists.
pub proof fn lemma_existence_round_trip(found: bool, r: ExistenceResult)
    ensures
        (existence_of(found) == ExistenceResult::Exists) == found,
        existence_of(r == ExistenceResult::Exists) == r,
        (existence_label(r) == "EXISTS"@) == (r == ExistenceResult::Exists),
{
    reveal_strlit("EXISTS");
    reveal_strlit("NOT FOUND");
    assert("EXISTS"@.len() != "NOT FOUND"@.len());
}

/// Where one copy of a value is stored (the server's buffer descriptor).
#[derive(Debug, Clone)]
pub struct ReplicaDescriptor {
    pub size: u64,
    pub buffer_address: u64,
    pub protocol: String,
    pub transport_endpoint: String,
}

/// What the server reports of one key of a batch query.
#[derive(Debug, Clone)]
pub struct KeyInfo {
    pub ok: bool,
    pub error: Option<String>,
    pub values: Option<Vec<ReplicaDescriptor>>,
}

/// The answer to a batch query: `data` lists each key the server reports on
/// with what it reports, each key once.
#[derive(Debug, Clone)]
pub struct BatchQueryResponse {
    pub success: bool,
    pub error: Option<String>,
    pub data: Option<Vec<(String, KeyInfo)>>,
}

/// The keys and results of a list of per-key results.
pub open spec fn result_views(v: Seq<(String, ExistenceResult)>) -> Seq<(Seq<char>, ExistenceResult)> {
    v.map_values(|e: (String, ExistenceResult)| (e.0@, e.1))
}

/// The keys of a list of per-key results.
pub open spec fn result_keys(v: Seq<(String, ExistenceResult)>) -> Seq<Seq<char>> {
    v.map_values(|e: (String, ExistenceResult)| e.0@)
}

/// The keys of the entries the server reports on.
pub open spec fn info_keys(v: Seq<(String, KeyInfo)>) -> Seq<Seq<char>> {
    v.map_values(|e: (String, KeyInfo)| e.0@)
}

impl BatchQueryResponse {
    /// Each reported key with `Exists` where the server answered `ok`, in
    /// the order of `data`; nothing when there is no `data`.
    pub open spec fn existence(&self) -> Seq<(Seq<char>, ExistenceResult)> {
        match self.data {
            Some(d) => d@.map_values(|e: (String, KeyInfo)| (e.0@, existence_of(e.1.ok))),
            None => Seq::empty(),
        }
    }

    /// Each key of `data` occurs once (as the keys of a JSON object do).
    pub open spec fn keys_unique(&self) -> bool {
        match self.data {
            Some(d) => info_keys(d@).no_duplicates(),
            None => true,
        }
    }

    /// Each key of `data` with whether it exists; each key occurs once in the
    /// results where it does in `data`.
    pub fn all_exists(&self) -> (results: Vec<(String, ExistenceResult)>)
        ensures
            result_views(results@) == self.existence(),
            self.keys_unique() ==> result_keys(results@).no_duplicates(),
            self.data is None ==> results@.len() == 0,
            self.data matches Some(d) ==> {
                &&& results@.len() == d@.len()
                &&& forall|i: int|
                    0 <= i < d@.len() ==> {
                        &&& (#[trigger] results@[i]).0@ == d@[i].0@
                        &&& (results@[i].1 == ExistenceResult::Exists) == d@[i].1.ok
                    }
            },
    {
        let mut results: Vec<(String, ExistenceResult)> = Vec::new();
        match &self.data {
            None => {},
            Some(data) => {
                let ghost all = data@.map_values(
                    |e: (String, KeyInfo)| (e.0@, existence_of(e.1.ok)),
                );
                let n = data.len();
                let mut i: usize = 0;
                while i < n
                    invariant
                        n == data@.len(),
                        0 <= i <= n,
                        all == data@.map_values(
                            |e: (String, KeyInfo)| (e.0@, existence_of(e.1.ok)),
                        ),
                        result_views(results@) == all.take(i as int),
                    decreases n - i,
                {
                    let key = data[i].0.clone();
                    let exists = if data[i].1.ok {
                        ExistenceResult::Exists
                    } else {
                        ExistenceResult::NotExists
                    };
                    let ghost old_results = results@;
                    results.push((key, exists));
                    assert(result_views(results@) =~= result_views(old_results).push(
                        all[i as int],
                    ));
                    assert(all.take(i + 1) =~= all.take(i as int).push(all[i as int]));
                    i = i + 1;
                }
                assert(all.take(n as int) =~= all);
            },
        }
        assert(result_views(results@) =~= self.existence());
        proof {
            lemma_existence_per_entry(*self);
            if self.data is Some {
                let d = self.data->0;
                assert forall|i: int| 0 <= i < d@.len() implies {
                    &&& (#[trigger] results@[i]).0@ == d@[i].0@
                    &&& (results@[i].1 == ExistenceResult::Exists) == d@[i].1.ok
                } by {
                    assert(result_views(results@)[i] == self.existence()[i]);
                }
            }
        }
        proof {
            if self.data is Some {
                let d = self.data->0;
                assert(result_keys(results@) =~= info_keys(d@)) by {
                    assert forall|k: int| 0 <= k < results@.len() implies result_keys(results@)[k]
                        == info_keys(d@)[k] by {
                        assert(result_views(results@)[k] == self.existence()[k]);
                    }
                }
            } else {
                assert(result_keys(results@) =~= Seq::<Seq<char>>::empty());
            }
        }
        results
    }
}

/// Law: every entry of `data` is reported, whatever its `ok` flag: one
/// result for each entry, in the same place, with its key, telling the key
/// exists exactly where the entry is `ok`; without `data` there is none.
pub proof fn lemma_existence_per_entry(response: BatchQueryResponse)
    ensures
        response.data is None ==> response.existence().len() == 0,
        response.data matches Some(d) ==> {
            &&& response.existence().len() == d@.len()
            &&& forall|i: int|
                0 <= i < d@.len() ==> {
                    &&& (#[trigger] response.existence()[i]).0 == d@[i].0@
                    &&& (response.existence()[i].1 == ExistenceResult::Exists) == d@[i].1.ok
                }
        },
{
}

/// The answer to a health check.
#[derive(Debug, Clone)]
pub struct HealthResponse {
    pub healthy: bool,
    pub message: String,
}

} // verus!
