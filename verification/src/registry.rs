//! The catalog of known adapters and the operations each one offers.
use vstd::prelude::*;
use crate::assoc::{aget, ains, kv, kseq, keys_of, get_key, insert_key, lemma_kv_keys, lemma_aget_map, lemma_ains_map, lemma_ains_aget, map_vals};
use crate::model::{strs_v, lemma_strs_push};
use crate::component_catalog::clone_strings;
use crate::text::{concat3, str_eq};

verus! {

/// Adapters, named `<namespace>.<adapter>`, each with its operations.
#[derive(Debug)]
pub struct AdapterCatalog {
    adapters: Vec<(String, Vec<String>)>,
}

pub type AdapterCatalogV = Seq<(Seq<char>, Seq<Seq<char>>)>;

pub open spec fn adapters_v(a: Seq<(String, Vec<String>)>) -> AdapterCatalogV {
    a.map_values(|x: (String, Vec<String>)| (x.0@, strs_v(x.1@)))
}

impl View for AdapterCatalog {
    type V = AdapterCatalogV;

    closed spec fn view(&self) -> AdapterCatalogV {
        adapters_v(self.adapters@)
    }
}

/// The adapter named `key` offers `op`.
pub open spec fn offers(c: AdapterCatalogV, key: Seq<char>, op: Seq<char>) -> bool {
    aget(c, key) matches Some(ops) && ops.contains(op)
}

proof fn lemma_adapters_v(a: Seq<(String, Vec<String>)>)
    ensures
        adapters_v(a) == map_vals(kv(a), |x: Vec<String>| strs_v(x@)),
        kseq(adapters_v(a)) == keys_of(a),
{
    assert(adapters_v(a) =~= map_vals(kv(a), |x: Vec<String>| strs_v(x@)));
    assert(kseq(adapters_v(a)) =~= keys_of(a));
}

impl AdapterCatalog {
    pub fn new() -> (c: Self)
        ensures
            c@ == Seq::<(Seq<char>, Seq<Seq<char>>)>::empty(),
            forall|k: Seq<char>, o: Seq<char>| !offers(c@, k, o),
    {
        let c = AdapterCatalog { adapters: Vec::new() };
        assert(c@ =~= Seq::<(Seq<char>, Seq<Seq<char>>)>::empty());
        c
    }

    /// Records that adapter `key` (`<namespace>.<adapter>`) offers `operation`.
    pub fn insert(&mut self, key: &str, operation: &str)
        ensures
            forall|k: Seq<char>, o: Seq<char>|
                offers(final(self)@, k, o) == (offers(old(self)@, k, o) || (k == key@ && o == operation@)),
    {
        proof {
            lemma_adapters_v(self.adapters@);
            lemma_aget_map(kv(self.adapters@), key@, |x: Vec<String>| strs_v(x@));
        }
        let ghost before = self.adapters@;
        let ghost old_v = self@;
        let mut ops: Vec<String> = match get_key(&self.adapters, key) {
            Some(o) => clone_strings(o),
            None => Vec::new(),
        };
        let ghost ops0 = strs_v(ops@);
        let ghost ops_before = ops@;
        ops.push(String::from_str(operation));
        proof {
            lemma_strs_push(ops_before, ops@.last());
        }
        let ghost new_ops = ops;
        insert_key(&mut self.adapters, String::from_str(key), ops);
        proof {
            lemma_adapters_v(self.adapters@);
            lemma_ains_map(kv(before), key@, new_ops, |x: Vec<String>| strs_v(x@));
            assert forall|k: Seq<char>, o: Seq<char>|
                offers(self@, k, o) == (offers(old_v, k, o) || (k == key@ && o == operation@)) by {
                lemma_ains_aget(old_v, key@, strs_v(new_ops@), k);
                if k == key@ {
                    assert(strs_v(new_ops@) == ops0.push(operation@));
                    if ops0.contains(o) {
                        let j = choose|j: int| 0 <= j < ops0.len() && ops0[j] == o;
                        assert(ops0.push(operation@)[j] == o);
                    }
                    if o == operation@ {
                        assert(ops0.push(operation@)[ops0.len() as int] == o);
                    }
                    if ops0.push(operation@).contains(o) && o != operation@ {
                        let j = choose|j: int| 0 <= j < ops0.len() + 1 && ops0.push(operation@)[j] == o;
                        assert(j < ops0.len());
                        assert(ops0[j] == o);
                    }
                }
            }
        }
    }

    /// Whether adapter `<namespace>.<adapter>` offers `operation`.
    pub fn contains(&self, namespace: &str, adapter: &str, operation: &str) -> (r: bool)
        ensures
            r == offers(self@, namespace@ + "."@ + adapter@, operation@),
    {
        let key = concat3(namespace, ".", adapter);
        proof {
            lemma_adapters_v(self.adapters@);
            lemma_aget_map(kv(self.adapters@), key@, |x: Vec<String>| strs_v(x@));
        }
        match get_key(&self.adapters, key.as_str()) {
            Some(ops) => {
                let mut i: usize = 0;
                while i < ops.len()
                    invariant
                        i <= ops.len(),
                        forall|j: int| 0 <= j < i ==> (#[trigger] ops@[j])@ != operation@,
                        aget(self@, key@) == Some(strs_v(ops@)),
                        key@ == namespace@ + "."@ + adapter@,
                    decreases ops.len() - i,
                {
                    if str_eq(ops[i].as_str(), operation) {
                        proof {
                            assert(strs_v(ops@)[i as int] == operation@);
                        }
                        return true;
                    }
                    i = i + 1;
                }
                proof {
                    if strs_v(ops@).contains(operation@) {
                        let j = choose|j: int| 0 <= j < strs_v(ops@).len() && strs_v(ops@)[j] == operation@;
                        assert(ops@[j]@ == operation@);
                    }
                }
                false
            },
            None => false,
        }
    }
}

} // verus!
