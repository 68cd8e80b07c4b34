//! Components known to add-step, with the configuration fields they require.
use vstd::prelude::*;
use crate::assoc::{aget, kseq, key_index, lemma_key_index, find_key, keys_of};
use crate::model::strs_v;

verus! {

#[derive(Debug)]
pub struct ComponentMetadata {
    pub id: String,
    pub required_fields: Vec<String>,
}

/// A catalog held in memory: one entry per component id.
#[derive(Debug)]
pub struct MemoryCatalog {
    entries: Vec<(String, Vec<String>)>,
}

/// Required fields by component id.
pub type CatalogV = Seq<(Seq<char>, Seq<Seq<char>>)>;

pub open spec fn catalog_v(e: Seq<(String, Vec<String>)>) -> CatalogV {
    e.map_values(|x: (String, Vec<String>)| (x.0@, strs_v(x.1@)))
}

impl View for MemoryCatalog {
    type V = CatalogV;

    closed spec fn view(&self) -> CatalogV {
        catalog_v(self.entries@)
    }
}

pub fn clone_strings(v: &Vec<String>) -> (r: Vec<String>)
    ensures
        strs_v(r@) == strs_v(v@),
{
    let mut r: Vec<String> = Vec::new();
    let mut i: usize = 0;
    while i < v.len()
        invariant
            i <= v.len(),
            r@.len() == i,
            forall|k: int| 0 <= k < i ==> (#[trigger] r@[k])@ == v@[k]@,
        decreases v.len() - i,
    {
        r.push(v[i].clone());
        i = i + 1;
    }
    assert(strs_v(r@) =~= strs_v(v@));
    r
}

impl MemoryCatalog {
    pub fn new() -> (c: Self)
        ensures
            c@ == Seq::<(Seq<char>, Seq<Seq<char>>)>::empty(),
    {
        let c = MemoryCatalog { entries: Vec::new() };
        assert(c@ =~= Seq::<(Seq<char>, Seq<Seq<char>>)>::empty());
        c
    }

    /// Adds a component, replacing an earlier entry with the same id.
    pub fn insert(&mut self, meta: ComponentMetadata)
        ensures
            final(self)@ == crate::assoc::ains(old(self)@, meta.id@, strs_v(meta.required_fields@)),
    {
        let ghost before = self.entries@;
        let ghost k = meta.id@;
        let ghost f = strs_v(meta.required_fields@);
        proof {
            assert(keys_of(before) =~= kseq(catalog_v(before)));
        }
        match find_key(&self.entries, meta.id.as_str()) {
            Some(i) => {
                self.entries.set(i, (meta.id, meta.required_fields));
                proof {
                    assert(catalog_v(self.entries@) =~= catalog_v(before).update(i as int, (k, f)));
                }
            },
            None => {
                self.entries.push((meta.id, meta.required_fields));
                proof {
                    assert(catalog_v(self.entries@) =~= catalog_v(before).push((k, f)));
                }
            },
        }
    }

    /// The required fields of a component, when the catalog knows it.
    pub fn resolve(&self, id: &str) -> (r: Option<ComponentMetadata>)
        ensures
            match r {
                Some(m) => aget(self@, id@) == Some(strs_v(m.required_fields@)) && m.id@ == id@,
                None => aget(self@, id@) is None,
            },
    {
        proof {
            assert(keys_of(self.entries@) =~= kseq(catalog_v(self.entries@)));
        }
        match find_key(&self.entries, id) {
            Some(i) => {
                proof {
                    lemma_key_index(keys_of(self.entries@), id@);
                }
                Some(
                    ComponentMetadata {
                        id: self.entries[i].0.clone(),
                        required_fields: clone_strings(&self.entries[i].1),
                    },
                )
            },
            None => None,
        }
    }
}

} // verus!
