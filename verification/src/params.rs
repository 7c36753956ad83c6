//! The table of parameter bindings a lookup hands back.
//!
//! Bindings are collected in root-to-leaf order.  Read as a mapping
//! (through [`params_map`](crate::model::params_map)), a deeper binding of
//! a name overrides a shallower one, and [`Params::get`] returns exactly
//! that mapping's value.
use vstd::prelude::*;

use crate::model::lemma_params_map_absent;
use crate::model::lemma_params_map_at;
use crate::model::params_map;
use crate::parse::str_eq;

verus! {

/// Parameter bindings, each a (name, captured value) pair, in the order
/// they were collected along the matched path.
pub struct Params {
    pub pairs: Vec<(String, String)>,
}

impl View for Params {
    type V = Seq<(Seq<char>, Seq<char>)>;

    open spec fn view(&self) -> Seq<(Seq<char>, Seq<char>)> {
        self.pairs@.map_values(|p: (String, String)| (p.0@, p.1@))
    }
}

impl Params {
    /// An empty table.
    pub fn new() -> (r: Params)
        ensures
            r@ == Seq::<(Seq<char>, Seq<char>)>::empty(),
    {
        let r = Params { pairs: Vec::new() };
        proof {
            assert(r@ =~= Seq::<(Seq<char>, Seq<char>)>::empty());
        }
        r
    }

    /// Appends one binding.
    pub fn push(&mut self, name: String, value: String)
        ensures
            final(self)@ == old(self)@.push((name@, value@)),
    {
        let ghost before = self@;
        self.pairs.push((name, value));
        proof {
            assert(self@ =~= before.push((name@, value@)));
        }
    }

    /// How many bindings were collected.
    pub fn len(&self) -> (n: usize)
        ensures
            n == self@.len(),
    {
        self.pairs.len()
    }

    /// The value bound to `name`, reading the table as a mapping in which
    /// the last binding of a name wins.
    pub fn get<'a>(&'a self, name: &str) -> (r: Option<&'a String>)
        ensures
            match r {
                Some(v) => params_map(self@).dom().contains(name@) && v@ == params_map(
                    self@,
                )[name@],
                None => !params_map(self@).dom().contains(name@),
            },
    {
        let n = self.pairs.len();
        let mut i: usize = n;
        while i > 0
            invariant
                i <= n,
                n == self.pairs@.len(),
                forall|j: int| i <= j < n ==> (#[trigger] self@[j]).0 != name@,
            decreases i,
        {
            i = i - 1;
            let key: &String = &self.pairs[i].0;
            if str_eq(key.as_str(), name) {
                proof {
                    lemma_params_map_at(self@, i as int);
                }
                return Some(&self.pairs[i].1);
            }
        }
        proof {
            lemma_params_map_absent(self@, name@);
        }
        None
    }

    /// A fresh table holding the same bindings.
    pub fn duplicate(&self) -> (r: Params)
        ensures
            r@ == self@,
    {
        let mut v: Vec<(String, String)> = Vec::new();
        let n = self.pairs.len();
        let mut i: usize = 0;
        while i < n
            invariant
                n == self.pairs@.len(),
                i <= n,
                v@.len() == i,
                forall|k: int| 0 <= k < i ==> #[trigger] v@[k] == self.pairs@[k],
            decreases n - i,
        {
            let p = &self.pairs[i];
            v.push((p.0.clone(), p.1.clone()));
            i = i + 1;
        }
        proof {
            assert(v@ =~= self.pairs@);
        }
        Params { pairs: v }
    }
}

} // verus!
