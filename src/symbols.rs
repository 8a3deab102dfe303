//! The symbol table: one flat namespace from names to typed text values.
use vstd::prelude::*;
use crate::lexer::text_eq;

verus! {

/// The type a value was inferred to have.
#[derive(Clone, Copy, Debug, PartialEq, Eq, Structural)]
pub enum ValueType {
    String,
    Number,
    Boolean,
}

/// A stored value, kept as its text.
#[derive(Clone, Debug)]
pub struct Symbol {
    pub value: String,
    pub value_type: ValueType,
}

impl View for Symbol {
    type V = (Seq<char>, ValueType);

    open spec fn view(&self) -> (Seq<char>, ValueType) {
        (self.value@, self.value_type)
    }
}

/// Names and their symbols; a name appears at most once, and the last
/// write to it wins.
pub struct SymbolTable {
    names: Vec<String>,
    symbols: Vec<Symbol>,
    model: Ghost<Map<Seq<char>, (Seq<char>, ValueType)>>,
}

impl View for SymbolTable {
    type V = Map<Seq<char>, (Seq<char>, ValueType)>;

    closed spec fn view(&self) -> Map<Seq<char>, (Seq<char>, ValueType)> {
        self.model@
    }
}

impl SymbolTable {
    pub closed spec fn wf(&self) -> bool {
        &&& self.names.len() == self.symbols.len()
        &&& forall|i: int|
            0 <= i < self.names.len() ==> #[trigger] self.model@.contains_key(self.names[i]@)
                && self.model@[self.names[i]@] == self.symbols[i]@
        &&& forall|k: Seq<char>|
            #[trigger] self.model@.contains_key(k) ==> exists|i: int|
                0 <= i < self.names.len() && self.names[i]@ == k
        &&& forall|i: int, j: int|
            0 <= i < self.names.len() && 0 <= j < self.names.len() && self.names[i]@
                == self.names[j]@ ==> i == j
    }

    /// An empty table.
    pub fn new() -> (r: SymbolTable)
        ensures
            r.wf(),
            r@ == Map::<Seq<char>, (Seq<char>, ValueType)>::empty(),
    {
        SymbolTable { names: Vec::new(), symbols: Vec::new(), model: Ghost(Map::empty()) }
    }

    fn index_of(&self, name: &str) -> (r: Option<usize>)
        requires
            self.wf(),
        ensures
            match r {
                Some(i) => i < self.names.len() && self.names[i as int]@ == name@,
                None => !self@.contains_key(name@),
            },
    {
        let mut i: usize = 0;
        while i < self.names.len()
            invariant
                self.wf(),
                i <= self.names.len(),
                forall|k: int| 0 <= k < i ==> self.names[k]@ != name@,
            decreases self.names.len() - i,
        {
            if text_eq(self.names[i].as_str(), name) {
                return Some(i);
            }
            i = i + 1;
        }
        None
    }

    /// The symbol stored under `name`, if there is one.
    pub fn get(&self, name: &str) -> (r: Option<&Symbol>)
        requires
            self.wf(),
        ensures
            match r {
                Some(s) => self@.contains_key(name@) && self@[name@] == s@,
                None => !self@.contains_key(name@),
            },
    {
        match self.index_of(name) {
            Some(i) => {
                assert(self.model@.contains_key(self.names[i as int]@));
                Some(&self.symbols[i])
            },
            None => None,
        }
    }

    /// Stores `symbol` under `name`, replacing what was there.
    pub fn insert(&mut self, name: String, symbol: Symbol)
        requires
            old(self).wf(),
        ensures
            final(self).wf(),
            final(self)@ == old(self)@.insert(name@, symbol@),
    {
        let ghost key = name@;
        let ghost val = symbol@;
        let ghost mut w: int = 0;
        match self.index_of(name.as_str()) {
            Some(i) => {
                self.symbols.set(i, symbol);
                self.model = Ghost(self.model@.insert(key, val));
                proof {
                    w = i as int;
                }
            },
            None => {
                self.names.push(name);
                self.symbols.push(symbol);
                self.model = Ghost(self.model@.insert(key, val));
                proof {
                    w = self.names.len() - 1;
                }
            },
        }
        assert forall|i: int| 0 <= i < self.names.len() implies #[trigger] self.model@.contains_key(
            self.names[i]@,
        ) && self.model@[self.names[i]@] == self.symbols[i]@ by {
            if i != w {
                assert(old(self).model@.contains_key(old(self).names[i]@));
                assert(self.names[i]@ != key);
            }
        }
        assert forall|i: int, j: int|
            0 <= i < self.names.len() && 0 <= j < self.names.len() && self.names[i]@
                == self.names[j]@ implies i == j by {
            if i != w && j != w {
                assert(old(self).names[i]@ == old(self).names[j]@);
            } else if i != w {
                assert(old(self).model@.contains_key(old(self).names[i]@));
            } else if j != w {
                assert(old(self).model@.contains_key(old(self).names[j]@));
            }
        }
        assert forall|k: Seq<char>| #[trigger] self.model@.contains_key(k) implies exists|i: int|
            0 <= i < self.names.len() && self.names[i]@ == k by {
            if k != key {
                assert(old(self).model@.contains_key(k));
                let j = choose|j: int| 0 <= j < old(self).names.len() && old(self).names[j]@ == k;
                assert(self.names[j]@ == k);
            } else {
                assert(self.names[w]@ == key);
            }
        }
    }
}

} // verus!
