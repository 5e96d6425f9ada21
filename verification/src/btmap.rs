//! An immutable, persistent map with `usize` keys.
//!
//! Adding an entry builds a new map that shares every existing entry
//! with the original, so keeping many descendants of one map is cheap
//! and the original is never disturbed.

use std::rc::Rc;
use vstd::prelude::*;

verus! {

broadcast use vstd::set::group_set_axioms, vstd::map::group_map_axioms;

struct Node<V> {
    key: usize,
    val: V,
    next: Option<Rc<Node<V>>>,
}

impl<V> Node<V> {
    pub closed spec fn opt_as_map(node: Option<Rc<Node<V>>>) -> Map<usize, V>
        decreases node,
    {
        match node {
            None => Map::empty(),
            Some(n) => n.as_map(),
        }
    }

    pub closed spec fn as_map(self) -> Map<usize, V>
        decreases self,
    {
        Node::opt_as_map(self.next).insert(self.key, self.val)
    }

    pub closed spec fn opt_count(node: Option<Rc<Node<V>>>) -> nat
        decreases node,
    {
        match node {
            None => 0,
            Some(n) => n.count(),
        }
    }

    pub closed spec fn count(self) -> nat
        decreases self,
    {
        1 + Node::opt_count(self.next)
    }

    pub closed spec fn opt_inv(node: Option<Rc<Node<V>>>) -> bool
        decreases node,
    {
        match node {
            None => true,
            Some(n) => n.inv(),
        }
    }

    pub closed spec fn inv(self) -> bool
        decreases self,
    {
        &&& !Node::opt_as_map(self.next).contains_key(self.key)
        &&& Node::opt_inv(self.next)
    }

    proof fn lemma_opt_len(node: &Option<Rc<Node<V>>>)
        requires
            Node::opt_inv(*node),
        ensures
            Node::opt_as_map(*node).dom().finite(),
            Node::opt_as_map(*node).len() == Node::opt_count(*node),
        decreases *node,
    {
        match node {
            None => {
                assert(Map::<usize, V>::empty().dom() =~= Set::empty());
            },
            Some(n) => {
                Node::lemma_opt_len(&n.next);
            },
        }
    }

    pub fn get(&self, key: &usize) -> (r: Option<&V>)
        ensures
            match r {
                Some(v) => self.as_map().contains_key(*key) && *v == self.as_map()[*key],
                None => !self.as_map().contains_key(*key),
            },
        decreases *self,
    {
        if *key == self.key {
            Some(&self.val)
        } else {
            match &self.next {
                Some(n) => n.get(key),
                None => None,
            }
        }
    }
}

/// An immutable map from `usize` keys to values.
pub struct BtMap<V> {
    size: usize,
    root: Option<Rc<Node<V>>>,
}

impl<V> BtMap<V> {
    /// The mathematical map this structure represents.
    pub closed spec fn as_map(self) -> Map<usize, V> {
        Node::opt_as_map(self.root)
    }

    #[verifier::type_invariant]
    spec fn wf(self) -> bool {
        &&& Node::opt_inv(self.root)
        &&& self.size == Node::opt_count(self.root)
    }

    /// Creates an empty map.
    pub fn empty() -> (m: BtMap<V>)
        ensures
            m@ == Map::<usize, V>::empty(),
    {
        BtMap { size: 0, root: None }
    }

    /// Returns the number of items in the map.
    pub fn _len(&self) -> (n: usize)
        ensures
            n == self@.len(),
    {
        proof {
            use_type_invariant(self);
            Node::lemma_opt_len(&self.root);
        }
        self.size
    }

    /// Returns a reference to the item in the map corresponding to the key,
    /// or `None` if there is no item corresponding to the key.
    pub fn get(&self, key: &usize) -> (r: Option<&V>)
        ensures
            match r {
                Some(v) => self@.contains_key(*key) && *v == self@[*key],
                None => !self@.contains_key(*key),
            },
    {
        match &self.root {
            Some(node) => node.get(key),
            None => None,
        }
    }

    /// Returns `true` if the map contains an item corresponding to the key.
    pub fn contains_key(&self, key: &usize) -> (b: bool)
        ensures
            b == self@.contains_key(*key),
    {
        self.get(key).is_some()
    }

    /// Returns a new map containing all the items in the original map,
    /// as well as the new item.  Returns an error if there is already
    /// an item corresponding to the key.  The original map is unchanged.
    pub fn insert(&self, key: usize, item: V) -> (r: Result<BtMap<V>, ()>)
        requires
            self@.len() < usize::MAX,
        ensures
            match r {
                Ok(m) => !self@.contains_key(key) && m@ == self@.insert(key, item),
                Err(_) => self@.contains_key(key),
            },
    {
        if self.contains_key(&key) {
            Err(())
        } else {
            proof {
                use_type_invariant(self);
                Node::lemma_opt_len(&self.root);
            }
            let root2: Option<Rc<Node<V>>> = match &self.root {
                Some(n) => Some(n.clone()),
                None => None,
            };
            Ok(BtMap { size: self.size + 1, root: Some(Rc::new(Node { key, val: item, next: root2 })) })
        }
    }
}

impl<V> Clone for BtMap<V> {
    /// The copy represents the same map; all entries are shared.
    fn clone(&self) -> (r: Self)
        ensures
            r == *self,
    {
        proof {
            use_type_invariant(self);
        }
        let root2: Option<Rc<Node<V>>> = match &self.root {
            Some(n) => Some(n.clone()),
            None => None,
        };
        BtMap { size: self.size, root: root2 }
    }
}

impl<V> View for BtMap<V> {
    type V = Map<usize, V>;

    open spec fn view(&self) -> Map<usize, V> {
        self.as_map()
    }
}

} // verus!
