//! The anchors of the document being parsed.
use vstd::prelude::*;

use crate::text::{chars_of, same_chars};
use crate::value::{Node, NodeV};

verus! {

broadcast use vstd::std_specs::vec::group_vec_axioms;

/// Stores anchors: each name with the node it was last put with.
#[derive(Debug, Clone)]
pub struct AnchorStore(Vec<(String, Node)>);

/// The map a list of puts leaves behind: a later put of a name replaces an earlier one.
pub open spec fn puts_map(s: Seq<(Seq<char>, NodeV)>) -> Map<Seq<char>, NodeV>
    decreases s.len(),
{
    if s.len() == 0 {
        Map::empty()
    } else {
        puts_map(s.drop_last()).insert(s.last().0, s.last().1)
    }
}

impl AnchorStore {
    /// The puts so far, in order.
    pub closed spec fn puts(self) -> Seq<(Seq<char>, NodeV)> {
        Seq::new(self.0@.len(), |i: int| (self.0@[i].0@, self.0@[i].1@))
    }
}

impl View for AnchorStore {
    type V = Map<Seq<char>, NodeV>;

    /// Each anchor name with the node it stands for.
    open spec fn view(&self) -> Map<Seq<char>, NodeV> {
        puts_map(self.puts())
    }
}

/// A name absent from the later puts is looked up in the earlier ones.
proof fn lemma_puts_map_prefix(s: Seq<(Seq<char>, NodeV)>, k: int, key: Seq<char>)
    requires
        0 <= k <= s.len(),
        forall|j: int| k <= j < s.len() ==> (#[trigger] s[j]).0 != key,
    ensures
        puts_map(s).contains_key(key) == puts_map(s.subrange(0, k)).contains_key(key),
        puts_map(s).contains_key(key) ==> puts_map(s)[key] == puts_map(s.subrange(0, k))[key],
    decreases s.len() - k,
{
    if k < s.len() {
        assert(s.drop_last().subrange(0, k) =~= s.subrange(0, k));
        lemma_puts_map_prefix(s.drop_last(), k, key);
    } else {
        assert(s.subrange(0, k) =~= s);
    }
}

impl Default for AnchorStore {
    fn default() -> (r: AnchorStore)
        ensures
            r@ == Map::<Seq<char>, NodeV>::empty(),
    {
        AnchorStore::new()
    }
}

impl AnchorStore {
    /// Creates an empty store.
    pub fn new() -> (r: AnchorStore)
        ensures
            r@ == Map::<Seq<char>, NodeV>::empty(),
    {
        AnchorStore(Vec::new())
    }

    /// Puts the given anchor, possibly replacing the previous instance.
    pub fn put(&mut self, key: String, value: Node)
        ensures
            final(self)@ == old(self)@.insert(key@, value@),
    {
        let ghost before = self.puts();
        self.0.push((key, value));
        assert(self.puts().drop_last() =~= before);
    }

    /// Returns the corresponding anchor if found.
    pub fn get(&self, key: &str) -> (r: Option<&Node>)
        ensures
            r is Some <==> self@.contains_key(key@),
            r matches Some(n) ==> n@ == self@[key@],
    {
        let k = chars_of(key);
        let ghost s = self.puts();
        let mut i: usize = self.0.len();
        while i > 0
            invariant
                i <= self.0@.len(),
                s == self.puts(),
                k@ == key@,
                forall|j: int| i <= j < s.len() ==> (#[trigger] s[j]).0 != key@,
            decreases i,
        {
            let name = chars_of(self.0[i - 1].0.as_str());
            if same_chars(name.as_slice(), k.as_slice()) {
                proof {
                    lemma_puts_map_prefix(s, i as int, key@);
                    assert(s.subrange(0, i as int).drop_last() =~= s.subrange(0, i - 1));
                    assert(s.subrange(0, i as int).last() == s[i - 1]);
                }
                return Some(&self.0[i - 1].1);
            }
            assert(s[i - 1].0 == self.0@[i - 1].0@);
            i = i - 1;
        }
        proof {
            lemma_puts_map_prefix(s, 0, key@);
            assert(s.subrange(0, 0) =~= Seq::<(Seq<char>, NodeV)>::empty());
        }
        None
    }

    /// Clears all anchors, e.g. at a document boundary: anchors are document-scoped, so they
    /// must not leak into the next document of the same stream.
    pub fn clear(&mut self)
        ensures
            final(self)@ == Map::<Seq<char>, NodeV>::empty(),
    {
        self.0 = Vec::new();
        assert(self.puts() =~= Seq::<(Seq<char>, NodeV)>::empty());
    }
}

/// A later put of a name replaces an earlier one: once `after` is `before` with `key` put to
/// `value` (as [`AnchorStore::put`] leaves it), looking up `key` finds `value`, and every other name
/// finds what it found before.
pub proof fn lemma_put_then_get(before: AnchorStore, after: AnchorStore, key: Seq<char>, value: NodeV, name: Seq<char>)
    requires
        after@ == before@.insert(key, value),
    ensures
        after@.contains_key(key),
        after@[key] == value,
        name != key ==> after@.contains_key(name) == before@.contains_key(name),
        name != key && before@.contains_key(name) ==> after@[name] == before@[name],
{
}

} // verus!
