//! Tag handle (`!`, `!!`, or a named `!foo!` handle) -> prefix map.
use vstd::prelude::*;

use crate::text::{chars_of, same_chars};

verus! {

broadcast use vstd::std_specs::vec::group_vec_axioms;

/// Tag handle -> prefix map.
///
/// The two default handles (the primary `!` and the secondary `!!`) are always present; named
/// handles only exist once a `%TAG` directive registers one, so looking one up before its
/// directive has been parsed always misses.
#[derive(Debug, Clone)]
pub struct TagHandles(Vec<(String, String)>);

/// The map a list of registrations leaves behind: a later one of a handle replaces an earlier
/// one.
pub open spec fn handles_map(s: Seq<(Seq<char>, Seq<char>)>) -> Map<Seq<char>, Seq<char>>
    decreases s.len(),
{
    if s.len() == 0 {
        Map::empty()
    } else {
        handles_map(s.drop_last()).insert(s.last().0, s.last().1)
    }
}

/// The two default handles: `!` for `!`, and `!!` for `tag:yaml.org,2002:`.
pub open spec fn default_handles() -> Map<Seq<char>, Seq<char>> {
    Map::empty().insert("!"@, "!"@).insert("!!"@, "tag:yaml.org,2002:"@)
}

impl TagHandles {
    /// The registrations so far, in order.
    pub closed spec fn registered(self) -> Seq<(Seq<char>, Seq<char>)> {
        Seq::new(self.0@.len(), |i: int| (self.0@[i].0@, self.0@[i].1@))
    }
}

impl View for TagHandles {
    type V = Map<Seq<char>, Seq<char>>;

    /// Each declared handle with its prefix.
    open spec fn view(&self) -> Map<Seq<char>, Seq<char>> {
        handles_map(self.registered())
    }
}

proof fn lemma_handles_map_prefix(s: Seq<(Seq<char>, Seq<char>)>, k: int, key: Seq<char>)
    requires
        0 <= k <= s.len(),
        forall|j: int| k <= j < s.len() ==> (#[trigger] s[j]).0 != key,
    ensures
        handles_map(s).contains_key(key) == handles_map(s.subrange(0, k)).contains_key(key),
        handles_map(s).contains_key(key) ==> handles_map(s)[key] == handles_map(
            s.subrange(0, k),
        )[key],
    decreases s.len() - k,
{
    if k < s.len() {
        assert(s.drop_last().subrange(0, k) =~= s.subrange(0, k));
        lemma_handles_map_prefix(s.drop_last(), k, key);
    } else {
        assert(s.subrange(0, k) =~= s);
    }
}

impl TagHandles {
    /// Creates a new instance with just the two default handles.
    pub fn new() -> (r: TagHandles)
        ensures
            r@ == default_handles(),
    {
        let mut v: Vec<(String, String)> = Vec::new();
        v.push((String::from_str("!"), String::from_str("!")));
        v.push((String::from_str("!!"), String::from_str("tag:yaml.org,2002:")));
        let r = TagHandles(v);
        assert(r.registered().drop_last().drop_last() =~= Seq::<(Seq<char>, Seq<char>)>::empty());
        assert(r.registered().drop_last().last() == ("!"@, "!"@));
        assert(r.registered().last() == ("!!"@, "tag:yaml.org,2002:"@));
        let ghost s = r.registered();
        assert(handles_map(s.drop_last().drop_last()) == Map::<Seq<char>, Seq<char>>::empty());
        assert(handles_map(s.drop_last()) == Map::<Seq<char>, Seq<char>>::empty().insert(
            "!"@,
            "!"@,
        ));
        assert(handles_map(s) =~= default_handles());
        r
    }

    /// Returns the prefix associated with the given handle, if declared.
    pub fn get(&self, handle: &str) -> (r: Option<&String>)
        ensures
            r is Some <==> self@.contains_key(handle@),
            r matches Some(p) ==> p@ == self@[handle@],
    {
        let k = chars_of(handle);
        let ghost s = self.registered();
        let mut i: usize = self.0.len();
        while i > 0
            invariant
                i <= self.0@.len(),
                s == self.registered(),
                k@ == handle@,
                forall|j: int| i <= j < s.len() ==> (#[trigger] s[j]).0 != handle@,
            decreases i,
        {
            let name = chars_of(self.0[i - 1].0.as_str());
            if same_chars(name.as_slice(), k.as_slice()) {
                proof {
                    lemma_handles_map_prefix(s, i as int, handle@);
                    assert(s.subrange(0, i as int).drop_last() =~= s.subrange(0, i - 1));
                    assert(s.subrange(0, i as int).last() == s[i - 1]);
                }
                return Some(&self.0[i - 1].1);
            }
            assert(s[i - 1].0 == self.0@[i - 1].0@);
            i = i - 1;
        }
        proof {
            lemma_handles_map_prefix(s, 0, handle@);
            assert(s.subrange(0, 0) =~= Seq::<(Seq<char>, Seq<char>)>::empty());
        }
        None
    }

    /// Registers a handle -> prefix mapping, replacing any previous one. Used by `%TAG`
    /// directives.
    pub fn put(&mut self, handle: String, prefix: String)
        ensures
            final(self)@ == old(self)@.insert(handle@, prefix@),
    {
        let ghost before = self.registered();
        self.0.push((handle, prefix));
        assert(self.registered().drop_last() =~= before);
    }

    /// Resets to just the two default handles, e.g. at a document boundary: `%TAG` directives
    /// are document-scoped, so a named handle registered in one document must not leak into the
    /// next.
    pub fn clear(&mut self)
        ensures
            final(self)@ == default_handles(),
    {
        *self = TagHandles::new();
    }
}

/// A handle has a prefix exactly when some registration names it.
proof fn lemma_handles_map_dom(s: Seq<(Seq<char>, Seq<char>)>, key: Seq<char>)
    ensures
        handles_map(s).contains_key(key) <==> exists|j: int| 0 <= j < s.len() && (#[trigger] s[j]).0 == key,
    decreases s.len(),
{
    if s.len() > 0 {
        let d = s.drop_last();
        lemma_handles_map_dom(d, key);
        if exists|j: int| 0 <= j < d.len() && (#[trigger] d[j]).0 == key {
            let j = choose|j: int| 0 <= j < d.len() && (#[trigger] d[j]).0 == key;
            assert(s[j] == d[j]);
        }
        if exists|j: int| 0 <= j < s.len() && (#[trigger] s[j]).0 == key {
            let j = choose|j: int| 0 <= j < s.len() && (#[trigger] s[j]).0 == key;
            if j < s.len() - 1 {
                assert(d[j] == s[j]);
            }
        }
    }
}

impl TagHandles {
    /// Whether both declare the same handles with the same prefixes.
    fn same_handles(&self, other: &TagHandles) -> (r: bool)
        ensures
            r == (self@ == other@),
    {
        let ghost s = self.registered();
        let ghost o = other.registered();
        let mut i: usize = 0;
        while i < self.0.len()
            invariant
                i <= self.0@.len(),
                s == self.registered(),
                forall|j: int|
                    0 <= j < i ==> other@.contains_key((#[trigger] s[j]).0) && other@[s[j].0]
                        == self@[s[j].0],
            decreases self.0.len() - i,
        {
            let h = self.0[i].0.as_str();
            assert(s[i as int].0 == h@);
            proof {
                lemma_handles_map_dom(s, h@);
            }
            let a = self.get(h);
            let b = other.get(h);
            match (a, b) {
                (Some(x), Some(y)) => {
                    let xc = chars_of(x.as_str());
                    let yc = chars_of(y.as_str());
                    if !same_chars(xc.as_slice(), yc.as_slice()) {
                        assert(self@[h@] != other@[h@]);
                        return false;
                    }
                },
                _ => {
                    assert(!other@.contains_key(h@));
                    assert(self@.contains_key(h@));
                    return false;
                },
            }
            i = i + 1;
        }
        let mut i: usize = 0;
        while i < other.0.len()
            invariant
                i <= other.0@.len(),
                o == other.registered(),
                forall|j: int| 0 <= j < i ==> self@.contains_key((#[trigger] o[j]).0),
            decreases other.0.len() - i,
        {
            let h = other.0[i].0.as_str();
            assert(o[i as int].0 == h@);
            proof {
                lemma_handles_map_dom(o, h@);
            }
            if self.get(h).is_none() {
                assert(other@.contains_key(h@));
                return false;
            }
            i = i + 1;
        }
        assert forall|k: Seq<char>| #[trigger] self@.dom().contains(k) <==> other@.dom().contains(k) by {
            lemma_handles_map_dom(s, k);
            lemma_handles_map_dom(o, k);
            if self@.dom().contains(k) {
                let j = choose|j: int| 0 <= j < s.len() && (#[trigger] s[j]).0 == k;
                assert(other@.contains_key(s[j].0));
            }
            if other@.dom().contains(k) {
                let j = choose|j: int| 0 <= j < o.len() && (#[trigger] o[j]).0 == k;
                assert(self@.contains_key(o[j].0));
            }
        }
        assert(self@.dom() =~= other@.dom());
        assert forall|k: Seq<char>| #[trigger] self@.dom().contains(k) implies self@[k] == other@[k] by {
            lemma_handles_map_dom(s, k);
            let j = choose|j: int| 0 <= j < s.len() && (#[trigger] s[j]).0 == k;
            assert(other@[s[j].0] == self@[s[j].0]);
        }
        assert(self@ =~= other@);
        true
    }
}

impl PartialEq for TagHandles {
    fn eq(&self, other: &Self) -> (r: bool) {
        self.same_handles(other)
    }
}

impl vstd::std_specs::cmp::PartialEqSpecImpl for TagHandles {
    open spec fn obeys_eq_spec() -> bool {
        true
    }

    open spec fn eq_spec(&self, other: &Self) -> bool {
        self@ == other@
    }
}

impl Default for TagHandles {
    fn default() -> (r: TagHandles)
        ensures
            r@ == default_handles(),
    {
        TagHandles::new()
    }
}

/// A later put of a name replaces an earlier one: once `after` is `before` with `key` put to
/// `value` (as [`TagHandles::put`] leaves it), looking up `key` finds `value`, and every other name
/// finds what it found before.
pub proof fn lemma_put_then_get(before: TagHandles, after: TagHandles, key: Seq<char>, value: Seq<char>, name: Seq<char>)
    requires
        after@ == before@.insert(key, value),
    ensures
        after@.contains_key(key),
        after@[key] == value,
        name != key ==> after@.contains_key(name) == before@.contains_key(name),
        name != key && before@.contains_key(name) ==> after@[name] == before@[name],
{
}

} // verus!
