//! The block registry: names, properties and block-state ids.

use vstd::prelude::*;
use vstd::string::StrSliceExecFns;

verus! {

/// One block state as the block registry lists it: the block's name, the
/// values of its properties, and the state's numeric id.
pub struct BlockState {
    pub name: String,
    pub properties: Vec<(String, String)>,
    pub id: u32,
}

/// The block registry: every block state the world knows (the first state
/// listed under a name is that block's default state), and the ids of the
/// block-entity kinds whose stored data it can rebuild.
pub struct BlockRegistry {
    pub states: Vec<BlockState>,
    pub block_entity_kinds: Vec<String>,
}

/// Whether `kind` is among the block-entity kinds from index `i` on.
pub open spec fn kind_listed(kinds: Seq<String>, kind: Seq<char>, i: int) -> bool
    decreases kinds.len() - i,
{
    if i < 0 || i >= kinds.len() {
        false
    } else {
        kinds[i]@ == kind || kind_listed(kinds, kind, i + 1)
    }
}

/// The index of the first state named `name` at or after `i`.
pub open spec fn first_named(states: Seq<BlockState>, name: Seq<char>, i: int) -> Option<int>
    decreases states.len() - i,
{
    if i < 0 || i >= states.len() {
        None
    } else if states[i].name@ == name {
        Some(i)
    } else {
        first_named(states, name, i + 1)
    }
}

/// Whether `s` spells the characters `chars[lo..hi]`.
pub fn str_matches(s: &str, chars: &Vec<char>, lo: usize, hi: usize) -> (r: bool)
    requires
        lo <= hi <= chars@.len(),
    ensures
        r == (s@ == chars@.subrange(lo as int, hi as int)),
{
    let n = s.unicode_len();
    if n != hi - lo {
        proof {
            assert(chars@.subrange(lo as int, hi as int).len() != s@.len());
        }
        return false;
    }
    let mut i: usize = 0;
    while i < n
        invariant
            n == s@.len(),
            n == hi - lo,
            lo <= hi <= chars@.len(),
            i <= n,
            forall|k: int| 0 <= k < i ==> s@[k] == #[trigger] chars@[lo + k],
        decreases n - i,
    {
        if s.get_char(i) != chars[lo + i] {
            proof {
                assert(s@[i as int] != chars@.subrange(lo as int, hi as int)[i as int]);
            }
            return false;
        }
        i = i + 1;
    }
    proof {
        assert forall|k: int| 0 <= k < n implies s@[k] == chars@.subrange(lo as int, hi as int)[k] by {
            assert(s@[k] == chars@[lo + k]);
        }
        assert(s@ =~= chars@.subrange(lo as int, hi as int));
    }
    true
}

/// A state's properties as (key, value) character sequences.
pub open spec fn props_view(s: BlockState) -> Seq<(Seq<char>, Seq<char>)> {
    s.properties@.map_values(|p: (String, String)| (p.0@, p.1@))
}

/// `props` with the value of every property named `k` set to `v`.
pub open spec fn with_property(props: Seq<(Seq<char>, Seq<char>)>, k: Seq<char>, v: Seq<char>) -> Seq<(Seq<char>, Seq<char>)> {
    props.map_values(|p: (Seq<char>, Seq<char>)| if p.0 == k { (k, v) } else { p })
}

/// The first state at or after `i` with the given name and properties.
pub open spec fn first_state(
    states: Seq<BlockState>,
    name: Seq<char>,
    props: Seq<(Seq<char>, Seq<char>)>,
    i: int,
) -> Option<int>
    decreases states.len() - i,
{
    if i < 0 || i >= states.len() {
        None
    } else if states[i].name@ == name && props_view(states[i]) == props {
        Some(i)
    } else {
        first_state(states, name, props, i + 1)
    }
}

/// The state that state `cur` becomes with property `k` set to `v`: the
/// first state of the same block with those properties; `cur` itself where
/// the registry lists none.
pub open spec fn set_property_spec(states: Seq<BlockState>, cur: int, k: Seq<char>, v: Seq<char>) -> int {
    match first_state(states, states[cur].name@, with_property(props_view(states[cur]), k, v), 0) {
        Some(j) => j,
        None => cur,
    }
}

fn props_match(candidate: &BlockState, cur: &BlockState, key: &Vec<char>, value: &Vec<char>) -> (r: bool)
    ensures
        r == (props_view(*candidate) == with_property(props_view(*cur), key@, value@)),
{
    let ghost want = with_property(props_view(*cur), key@, value@);
    let n = cur.properties.len();
    if candidate.properties.len() != n {
        proof {
            assert(props_view(*candidate).len() != want.len());
        }
        return false;
    }
    let mut m: usize = 0;
    while m < n
        invariant
            n == cur.properties@.len(),
            n == candidate.properties@.len(),
            want == with_property(props_view(*cur), key@, value@),
            m <= n,
            forall|q: int| 0 <= q < m ==> props_view(*candidate)[q] == #[trigger] want[q],
        decreases n - m,
    {
        let (ck, cv) = (&candidate.properties[m].0, &candidate.properties[m].1);
        let (uk, uv) = (&cur.properties[m].0, &cur.properties[m].1);
        let key_hit = str_matches(uk.as_str(), key, 0, key.len());
        proof {
            assert(key@.subrange(0, key@.len() as int) =~= key@);
            assert(value@.subrange(0, value@.len() as int) =~= value@);
        }
        let same = if key_hit {
            str_matches(ck.as_str(), key, 0, key.len()) && str_matches(cv.as_str(), value, 0, value.len())
        } else {
            *ck == *uk && *cv == *uv
        };
        if !same {
            proof {
                assert(props_view(*candidate)[m as int] != want[m as int]);
            }
            return false;
        }
        m = m + 1;
    }
    proof {
        assert(props_view(*candidate) =~= want);
    }
    true
}

impl BlockRegistry {
    /// Whether the registry can rebuild a block entity of kind `kind`.
    pub fn knows_block_entity(&self, kind: &String) -> (r: bool)
        ensures
            r == kind_listed(self.block_entity_kinds@, kind@, 0),
    {
        let mut i: usize = 0;
        while i < self.block_entity_kinds.len()
            invariant
                i <= self.block_entity_kinds@.len(),
                kind_listed(self.block_entity_kinds@, kind@, 0) == kind_listed(self.block_entity_kinds@, kind@, i as int),
            decreases self.block_entity_kinds.len() - i,
        {
            if self.block_entity_kinds[i] == *kind {
                return true;
            }
            i = i + 1;
        }
        false
    }

    /// The state that state `cur` becomes with property `key` set to `value`.
    pub fn set_property(&self, cur: usize, key: &Vec<char>, value: &Vec<char>) -> (r: usize)
        requires
            cur < self.states@.len(),
        ensures
            r == set_property_spec(self.states@, cur as int, key@, value@),
            r < self.states@.len(),
    {
        let ghost name = self.states@[cur as int].name@;
        let ghost want = with_property(props_view(self.states@[cur as int]), key@, value@);
        let mut j: usize = 0;
        while j < self.states.len()
            invariant
                cur < self.states@.len(),
                name == self.states@[cur as int].name@,
                want == with_property(props_view(self.states@[cur as int]), key@, value@),
                j <= self.states@.len(),
                first_state(self.states@, name, want, 0) == first_state(self.states@, name, want, j as int),
            decreases self.states.len() - j,
        {
            if self.states[j].name == self.states[cur].name && props_match(&self.states[j], &self.states[cur], key, value) {
                return j;
            }
            j = j + 1;
        }
        cur
    }

    /// The index of the default state of the block named `chars[lo..hi]`.
    pub fn state_named(&self, chars: &Vec<char>, lo: usize, hi: usize) -> (r: Option<usize>)
        requires
            lo <= hi <= chars@.len(),
        ensures
            match r {
                Some(i) => first_named(self.states@, chars@.subrange(lo as int, hi as int), 0) == Some(i as int)
                    && i < self.states@.len(),
                None => first_named(self.states@, chars@.subrange(lo as int, hi as int), 0).is_none(),
            },
    {
        let ghost name = chars@.subrange(lo as int, hi as int);
        let mut i: usize = 0;
        while i < self.states.len()
            invariant
                i <= self.states@.len(),
                lo <= hi <= chars@.len(),
                name == chars@.subrange(lo as int, hi as int),
                first_named(self.states@, name, 0) == first_named(self.states@, name, i as int),
            decreases self.states.len() - i,
        {
            if str_matches(self.states[i].name.as_str(), chars, lo, hi) {
                return Some(i);
            }
            i = i + 1;
        }
        None
    }

    /// The id of the default state of the block named `name`.
    pub open spec fn id_of_name(&self, name: Seq<char>) -> Option<u32> {
        match first_named(self.states@, name, 0) {
            Some(i) => Some(self.states@[i].id),
            None => None,
        }
    }

    /// The id of the default state of the block named `chars[lo..hi]`.
    pub fn from_name(&self, chars: &Vec<char>, lo: usize, hi: usize) -> (r: Option<u32>)
        requires
            lo <= hi <= chars@.len(),
        ensures
            r == self.id_of_name(chars@.subrange(lo as int, hi as int)),
    {
        let ghost name = chars@.subrange(lo as int, hi as int);
        let mut i: usize = 0;
        while i < self.states.len()
            invariant
                i <= self.states@.len(),
                lo <= hi <= chars@.len(),
                name == chars@.subrange(lo as int, hi as int),
                first_named(self.states@, name, 0) == first_named(self.states@, name, i as int),
            decreases self.states.len() - i,
        {
            if str_matches(self.states[i].name.as_str(), chars, lo, hi) {
                return Some(self.states[i].id);
            }
            i = i + 1;
        }
        None
    }
}

} // verus!
