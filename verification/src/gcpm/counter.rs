//! Counter values during a walk of the document.
//!
//! Each counter has a stack of instances. An instance belongs to the subtree of the
//! parent of the element that made it; the innermost is the last of the stack.

use crate::name_map::NameMap;
use vstd::prelude::*;

verus! {

/// The parent of instances that belong to no element.
pub const COUNTER_ROOT_PARENT: usize = usize::MAX;

/// An instance of a counter.
#[derive(Debug, Clone, Copy, PartialEq, Eq, Structural)]
pub struct CounterInstance {
    pub parent_id: usize,
    pub value: i32,
}

/// The stacks of instances, by counter name.
pub type Stacks = Map<Seq<char>, Seq<CounterInstance>>;

/// The stack of a counter, empty where it has none.
pub open spec fn stack_of(m: Stacks, name: Seq<char>) -> Seq<CounterInstance> {
    if m.dom().contains(name) {
        m[name]
    } else {
        Seq::empty()
    }
}

/// A stack with the value of its innermost instance replaced.
pub open spec fn with_top(s: Seq<CounterInstance>, value: i32) -> Seq<CounterInstance> {
    s.drop_last().push(CounterInstance { value, ..s.last() })
}

/// A stack with one instance more.
pub open spec fn pushed(s: Seq<CounterInstance>, parent_id: usize, value: i32) -> Seq<
    CounterInstance,
> {
    s.push(CounterInstance { parent_id, value })
}

/// The innermost value, or 0 where there is no instance.
pub open spec fn top_value(s: Seq<CounterInstance>) -> i32 {
    if s.len() > 0 {
        s.last().value
    } else {
        0
    }
}

/// A stack whose innermost instance, where it belongs to the root, is set to a value,
/// and that otherwise gets an instance of the root with that value.
pub open spec fn reset_stack(s: Seq<CounterInstance>, value: i32) -> Seq<CounterInstance> {
    if s.len() > 0 && s.last().parent_id == COUNTER_ROOT_PARENT {
        with_top(s, value)
    } else {
        pushed(s, COUNTER_ROOT_PARENT, value)
    }
}

/// A stack whose innermost value is increased; one without an instance gets one of
/// the root.
pub open spec fn increment_stack(s: Seq<CounterInstance>, value: i32) -> Seq<CounterInstance> {
    if s.len() > 0 {
        with_top(s, (s.last().value + value) as i32)
    } else {
        pushed(s, COUNTER_ROOT_PARENT, value)
    }
}

/// A stack whose innermost value is set; one without an instance gets one of the root.
pub open spec fn set_stack(s: Seq<CounterInstance>, value: i32) -> Seq<CounterInstance> {
    if s.len() > 0 {
        with_top(s, value)
    } else {
        pushed(s, COUNTER_ROOT_PARENT, value)
    }
}

/// A stack without the innermost instances that belong to a given parent.
pub open spec fn popped(s: Seq<CounterInstance>, parent_id: usize) -> Seq<CounterInstance>
    decreases s.len(),
{
    if s.len() > 0 && s.last().parent_id == parent_id {
        popped(s.drop_last(), parent_id)
    } else {
        s
    }
}

/// The values of a stack from the outermost to the innermost.
pub open spec fn chain_of(s: Seq<CounterInstance>) -> Seq<i32> {
    Seq::new(s.len(), |i: int| s[i].value)
}

/// The counters of a document at some point of a walk.
#[derive(Debug)]
pub struct CounterState {
    stacks: NameMap<Vec<CounterInstance>>,
}

impl View for CounterState {
    type V = Stacks;

    closed spec fn view(&self) -> Stacks {
        self.stacks@.map_values(|v: Vec<CounterInstance>| v@)
    }
}

impl CounterState {
    /// No counters.
    pub fn new() -> (s: Self)
        ensures
            s@ == Map::<Seq<char>, Seq<CounterInstance>>::empty(),
    {
        let s = CounterState { stacks: NameMap::new() };
        assert(s@ =~= Map::<Seq<char>, Seq<CounterInstance>>::empty());
        s
    }

    /// Takes the stack of a counter out, leaving an empty one.
    fn take_stack(&mut self, name: &str) -> (s: Vec<CounterInstance>)
        ensures
            s@ == stack_of(old(self)@, name@),
            final(self)@ == old(self)@.insert(name@, Seq::empty()),
    {
        let empty: Vec<CounterInstance> = Vec::new();
        let previous = self.stacks.insert(name.to_owned(), empty);
        assert(self@ =~= old(self)@.insert(name@, Seq::empty()));
        match previous {
            Some(s) => s,
            None => Vec::new(),
        }
    }

    /// Puts the stack of a counter back.
    fn put_stack(&mut self, name: &str, s: Vec<CounterInstance>)
        ensures
            final(self)@ == old(self)@.insert(name@, s@),
    {
        let _ = self.stacks.insert(name.to_owned(), s);
        assert(self@ =~= old(self)@.insert(name@, s@));
    }

    /// Sets a counter of the root, without making a new instance where the innermost
    /// one is already the root's.
    pub fn reset(&mut self, name: &str, value: i32)
        ensures
            final(self)@ == old(self)@.insert(
                name@,
                reset_stack(stack_of(old(self)@, name@), value),
            ),
    {
        let mut s = self.take_stack(name);
        let ghost before = s@;
        let n = s.len();
        if n > 0 && s[n - 1].parent_id == COUNTER_ROOT_PARENT {
            s[n - 1] = CounterInstance { parent_id: COUNTER_ROOT_PARENT, value };
            assert(s@ =~= with_top(before, value));
        } else {
            s.push(CounterInstance { parent_id: COUNTER_ROOT_PARENT, value });
        }
        self.put_stack(name, s);
        assert(self@ =~= old(self)@.insert(name@, s@));
    }

    /// Increases the innermost value of a counter.
    pub fn increment(&mut self, name: &str, value: i32)
        requires
            i32::MIN <= top_value(stack_of(old(self)@, name@)) + value <= i32::MAX,
        ensures
            final(self)@ == old(self)@.insert(
                name@,
                increment_stack(stack_of(old(self)@, name@), value),
            ),
    {
        self.increment_in_scope(name, value, COUNTER_ROOT_PARENT);
    }

    /// Sets the innermost value of a counter.
    pub fn set(&mut self, name: &str, value: i32)
        ensures
            final(self)@ == old(self)@.insert(
                name@,
                set_stack(stack_of(old(self)@, name@), value),
            ),
    {
        self.set_in_scope(name, value, COUNTER_ROOT_PARENT);
    }

    /// The innermost value of a counter, or 0.
    pub fn get(&self, name: &str) -> (v: i32)
        ensures
            v == top_value(stack_of(self@, name@)),
    {
        match self.stacks.get(name) {
            Some(s) => if s.len() > 0 {
                s[s.len() - 1].value
            } else {
                0
            },
            None => 0,
        }
    }

    /// The innermost value of each counter that has an instance.
    pub fn snapshot(&self) -> (m: NameMap<i32>)
        ensures
            forall|k: Seq<char>| #[trigger]
                m@.dom().contains(k) <==> stack_of(self@, k).len() > 0,
            forall|k: Seq<char>| #[trigger]
                m@.dom().contains(k) ==> m@[k] == top_value(stack_of(self@, k)),
    {
        let mut m: NameMap<i32> = NameMap::new();
        let n = self.stacks.len();
        let ghost keys = self.stacks.keys();
        let mut i: usize = 0;
        while i < n
            invariant
                i <= n,
                n == keys.len(),
                keys == self.stacks.keys(),
                forall|j: int|
                    0 <= j < keys.len() ==> self.stacks@.dom().contains(#[trigger] keys[j]),
                forall|k: Seq<char>| #[trigger]
                    m@.dom().contains(k) ==> stack_of(self@, k).len() > 0 && m@[k] == top_value(
                        stack_of(self@, k),
                    ),
                forall|j: int|
                    #![trigger keys[j]]
                    0 <= j < i && stack_of(self@, keys[j]).len() > 0 ==> m@.dom().contains(keys[j]),
            decreases n - i,
        {
            let (name, s) = self.stacks.entry(i);
            assert(stack_of(self@, name@) == s@);
            if s.len() > 0 {
                let _ = m.insert(name.to_owned(), s[s.len() - 1].value);
            }
            i += 1;
        }
        assert forall|k: Seq<char>| stack_of(self@, k).len() > 0 implies #[trigger] m@.dom().contains(
            k,
        ) by {
            assert(self.stacks@.dom().contains(k));
            assert(keys.contains(k));
        }
        m
    }

    /// Makes a new instance that belongs to the subtree of `parent_id`.
    pub fn reset_in_scope(&mut self, name: &str, value: i32, parent_id: usize)
        ensures
            final(self)@ == old(self)@.insert(
                name@,
                pushed(stack_of(old(self)@, name@), parent_id, value),
            ),
    {
        let mut s = self.take_stack(name);
        s.push(CounterInstance { parent_id, value });
        self.put_stack(name, s);
        assert(self@ =~= old(self)@.insert(name@, s@));
    }

    /// Increases the innermost value of a counter, making an instance of the root where
    /// there is none.
    pub fn increment_in_scope(&mut self, name: &str, value: i32, _parent_id: usize)
        requires
            i32::MIN <= top_value(stack_of(old(self)@, name@)) + value <= i32::MAX,
        ensures
            final(self)@ == old(self)@.insert(
                name@,
                increment_stack(stack_of(old(self)@, name@), value),
            ),
    {
        let mut s = self.take_stack(name);
        let ghost before = s@;
        let n = s.len();
        if n > 0 {
            let top = s[n - 1];
            s[n - 1] = CounterInstance { parent_id: top.parent_id, value: top.value + value };
            assert(s@ =~= with_top(before, (top.value + value) as i32));
        } else {
            s.push(CounterInstance { parent_id: COUNTER_ROOT_PARENT, value });
        }
        self.put_stack(name, s);
        assert(self@ =~= old(self)@.insert(name@, s@));
    }

    /// Sets the innermost value of a counter, making an instance of the root where there
    /// is none.
    pub fn set_in_scope(&mut self, name: &str, value: i32, _parent_id: usize)
        ensures
            final(self)@ == old(self)@.insert(
                name@,
                set_stack(stack_of(old(self)@, name@), value),
            ),
    {
        let mut s = self.take_stack(name);
        let ghost before = s@;
        let n = s.len();
        if n > 0 {
            let top = s[n - 1];
            s[n - 1] = CounterInstance { parent_id: top.parent_id, value };
            assert(s@ =~= with_top(before, value));
        } else {
            s.push(CounterInstance { parent_id: COUNTER_ROOT_PARENT, value });
        }
        self.put_stack(name, s);
        assert(self@ =~= old(self)@.insert(name@, s@));
    }

    /// Takes away the instances that the children of an element made. To be called once
    /// the walk has done with the children.
    pub fn leave_element(&mut self, node_id: usize)
        ensures
            final(self)@ == left(old(self)@, node_id),
    {
        let n = self.stacks.len();
        let ghost keys = self.stacks.keys();
        let ghost start = self@;
        let mut i: usize = 0;
        while i < n
            invariant
                i <= n,
                n == keys.len(),
                keys == self.stacks.keys(),
                keys.no_duplicates(),
                forall|j: int| 0 <= j < keys.len() ==> start.dom().contains(#[trigger] keys[j]),
                self@.dom() == start.dom(),
                forall|j: int|
                    0 <= j < keys.len() ==> self@[#[trigger] keys[j]] == (if j < i {
                        popped(start[keys[j]], node_id)
                    } else {
                        start[keys[j]]
                    }),
            decreases n - i,
        {
            let ghost before = self.stacks@;
            let empty: Vec<CounterInstance> = Vec::new();
            let mut s = self.stacks.replace_at(i, empty);
            let ghost whole = s@;
            while s.len() > 0 && s[s.len() - 1].parent_id == node_id
                invariant
                    popped(s@, node_id) == popped(whole, node_id),
                decreases s.len(),
            {
                let _ = s.pop();
            }
            let _ = self.stacks.replace_at(i, s);
            assert(self.stacks@ =~= before.insert(keys[i as int], s));
            assert(self@.dom() =~= start.dom());
            i += 1;
        }
        proof {
            let expected = left(start, node_id);
            assert(self@.dom() =~= expected.dom());
            assert forall|k: Seq<char>| #[trigger] self@.dom().contains(k) implies self@[k]
                == expected[k] by {
                assert(keys.contains(k));
            }
            assert(self@ =~= expected);
        }
    }

    /// The values of a counter from the outermost to the innermost.
    pub fn chain(&self, name: &str) -> (v: Vec<i32>)
        ensures
            v@ == chain_of(stack_of(self@, name@)),
    {
        match self.stacks.get(name) {
            Some(s) => values_of(s),
            None => {
                let v: Vec<i32> = Vec::new();
                assert(v@ =~= chain_of(Seq::empty()));
                v
            },
        }
    }

    /// The values of every counter, from the outermost to the innermost. A counter whose
    /// instances are all gone has an empty list.
    pub fn chain_snapshot(&self) -> (m: NameMap<Vec<i32>>)
        ensures
            m@.dom() == self@.dom(),
            forall|k: Seq<char>| #[trigger]
                m@.dom().contains(k) ==> m@[k]@ == chain_of(self@[k]),
    {
        let mut m: NameMap<Vec<i32>> = NameMap::new();
        let n = self.stacks.len();
        let ghost keys = self.stacks.keys();
        let mut i: usize = 0;
        while i < n
            invariant
                i <= n,
                n == keys.len(),
                keys == self.stacks.keys(),
                forall|j: int|
                    0 <= j < keys.len() ==> self.stacks@.dom().contains(#[trigger] keys[j]),
                forall|k: Seq<char>| #[trigger]
                    m@.dom().contains(k) ==> self@.dom().contains(k) && m@[k]@ == chain_of(self@[k]),
                forall|j: int| #![trigger keys[j]] 0 <= j < i ==> m@.dom().contains(keys[j]),
            decreases n - i,
        {
            let (name, s) = self.stacks.entry(i);
            let _ = m.insert(name.to_owned(), values_of(s));
            i += 1;
        }
        assert forall|k: Seq<char>| self@.dom().contains(k) implies #[trigger] m@.dom().contains(
            k,
        ) by {
            assert(self.stacks@.dom().contains(k));
            assert(keys.contains(k));
        }
        assert(m@.dom() =~= self@.dom());
        m
    }
}

impl Clone for CounterState {
    fn clone(&self) -> (s: Self)
        ensures
            s@ == self@,
    {
        let s = CounterState { stacks: self.stacks.clone() };
        proof {
            assert forall|k: Seq<char>| self@.contains_key(k) implies #[trigger] s@[k] == self@[k] by {
                assert(cloned(self.stacks@[k], s.stacks@[k]));
                assert(s@[k] =~= self@[k]);
            }
            assert(s@ =~= self@);
        }
        s
    }
}

impl Default for CounterState {
    fn default() -> (s: Self)
        ensures
            s@ == Map::<Seq<char>, Seq<CounterInstance>>::empty(),
    {
        Self::new()
    }
}

/// The values of a stack.
fn values_of(s: &Vec<CounterInstance>) -> (v: Vec<i32>)
    ensures
        v@ == chain_of(s@),
{
    let mut v: Vec<i32> = Vec::new();
    let mut i: usize = 0;
    while i < s.len()
        invariant
            i <= s.len(),
            v@ == chain_of(s@).take(i as int),
        decreases s.len() - i,
    {
        v.push(s[i].value);
        i += 1;
        assert(v@ =~= chain_of(s@).take(i as int));
    }
    assert(chain_of(s@).take(s.len() as int) =~= chain_of(s@));
    v
}

/// The stacks once an element's children have been left.
pub open spec fn left(m: Stacks, node_id: usize) -> Stacks {
    m.map_values(|s: Seq<CounterInstance>| popped(s, node_id))
}

/// The innermost value is the last of the chain, and 0 where the chain is empty.
pub proof fn law_get_is_last_of_chain(m: Stacks, name: Seq<char>)
    ensures
        top_value(stack_of(m, name)) == (if chain_of(stack_of(m, name)).len() > 0 {
            chain_of(stack_of(m, name)).last()
        } else {
            0
        }),
{
}

/// An instance made for a child of an element is gone once the element is left: making
/// it and leaving comes to the same as leaving, for every counter.
pub proof fn law_leaving_undoes_scoped_reset(
    m: Stacks,
    name: Seq<char>,
    value: i32,
    parent_id: usize,
    any: Seq<char>,
)
    ensures
        stack_of(
            left(m.insert(name, pushed(stack_of(m, name), parent_id, value)), parent_id),
            any,
        ) == stack_of(left(m, parent_id), any),
{
    let s = stack_of(m, name);
    assert(pushed(s, parent_id, value).drop_last() =~= s);
    assert(popped(Seq::<CounterInstance>::empty(), parent_id) =~= Seq::empty());
}

/// Leaving an element twice is leaving it once.
pub proof fn law_leaving_is_idempotent(m: Stacks, node_id: usize)
    ensures
        left(left(m, node_id), node_id) == left(m, node_id),
{
    assert forall|k: Seq<char>| #[trigger] m.dom().contains(k) implies popped(
        popped(m[k], node_id),
        node_id,
    ) == popped(m[k], node_id) by {
        lemma_popped(m[k], node_id);
    }
    assert(left(left(m, node_id), node_id) =~= left(m, node_id));
}

/// Leaving an element keeps every instance that belongs to the root.
pub proof fn law_leaving_keeps_root_instances(m: Stacks, name: Seq<char>, node_id: usize)
    requires
        m.dom().contains(name),
        node_id != COUNTER_ROOT_PARENT,
    ensures
        forall|i: int|
            0 <= i < m[name].len() && (#[trigger] m[name][i]).parent_id == COUNTER_ROOT_PARENT ==> i
                < left(m, node_id)[name].len() && left(m, node_id)[name][i] == m[name][i],
{
    lemma_popped(m[name], node_id);
}

proof fn lemma_popped(s: Seq<CounterInstance>, id: usize)
    ensures
        popped(popped(s, id), id) == popped(s, id),
        popped(s, id).len() <= s.len(),
        popped(s, id) == s.take(popped(s, id).len() as int),
        forall|i: int| popped(s, id).len() <= i < s.len() ==> (#[trigger] s[i]).parent_id == id,
    decreases s.len(),
{
    if s.len() > 0 && s.last().parent_id == id {
        lemma_popped(s.drop_last(), id);
        let p = popped(s, id);
        assert(s.drop_last().take(p.len() as int) =~= s.take(p.len() as int));
        assert forall|i: int| p.len() <= i < s.len() implies (#[trigger] s[i]).parent_id == id by {
            if i < s.len() - 1 {
                assert(s.drop_last()[i] == s[i]);
            }
        }
    } else {
        assert(s.take(s.len() as int) =~= s);
    }
}

/// Resetting a counter of the root twice leaves as many instances as doing so once.
pub proof fn law_root_reset_does_not_grow(m: Stacks, name: Seq<char>, a: i32, b: i32)
    ensures
        ({
            let once = m.insert(name, reset_stack(stack_of(m, name), a));
            let twice = once.insert(name, reset_stack(stack_of(once, name), b));
            stack_of(twice, name).len() == stack_of(once, name).len() && top_value(
                stack_of(twice, name),
            ) == b
        }),
{
}

/// An operation on one counter leaves every other as it is.
pub proof fn law_counters_are_independent(
    m: Stacks,
    name: Seq<char>,
    other: Seq<char>,
    s: Seq<CounterInstance>,
)
    requires
        name != other,
    ensures
        stack_of(m.insert(name, s), other) == stack_of(m, other),
{
}

/// What each operation does to the values of a counter, from the outermost to the
/// innermost. All but a new instance change the innermost value only, or make the first.
pub proof fn law_operations_change_the_innermost_value(s: Seq<CounterInstance>, value: i32, parent_id: usize)
    ensures
        chain_of(pushed(s, parent_id, value)) == chain_of(s).push(value),
        s.len() == 0 ==> chain_of(increment_stack(s, value)) == seq![value],
        s.len() == 0 ==> chain_of(set_stack(s, value)) == seq![value],
        s.len() == 0 ==> chain_of(reset_stack(s, value)) == seq![value],
        s.len() > 0 ==> {
            let last = s.len() - 1;
            &&& i32::MIN <= s[last].value + value <= i32::MAX ==> chain_of(increment_stack(s, value)) == chain_of(
                s,
            ).update(last, (s[last].value + value) as i32)
            &&& chain_of(set_stack(s, value)) == chain_of(s).update(last, value)
            &&& chain_of(reset_stack(s, value)) == if s[last].parent_id == usize::MAX {
                chain_of(s).update(last, value)
            } else {
                chain_of(s).push(value)
            }
        },
{
    assert(chain_of(pushed(s, parent_id, value)) =~= chain_of(s).push(value));
    if s.len() == 0 {
        assert(chain_of(increment_stack(s, value)) =~= seq![value]);
        assert(chain_of(set_stack(s, value)) =~= seq![value]);
        assert(chain_of(reset_stack(s, value)) =~= seq![value]);
    } else {
        let last = s.len() - 1;
        let sum = (s[last].value + value) as i32;
        assert(chain_of(with_top(s, sum)) =~= chain_of(s).update(last, sum));
        assert(chain_of(with_top(s, value)) =~= chain_of(s).update(last, value));
        assert(chain_of(pushed(s, usize::MAX, value)) =~= chain_of(s).push(value));
    }
}

/// No operation moves an instance to another parent, and those that make one make it for
/// the parent that they are told, or else for the root.
pub proof fn law_operations_keep_the_parents(s: Seq<CounterInstance>, value: i32, parent_id: usize)
    ensures
        forall|i: int| 0 <= i < s.len() ==> (#[trigger] pushed(s, parent_id, value)[i]).parent_id == s[i].parent_id,
        forall|i: int| 0 <= i < s.len() ==> (#[trigger] increment_stack(s, value)[i]).parent_id == s[i].parent_id,
        forall|i: int| 0 <= i < s.len() ==> (#[trigger] set_stack(s, value)[i]).parent_id == s[i].parent_id,
        forall|i: int| 0 <= i < s.len() ==> (#[trigger] reset_stack(s, value)[i]).parent_id == s[i].parent_id,
        pushed(s, parent_id, value).last().parent_id == parent_id,
        reset_stack(s, value).last().parent_id == usize::MAX,
        s.len() == 0 ==> increment_stack(s, value)[0].parent_id == usize::MAX,
        s.len() == 0 ==> set_stack(s, value)[0].parent_id == usize::MAX,
{
}

/// Leaving an element takes away the innermost instances that its children made, all of
/// them and no other, of every counter.
pub proof fn law_leaving_takes_the_children_away(m: Stacks, node_id: usize, name: Seq<char>)
    requires
        m.dom().contains(name),
    ensures
        left(m, node_id).dom() == m.dom(),
        ({
            let kept = left(m, node_id)[name];
            &&& kept.len() <= m[name].len()
            &&& forall|i: int| 0 <= i < kept.len() ==> #[trigger] kept[i] == m[name][i]
            &&& forall|i: int| kept.len() <= i < m[name].len() ==> (#[trigger] m[name][i]).parent_id == node_id
            &&& kept.len() > 0 ==> kept[kept.len() - 1].parent_id != node_id
        }),
{
    lemma_popped(m[name], node_id);
    lemma_popped_end(m[name], node_id);
    assert(left(m, node_id).dom() =~= m.dom());
}

proof fn lemma_popped_end(s: Seq<CounterInstance>, id: usize)
    ensures
        popped(s, id).len() > 0 ==> popped(s, id).last().parent_id != id,
    decreases s.len(),
{
    if s.len() > 0 && s.last().parent_id == id {
        lemma_popped_end(s.drop_last(), id);
    }
}

} // verus!
