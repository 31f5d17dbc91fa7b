use vstd::prelude::*;

use crate::asm_generator::code_generator::GLOBAL_EXTERNAL_FUNCTIONS;
use crate::errors::compiler_errors::{CompilerErrors, CompilerErrorModel};

verus! {

/// What kind of function a name refers to: an ordinary function, or one of the two
/// callbacks that `anim` takes (the position callback and the shape callback).
#[derive(Clone, Copy, Debug, PartialEq, Eq, Structural)]
pub enum FunctionType {
    XY,
    NORMAL,
    SHAPE,
}

/// The functions named by one `anim(xy)` or `anim(xy, shape)` call.
#[derive(Clone, Debug)]
pub struct AnimPair {
    pub xy: String,
    pub shape: Option<String>,
}

/// The model of an animation: the position callback and, if any, the shape
/// callback.
pub type AnimModel = (Seq<char>, Option<Seq<char>>);

impl View for AnimPair {
    type V = AnimModel;

    open spec fn view(&self) -> AnimModel {
        (
            self.xy@,
            match self.shape {
                Some(f) => Some(f@),
                None => None,
            },
        )
    }
}

/// Counts the 8-byte slots that are currently allocated on the machine stack.
pub struct StackAllocCounter {
    alloc_count: usize,
}

impl View for StackAllocCounter {
    type V = nat;

    closed spec fn view(&self) -> nat {
        self.alloc_count as nat
    }
}

/// The offset below the frame base of the slot that is allocated when `count`
/// slots are already in use.
pub open spec fn slot_offset(count: nat) -> nat {
    count * 8 + 8
}

impl StackAllocCounter {
    pub fn new() -> (c: StackAllocCounter)
        ensures
            c@ == 0,
    {
        StackAllocCounter { alloc_count: 0 }
    }

    /// Allocates the next slot and returns its offset below the frame base.
    pub fn alloc_slot(&mut self) -> (offset: usize)
        requires
            slot_offset(old(self)@) <= usize::MAX,
        ensures
            offset == slot_offset(old(self)@),
            final(self)@ == old(self)@ + 1,
    {
        let next = (self.alloc_count * 8) + 8;
        self.alloc_count = self.alloc_count + 1;
        next
    }

    /// Releases the most recently allocated slot.
    pub fn free(&mut self)
        requires
            old(self)@ != 0,
        ensures
            final(self)@ == old(self)@ - 1,
    {
        self.alloc_count = self.alloc_count - 1;
    }

    pub fn get(&self) -> (n: usize)
        ensures
            n == self@,
    {
        self.alloc_count
    }
}

/// The map that a list of (name, value) entries denotes: a later entry for a name
/// overrides an earlier one.
pub open spec fn entries_map<V>(s: Seq<(String, V)>) -> Map<Seq<char>, V>
    decreases s.len(),
{
    if s.len() == 0 {
        Map::empty()
    } else {
        entries_map(s.drop_last()).insert(s.last().0@, s.last().1)
    }
}

/// If no entry from index `i` on has the key `k`, the map gives `k` what the
/// first `i` entries give it.
proof fn lemma_entries_map_suffix_free<V>(s: Seq<(String, V)>, i: int, k: Seq<char>)
    requires
        0 <= i <= s.len(),
        forall|j: int| i <= j < s.len() ==> (#[trigger] s[j]).0@ != k,
    ensures
        entries_map(s).contains_key(k) == entries_map(s.take(i)).contains_key(k),
        entries_map(s).contains_key(k) ==> entries_map(s)[k] == entries_map(s.take(i))[k],
    decreases s.len(),
{
    if s.len() > i {
        let d = s.drop_last();
        assert(d.take(i) =~= s.take(i));
        assert forall|j: int| i <= j < d.len() implies (#[trigger] d[j]).0@ != k by {
            assert(d[j] == s[j]);
        }
        lemma_entries_map_suffix_free(d, i, k);
    } else {
        assert(s.take(i) =~= s);
    }
}

pub proof fn lemma_entries_map_finite<V>(s: Seq<(String, V)>)
    ensures
        entries_map(s).dom().finite(),
    decreases s.len(),
{
    if s.len() > 0 {
        lemma_entries_map_finite(s.drop_last());
    }
}

/// A map from names to copyable values, kept as a list of entries.
pub struct SymbolMap<V> {
    entries: Vec<(String, V)>,
}

impl<V> View for SymbolMap<V> {
    type V = Map<Seq<char>, V>;

    closed spec fn view(&self) -> Map<Seq<char>, V> {
        entries_map(self.entries@)
    }
}

impl<V: Copy> SymbolMap<V> {
    pub fn new() -> (m: SymbolMap<V>)
        ensures
            m@ == Map::<Seq<char>, V>::empty(),
    {
        SymbolMap { entries: Vec::new() }
    }

    pub proof fn lemma_finite(&self)
        ensures
            self@.dom().finite(),
    {
        lemma_entries_map_finite(self.entries@);
    }

    /// Binds `key` to `value`, replacing any earlier binding of `key`.
    pub fn insert(&mut self, key: String, value: V)
        ensures
            final(self)@ == old(self)@.insert(key@, value),
    {
        self.entries.push((key, value));
        proof {
            assert(self.entries@.drop_last() =~= old(self).entries@);
        }
    }

    /// The value bound to `key`, if any.
    pub fn get(&self, key: &str) -> (r: Option<V>)
        ensures
            r == (if self@.contains_key(key@) {
                Some(self@[key@])
            } else {
                None
            }),
    {
        let k = String::from_str(key);
        let mut i: usize = self.entries.len();
        while i > 0
            invariant
                i <= self.entries@.len(),
                k@ == key@,
                forall|j: int| i <= j < self.entries@.len() ==> (#[trigger] self.entries@[j]).0@ != k@,
            decreases i,
        {
            if self.entries[i - 1].0 == k {
                proof {
                    let s = self.entries@;
                    lemma_entries_map_suffix_free(s, i as int, k@);
                    let t = s.take(i as int);
                    assert(t.drop_last() == s.take(i - 1));
                    assert(t.last() == s[i - 1]);
                }
                return Some(self.entries[i - 1].1);
            }
            i = i - 1;
        }
        proof {
            lemma_entries_map_suffix_free(self.entries@, 0, k@);
        }
        None
    }

    pub fn contains_key(&self, key: &str) -> (b: bool)
        ensures
            b == self@.contains_key(key@),
    {
        match self.get(key) {
            Some(_) => true,
            None => false,
        }
    }

    /// Removes every binding of `key`.
    pub fn remove(&mut self, key: &str)
        ensures
            final(self)@ == old(self)@.remove(key@),
    {
        let k = String::from_str(key);
        let mut kept: Vec<(String, V)> = Vec::new();
        let mut i: usize = 0;
        let n = self.entries.len();
        while i < n
            invariant
                n == self.entries@.len(),
                i <= n,
                k@ == key@,
                entries_map(kept@) =~= entries_map(self.entries@.take(i as int)).remove(k@),
            decreases n - i,
        {
            let ghost s = self.entries@;
            proof {
                assert(s.take(i + 1).drop_last() =~= s.take(i as int));
                assert(s.take(i + 1).last() == s[i as int]);
            }
            if self.entries[i].0 != k {
                let name = self.entries[i].0.clone();
                let v = self.entries[i].1;
                let ghost before = kept@;
                kept.push((name, v));
                proof {
                    assert(kept@.drop_last() =~= before);
                }
            }
            i = i + 1;
        }
        proof {
            assert(self.entries@.take(n as int) =~= self.entries@);
        }
        self.entries = kept;
    }
}

/// The variables of one scope, each bound to its offset below the frame base.
/// Offsets come from a slot counter that is shared with the other stacks of the
/// same frame, so the counter is handed to the operations that allocate or free.
pub struct VarStack {
    stack: SymbolMap<usize>,
}

impl View for VarStack {
    type V = Map<Seq<char>, usize>;

    closed spec fn view(&self) -> Map<Seq<char>, usize> {
        self.stack@
    }
}

impl VarStack {
    pub fn new() -> (s: VarStack)
        ensures
            s@ == Map::<Seq<char>, usize>::empty(),
    {
        VarStack { stack: SymbolMap::new() }
    }

    pub proof fn lemma_finite(&self)
        ensures
            self@.dom().finite(),
    {
        self.stack.lemma_finite();
    }

    /// Allocates a slot for `name` and binds `name` to its offset.
    pub fn add(&mut self, name: String, stack_alloc: &mut StackAllocCounter)
        requires
            slot_offset(old(stack_alloc)@) <= usize::MAX,
        ensures
            final(self)@ == old(self)@.insert(name@, slot_offset(old(stack_alloc)@) as usize),
            final(stack_alloc)@ == old(stack_alloc)@ + 1,
    {
        let position: usize = stack_alloc.alloc_slot();
        self.stack.insert(name, position);
    }

    /// Unbinds `name` and frees one slot; fails if `name` is not bound.
    pub fn remove(&mut self, name: &str, stack_alloc: &mut StackAllocCounter) -> (r: Result<
        (),
        CompilerErrors,
    >)
        requires
            old(self)@.contains_key(name@) ==> old(stack_alloc)@ != 0,
        ensures
            old(self)@.contains_key(name@) ==> {
                &&& r is Ok
                &&& final(self)@ == old(self)@.remove(name@)
                &&& final(stack_alloc)@ == old(stack_alloc)@ - 1
            },
            !old(self)@.contains_key(name@) ==> {
                &&& r matches Err(e) && e@ == CompilerErrorModel::MissingVar(name@)
                &&& final(self)@ == old(self)@
                &&& final(stack_alloc)@ == old(stack_alloc)@
            },
    {
        if !self.stack.contains_key(name) {
            return Err(CompilerErrors::missing_var(name));
        }
        self.stack.remove(name);
        stack_alloc.free();
        Ok(())
    }

    /// The offset that `name` is bound to; fails if `name` is not bound.
    pub fn get_stack_address(&self, name: &str) -> (r: Result<usize, CompilerErrors>)
        ensures
            self@.contains_key(name@) ==> r == Ok::<usize, CompilerErrors>(self@[name@]),
            !self@.contains_key(name@) ==> (r matches Err(e) && e@
                == CompilerErrorModel::MissingVar(name@)),
    {
        match self.stack.get(name) {
            Some(p) => Ok(p),
            None => Err(CompilerErrors::missing_var(name)),
        }
    }
}

#[verifier::external_type_specification]
#[verifier::external_body]
#[verifier::reject_recursive_types(T)]
pub struct ExStack<T: Clone>(pest::Stack<T>);

/// The elements of a `pest::Stack` of animation pairs, bottom first.
pub uninterp spec fn anim_items(s: pest::Stack<AnimPair>) -> Seq<(Seq<char>, Option<Seq<char>>)>;

/// The contents that a `pest::Stack` of animation pairs had at each snapshot that
/// has not been restored yet, oldest first.
pub uninterp spec fn anim_snapshots(s: pest::Stack<AnimPair>) -> Seq<Seq<(Seq<char>, Option<Seq<char>>)>>;

/// `pest::Stack::new`: an empty stack with no snapshots.
#[verifier::external_body]
fn anim_stack_new() -> (s: pest::Stack<AnimPair>)
    ensures
        anim_items(s) == Seq::<AnimModel>::empty(),
        anim_snapshots(s) == Seq::<Seq<AnimModel>>::empty(),
{
    pest::Stack::new()
}

/// `pest::Stack::push`: puts `elem` on top; the snapshots are kept.
#[verifier::external_body]
pub(crate) fn anim_stack_push(s: &mut pest::Stack<AnimPair>, elem: AnimPair)
    ensures
        anim_items(*final(s)) == anim_items(*old(s)).push(elem@),
        anim_snapshots(*final(s)) == anim_snapshots(*old(s)),
{
    s.push(elem)
}

/// `pest::Stack::pop`: takes the top element off, if there is one; the
/// snapshots are kept (a later `restore` brings the element back).
#[verifier::external_body]
pub(crate) fn anim_stack_pop(s: &mut pest::Stack<AnimPair>) -> (r: Option<AnimPair>)
    ensures
        anim_items(*old(s)).len() == 0 ==> r is None,
        anim_items(*old(s)).len() == 0 ==> anim_items(*final(s)) == anim_items(*old(s)),
        anim_items(*old(s)).len() > 0 ==> (r matches Some(p) && p@ == anim_items(*old(s)).last()),
        anim_items(*old(s)).len() > 0 ==> anim_items(*final(s)) == anim_items(*old(s)).drop_last(),
        anim_snapshots(*final(s)) == anim_snapshots(*old(s)),
{
    s.pop()
}

/// `pest::Stack::len`: the number of elements.
#[verifier::external_body]
pub(crate) fn anim_stack_len(s: &pest::Stack<AnimPair>) -> (n: usize)
    ensures
        n == anim_items(*s).len(),
{
    s.len()
}

/// `pest::Stack::snapshot`: remembers the current contents.
#[verifier::external_body]
pub(crate) fn anim_stack_snapshot(s: &mut pest::Stack<AnimPair>)
    ensures
        anim_items(*final(s)) == anim_items(*old(s)),
        anim_snapshots(*final(s)) == anim_snapshots(*old(s)).push(anim_items(*old(s))),
{
    s.snapshot()
}

/// `pest::Stack::restore`: returns to the contents of the most recent snapshot and
/// forgets that snapshot; without a snapshot the stack becomes empty.
#[verifier::external_body]
pub(crate) fn anim_stack_restore(s: &mut pest::Stack<AnimPair>)
    ensures
        anim_snapshots(*old(s)).len() > 0 ==> anim_items(*final(s)) == anim_snapshots(*old(s)).last(),
        anim_snapshots(*old(s)).len() > 0 ==> anim_snapshots(*final(s)) == anim_snapshots(*old(s)).drop_last(),
        anim_snapshots(*old(s)).len() == 0 ==> anim_items(*final(s)).len() == 0,
        anim_snapshots(*old(s)).len() == 0 ==> anim_snapshots(*final(s)) == anim_snapshots(*old(s)),
{
    s.restore()
}

/// Everything the compiler knows about the names of one frame: the slot counter
/// shared by the frame's stacks, the program's variables (visible), the
/// compiler's temporaries (hidden), the functions, and the pending animations.
pub struct SymbolTable {
    pub stack_alloc: StackAllocCounter,
    pub visible_stack: VarStack,
    pub hidden_stack: VarStack,
    pub functions: SymbolMap<FunctionType>,
    pub anim_stack: pest::Stack<AnimPair>,
}

/// The mathematical model of a [`SymbolTable`].
#[verifier::ext_equal]
pub struct SymbolTableModel {
    pub allocs: nat,
    pub visible: Map<Seq<char>, usize>,
    pub hidden: Map<Seq<char>, usize>,
    pub functions: Map<Seq<char>, FunctionType>,
    pub anim: Seq<AnimModel>,
    pub anim_saved: Seq<Seq<AnimModel>>,
}

impl View for SymbolTable {
    type V = SymbolTableModel;

    open spec fn view(&self) -> SymbolTableModel {
        SymbolTableModel {
            allocs: self.stack_alloc@,
            visible: self.visible_stack@,
            hidden: self.hidden_stack@,
            functions: self.functions@,
            anim: anim_items(self.anim_stack),
            anim_saved: anim_snapshots(self.anim_stack),
        }
    }
}

impl SymbolTableModel {
    /// The table of a new frame: no slots in use, no variables, the C library
    /// functions known as normal functions, no animations.
    pub open spec fn initial() -> SymbolTableModel {
        SymbolTableModel {
            allocs: 0,
            visible: Map::empty(),
            hidden: Map::empty(),
            functions: Map::empty().insert(GLOBAL_EXTERNAL_FUNCTIONS[0]@, FunctionType::NORMAL).insert(
                GLOBAL_EXTERNAL_FUNCTIONS[1]@,
                FunctionType::NORMAL,
            ),
            anim: Seq::empty(),
            anim_saved: Seq::empty(),
        }
    }

    /// Every temporary holds one of the allocated slots.
    pub open spec fn wf(self) -> bool {
        &&& self.hidden.dom().finite()
        &&& self.hidden.dom().len() <= self.allocs
    }
}

/// Whether `off` is the offset of one of the `allocs` slots in use.
pub open spec fn slot_in_use(off: usize, allocs: nat) -> bool {
    off % 8 == 0 && 8 <= off <= 8 * allocs
}

/// Every bound name, a program variable or a temporary, has a slot in use, and
/// no two bound names share a slot.
pub open spec fn distinct_slots(s: SymbolTableModel) -> bool {
    &&& forall|n: Seq<char>| #[trigger] s.visible.contains_key(n) ==> slot_in_use(s.visible[n], s.allocs)
    &&& forall|n: Seq<char>| #[trigger] s.hidden.contains_key(n) ==> slot_in_use(s.hidden[n], s.allocs)
    &&& forall|a: Seq<char>, b: Seq<char>|
        s.visible.contains_key(a) && s.visible.contains_key(b) && a != b ==> #[trigger] s.visible[a]
            != #[trigger] s.visible[b]
    &&& forall|a: Seq<char>, b: Seq<char>|
        s.hidden.contains_key(a) && s.hidden.contains_key(b) && a != b ==> #[trigger] s.hidden[a]
            != #[trigger] s.hidden[b]
    &&& forall|a: Seq<char>, b: Seq<char>|
        s.visible.contains_key(a) && s.hidden.contains_key(b) ==> #[trigger] s.visible[a]
            != #[trigger] s.hidden[b]
}

/// `name` added to the visible or the hidden stack, as `VarStack::add` does with
/// the table's counter: it is bound to a new slot.
pub open spec fn add_binding(s: SymbolTableModel, name: Seq<char>, visible: bool) -> SymbolTableModel {
    let off = slot_offset(s.allocs) as usize;
    if visible {
        SymbolTableModel { visible: s.visible.insert(name, off), allocs: s.allocs + 1, ..s }
    } else {
        SymbolTableModel { hidden: s.hidden.insert(name, off), allocs: s.allocs + 1, ..s }
    }
}

/// `name` removed from the visible or the hidden stack, as `VarStack::remove`
/// does with the table's counter.
pub open spec fn remove_binding(s: SymbolTableModel, name: Seq<char>, visible: bool) -> SymbolTableModel {
    if visible {
        SymbolTableModel { visible: s.visible.remove(name), allocs: (s.allocs - 1) as nat, ..s }
    } else {
        SymbolTableModel { hidden: s.hidden.remove(name), allocs: (s.allocs - 1) as nat, ..s }
    }
}

/// A new table binds no name, so no two names share a slot.
pub proof fn lemma_initial_slots_distinct()
    ensures
        distinct_slots(SymbolTableModel::initial()),
{
}

/// Adding a name to either stack keeps every bound name in a slot of its own
/// (slot bounds hold while the offsets fit in a `usize`).
pub proof fn lemma_add_keeps_slots_distinct(s: SymbolTableModel, name: Seq<char>, visible: bool)
    requires
        distinct_slots(s),
        slot_offset(s.allocs) <= usize::MAX,
    ensures
        distinct_slots(add_binding(s, name, visible)),
{
    let t = add_binding(s, name, visible);
    let off = slot_offset(s.allocs) as usize;
    assert(off == 8 * s.allocs + 8);
    assert(off % 8 == 0) by (nonlinear_arith)
        requires off == 8 * s.allocs + 8;
    assert forall|n: Seq<char>| #[trigger] t.visible.contains_key(n) implies slot_in_use(t.visible[n], t.allocs) by {
        if !(visible && n == name) {
            assert(s.visible.contains_key(n));
        }
    }
    assert forall|n: Seq<char>| #[trigger] t.hidden.contains_key(n) implies slot_in_use(t.hidden[n], t.allocs) by {
        if !(!visible && n == name) {
            assert(s.hidden.contains_key(n));
        }
    }
    assert forall|a: Seq<char>, b: Seq<char>|
        t.visible.contains_key(a) && t.visible.contains_key(b) && a != b implies #[trigger] t.visible[a]
            != #[trigger] t.visible[b] by {
        if visible && a == name {
            assert(slot_in_use(s.visible[b], s.allocs));
        } else if visible && b == name {
            assert(slot_in_use(s.visible[a], s.allocs));
        } else {
            assert(s.visible[a] != s.visible[b]);
        }
    }
    assert forall|a: Seq<char>, b: Seq<char>|
        t.hidden.contains_key(a) && t.hidden.contains_key(b) && a != b implies #[trigger] t.hidden[a]
            != #[trigger] t.hidden[b] by {
        if !visible && a == name {
            assert(slot_in_use(s.hidden[b], s.allocs));
        } else if !visible && b == name {
            assert(slot_in_use(s.hidden[a], s.allocs));
        } else {
            assert(s.hidden[a] != s.hidden[b]);
        }
    }
    assert forall|a: Seq<char>, b: Seq<char>|
        t.visible.contains_key(a) && t.hidden.contains_key(b) implies #[trigger] t.visible[a]
            != #[trigger] t.hidden[b] by {
        if visible && a == name {
            assert(slot_in_use(s.hidden[b], s.allocs));
        } else if !visible && b == name {
            assert(slot_in_use(s.visible[a], s.allocs));
        } else {
            assert(s.visible[a] != s.hidden[b]);
        }
    }
}

/// Removing the name that holds the top slot (last in, first out) keeps every
/// remaining name in a slot of its own among the slots still in use.
pub proof fn lemma_lifo_remove_keeps_slots_distinct(s: SymbolTableModel, name: Seq<char>, visible: bool)
    requires
        distinct_slots(s),
        s.allocs > 0,
        visible ==> s.visible.contains_key(name) && s.visible[name] == slot_offset((s.allocs - 1) as nat),
        !visible ==> s.hidden.contains_key(name) && s.hidden[name] == slot_offset((s.allocs - 1) as nat),
    ensures
        distinct_slots(remove_binding(s, name, visible)),
{
    let t = remove_binding(s, name, visible);
    let top = 8 * s.allocs;
    assert forall|n: Seq<char>| #[trigger] t.visible.contains_key(n) implies slot_in_use(t.visible[n], t.allocs) by {
        assert(s.visible.contains_key(n));
        let o = s.visible[n];
        assert(slot_in_use(o, s.allocs));
        if visible {
            assert(n != name);
            assert(o != s.visible[name]);
        } else {
            assert(o != s.hidden[name]);
        }
        assert(o != top);
        assert(o % 8 == 0 && o < top ==> o <= top - 8) by (nonlinear_arith)
            requires top == 8 * s.allocs;
    }
    assert forall|n: Seq<char>| #[trigger] t.hidden.contains_key(n) implies slot_in_use(t.hidden[n], t.allocs) by {
        assert(s.hidden.contains_key(n));
        let o = s.hidden[n];
        assert(slot_in_use(o, s.allocs));
        if visible {
            assert(o != s.visible[name]);
        } else {
            assert(n != name);
            assert(o != s.hidden[name]);
        }
        assert(o != top);
        assert(o % 8 == 0 && o < top ==> o <= top - 8) by (nonlinear_arith)
            requires top == 8 * s.allocs;
    }
    assert forall|a: Seq<char>, b: Seq<char>|
        t.visible.contains_key(a) && t.visible.contains_key(b) && a != b implies #[trigger] t.visible[a]
            != #[trigger] t.visible[b] by {
        assert(s.visible[a] != s.visible[b]);
    }
    assert forall|a: Seq<char>, b: Seq<char>|
        t.hidden.contains_key(a) && t.hidden.contains_key(b) && a != b implies #[trigger] t.hidden[a]
            != #[trigger] t.hidden[b] by {
        assert(s.hidden[a] != s.hidden[b]);
    }
    assert forall|a: Seq<char>, b: Seq<char>|
        t.visible.contains_key(a) && t.hidden.contains_key(b) implies #[trigger] t.visible[a]
            != #[trigger] t.hidden[b] by {
        assert(s.visible[a] != s.hidden[b]);
    }
}

impl SymbolTable {
    pub fn new() -> (t: SymbolTable)
        ensures
            t@ == SymbolTableModel::initial(),
            t@.wf(),
    {
        let mut functions: SymbolMap<FunctionType> = SymbolMap::new();
        let mut i: usize = 0;
        while i < 2
            invariant
                i <= 2,
                i == 0 ==> functions@ == Map::<Seq<char>, FunctionType>::empty(),
                i == 1 ==> functions@ == Map::<Seq<char>, FunctionType>::empty().insert(
                    GLOBAL_EXTERNAL_FUNCTIONS[0]@,
                    FunctionType::NORMAL,
                ),
                i == 2 ==> functions@ == SymbolTableModel::initial().functions,
            decreases 2 - i,
        {
            functions.insert(String::from_str(GLOBAL_EXTERNAL_FUNCTIONS[i]), FunctionType::NORMAL);
            i = i + 1;
        }
        let t = SymbolTable {
            stack_alloc: StackAllocCounter::new(),
            visible_stack: VarStack::new(),
            hidden_stack: VarStack::new(),
            functions,
            anim_stack: anim_stack_new(),
        };
        proof {
            assert(t@ =~= SymbolTableModel::initial());
        }
        t
    }

    pub fn get_stack_allocs(&self) -> (n: usize)
        ensures
            n == self@.allocs,
    {
        self.stack_alloc.get()
    }
}

} // verus!
